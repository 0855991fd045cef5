use x11_guard::config::Config;
use x11_guard::restart::cooldown_remaining;
use x11_guard::restart::shell_args;
use x11_guard::restart::time_after;
use x11_guard::restart::Command;
use x11_guard::restart::Notice;
use x11_guard::restart::Phase;
use x11_guard::restart::RestartController;
use x11_guard::restart::FORCE_MS;
use x11_guard::restart::GRACE_MS;
use x11_guard::restart::POLL_MS;
use x11_guard::sys::Signal;

fn config(dry_run: bool) -> Config {
    Config::defaults(None).with_threshold(1).unwrap().with_dry_run(dry_run)
}

fn touches_the_application(commands: &[Command]) -> bool {
    commands.iter().any(|c| matches!(c, Command::Signal { .. } | Command::Launch))
}

fn restarted_at(t0: u64) -> RestartController {
    let cfg = config(true);
    let mut controller = RestartController::new();
    assert_eq!(controller.maybe_restart(t0, 5, &cfg), vec![Command::Lookup]);
    controller.resume(t0, &[101], &cfg);
    assert_eq!(controller.last_restart(), Some(t0));
    assert_eq!(controller.phase(), Phase::Idle);
    controller
}

#[test]
fn constants_of_the_escalation() {
    assert_eq!(GRACE_MS, 8000);
    assert_eq!(FORCE_MS, 3000);
    assert_eq!(POLL_MS, 200);
}

#[test]
fn a_new_controller_has_never_restarted() {
    let controller = RestartController::new();
    assert_eq!(controller.last_restart(), None);
    assert_eq!(controller.phase(), Phase::Idle);
}

#[test]
fn time_after_saturates() {
    assert_eq!(time_after(0, 0), 0);
    assert_eq!(time_after(1000, 8000), 9000);
    assert_eq!(time_after(u64::MAX - 5, 5), u64::MAX);
    assert_eq!(time_after(u64::MAX - 5, 6), u64::MAX);
    assert_eq!(time_after(u64::MAX, u64::MAX), u64::MAX);
}

#[test]
fn cooldown_remaining_counts_whole_seconds() {
    assert_eq!(cooldown_remaining(None, 0, 120), None);
    assert_eq!(cooldown_remaining(None, 999_999, u64::MAX), None);
    assert_eq!(cooldown_remaining(Some(1000), 1000, 120), Some(120));
    assert_eq!(cooldown_remaining(Some(1000), 1999, 120), Some(120));
    assert_eq!(cooldown_remaining(Some(1000), 2000, 120), Some(119));
    assert_eq!(cooldown_remaining(Some(1000), 61_000, 120), Some(60));
    assert_eq!(cooldown_remaining(Some(1000), 120_999, 120), Some(1));
    assert_eq!(cooldown_remaining(Some(1000), 121_000, 120), None);
    assert_eq!(cooldown_remaining(Some(1000), 122_000, 120), None);
    assert_eq!(cooldown_remaining(Some(1000), 1000, 0), None);
    assert_eq!(cooldown_remaining(Some(5000), 1000, 120), Some(120));
    assert_eq!(cooldown_remaining(Some(0), u64::MAX, u64::MAX), Some(u64::MAX - u64::MAX / 1000));
}

#[test]
fn within_the_cooldown_nothing_is_done() {
    let t0: u64 = 5_000_000;
    let cfg = config(false);
    assert_eq!(cfg.cooldown_seconds(), 120);
    let mut controller = restarted_at(t0);
    let commands = controller.maybe_restart(t0 + 60_000, 12, &cfg);
    assert_eq!(commands, vec![Command::Notify(Notice::CoolingDown { remaining_seconds: 60 })]);
    assert!(!touches_the_application(&commands));
    assert_eq!(controller.last_restart(), Some(t0));
    assert_eq!(controller.phase(), Phase::Idle);
}

#[test]
fn after_the_cooldown_the_restart_proceeds() {
    let t0: u64 = 5_000_000;
    let cfg = config(false);
    let mut controller = restarted_at(t0);
    let commands = controller.maybe_restart(t0 + 121_000, 12, &cfg);
    assert_eq!(commands, vec![Command::Lookup]);
    assert_eq!(controller.phase(), Phase::Locating { count: 12 });
    assert_eq!(controller.last_restart(), Some(t0));
}

#[test]
fn the_cooldown_ends_at_its_last_second() {
    let t0: u64 = 1_000;
    let cfg = config(false);
    let mut controller = restarted_at(t0);
    assert_eq!(
        controller.maybe_restart(t0 + 119_999, 2, &cfg),
        vec![Command::Notify(Notice::CoolingDown { remaining_seconds: 1 })]
    );
    assert_eq!(controller.maybe_restart(t0 + 120_000, 2, &cfg), vec![Command::Lookup]);
}

#[test]
fn without_a_restart_there_is_no_cooldown() {
    let mut controller = RestartController::new();
    assert_eq!(controller.maybe_restart(0, 2, &config(false)), vec![Command::Lookup]);
    assert_eq!(controller.phase(), Phase::Locating { count: 2 });
}

#[test]
fn a_breach_during_a_restart_is_passed_over() {
    let cfg = config(false);
    let mut controller = RestartController::new();
    controller.maybe_restart(0, 2, &cfg);
    assert_eq!(controller.maybe_restart(10, 3, &cfg), Vec::<Command>::new());
    assert_eq!(controller.phase(), Phase::Locating { count: 2 });
    controller.resume(20, &[101], &cfg);
    assert_eq!(controller.maybe_restart(30, 3, &cfg), Vec::<Command>::new());
    assert_eq!(controller.phase(), Phase::Waiting { deadline: 8020, forced: false });
}

#[test]
fn a_report_without_a_restart_is_passed_over() {
    let mut controller = RestartController::new();
    assert_eq!(controller.resume(10, &[101], &config(false)), Vec::<Command>::new());
    assert_eq!(controller.phase(), Phase::Idle);
    assert_eq!(controller.last_restart(), None);
}

#[test]
fn a_missing_target_does_not_start_the_cooldown() {
    let cfg = config(false);
    let mut controller = RestartController::new();
    controller.maybe_restart(1000, 2, &cfg);
    let commands = controller.resume(1001, &[], &cfg);
    assert_eq!(commands, vec![Command::Notify(Notice::TargetMissing)]);
    assert_eq!(controller.last_restart(), None);
    assert_eq!(controller.phase(), Phase::Idle);
    assert_eq!(controller.maybe_restart(1002, 2, &cfg), vec![Command::Lookup]);
}

#[test]
fn a_missing_target_keeps_the_old_cooldown() {
    let cfg = config(false);
    let mut controller = restarted_at(1000);
    controller.maybe_restart(200_000, 2, &cfg);
    controller.resume(200_001, &[], &cfg);
    assert_eq!(controller.last_restart(), Some(1000));
}

#[test]
fn a_dry_run_signals_and_launches_nothing() {
    let cfg = config(true);
    let mut controller = RestartController::new();
    let begun = controller.maybe_restart(7000, 2, &cfg);
    assert_eq!(begun, vec![Command::Lookup]);
    let commands = controller.resume(7005, &[101, 102], &cfg);
    assert_eq!(commands, vec![
        Command::Notify(Notice::Restarting { count: 2, threshold: 1 }),
        Command::Notify(Notice::DryRun),
    ]);
    assert!(!touches_the_application(&begun));
    assert!(!touches_the_application(&commands));
    assert_eq!(controller.last_restart(), Some(7005));
    assert_eq!(controller.phase(), Phase::Idle);
    assert_eq!(
        controller.maybe_restart(7005 + 1000, 2, &cfg),
        vec![Command::Notify(Notice::CoolingDown { remaining_seconds: 119 })]
    );
}

#[test]
fn a_restart_that_goes_well() {
    let cfg = config(false);
    let mut controller = RestartController::new();
    assert_eq!(controller.maybe_restart(1000, 2, &cfg), vec![Command::Lookup]);
    assert_eq!(controller.resume(1010, &[101, 102], &cfg), vec![
        Command::Notify(Notice::Restarting { count: 2, threshold: 1 }),
        Command::Signal { pids: vec![101, 102], signal: Signal::Terminate },
        Command::Lookup,
    ]);
    assert_eq!(controller.phase(), Phase::Waiting { deadline: 9010, forced: false });
    assert_eq!(controller.resume(1020, &[101, 102], &cfg), vec![
        Command::Pause { millis: 200 },
        Command::Lookup,
    ]);
    assert_eq!(controller.resume(1230, &[102], &cfg), vec![
        Command::Pause { millis: 200 },
        Command::Lookup,
    ]);
    assert_eq!(controller.last_restart(), None);
    assert_eq!(controller.resume(1440, &[], &cfg), vec![
        Command::Launch,
        Command::Notify(Notice::Restarted),
    ]);
    assert_eq!(controller.last_restart(), Some(1440));
    assert_eq!(controller.phase(), Phase::Idle);
}

#[test]
fn the_kill_goes_to_those_that_are_left() {
    let cfg = config(false);
    let mut controller = RestartController::new();
    controller.maybe_restart(0, 2, &cfg);
    controller.resume(0, &[101, 102], &cfg);
    assert_eq!(controller.resume(7999, &[101, 102], &cfg), vec![
        Command::Pause { millis: 200 },
        Command::Lookup,
    ]);
    assert_eq!(controller.resume(8000, &[101], &cfg), vec![Command::Lookup]);
    assert_eq!(controller.phase(), Phase::Confirming { forced: false });
    assert_eq!(controller.resume(8001, &[101], &cfg), vec![Command::Lookup]);
    assert_eq!(controller.phase(), Phase::Surveying);
    assert_eq!(controller.resume(8002, &[101], &cfg), vec![
        Command::Signal { pids: vec![101], signal: Signal::Kill },
        Command::Lookup,
    ]);
    assert_eq!(controller.phase(), Phase::Waiting { deadline: 11_002, forced: true });
    assert_eq!(controller.resume(8003, &[101], &cfg), vec![
        Command::Pause { millis: 200 },
        Command::Lookup,
    ]);
    assert_eq!(controller.resume(8204, &[], &cfg), vec![
        Command::Launch,
        Command::Notify(Notice::Restarted),
    ]);
    assert_eq!(controller.last_restart(), Some(8204));
}

#[test]
fn the_kill_goes_to_what_the_last_lookup_found() {
    let cfg = config(false);
    let mut controller = RestartController::new();
    controller.maybe_restart(0, 2, &cfg);
    controller.resume(0, &[101, 102], &cfg);
    controller.resume(9000, &[101, 102], &cfg);
    controller.resume(9001, &[101, 102], &cfg);
    assert_eq!(controller.resume(9002, &[102, 555], &cfg), vec![
        Command::Signal { pids: vec![102, 555], signal: Signal::Kill },
        Command::Lookup,
    ]);
}

#[test]
fn gone_at_the_deadline_needs_no_kill() {
    let cfg = config(false);
    let mut controller = RestartController::new();
    controller.maybe_restart(0, 2, &cfg);
    controller.resume(0, &[101], &cfg);
    assert_eq!(controller.resume(8500, &[101], &cfg), vec![Command::Lookup]);
    assert_eq!(controller.resume(8501, &[], &cfg), vec![
        Command::Launch,
        Command::Notify(Notice::Restarted),
    ]);
    assert_eq!(controller.last_restart(), Some(8501));
}

#[test]
fn gone_before_the_kill_needs_no_kill() {
    let cfg = config(false);
    let mut controller = RestartController::new();
    controller.maybe_restart(0, 2, &cfg);
    controller.resume(0, &[101], &cfg);
    controller.resume(8500, &[101], &cfg);
    controller.resume(8501, &[101], &cfg);
    assert_eq!(controller.phase(), Phase::Surveying);
    assert_eq!(controller.resume(8502, &[], &cfg), vec![
        Command::Launch,
        Command::Notify(Notice::Restarted),
    ]);
}

#[test]
fn the_command_is_launched_even_if_the_kill_fails() {
    let cfg = config(false);
    let mut controller = RestartController::new();
    controller.maybe_restart(0, 2, &cfg);
    controller.resume(0, &[101], &cfg);
    controller.resume(8000, &[101], &cfg);
    controller.resume(8000, &[101], &cfg);
    controller.resume(8000, &[101], &cfg);
    assert_eq!(controller.phase(), Phase::Waiting { deadline: 11_000, forced: true });
    assert_eq!(controller.resume(10_999, &[101], &cfg), vec![
        Command::Pause { millis: 200 },
        Command::Lookup,
    ]);
    assert_eq!(controller.resume(11_000, &[101], &cfg), vec![Command::Lookup]);
    assert_eq!(controller.phase(), Phase::Confirming { forced: true });
    assert_eq!(controller.resume(11_001, &[101], &cfg), vec![
        Command::Launch,
        Command::Notify(Notice::Restarted),
    ]);
    assert_eq!(controller.last_restart(), Some(11_001));
    assert_eq!(controller.phase(), Phase::Idle);
}

#[test]
fn deadlines_saturate_at_the_end_of_time() {
    let cfg = config(false);
    let mut controller = RestartController::new();
    controller.maybe_restart(u64::MAX - 10, 2, &cfg);
    controller.resume(u64::MAX - 10, &[101], &cfg);
    assert_eq!(controller.phase(), Phase::Waiting { deadline: u64::MAX, forced: false });
}

#[test]
fn the_shell_gets_the_command_as_one_text() {
    assert_eq!(shell_args("qq --no-sandbox"), vec!["-lc".to_string(), "qq --no-sandbox".to_string()]);
    assert_eq!(shell_args(""), vec!["-lc".to_string(), String::new()]);
}

#[test]
fn after_the_cooldown_a_whole_restart_runs() {
    let t0: u64 = 5_000_000;
    let cfg = config(false);
    let mut controller = restarted_at(t0);
    let breach = t0 + 121_000;
    let mut all = controller.maybe_restart(breach, 2, &cfg);
    all.extend(controller.resume(breach + 1, &[101, 102], &cfg));
    all.extend(controller.resume(breach + 2, &[101, 102], &cfg));
    all.extend(controller.resume(breach + 203, &[], &cfg));
    assert_eq!(all, vec![
        Command::Lookup,
        Command::Notify(Notice::Restarting { count: 2, threshold: 1 }),
        Command::Signal { pids: vec![101, 102], signal: Signal::Terminate },
        Command::Lookup,
        Command::Pause { millis: 200 },
        Command::Lookup,
        Command::Launch,
        Command::Notify(Notice::Restarted),
    ]);
    let launches = all.iter().filter(|c| matches!(c, Command::Launch)).count();
    assert_eq!(launches, 1);
    assert_eq!(controller.last_restart(), Some(breach + 203));
    assert!(controller.last_restart().unwrap() >= t0 + 121_000);
    assert_eq!(controller.phase(), Phase::Idle);
}

#[test]
fn a_restart_launches_once_whatever_its_course() {
    let cfg = config(false);
    let courses: [&[(u64, &[i32])]; 4] = [
        &[(0, &[7]), (1, &[])],
        &[(0, &[7]), (8000, &[7]), (8001, &[])],
        &[(0, &[7]), (8000, &[7]), (8001, &[7]), (8002, &[])],
        &[(0, &[7, 8]), (9000, &[7]), (9001, &[7]), (9002, &[7]), (9003, &[7]), (12_002, &[7]),
            (12_003, &[7])],
    ];
    for course in courses {
        let mut controller = RestartController::new();
        let mut all = controller.maybe_restart(0, 3, &cfg);
        let mut end = 0;
        for (now, pids) in course {
            all.extend(controller.resume(*now, pids, &cfg));
            end = *now;
        }
        assert_eq!(controller.phase(), Phase::Idle);
        assert_eq!(controller.last_restart(), Some(end));
        let launches = all.iter().filter(|c| matches!(c, Command::Launch)).count();
        let kills = all
            .iter()
            .filter(|c| matches!(c, Command::Signal { signal: Signal::Kill, .. }))
            .count();
        let terminations = all
            .iter()
            .filter(|c| matches!(c, Command::Signal { signal: Signal::Terminate, .. }))
            .count();
        assert_eq!(launches, 1);
        assert_eq!(terminations, 1);
        assert!(kills <= 1);
        assert_eq!(all[all.len() - 2], Command::Launch);
        assert_eq!(all[all.len() - 1], Command::Notify(Notice::Restarted));
    }
}
