//! The restart of the application, as a machine that is told what time it
//! is and which processes exist, and answers with what to do next.
//!
//! Times are milliseconds on a clock that never goes back.

use vstd::prelude::*;
use vstd::slice::slice_to_vec;
use vstd::string::StringExecFns;
use crate::config::Config;
use crate::config::ConfigView;
use crate::sys::Signal;

verus! {

/// How long the processes are given to end after they were asked to.
pub const GRACE_MS: u64 = 8000;

/// How long the processes are given to end after they were killed.
pub const FORCE_MS: u64 = 3000;

/// The pause between two looks at the process table.
pub const POLL_MS: u64 = 200;

/// Something to tell the user.
#[derive(Clone, Copy, Debug, PartialEq, Eq, Structural)]
pub enum Notice {
    /// The watchdog has started.
    Started { threshold: usize },
    /// The threshold is exceeded, but the last restart is too recent.
    CoolingDown { remaining_seconds: u64 },
    /// The threshold is exceeded, but no process of the application exists.
    TargetMissing,
    /// The application holds `count` connections and is about to be restarted.
    Restarting { count: usize, threshold: usize },
    /// Dry run: the restart is not carried out.
    DryRun,
    /// The restart command has been launched.
    Restarted,
    /// The application holds `count` connections, which is within bounds.
    Status { count: usize, threshold: usize },
}

/// Something for the caller to do. A list of commands is carried out first
/// to last.
#[derive(Clone, Debug, PartialEq, Eq)]
pub enum Command {
    /// Tell the user.
    Notify(Notice),
    /// Send `signal` to each of `pids`.
    Signal { pids: Vec<i32>, signal: Signal },
    /// Sleep.
    Pause { millis: u64 },
    /// Launch the restart command.
    Launch,
    /// Look up the processes of the application and report them, with the
    /// time, to [`RestartController::resume`].
    Lookup,
}

/// The mathematical content of a [`Command`].
pub enum CommandView {
    Notify(Notice),
    Signal { pids: Seq<i32>, signal: Signal },
    Pause { millis: u64 },
    Launch,
    Lookup,
}

impl View for Command {
    type V = CommandView;

    open spec fn view(&self) -> CommandView {
        match self {
            Command::Notify(notice) => CommandView::Notify(*notice),
            Command::Signal { pids, signal } => CommandView::Signal {
                pids: pids@,
                signal: *signal,
            },
            Command::Pause { millis } => CommandView::Pause { millis: *millis },
            Command::Launch => CommandView::Launch,
            Command::Lookup => CommandView::Lookup,
        }
    }
}

/// The mathematical content of a list of commands.
pub open spec fn command_views(commands: Seq<Command>) -> Seq<CommandView> {
    commands.map_values(|c: Command| c@)
}

/// Where a restart stands.
#[derive(Clone, Copy, Debug, PartialEq, Eq, Structural)]
pub enum Phase {
    /// No restart is under way.
    Idle,
    /// A restart was asked for; the processes to end are being looked up.
    Locating { count: usize },
    /// The processes were signalled and have until `deadline` to end.
    /// `forced` tells whether they were killed or only asked to end.
    Waiting { deadline: u64, forced: bool },
    /// The deadline has passed; the processes are looked up a last time.
    Confirming { forced: bool },
    /// The processes did not end when asked to; those that are left are
    /// being looked up, to be killed.
    Surveying,
}

/// What the controller remembers: when the application was last restarted,
/// and where the restart under way stands.
pub struct RestartState {
    pub last_restart: Option<u64>,
    pub phase: Phase,
}

/// The outcome of one move of the controller: what it remembers afterwards,
/// and what the caller is to do.
pub struct Step {
    pub state: RestartState,
    pub commands: Seq<CommandView>,
}

/// The whole seconds from `last` to `now`; none where the clock shows less
/// than it did.
pub open spec fn elapsed_seconds(now: u64, last: u64) -> u64 {
    if now >= last {
        ((now - last) / 1000) as u64
    } else {
        0
    }
}

/// The seconds of cooldown that are left at `now`, where any are.
pub open spec fn cooldown_left(last_restart: Option<u64>, now: u64, cooldown_seconds: u64) -> Option<
    u64,
> {
    match last_restart {
        Some(last) => if elapsed_seconds(now, last) < cooldown_seconds {
            Some((cooldown_seconds - elapsed_seconds(now, last)) as u64)
        } else {
            None
        },
        None => None,
    }
}

/// The time `millis` after `now`, or the end of time where that is sooner.
pub open spec fn later(now: u64, millis: u64) -> u64 {
    if now + millis <= u64::MAX {
        (now + millis) as u64
    } else {
        u64::MAX
    }
}

/// The threshold is exceeded with `count` connections at `now`.
///
/// Nothing happens while a restart is under way. During the cooldown the
/// user is told how much of it is left, and that is all. Else the restart
/// begins, by looking up the processes to end.
pub open spec fn spec_begin(s: RestartState, now: u64, count: usize, config: ConfigView) -> Step {
    if s.phase != Phase::Idle {
        Step { state: s, commands: Seq::empty() }
    } else {
        match cooldown_left(s.last_restart, now, config.cooldown_seconds) {
            Some(remaining_seconds) => Step {
                state: s,
                commands: seq![CommandView::Notify(Notice::CoolingDown { remaining_seconds })],
            },
            None => Step {
                state: RestartState { phase: Phase::Locating { count }, ..s },
                commands: seq![CommandView::Lookup],
            },
        }
    }
}

/// The last move of a restart: the command is launched, and `now` is the
/// time of the last restart.
pub open spec fn spec_launch(now: u64) -> Step {
    Step {
        state: RestartState { last_restart: Some(now), phase: Phase::Idle },
        commands: seq![CommandView::Launch, CommandView::Notify(Notice::Restarted)],
    }
}

/// The processes of the application at `now` are `pids`.
///
/// - Looked up to begin a restart: with none, the restart is called off and
///   the time of the last restart stays. In a dry run the restart is
///   announced and counted as done, and no more. Else the processes are asked
///   to end and given [`GRACE_MS`].
/// - Looked up while waiting: with none left the command is launched. Past
///   the deadline they are looked up once more; before it, after a pause.
/// - Looked up past the deadline: with none left, or after a kill, the
///   command is launched. Else those that are left are looked up, to be
///   killed.
/// - Looked up to be killed: with none left the command is launched. Else
///   exactly these are killed and given [`FORCE_MS`].
pub open spec fn spec_resume(s: RestartState, now: u64, pids: Seq<i32>, config: ConfigView) -> Step {
    match s.phase {
        Phase::Idle => Step { state: s, commands: Seq::empty() },
        Phase::Locating { count } => if pids.len() == 0 {
            Step {
                state: RestartState { phase: Phase::Idle, ..s },
                commands: seq![CommandView::Notify(Notice::TargetMissing)],
            }
        } else if config.dry_run {
            Step {
                state: RestartState { last_restart: Some(now), phase: Phase::Idle },
                commands: seq![
                    CommandView::Notify(
                        Notice::Restarting { count, threshold: config.threshold },
                    ),
                    CommandView::Notify(Notice::DryRun),
                ],
            }
        } else {
            Step {
                state: RestartState {
                    phase: Phase::Waiting { deadline: later(now, GRACE_MS), forced: false },
                    ..s
                },
                commands: seq![
                    CommandView::Notify(
                        Notice::Restarting { count, threshold: config.threshold },
                    ),
                    CommandView::Signal { pids, signal: Signal::Terminate },
                    CommandView::Lookup,
                ],
            }
        },
        Phase::Waiting { deadline, forced } => if pids.len() == 0 {
            spec_launch(now)
        } else if now >= deadline {
            Step {
                state: RestartState { phase: Phase::Confirming { forced }, ..s },
                commands: seq![CommandView::Lookup],
            }
        } else {
            Step {
                state: s,
                commands: seq![CommandView::Pause { millis: POLL_MS }, CommandView::Lookup],
            }
        },
        Phase::Confirming { forced } => if pids.len() == 0 || forced {
            spec_launch(now)
        } else {
            Step {
                state: RestartState { phase: Phase::Surveying, ..s },
                commands: seq![CommandView::Lookup],
            }
        },
        Phase::Surveying => if pids.len() == 0 {
            spec_launch(now)
        } else {
            Step {
                state: RestartState {
                    phase: Phase::Waiting { deadline: later(now, FORCE_MS), forced: true },
                    ..s
                },
                commands: seq![
                    CommandView::Signal { pids, signal: Signal::Kill },
                    CommandView::Lookup,
                ],
            }
        },
    }
}

/// The arguments with which the shell `sh` runs the restart command: as a
/// login shell, with the command as one text.
pub fn shell_args(command: &str) -> (args: Vec<String>)
    ensures
        args@.len() == 2,
        args@[0]@ == "-lc"@,
        args@[1]@ == command@,
{
    let mut args: Vec<String> = Vec::new();
    args.push(String::from_str("-lc"));
    args.push(command.to_owned());
    args
}

/// The time `millis` after `now`, or the end of time where that is sooner.
pub fn time_after(now: u64, millis: u64) -> (t: u64)
    ensures
        t == later(now, millis),
{
    if millis <= u64::MAX - now {
        now + millis
    } else {
        u64::MAX
    }
}

/// The seconds of cooldown that are left at `now`, where any are.
pub fn cooldown_remaining(last_restart: Option<u64>, now: u64, cooldown_seconds: u64) -> (left:
    Option<u64>)
    ensures
        left == cooldown_left(last_restart, now, cooldown_seconds),
{
    match last_restart {
        Some(last) => {
            let elapsed: u64 = if now >= last {
                (now - last) / 1000
            } else {
                0
            };
            if elapsed < cooldown_seconds {
                Some(cooldown_seconds - elapsed)
            } else {
                None
            }
        },
        None => None,
    }
}

/// Decides when the application is restarted, and leads each restart
/// through its moves.
#[derive(Debug)]
pub struct RestartController {
    last_restart: Option<u64>,
    phase: Phase,
}

impl View for RestartController {
    type V = RestartState;

    closed spec fn view(&self) -> RestartState {
        RestartState { last_restart: self.last_restart, phase: self.phase }
    }
}

impl RestartController {
    /// A controller that has never restarted anything.
    pub fn new() -> (controller: RestartController)
        ensures
            controller@ == (RestartState { last_restart: None, phase: Phase::Idle }),
    {
        RestartController { last_restart: None, phase: Phase::Idle }
    }

    /// The time of the last restart, if there was one.
    pub fn last_restart(&self) -> (t: Option<u64>)
        ensures
            t == self@.last_restart,
    {
        self.last_restart
    }

    /// Where the restart under way stands.
    pub fn phase(&self) -> (p: Phase)
        ensures
            p == self@.phase,
    {
        self.phase
    }

    /// Reports that the threshold is exceeded with `count` connections at
    /// `now`: see [`spec_begin`].
    pub fn maybe_restart(&mut self, now: u64, count: usize, config: &Config) -> (commands: Vec<
        Command,
    >)
        ensures
            (Step { state: final(self)@, commands: command_views(commands@) }) == spec_begin(
                old(self)@,
                now,
                count,
                config@,
            ),
    {
        let mut commands: Vec<Command> = Vec::new();
        match self.phase {
            Phase::Idle => {
                match cooldown_remaining(self.last_restart, now, config.cooldown_seconds()) {
                    Some(remaining_seconds) => {
                        commands.push(Command::Notify(Notice::CoolingDown { remaining_seconds }));
                    },
                    None => {
                        self.phase = Phase::Locating { count };
                        commands.push(Command::Lookup);
                    },
                }
            },
            _ => {},
        }
        assert(command_views(commands@) =~= spec_begin(old(self)@, now, count, config@).commands);
        commands
    }

    /// The commands that launch and say so; the restart is over.
    fn launch(&mut self, now: u64) -> (commands: Vec<Command>)
        ensures
            (Step { state: final(self)@, commands: command_views(commands@) }) == spec_launch(now),
    {
        self.last_restart = Some(now);
        self.phase = Phase::Idle;
        let mut commands: Vec<Command> = Vec::new();
        commands.push(Command::Launch);
        commands.push(Command::Notify(Notice::Restarted));
        assert(command_views(commands@) =~= spec_launch(now).commands);
        commands
    }

    /// Reports the processes of the application that exist at `now`, in
    /// answer to [`Command::Lookup`]: see [`spec_resume`].
    pub fn resume(&mut self, now: u64, pids: &[i32], config: &Config) -> (commands: Vec<Command>)
        ensures
            (Step { state: final(self)@, commands: command_views(commands@) }) == spec_resume(
                old(self)@,
                now,
                pids@,
                config@,
            ),
    {
        let ghost goal = spec_resume(self@, now, pids@, config@);
        let mut commands: Vec<Command> = Vec::new();
        match self.phase {
            Phase::Idle => {},
            Phase::Locating { count } => {
                if pids.len() == 0 {
                    self.phase = Phase::Idle;
                    commands.push(Command::Notify(Notice::TargetMissing));
                } else {
                    let announce = Notice::Restarting { count, threshold: config.threshold() };
                    commands.push(Command::Notify(announce));
                    if config.dry_run() {
                        self.last_restart = Some(now);
                        self.phase = Phase::Idle;
                        commands.push(Command::Notify(Notice::DryRun));
                    } else {
                        self.phase = Phase::Waiting {
                            deadline: time_after(now, GRACE_MS),
                            forced: false,
                        };
                        commands.push(
                            Command::Signal { pids: slice_to_vec(pids), signal: Signal::Terminate },
                        );
                        commands.push(Command::Lookup);
                    }
                }
            },
            Phase::Waiting { deadline, forced } => {
                if pids.len() == 0 {
                    return self.launch(now);
                } else if now >= deadline {
                    self.phase = Phase::Confirming { forced };
                    commands.push(Command::Lookup);
                } else {
                    commands.push(Command::Pause { millis: POLL_MS });
                    commands.push(Command::Lookup);
                }
            },
            Phase::Confirming { forced } => {
                if pids.len() == 0 || forced {
                    return self.launch(now);
                } else {
                    self.phase = Phase::Surveying;
                    commands.push(Command::Lookup);
                }
            },
            Phase::Surveying => {
                if pids.len() == 0 {
                    return self.launch(now);
                } else {
                    self.phase = Phase::Waiting {
                        deadline: time_after(now, FORCE_MS),
                        forced: true,
                    };
                    commands.push(Command::Signal { pids: slice_to_vec(pids), signal: Signal::Kill });
                    commands.push(Command::Lookup);
                }
            },
        }
        assert(command_views(commands@) =~= goal.commands);
        commands
    }
}

/// Whether a command touches the application: a signal or the launch.
pub open spec fn acts(command: CommandView) -> bool {
    command is Signal || command is Launch
}

/// During the cooldown a breach of the threshold changes nothing and only
/// tells the user how many seconds are left: the cooldown less the whole
/// seconds since the last restart. Once the cooldown is over, the restart
/// begins.
pub proof fn lemma_cooldown(
    last: u64,
    now: u64,
    count: usize,
    config: ConfigView,
)
    requires
        last <= now,
    ensures
        ({
            let s = RestartState { last_restart: Some(last), phase: Phase::Idle };
            let elapsed = (now - last) / 1000;
            let step = spec_begin(s, now, count, config);
            if elapsed < config.cooldown_seconds {
                &&& step.state == s
                &&& step.commands == seq![
                    CommandView::Notify(
                        Notice::CoolingDown {
                            remaining_seconds: (config.cooldown_seconds - elapsed) as u64,
                        },
                    ),
                ]
            } else {
                &&& step.state == (RestartState { phase: Phase::Locating { count }, ..s })
                &&& step.commands == seq![CommandView::Lookup]
            }
        }),
{
}

/// The cooldown only runs down: at a later time no more of it is left than
/// at an earlier one.
pub proof fn lemma_cooldown_runs_down(last: u64, earlier: u64, later_on: u64, cooldown_seconds: u64)
    requires
        earlier <= later_on,
    ensures
        match cooldown_left(Some(last), later_on, cooldown_seconds) {
            Some(left) => cooldown_left(Some(last), earlier, cooldown_seconds) matches Some(before)
                && left <= before,
            None => true,
        },
{
    if earlier >= last {
        assert((earlier - last) / 1000 <= (later_on - last) / 1000) by (nonlinear_arith)
            requires
                0 <= earlier - last <= later_on - last,
        ;
    }
}

/// In a dry run no process is signalled and nothing is launched: a breach
/// of the threshold and the answer to the lookup that follows it give no
/// command that touches the application, and leave no restart under way that
/// would. Where processes of the application exist, the restart yet counts
/// as done at the time of the answer.
pub proof fn lemma_dry_run(s: RestartState, now: u64, count: usize, pids: Seq<i32>, config: ConfigView)
    requires
        config.dry_run,
        s.phase is Idle || s.phase is Locating,
    ensures
        ({
            let begun = spec_begin(s, now, count, config);
            &&& forall|i: int| 0 <= i < begun.commands.len() ==> !acts(#[trigger] begun.commands[i])
            &&& begun.state.phase is Idle || begun.state.phase is Locating
        }),
        ({
            let resumed = spec_resume(s, now, pids, config);
            &&& forall|i: int|
                0 <= i < resumed.commands.len() ==> !acts(#[trigger] resumed.commands[i])
            &&& resumed.state.phase is Idle
            &&& s.phase is Locating && pids.len() > 0 ==> resumed.state.last_restart == Some(now)
            &&& s.phase is Idle || pids.len() == 0 ==> resumed.state.last_restart == s.last_restart
        }),
{
}

/// Whoever is signalled is among the processes just reported: a signal that
/// a lookup's answer gives rise to goes to exactly the processes of that
/// answer. So the kill that follows a vain wait goes to those that are left,
/// not to those that were first asked to end.
pub proof fn lemma_signal_targets(s: RestartState, now: u64, pids: Seq<i32>, config: ConfigView)
    ensures
        ({
            let step = spec_resume(s, now, pids, config);
            &&& forall|i: int|
                0 <= i < step.commands.len() ==> (#[trigger] step.commands[i] matches CommandView::Signal {
                    pids: targets,
                    ..
                } ==> targets == pids)
            &&& s.phase is Surveying && pids.len() > 0 ==> step.commands == seq![
                CommandView::Signal { pids, signal: Signal::Kill },
                CommandView::Lookup,
            ]
        }),
{
}

/// The time of the last restart changes only when a restart ends, and then
/// to the time of the report that ended it.
pub proof fn lemma_last_restart(s: RestartState, now: u64, count: usize, pids: Seq<i32>, config: ConfigView)
    ensures
        spec_begin(s, now, count, config).state.last_restart == s.last_restart,
        ({
            let after = spec_resume(s, now, pids, config).state;
            after.last_restart == s.last_restart || (after.last_restart == Some(now)
                && after.phase is Idle)
        }),
{
}

/// One answer to a lookup: the time, and the processes of the application
/// that exist then.
pub struct Report {
    pub now: u64,
    pub pids: Seq<i32>,
}

/// What a controller in the state `s` makes of a list of answers, reported
/// one after the other: what it remembers in the end, and every command it
/// gave, in order.
pub open spec fn spec_course(s: RestartState, reports: Seq<Report>, config: ConfigView) -> Step
    decreases reports.len(),
{
    if reports.len() == 0 {
        Step { state: s, commands: Seq::empty() }
    } else {
        let before = spec_course(s, reports.drop_last(), config);
        let step = spec_resume(before.state, reports.last().now, reports.last().pids, config);
        Step { state: step.state, commands: before.commands + step.commands }
    }
}

/// A breach of the threshold at `now`, and the answers to the lookups that
/// follow it.
pub open spec fn spec_restart(
    s: RestartState,
    now: u64,
    count: usize,
    reports: Seq<Report>,
    config: ConfigView,
) -> Step {
    let begun = spec_begin(s, now, count, config);
    let rest = spec_course(begun.state, reports, config);
    Step { state: rest.state, commands: begun.commands + rest.commands }
}

/// Whether a command sends `signal`.
pub open spec fn sends(command: CommandView, signal: Signal) -> bool {
    command matches CommandView::Signal { signal: sent, .. } && sent == signal
}

/// Whether every report is made at `now` or later, and none before the one
/// that precedes it.
pub open spec fn in_time(now: u64, reports: Seq<Report>) -> bool {
    &&& forall|i: int| 0 <= i < reports.len() ==> now <= (#[trigger] reports[i]).now
    &&& forall|i: int, j: int|
        0 <= i <= j < reports.len() ==> (#[trigger] reports[i]).now <= (#[trigger] reports[j]).now
}

/// How far a restart has come after any answers at all, where it is no dry
/// run and the first answer names a process.
///
/// It began by announcing the restart and asking exactly the processes of
/// the first answer to end; nobody else was ever asked to. While it is under
/// way nothing has been launched, the time of the last restart is the old
/// one, and a kill has been sent if and only if the restart has come to wait
/// for the killed. Once it is over, the command has been launched once, after
/// everything else but the word that says so; at most one kill was sent; and
/// the time of the last restart is that of one of the answers.
pub proof fn lemma_course(s: RestartState, reports: Seq<Report>, config: ConfigView)
    requires
        s.phase is Locating,
        !config.dry_run,
        reports.len() > 0,
        reports[0].pids.len() > 0,
    ensures
        ({
            let course = spec_course(s, reports, config);
            let commands = course.commands;
            let n = commands.len();
            &&& n >= 3
            &&& commands[0] == CommandView::Notify(
                Notice::Restarting { count: s.phase->count, threshold: config.threshold },
            )
            &&& commands[1] == (CommandView::Signal {
                pids: reports[0].pids,
                signal: Signal::Terminate,
            })
            &&& forall|i: int|
                0 <= i < n ==> (sends(#[trigger] commands[i], Signal::Terminate) <==> i == 1)
            &&& forall|i: int, j: int|
                0 <= i < n && 0 <= j < n && sends(#[trigger] commands[i], Signal::Kill) && sends(
                    #[trigger] commands[j],
                    Signal::Kill,
                ) ==> i == j
            &&& match course.state.phase {
                Phase::Idle => {
                    &&& forall|i: int|
                        0 <= i < n ==> (#[trigger] commands[i] is Launch <==> i == n - 2)
                    &&& commands[n - 1] == CommandView::Notify(Notice::Restarted)
                    &&& exists|k: int|
                        0 <= k < reports.len() && course.state.last_restart == Some(
                            (#[trigger] reports[k]).now,
                        )
                },
                Phase::Locating { .. } => false,
                Phase::Waiting { forced, .. } => {
                    &&& forall|i: int| 0 <= i < n ==> !(#[trigger] commands[i] is Launch)
                    &&& course.state.last_restart == s.last_restart
                    &&& forced <==> exists|i: int|
                        0 <= i < n && sends(#[trigger] commands[i], Signal::Kill)
                },
                Phase::Confirming { forced } => {
                    &&& forall|i: int| 0 <= i < n ==> !(#[trigger] commands[i] is Launch)
                    &&& course.state.last_restart == s.last_restart
                    &&& forced <==> exists|i: int|
                        0 <= i < n && sends(#[trigger] commands[i], Signal::Kill)
                },
                Phase::Surveying => {
                    &&& forall|i: int| 0 <= i < n ==> !(#[trigger] commands[i] is Launch)
                    &&& course.state.last_restart == s.last_restart
                    &&& forall|i: int| 0 <= i < n ==> !sends(#[trigger] commands[i], Signal::Kill)
                },
            }
        }),
    decreases reports.len(),
{
    let front = reports.drop_last();
    let before = spec_course(s, front, config);
    let step = spec_resume(before.state, reports.last().now, reports.last().pids, config);
    let course = spec_course(s, reports, config);
    let commands = course.commands;
    if reports.len() == 1 {
        assert(front.len() == 0);
        assert(before.state == s);
        assert(commands =~= step.commands);
        assert(!sends(commands[0], Signal::Kill));
        assert(!sends(commands[1], Signal::Kill));
        assert(!sends(commands[2], Signal::Kill));
    } else {
        assert(front[0] == reports[0]);
        lemma_course(s, front, config);
        let m = before.commands.len() as int;
        assert forall|i: int| 0 <= i < commands.len() implies #[trigger] commands[i] == (if i < m {
            before.commands[i]
        } else {
            step.commands[i - m]
        }) by {}
        match before.state.phase {
            Phase::Idle => {
                assert(commands =~= before.commands);
                let k = choose|k: int|
                    0 <= k < front.len() && before.state.last_restart == Some(
                        (#[trigger] front[k]).now,
                    );
                assert(reports[k] == front[k]);
            },
            Phase::Locating { .. } => {},
            Phase::Waiting { forced, .. } => {
                if course.state.phase is Idle {
                    assert(reports[reports.len() - 1] == reports.last());
                } else if forced {
                    let w = choose|i: int|
                        0 <= i < m && sends(#[trigger] before.commands[i], Signal::Kill);
                    assert(sends(commands[w], Signal::Kill));
                }
            },
            Phase::Confirming { forced } => {
                if course.state.phase is Idle {
                    assert(reports[reports.len() - 1] == reports.last());
                }
            },
            Phase::Surveying => {
                if course.state.phase is Idle {
                    assert(reports[reports.len() - 1] == reports.last());
                } else {
                    assert(sends(commands[m], Signal::Kill));
                }
            },
        }
    }
}

/// A whole restart, whatever its course.
///
/// A breach of the threshold outside the cooldown, with a process to end
/// and not in a dry run, that has come to its end has done this, in this
/// order: looked the processes up; announced the restart; asked exactly the
/// processes of the first answer to end, and nobody else; killed at most
/// once; launched the command once, after every signal and every wait and
/// whether or not a process was left; and said so. The time of the last
/// restart is then that of one of the answers, so not before the breach.
pub proof fn lemma_whole_restart(
    s: RestartState,
    now: u64,
    count: usize,
    reports: Seq<Report>,
    config: ConfigView,
)
    requires
        s.phase is Idle,
        cooldown_left(s.last_restart, now, config.cooldown_seconds) is None,
        !config.dry_run,
        reports.len() > 0,
        reports[0].pids.len() > 0,
        in_time(now, reports),
        spec_restart(s, now, count, reports, config).state.phase is Idle,
    ensures
        ({
            let whole = spec_restart(s, now, count, reports, config);
            let commands = whole.commands;
            let n = commands.len();
            &&& n >= 5
            &&& commands[0] == CommandView::Lookup
            &&& commands[1] == CommandView::Notify(
                Notice::Restarting { count, threshold: config.threshold },
            )
            &&& commands[2] == (CommandView::Signal {
                pids: reports[0].pids,
                signal: Signal::Terminate,
            })
            &&& forall|i: int|
                0 <= i < n ==> (sends(#[trigger] commands[i], Signal::Terminate) <==> i == 2)
            &&& forall|i: int, j: int|
                0 <= i < n && 0 <= j < n && sends(#[trigger] commands[i], Signal::Kill) && sends(
                    #[trigger] commands[j],
                    Signal::Kill,
                ) ==> i == j
            &&& forall|i: int| 0 <= i < n ==> (#[trigger] commands[i] is Launch <==> i == n - 2)
            &&& commands[n - 1] == CommandView::Notify(Notice::Restarted)
            &&& whole.state.last_restart matches Some(t) && now <= t
        }),
{
    let begun = spec_begin(s, now, count, config);
    let rest = spec_course(begun.state, reports, config);
    let whole = spec_restart(s, now, count, reports, config);
    lemma_course(begun.state, reports, config);
    assert(begun.commands =~= seq![CommandView::Lookup]);
    assert forall|i: int| 0 <= i < whole.commands.len() implies #[trigger] whole.commands[i] == (
    if i < 1 {
        CommandView::Lookup
    } else {
        rest.commands[i - 1]
    }) by {}
    assert forall|i: int, j: int|
        0 <= i < whole.commands.len() && 0 <= j < whole.commands.len() && sends(
            #[trigger] whole.commands[i],
            Signal::Kill,
        ) && sends(#[trigger] whole.commands[j], Signal::Kill) implies i == j by {
        assert(sends(rest.commands[i - 1], Signal::Kill));
        assert(sends(rest.commands[j - 1], Signal::Kill));
    }
}

/// Once the processes are gone the wait is over, whenever that is seen: an
/// answer without processes, given while the processes are waited for,
/// looked up past the deadline or looked up to be killed, launches the
/// command at once, without a signal or a pause.
pub proof fn lemma_gone_ends_the_wait(s: RestartState, now: u64, config: ConfigView)
    requires
        s.phase is Waiting || s.phase is Confirming || s.phase is Surveying,
    ensures
        spec_resume(s, now, Seq::empty(), config) == spec_launch(now),
{
}

} // verus!
