use x11_guard::cli::apply_option;
use x11_guard::cli::flag_of;
use x11_guard::cli::parse_args;
use x11_guard::cli::ArgError;
use x11_guard::cli::Flag;
use x11_guard::cli::Invocation;
use x11_guard::config::Config;
use x11_guard::config::ConfigError;

fn args(list: &[&str]) -> Vec<String> {
    let mut out = vec!["guard".to_string()];
    for a in list {
        out.push(a.to_string());
    }
    out
}

fn run(list: &[&str]) -> Result<Invocation, ArgError> {
    parse_args(&args(list), Config::defaults(None))
}

fn config_of(list: &[&str]) -> Config {
    match run(list) {
        Ok(Invocation::Run(config)) => config,
        other => panic!("no configuration: {:?}", other),
    }
}

#[test]
fn defaults_are_as_documented() {
    let c = Config::defaults(None);
    assert_eq!(c.app_name(), "qq");
    assert_eq!(c.threshold(), 10);
    assert_eq!(c.display(), ":0");
    assert_eq!(c.restart_cmd(), "qq");
    assert_eq!(c.cooldown_seconds(), 120);
    assert_eq!(c.fallback_poll_seconds(), 15);
    assert_eq!(c.scan_interval_seconds(), 2);
    assert!(!c.dry_run());
    assert_eq!(c.log_prefix(), "[qq-x11-guard-rs]");
    c.validity();
}

#[test]
fn defaults_take_the_display_given() {
    let c = Config::defaults(Some(":3".to_string()));
    assert_eq!(c.display(), ":3");
    assert_eq!(c.threshold(), 10);
}

#[test]
fn new_keeps_what_it_is_given() {
    let c = Config::new(
        "app".to_string(),
        1,
        ":1".to_string(),
        "app --start".to_string(),
        0,
        1,
        1,
        true,
        "[p]".to_string(),
    )
    .unwrap();
    assert_eq!(c.app_name(), "app");
    assert_eq!(c.threshold(), 1);
    assert_eq!(c.display(), ":1");
    assert_eq!(c.restart_cmd(), "app --start");
    assert_eq!(c.cooldown_seconds(), 0);
    assert_eq!(c.fallback_poll_seconds(), 1);
    assert_eq!(c.scan_interval_seconds(), 1);
    assert!(c.dry_run());
    assert_eq!(c.log_prefix(), "[p]");
}

fn build(threshold: usize, fallback: u64, scan: u64) -> Result<Config, ConfigError> {
    Config::new(
        "qq".to_string(),
        threshold,
        ":0".to_string(),
        "qq".to_string(),
        120,
        fallback,
        scan,
        false,
        "[x]".to_string(),
    )
}

#[test]
fn new_refuses_a_zero_threshold() {
    assert_eq!(build(0, 15, 2), Err(ConfigError::ThresholdZero));
}

#[test]
fn new_refuses_a_zero_fallback_poll() {
    assert_eq!(build(10, 0, 2), Err(ConfigError::FallbackPollZero));
}

#[test]
fn new_refuses_a_zero_scan_interval() {
    assert_eq!(build(10, 15, 0), Err(ConfigError::ScanIntervalZero));
}

#[test]
fn new_reports_the_first_fault() {
    assert_eq!(build(0, 0, 0), Err(ConfigError::ThresholdZero));
    assert_eq!(build(1, 0, 0), Err(ConfigError::FallbackPollZero));
    assert!(build(1, 1, 1).is_ok());
    assert!(build(usize::MAX, u64::MAX, u64::MAX).is_ok());
}

#[test]
fn builders_change_one_field() {
    let c = Config::defaults(None)
        .with_app_name("firefox".to_string())
        .with_display(":9".to_string())
        .with_restart_cmd("firefox &".to_string())
        .with_cooldown_seconds(0)
        .with_dry_run(true);
    assert_eq!(c.app_name(), "firefox");
    assert_eq!(c.display(), ":9");
    assert_eq!(c.restart_cmd(), "firefox &");
    assert_eq!(c.cooldown_seconds(), 0);
    assert!(c.dry_run());
    assert_eq!(c.threshold(), 10);
    assert_eq!(c.fallback_poll_seconds(), 15);
    assert_eq!(c.scan_interval_seconds(), 2);
    let c = c.with_threshold(3).unwrap();
    let c = c.with_fallback_poll_seconds(4).unwrap();
    let c = c.with_scan_interval_seconds(5).unwrap();
    assert_eq!(c.threshold(), 3);
    assert_eq!(c.fallback_poll_seconds(), 4);
    assert_eq!(c.scan_interval_seconds(), 5);
    assert_eq!(c.app_name(), "firefox");
}

#[test]
fn builders_refuse_zero() {
    assert_eq!(Config::defaults(None).with_threshold(0), Err(ConfigError::ThresholdZero));
    assert_eq!(
        Config::defaults(None).with_fallback_poll_seconds(0),
        Err(ConfigError::FallbackPollZero)
    );
    assert_eq!(
        Config::defaults(None).with_scan_interval_seconds(0),
        Err(ConfigError::ScanIntervalZero)
    );
}

#[test]
fn clone_is_equal() {
    let c = Config::defaults(Some(":5".to_string())).with_dry_run(true);
    assert_eq!(c.clone(), c);
}

#[test]
fn flag_of_knows_the_options_with_a_value() {
    assert_eq!(flag_of("--app-name"), Some(Flag::AppName));
    assert_eq!(flag_of("--threshold"), Some(Flag::Threshold));
    assert_eq!(flag_of("--display"), Some(Flag::Display));
    assert_eq!(flag_of("--restart-cmd"), Some(Flag::RestartCmd));
    assert_eq!(flag_of("--cooldown"), Some(Flag::Cooldown));
    assert_eq!(flag_of("--fallback-poll"), Some(Flag::FallbackPoll));
    assert_eq!(flag_of("--scan-interval"), Some(Flag::ScanInterval));
    assert_eq!(flag_of("--dry-run"), None);
    assert_eq!(flag_of("--help"), None);
    assert_eq!(flag_of("-h"), None);
    assert_eq!(flag_of("--Threshold"), None);
    assert_eq!(flag_of(""), None);
}

#[test]
fn apply_option_sets_each_field() {
    let c = apply_option(Config::defaults(None), Flag::Threshold, "25").unwrap();
    assert_eq!(c.threshold(), 25);
    let c = apply_option(c, Flag::Cooldown, "0").unwrap();
    assert_eq!(c.cooldown_seconds(), 0);
    let c = apply_option(c, Flag::FallbackPoll, "+30").unwrap();
    assert_eq!(c.fallback_poll_seconds(), 30);
    let c = apply_option(c, Flag::ScanInterval, "1").unwrap();
    assert_eq!(c.scan_interval_seconds(), 1);
    let c = apply_option(c, Flag::AppName, "--threshold").unwrap();
    assert_eq!(c.app_name(), "--threshold");
    let c = apply_option(c, Flag::Display, "").unwrap();
    assert_eq!(c.display(), "");
    let c = apply_option(c, Flag::RestartCmd, "a b c").unwrap();
    assert_eq!(c.restart_cmd(), "a b c");
    assert_eq!(c.threshold(), 25);
}

#[test]
fn apply_option_refuses_bad_numbers() {
    let d = || Config::defaults(None);
    assert_eq!(apply_option(d(), Flag::Threshold, "x"), Err(ArgError::NotANumber(Flag::Threshold)));
    assert_eq!(apply_option(d(), Flag::Threshold, ""), Err(ArgError::NotANumber(Flag::Threshold)));
    assert_eq!(apply_option(d(), Flag::Threshold, "-3"), Err(ArgError::NotANumber(Flag::Threshold)));
    assert_eq!(apply_option(d(), Flag::Threshold, "0"), Err(ArgError::BelowMinimum(Flag::Threshold)));
    assert_eq!(
        apply_option(d(), Flag::Threshold, "99999999999999999999999"),
        Err(ArgError::NotANumber(Flag::Threshold))
    );
    assert_eq!(apply_option(d(), Flag::Cooldown, "1.5"), Err(ArgError::NotANumber(Flag::Cooldown)));
    assert_eq!(
        apply_option(d(), Flag::FallbackPoll, "0"),
        Err(ArgError::BelowMinimum(Flag::FallbackPoll))
    );
    assert_eq!(
        apply_option(d(), Flag::FallbackPoll, "soon"),
        Err(ArgError::NotANumber(Flag::FallbackPoll))
    );
    assert_eq!(
        apply_option(d(), Flag::ScanInterval, "00"),
        Err(ArgError::BelowMinimum(Flag::ScanInterval))
    );
    assert_eq!(
        apply_option(d(), Flag::ScanInterval, "2s"),
        Err(ArgError::NotANumber(Flag::ScanInterval))
    );
}

#[test]
fn no_arguments_give_the_defaults() {
    assert_eq!(config_of(&[]), Config::defaults(None));
    assert_eq!(
        parse_args(&Vec::new(), Config::defaults(None)),
        Ok(Invocation::Run(Config::defaults(None)))
    );
}

#[test]
fn every_option_is_read() {
    let c = config_of(&[
        "--app-name", "telegram", "--threshold", "50", "--display", ":1.0", "--restart-cmd",
        "telegram -startintray", "--cooldown", "300", "--fallback-poll", "20", "--scan-interval",
        "5", "--dry-run",
    ]);
    assert_eq!(c.app_name(), "telegram");
    assert_eq!(c.threshold(), 50);
    assert_eq!(c.display(), ":1.0");
    assert_eq!(c.restart_cmd(), "telegram -startintray");
    assert_eq!(c.cooldown_seconds(), 300);
    assert_eq!(c.fallback_poll_seconds(), 20);
    assert_eq!(c.scan_interval_seconds(), 5);
    assert!(c.dry_run());
    assert_eq!(c.log_prefix(), "[qq-x11-guard-rs]");
}

#[test]
fn a_later_option_wins() {
    let c = config_of(&["--threshold", "5", "--threshold", "6"]);
    assert_eq!(c.threshold(), 6);
}

#[test]
fn the_program_name_is_passed_over() {
    let list = vec!["--threshold".to_string()];
    assert_eq!(
        parse_args(&list, Config::defaults(None)),
        Ok(Invocation::Run(Config::defaults(None)))
    );
}

#[test]
fn a_value_may_look_like_an_option() {
    let c = config_of(&["--app-name", "--dry-run"]);
    assert_eq!(c.app_name(), "--dry-run");
    assert!(!c.dry_run());
}

#[test]
fn help_stops_the_reading() {
    assert_eq!(run(&["--help"]), Ok(Invocation::Help));
    assert_eq!(run(&["-h"]), Ok(Invocation::Help));
    assert_eq!(run(&["--dry-run", "-h", "--bogus"]), Ok(Invocation::Help));
    assert_eq!(run(&["--help", "--threshold", "0"]), Ok(Invocation::Help));
}

#[test]
fn a_fault_before_help_is_reported() {
    assert_eq!(run(&["--threshold", "0", "--help"]), Err(ArgError::BelowMinimum(Flag::Threshold)));
    assert_eq!(run(&["--bogus", "--help"]), Err(ArgError::Unsupported("--bogus".to_string())));
}

#[test]
fn a_missing_value_is_reported_for_each_option() {
    assert_eq!(run(&["--app-name"]), Err(ArgError::MissingValue(Flag::AppName)));
    assert_eq!(run(&["--threshold"]), Err(ArgError::MissingValue(Flag::Threshold)));
    assert_eq!(run(&["--display"]), Err(ArgError::MissingValue(Flag::Display)));
    assert_eq!(run(&["--restart-cmd"]), Err(ArgError::MissingValue(Flag::RestartCmd)));
    assert_eq!(run(&["--cooldown"]), Err(ArgError::MissingValue(Flag::Cooldown)));
    assert_eq!(run(&["--fallback-poll"]), Err(ArgError::MissingValue(Flag::FallbackPoll)));
    assert_eq!(run(&["--scan-interval"]), Err(ArgError::MissingValue(Flag::ScanInterval)));
    assert_eq!(
        run(&["--dry-run", "--cooldown"]),
        Err(ArgError::MissingValue(Flag::Cooldown))
    );
}

#[test]
fn zero_is_refused_where_one_is_the_least() {
    assert_eq!(run(&["--threshold", "0"]), Err(ArgError::BelowMinimum(Flag::Threshold)));
    assert_eq!(run(&["--fallback-poll", "0"]), Err(ArgError::BelowMinimum(Flag::FallbackPoll)));
    assert_eq!(run(&["--scan-interval", "0"]), Err(ArgError::BelowMinimum(Flag::ScanInterval)));
    assert_eq!(config_of(&["--cooldown", "0"]).cooldown_seconds(), 0);
}

#[test]
fn what_is_no_number_is_refused() {
    assert_eq!(run(&["--threshold", "ten"]), Err(ArgError::NotANumber(Flag::Threshold)));
    assert_eq!(run(&["--threshold", "-1"]), Err(ArgError::NotANumber(Flag::Threshold)));
    assert_eq!(run(&["--cooldown", ""]), Err(ArgError::NotANumber(Flag::Cooldown)));
    assert_eq!(run(&["--fallback-poll", "1 "]), Err(ArgError::NotANumber(Flag::FallbackPoll)));
    assert_eq!(run(&["--scan-interval", "2.0"]), Err(ArgError::NotANumber(Flag::ScanInterval)));
    assert_eq!(
        run(&["--cooldown", "18446744073709551616"]),
        Err(ArgError::NotANumber(Flag::Cooldown))
    );
    assert_eq!(
        config_of(&["--cooldown", "18446744073709551615"]).cooldown_seconds(),
        u64::MAX
    );
}

#[test]
fn an_unknown_argument_is_refused_by_name() {
    assert_eq!(run(&["--verbose"]), Err(ArgError::Unsupported("--verbose".to_string())));
    assert_eq!(run(&["qq"]), Err(ArgError::Unsupported("qq".to_string())));
    assert_eq!(run(&[""]), Err(ArgError::Unsupported(String::new())));
    assert_eq!(
        run(&["--dry-run", "--dry-run", "-x"]),
        Err(ArgError::Unsupported("-x".to_string()))
    );
}

#[test]
fn the_first_fault_is_the_one_reported() {
    assert_eq!(
        run(&["--threshold", "x", "--bogus"]),
        Err(ArgError::NotANumber(Flag::Threshold))
    );
    assert_eq!(
        run(&["--bogus", "--threshold", "x"]),
        Err(ArgError::Unsupported("--bogus".to_string()))
    );
}

#[test]
fn a_parsed_configuration_is_never_invalid() {
    let lists: [&[&str]; 5] = [
        &[],
        &["--threshold", "1"],
        &["--fallback-poll", "1", "--scan-interval", "1"],
        &["--threshold", "7", "--dry-run"],
        &["--cooldown", "0"],
    ];
    for list in lists {
        let c = config_of(list);
        assert!(c.threshold() >= 1);
        assert!(c.fallback_poll_seconds() >= 1);
        assert!(c.scan_interval_seconds() >= 1);
    }
}
