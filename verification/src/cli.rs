//! The command line: which options there are, what their values must be,
//! and the configuration that a list of arguments asks for.

use vstd::prelude::*;
use crate::config::Config;
use crate::config::ConfigView;
use crate::text::parse_decimal;
use crate::text::spec_parse_decimal;
use crate::text::str_eq;
use crate::text::string_views;

verus! {

/// The exit status of the program after a command line that was refused.
pub const EXIT_USAGE: i32 = 2;

/// An option that is followed by a value.
#[derive(Clone, Copy, Debug, PartialEq, Eq, Structural)]
pub enum Flag {
    /// `--app-name <name>`
    AppName,
    /// `--threshold <n>`
    Threshold,
    /// `--display <display>`
    Display,
    /// `--restart-cmd <cmd>`
    RestartCmd,
    /// `--cooldown <sec>`
    Cooldown,
    /// `--fallback-poll <sec>`
    FallbackPoll,
    /// `--scan-interval <sec>`
    ScanInterval,
}

/// Why a command line was refused.
#[derive(Clone, Debug, PartialEq, Eq)]
pub enum ArgError {
    /// The option is the last argument: its value is missing.
    MissingValue(Flag),
    /// The value of the option is not an unsigned decimal number in range.
    NotANumber(Flag),
    /// The value of the option is zero, and the option wants at least one.
    BelowMinimum(Flag),
    /// The argument is no option of this program.
    Unsupported(String),
}

/// The mathematical content of an [`ArgError`].
pub enum ArgErrorView {
    MissingValue(Flag),
    NotANumber(Flag),
    BelowMinimum(Flag),
    Unsupported(Seq<char>),
}

impl View for ArgError {
    type V = ArgErrorView;

    open spec fn view(&self) -> ArgErrorView {
        match self {
            ArgError::MissingValue(flag) => ArgErrorView::MissingValue(*flag),
            ArgError::NotANumber(flag) => ArgErrorView::NotANumber(*flag),
            ArgError::BelowMinimum(flag) => ArgErrorView::BelowMinimum(*flag),
            ArgError::Unsupported(arg) => ArgErrorView::Unsupported(arg@),
        }
    }
}

/// What a command line asks for.
#[derive(Debug, PartialEq, Eq)]
pub enum Invocation {
    /// Run the watchdog with this configuration.
    Run(Config),
    /// Show the help text and stop.
    Help,
}

/// The mathematical content of an [`Invocation`].
pub enum InvocationView {
    Run(ConfigView),
    Help,
}

impl View for Invocation {
    type V = InvocationView;

    open spec fn view(&self) -> InvocationView {
        match self {
            Invocation::Run(config) => InvocationView::Run(config@),
            Invocation::Help => InvocationView::Help,
        }
    }
}

/// The option that an argument names, if it names one that takes a value.
pub open spec fn spec_flag_of(key: Seq<char>) -> Option<Flag> {
    if key == "--app-name"@ {
        Some(Flag::AppName)
    } else if key == "--threshold"@ {
        Some(Flag::Threshold)
    } else if key == "--display"@ {
        Some(Flag::Display)
    } else if key == "--restart-cmd"@ {
        Some(Flag::RestartCmd)
    } else if key == "--cooldown"@ {
        Some(Flag::Cooldown)
    } else if key == "--fallback-poll"@ {
        Some(Flag::FallbackPoll)
    } else if key == "--scan-interval"@ {
        Some(Flag::ScanInterval)
    } else {
        None
    }
}

/// The option that `key` names, if it names one that takes a value.
pub fn flag_of(key: &str) -> (flag: Option<Flag>)
    ensures
        flag == spec_flag_of(key@),
{
    if str_eq(key, "--app-name") {
        Some(Flag::AppName)
    } else if str_eq(key, "--threshold") {
        Some(Flag::Threshold)
    } else if str_eq(key, "--display") {
        Some(Flag::Display)
    } else if str_eq(key, "--restart-cmd") {
        Some(Flag::RestartCmd)
    } else if str_eq(key, "--cooldown") {
        Some(Flag::Cooldown)
    } else if str_eq(key, "--fallback-poll") {
        Some(Flag::FallbackPoll)
    } else if str_eq(key, "--scan-interval") {
        Some(Flag::ScanInterval)
    } else {
        None
    }
}

/// A number that must be at least one: the value read from `value`, or the
/// reason why the option `flag` cannot take it.
pub open spec fn spec_positive(flag: Flag, value: Seq<char>, max: u64) -> Result<
    u64,
    ArgErrorView,
> {
    match spec_parse_decimal(value, max) {
        None => Err(ArgErrorView::NotANumber(flag)),
        Some(n) => if n == 0 {
            Err(ArgErrorView::BelowMinimum(flag))
        } else {
            Ok(n)
        },
    }
}

/// The configuration `config` after the option `flag` was given `value`.
///
/// Names and commands are taken as they are. The threshold and the two
/// intervals must be decimal numbers of at least one, the cooldown a decimal
/// number.
pub open spec fn spec_apply_option(config: ConfigView, flag: Flag, value: Seq<char>) -> Result<
    ConfigView,
    ArgErrorView,
> {
    match flag {
        Flag::AppName => Ok(ConfigView { app_name: value, ..config }),
        Flag::Display => Ok(ConfigView { display: value, ..config }),
        Flag::RestartCmd => Ok(ConfigView { restart_cmd: value, ..config }),
        Flag::Threshold => match spec_positive(flag, value, usize::MAX as u64) {
            Ok(n) => Ok(ConfigView { threshold: n as usize, ..config }),
            Err(e) => Err(e),
        },
        Flag::Cooldown => match spec_parse_decimal(value, u64::MAX) {
            Some(n) => Ok(ConfigView { cooldown_seconds: n, ..config }),
            None => Err(ArgErrorView::NotANumber(flag)),
        },
        Flag::FallbackPoll => match spec_positive(flag, value, u64::MAX) {
            Ok(n) => Ok(ConfigView { fallback_poll_seconds: n, ..config }),
            Err(e) => Err(e),
        },
        Flag::ScanInterval => match spec_positive(flag, value, u64::MAX) {
            Ok(n) => Ok(ConfigView { scan_interval_seconds: n, ..config }),
            Err(e) => Err(e),
        },
    }
}

/// The mathematical content of the result of [`apply_option`].
pub open spec fn applied_view(r: Result<Config, ArgError>) -> Result<ConfigView, ArgErrorView> {
    match r {
        Ok(config) => Ok(config@),
        Err(e) => Err(e@),
    }
}

/// Reads a number of at least one for the option `flag`.
fn positive(flag: Flag, value: &str, max: u64) -> (r: Result<u64, ArgError>)
    ensures
        match r {
            Ok(n) => spec_positive(flag, value@, max) == Ok::<u64, ArgErrorView>(n) && n >= 1,
            Err(e) => spec_positive(flag, value@, max) == Err::<u64, ArgErrorView>(e@),
        },
{
    match parse_decimal(value, max) {
        None => Err(ArgError::NotANumber(flag)),
        Some(n) => if n == 0 {
            Err(ArgError::BelowMinimum(flag))
        } else {
            Ok(n)
        },
    }
}

/// Gives the option `flag` the value `value` in `config`.
pub fn apply_option(config: Config, flag: Flag, value: &str) -> (r: Result<Config, ArgError>)
    ensures
        applied_view(r) == spec_apply_option(config@, flag, value@),
{
    match flag {
        Flag::AppName => Ok(config.with_app_name(value.to_owned())),
        Flag::Display => Ok(config.with_display(value.to_owned())),
        Flag::RestartCmd => Ok(config.with_restart_cmd(value.to_owned())),
        Flag::Threshold => match positive(flag, value, usize::MAX as u64) {
            Ok(n) => match config.with_threshold(n as usize) {
                Ok(changed) => Ok(changed),
                Err(_) => Err(ArgError::BelowMinimum(flag)),
            },
            Err(e) => Err(e),
        },
        Flag::Cooldown => match parse_decimal(value, u64::MAX) {
            Some(n) => Ok(config.with_cooldown_seconds(n)),
            None => Err(ArgError::NotANumber(flag)),
        },
        Flag::FallbackPoll => match positive(flag, value, u64::MAX) {
            Ok(n) => match config.with_fallback_poll_seconds(n) {
                Ok(changed) => Ok(changed),
                Err(_) => Err(ArgError::BelowMinimum(flag)),
            },
            Err(e) => Err(e),
        },
        Flag::ScanInterval => match positive(flag, value, u64::MAX) {
            Ok(n) => match config.with_scan_interval_seconds(n) {
                Ok(changed) => Ok(changed),
                Err(_) => Err(ArgError::BelowMinimum(flag)),
            },
            Err(e) => Err(e),
        },
    }
}

/// What the arguments from position `from` on ask for, read from left to
/// right, starting from the configuration `config`.
///
/// An option that takes a value is followed by it, whatever the value looks
/// like. `--dry-run` stands alone. At `--help` or `-h` reading stops: what
/// follows is not looked at. The first fault met is the one reported.
pub open spec fn spec_parse_from(args: Seq<Seq<char>>, from: int, config: ConfigView) -> Result<
    InvocationView,
    ArgErrorView,
>
    decreases args.len() - from,
{
    if from < 0 || from >= args.len() {
        Ok(InvocationView::Run(config))
    } else {
        let key = args[from];
        match spec_flag_of(key) {
            Some(flag) => if from + 1 >= args.len() {
                Err(ArgErrorView::MissingValue(flag))
            } else {
                match spec_apply_option(config, flag, args[from + 1]) {
                    Ok(changed) => spec_parse_from(args, from + 2, changed),
                    Err(e) => Err(e),
                }
            },
            None => if key == "--dry-run"@ {
                spec_parse_from(args, from + 1, ConfigView { dry_run: true, ..config })
            } else if key == "--help"@ || key == "-h"@ {
                Ok(InvocationView::Help)
            } else {
                Err(ArgErrorView::Unsupported(key))
            },
        }
    }
}

/// What a command line asks for. The first argument is the program's name
/// and is passed over.
pub open spec fn spec_parse_args(args: Seq<Seq<char>>, defaults: ConfigView) -> Result<
    InvocationView,
    ArgErrorView,
> {
    spec_parse_from(args, 1, defaults)
}

/// The mathematical content of the result of [`parse_args`].
pub open spec fn parsed_view(r: Result<Invocation, ArgError>) -> Result<
    InvocationView,
    ArgErrorView,
> {
    match r {
        Ok(invocation) => Ok(invocation@),
        Err(e) => Err(e@),
    }
}

/// Reads the command line `args`, whose first entry is the program's name,
/// into the configuration it asks for, starting from `defaults`.
pub fn parse_args(args: &Vec<String>, defaults: Config) -> (r: Result<Invocation, ArgError>)
    ensures
        parsed_view(r) == spec_parse_args(string_views(args@), defaults@),
        r matches Ok(Invocation::Run(config)) ==> config@.valid(),
{
    let ghost all = string_views(args@);
    let ghost goal = spec_parse_args(all, defaults@);
    let mut config = defaults;
    let mut index: usize = 1;
    while index < args.len()
        invariant
            1 <= index,
            all == string_views(args@),
            goal == spec_parse_args(all, defaults@),
            spec_parse_from(all, index as int, config@) == goal,
        decreases args.len() - index,
    {
        let key: &str = args[index].as_str();
        assert(key@ == all[index as int]);
        match flag_of(key) {
            Some(flag) => {
                if index + 1 >= args.len() {
                    return Err(ArgError::MissingValue(flag));
                }
                let value: &str = args[index + 1].as_str();
                assert(value@ == all[index + 1]);
                match apply_option(config, flag, value) {
                    Ok(changed) => {
                        config = changed;
                    },
                    Err(e) => {
                        return Err(e);
                    },
                }
                index += 2;
            },
            None => {
                if str_eq(key, "--dry-run") {
                    config = config.with_dry_run(true);
                    index += 1;
                } else if str_eq(key, "--help") || str_eq(key, "-h") {
                    return Ok(Invocation::Help);
                } else {
                    return Err(ArgError::Unsupported(key.to_owned()));
                }
            },
        }
    }
    config.validity();
    Ok(Invocation::Run(config))
}

/// An option never makes a valid configuration invalid.
pub proof fn lemma_option_keeps_valid(config: ConfigView, flag: Flag, value: Seq<char>)
    requires
        config.valid(),
    ensures
        spec_apply_option(config, flag, value) matches Ok(changed) ==> changed.valid(),
{
}

/// Whatever the command line, the configuration that it asks to run with is
/// valid where the defaults are: a threshold or an interval of zero is
/// refused.
pub proof fn lemma_parsed_valid(args: Seq<Seq<char>>, from: int, config: ConfigView)
    requires
        config.valid(),
    ensures
        spec_parse_from(args, from, config) matches Ok(InvocationView::Run(parsed))
            ==> parsed.valid(),
    decreases args.len() - from,
{
    if 0 <= from < args.len() {
        let key = args[from];
        match spec_flag_of(key) {
            Some(flag) => {
                if from + 1 < args.len() {
                    lemma_option_keeps_valid(config, flag, args[from + 1]);
                    match spec_apply_option(config, flag, args[from + 1]) {
                        Ok(changed) => {
                            lemma_parsed_valid(args, from + 2, changed);
                        },
                        Err(_) => {},
                    }
                }
            },
            None => {
                if key == "--dry-run"@ {
                    lemma_parsed_valid(args, from + 1, ConfigView { dry_run: true, ..config });
                }
            },
        }
    }
}

/// Wherever reading comes to it, an argument that is no option is refused
/// by name, and an option that its value should follow but nothing does is
/// refused as lacking it.
pub proof fn lemma_refused_argument(args: Seq<Seq<char>>, from: int, config: ConfigView)
    requires
        0 <= from < args.len(),
    ensures
        spec_flag_of(args[from]) is None && args[from] != "--dry-run"@ && args[from] != "--help"@
            && args[from] != "-h"@ ==> spec_parse_from(args, from, config) == Err::<
            InvocationView,
            ArgErrorView,
        >(ArgErrorView::Unsupported(args[from])),
        spec_flag_of(args[from]) is Some && from + 1 == args.len() ==> spec_parse_from(
            args,
            from,
            config,
        ) == Err::<InvocationView, ArgErrorView>(
            ArgErrorView::MissingValue(spec_flag_of(args[from]).unwrap()),
        ),
{
}

} // verus!
