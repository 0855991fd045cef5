//! The watchdog's configuration: fixed once built, and never built with a
//! threshold or an interval of zero.

use vstd::prelude::*;
use vstd::string::StringExecFns;

verus! {

/// The mathematical content of a [`Config`].
pub struct ConfigView {
    pub app_name: Seq<char>,
    pub threshold: usize,
    pub display: Seq<char>,
    pub restart_cmd: Seq<char>,
    pub cooldown_seconds: u64,
    pub fallback_poll_seconds: u64,
    pub scan_interval_seconds: u64,
    pub dry_run: bool,
    pub log_prefix: Seq<char>,
}

impl ConfigView {
    /// The threshold and both intervals are at least one.
    pub open spec fn valid(self) -> bool {
        &&& self.threshold >= 1
        &&& self.fallback_poll_seconds >= 1
        &&& self.scan_interval_seconds >= 1
    }
}

/// Why a configuration was refused.
#[derive(Clone, Copy, Debug, PartialEq, Eq, Structural)]
pub enum ConfigError {
    /// The connection threshold is zero.
    ThresholdZero,
    /// The fallback poll interval is zero.
    FallbackPollZero,
    /// The interval between two scans of the process table is zero.
    ScanIntervalZero,
}

/// The first fault of a configuration, in the order threshold, fallback
/// poll interval, scan interval; `None` for a valid one.
pub open spec fn first_fault(
    threshold: usize,
    fallback_poll_seconds: u64,
    scan_interval_seconds: u64,
) -> Option<ConfigError> {
    if threshold == 0 {
        Some(ConfigError::ThresholdZero)
    } else if fallback_poll_seconds == 0 {
        Some(ConfigError::FallbackPollZero)
    } else if scan_interval_seconds == 0 {
        Some(ConfigError::ScanIntervalZero)
    } else {
        None
    }
}

/// What the watchdog was asked to do. Every value of this type is valid:
/// its threshold and both of its intervals are at least one.
#[derive(Debug, PartialEq, Eq)]
pub struct Config {
    app_name: String,
    threshold: usize,
    display: String,
    restart_cmd: String,
    cooldown_seconds: u64,
    fallback_poll_seconds: u64,
    scan_interval_seconds: u64,
    dry_run: bool,
    log_prefix: String,
}

impl View for Config {
    type V = ConfigView;

    closed spec fn view(&self) -> ConfigView {
        ConfigView {
            app_name: self.app_name@,
            threshold: self.threshold,
            display: self.display@,
            restart_cmd: self.restart_cmd@,
            cooldown_seconds: self.cooldown_seconds,
            fallback_poll_seconds: self.fallback_poll_seconds,
            scan_interval_seconds: self.scan_interval_seconds,
            dry_run: self.dry_run,
            log_prefix: self.log_prefix@,
        }
    }
}

impl Clone for Config {
    fn clone(&self) -> (copy: Config)
        ensures
            copy@ == self@,
    {
        proof {
            use_type_invariant(self);
        }
        Config {
            app_name: self.app_name.clone(),
            threshold: self.threshold,
            display: self.display.clone(),
            restart_cmd: self.restart_cmd.clone(),
            cooldown_seconds: self.cooldown_seconds,
            fallback_poll_seconds: self.fallback_poll_seconds,
            scan_interval_seconds: self.scan_interval_seconds,
            dry_run: self.dry_run,
            log_prefix: self.log_prefix.clone(),
        }
    }
}

impl Config {
    #[verifier::type_invariant]
    spec fn well_formed(self) -> bool {
        self@.valid()
    }

    /// The configuration used where nothing else is asked for: the
    /// application `qq`, restarted by the command `qq` once it holds more than
    /// 10 connections, at most once in 120 seconds; a poll every 15 seconds
    /// and a scan every 2. The display is the one given, or `:0`.
    pub fn defaults(display: Option<String>) -> (config: Config)
        ensures
            config@ == (ConfigView {
                app_name: "qq"@,
                threshold: 10,
                display: match display {
                    Some(d) => d@,
                    None => ":0"@,
                },
                restart_cmd: "qq"@,
                cooldown_seconds: 120,
                fallback_poll_seconds: 15,
                scan_interval_seconds: 2,
                dry_run: false,
                log_prefix: "[qq-x11-guard-rs]"@,
            }),
            config@.valid(),
    {
        let display = match display {
            Some(d) => d,
            None => String::from_str(":0"),
        };
        Config {
            app_name: String::from_str("qq"),
            threshold: 10,
            display,
            restart_cmd: String::from_str("qq"),
            cooldown_seconds: 120,
            fallback_poll_seconds: 15,
            scan_interval_seconds: 2,
            dry_run: false,
            log_prefix: String::from_str("[qq-x11-guard-rs]"),
        }
    }

    /// Builds a configuration, or says which of its numbers is zero.
    pub fn new(
        app_name: String,
        threshold: usize,
        display: String,
        restart_cmd: String,
        cooldown_seconds: u64,
        fallback_poll_seconds: u64,
        scan_interval_seconds: u64,
        dry_run: bool,
        log_prefix: String,
    ) -> (r: Result<Config, ConfigError>)
        ensures
            match r {
                Ok(config) => {
                    &&& first_fault(threshold, fallback_poll_seconds, scan_interval_seconds)
                        is None
                    &&& config@.valid()
                    &&& config@ == (ConfigView {
                        app_name: app_name@,
                        threshold,
                        display: display@,
                        restart_cmd: restart_cmd@,
                        cooldown_seconds,
                        fallback_poll_seconds,
                        scan_interval_seconds,
                        dry_run,
                        log_prefix: log_prefix@,
                    })
                },
                Err(e) => first_fault(threshold, fallback_poll_seconds, scan_interval_seconds)
                    == Some(e),
            },
    {
        if threshold == 0 {
            return Err(ConfigError::ThresholdZero);
        }
        if fallback_poll_seconds == 0 {
            return Err(ConfigError::FallbackPollZero);
        }
        if scan_interval_seconds == 0 {
            return Err(ConfigError::ScanIntervalZero);
        }
        Ok(
            Config {
                app_name,
                threshold,
                display,
                restart_cmd,
                cooldown_seconds,
                fallback_poll_seconds,
                scan_interval_seconds,
                dry_run,
                log_prefix,
            },
        )
    }

    /// Shows that this configuration, like every other, is valid.
    pub fn validity(&self)
        ensures
            self@.valid(),
    {
        proof {
            use_type_invariant(self);
        }
    }

    /// The command name of the processes to watch.
    pub fn app_name(&self) -> (name: &str)
        ensures
            name@ == self@.app_name,
    {
        self.app_name.as_str()
    }

    /// The number of connections above which the application is restarted.
    pub fn threshold(&self) -> (t: usize)
        ensures
            t == self@.threshold,
            t >= 1,
    {
        proof {
            use_type_invariant(self);
        }
        self.threshold
    }

    /// The X11 display whose connections are counted.
    pub fn display(&self) -> (d: &str)
        ensures
            d@ == self@.display,
    {
        self.display.as_str()
    }

    /// The shell command that starts the application again.
    pub fn restart_cmd(&self) -> (cmd: &str)
        ensures
            cmd@ == self@.restart_cmd,
    {
        self.restart_cmd.as_str()
    }

    /// The least number of seconds between two restarts.
    pub fn cooldown_seconds(&self) -> (s: u64)
        ensures
            s == self@.cooldown_seconds,
    {
        self.cooldown_seconds
    }

    /// The number of seconds between two polls made without any event.
    pub fn fallback_poll_seconds(&self) -> (s: u64)
        ensures
            s == self@.fallback_poll_seconds,
            s >= 1,
    {
        proof {
            use_type_invariant(self);
        }
        self.fallback_poll_seconds
    }

    /// The number of seconds between two scans of the process table.
    pub fn scan_interval_seconds(&self) -> (s: u64)
        ensures
            s == self@.scan_interval_seconds,
            s >= 1,
    {
        proof {
            use_type_invariant(self);
        }
        self.scan_interval_seconds
    }

    /// Whether a restart is only announced, not carried out.
    pub fn dry_run(&self) -> (d: bool)
        ensures
            d == self@.dry_run,
    {
        self.dry_run
    }

    /// The text that follows the time in every log line.
    pub fn log_prefix(&self) -> (p: &str)
        ensures
            p@ == self@.log_prefix,
    {
        self.log_prefix.as_str()
    }

    /// This configuration for another application.
    pub fn with_app_name(self, app_name: String) -> (config: Config)
        ensures
            config@ == (ConfigView { app_name: app_name@, ..self@ }),
    {
        proof {
            use_type_invariant(&self);
        }
        let mut config = self;
        config.app_name = app_name;
        config
    }

    /// This configuration with another threshold, which must not be zero.
    pub fn with_threshold(self, threshold: usize) -> (r: Result<Config, ConfigError>)
        ensures
            match r {
                Ok(config) => threshold >= 1 && config@ == (ConfigView { threshold, ..self@ }),
                Err(e) => threshold == 0 && e == ConfigError::ThresholdZero,
            },
    {
        proof {
            use_type_invariant(&self);
        }
        if threshold == 0 {
            return Err(ConfigError::ThresholdZero);
        }
        let mut config = self;
        config.threshold = threshold;
        Ok(config)
    }

    /// This configuration for another display.
    pub fn with_display(self, display: String) -> (config: Config)
        ensures
            config@ == (ConfigView { display: display@, ..self@ }),
    {
        proof {
            use_type_invariant(&self);
        }
        let mut config = self;
        config.display = display;
        config
    }

    /// This configuration with another restart command.
    pub fn with_restart_cmd(self, restart_cmd: String) -> (config: Config)
        ensures
            config@ == (ConfigView { restart_cmd: restart_cmd@, ..self@ }),
    {
        proof {
            use_type_invariant(&self);
        }
        let mut config = self;
        config.restart_cmd = restart_cmd;
        config
    }

    /// This configuration with another cooldown; zero switches it off.
    pub fn with_cooldown_seconds(self, cooldown_seconds: u64) -> (config: Config)
        ensures
            config@ == (ConfigView { cooldown_seconds, ..self@ }),
    {
        proof {
            use_type_invariant(&self);
        }
        let mut config = self;
        config.cooldown_seconds = cooldown_seconds;
        config
    }

    /// This configuration with another fallback poll interval, which must
    /// not be zero.
    pub fn with_fallback_poll_seconds(self, seconds: u64) -> (r: Result<Config, ConfigError>)
        ensures
            match r {
                Ok(config) => seconds >= 1 && config@ == (ConfigView {
                    fallback_poll_seconds: seconds,
                    ..self@
                }),
                Err(e) => seconds == 0 && e == ConfigError::FallbackPollZero,
            },
    {
        proof {
            use_type_invariant(&self);
        }
        if seconds == 0 {
            return Err(ConfigError::FallbackPollZero);
        }
        let mut config = self;
        config.fallback_poll_seconds = seconds;
        Ok(config)
    }

    /// This configuration with another scan interval, which must not be zero.
    pub fn with_scan_interval_seconds(self, seconds: u64) -> (r: Result<Config, ConfigError>)
        ensures
            match r {
                Ok(config) => seconds >= 1 && config@ == (ConfigView {
                    scan_interval_seconds: seconds,
                    ..self@
                }),
                Err(e) => seconds == 0 && e == ConfigError::ScanIntervalZero,
            },
    {
        proof {
            use_type_invariant(&self);
        }
        if seconds == 0 {
            return Err(ConfigError::ScanIntervalZero);
        }
        let mut config = self;
        config.scan_interval_seconds = seconds;
        Ok(config)
    }

    /// This configuration with the dry-run mode switched on or off.
    pub fn with_dry_run(self, dry_run: bool) -> (config: Config)
        ensures
            config@ == (ConfigView { dry_run, ..self@ }),
    {
        proof {
            use_type_invariant(&self);
        }
        let mut config = self;
        config.dry_run = dry_run;
        config
    }
}

} // verus!
