//! The watchdog itself: what it owns, when it looks, and what it makes of
//! what it sees.
//!
//! Times are milliseconds on a clock that never goes back.

use vstd::prelude::*;
use crate::config::Config;
use crate::config::ConfigView;
use crate::display::display_number;
use crate::display::display_to_socket;
use crate::display::socket_prefix;
use crate::display::valid_display;
use crate::restart::command_views;
use crate::restart::spec_begin;
use crate::restart::spec_resume;
use crate::restart::Command;
use crate::restart::Notice;
use crate::restart::RestartController;
use crate::restart::RestartState;
use crate::restart::Phase;
use crate::restart::Step;
use crate::watch::chunk_views;
use crate::watch::gathered;
use crate::watch::kept;
use crate::watch::spec_absorb_chunks;
use crate::watch::spec_add;
use crate::watch::stale_watches;
use crate::watch::unwatched;
use crate::watch::ByteOrder;
use crate::watch::EventBatch;
use crate::watch::Gathered;
use crate::watch::InotifyWatch;
use crate::watch::SyncPlan;

verus! {

/// The exit status of the program where the watchdog could not be set up, or
/// a wait for events failed for good.
pub const EXIT_FAILURE: i32 = 1;

/// The shortest wait for events, so that two deadlines close to each other
/// do not make the loop spin.
pub const MIN_WAIT_MS: u64 = 100;

/// What made the watchdog count the connections.
#[derive(Clone, Copy, Debug, PartialEq, Eq, Structural)]
pub enum Trigger {
    /// The watchdog has just started.
    Startup,
    /// A watch fired.
    Event,
    /// The fallback poll is due.
    Fallback,
}

/// What to make of a count of connections.
#[derive(Clone, Copy, Debug, PartialEq, Eq, Structural)]
pub enum Verdict {
    /// Nothing to do or to say.
    Quiet,
    /// Within bounds; tell the user the count.
    Report,
    /// Over the threshold, with processes to end; restart the application.
    Restart,
}

/// What to make of `count` connections held by the processes `app_pids`.
///
/// A count above the threshold asks for a restart, where there is a process
/// to restart. Anything else is reported at a fallback poll, with or without
/// processes, which shows the user that the watchdog is alive, and passed
/// over otherwise.
pub open spec fn spec_verdict(
    trigger: Trigger,
    app_pids: Seq<i32>,
    count: usize,
    threshold: usize,
) -> Verdict {
    if app_pids.len() > 0 && count > threshold {
        Verdict::Restart
    } else if trigger == Trigger::Fallback {
        Verdict::Report
    } else {
        Verdict::Quiet
    }
}

/// What to make of `count` connections held by the processes `app_pids`:
/// see [`spec_verdict`].
pub fn check_threshold(trigger: Trigger, app_pids: &[i32], count: usize, threshold: usize) -> (verdict:
    Verdict)
    ensures
        verdict == spec_verdict(trigger, app_pids@, count, threshold),
{
    if app_pids.len() > 0 && count > threshold {
        Verdict::Restart
    } else {
        match trigger {
            Trigger::Fallback => Verdict::Report,
            _ => Verdict::Quiet,
        }
    }
}

/// What a wait for events asks for: a count of the connections where a
/// watch fired, nothing where none did.
pub fn trigger_of(batch: &EventBatch) -> (trigger: Option<Trigger>)
    ensures
        trigger == (if batch.fired@.len() > 0 {
            Some(Trigger::Event)
        } else {
            None
        }),
{
    if batch.fired.len() > 0 {
        Some(Trigger::Event)
    } else {
        None
    }
}

/// The time `seconds` after `now`, or the end of time where that is sooner.
pub open spec fn seconds_after(now: u64, seconds: u64) -> u64 {
    if now + seconds * 1000 <= u64::MAX {
        (now + seconds * 1000) as u64
    } else {
        u64::MAX
    }
}

/// The time from `now` to `deadline`; none where the deadline has passed.
pub open spec fn time_left(deadline: u64, now: u64) -> u64 {
    if deadline >= now {
        (deadline - now) as u64
    } else {
        0
    }
}

/// The time `seconds` after `now`, or the end of time where that is sooner.
pub fn deadline_after(now: u64, seconds: u64) -> (deadline: u64)
    ensures
        deadline == seconds_after(now, seconds),
{
    if seconds <= (u64::MAX - now) / 1000 {
        now + seconds * 1000
    } else {
        u64::MAX
    }
}

/// When the process table is next scanned, and when the connections are next
/// counted without an event asking for it.
#[derive(Clone, Copy, Debug, PartialEq, Eq, Structural)]
pub struct Schedule {
    pub next_sync: u64,
    pub next_fallback: u64,
}

/// What to do before waiting for events, and how long to wait.
#[derive(Clone, Copy, Debug, PartialEq, Eq, Structural)]
pub struct WaitPlan {
    /// Whether to scan the process table and bring the watches in line.
    pub resync: bool,
    /// The longest time to wait for events, in milliseconds.
    pub timeout_ms: u64,
}

impl Schedule {
    /// How long to wait for events at `now`: until the nearer of the two
    /// deadlines, but at least [`MIN_WAIT_MS`].
    pub open spec fn timeout(self, now: u64) -> u64 {
        let to_sync = time_left(self.next_sync, now);
        let to_fallback = time_left(self.next_fallback, now);
        let nearer = if to_sync <= to_fallback {
            to_sync
        } else {
            to_fallback
        };
        if nearer >= MIN_WAIT_MS {
            nearer
        } else {
            MIN_WAIT_MS
        }
    }

    /// The schedule after the scan was found due or not at `now`: a scan that
    /// is due is scheduled again from `now`, not from when it was due.
    pub open spec fn after_sync_check(self, now: u64, config: ConfigView) -> Schedule {
        if now >= self.next_sync {
            Schedule { next_sync: seconds_after(now, config.scan_interval_seconds), ..self }
        } else {
            self
        }
    }

    /// The schedule after the fallback poll was found due or not at `now`.
    pub open spec fn after_fallback_check(self, now: u64, config: ConfigView) -> Schedule {
        if now >= self.next_fallback {
            Schedule { next_fallback: seconds_after(now, config.fallback_poll_seconds), ..self }
        } else {
            self
        }
    }

    /// The schedule of a watchdog that starts at `now`: both deadlines are
    /// one interval away.
    pub fn start(now: u64, config: &Config) -> (schedule: Schedule)
        ensures
            schedule == (Schedule {
                next_sync: seconds_after(now, config@.scan_interval_seconds),
                next_fallback: seconds_after(now, config@.fallback_poll_seconds),
            }),
    {
        Schedule {
            next_sync: deadline_after(now, config.scan_interval_seconds()),
            next_fallback: deadline_after(now, config.fallback_poll_seconds()),
        }
    }

    /// What to do at `now`, before waiting for events: whether the scan of
    /// the process table is due, and how long to wait after it.
    pub fn before_wait(&mut self, now: u64, config: &Config) -> (plan: WaitPlan)
        ensures
            plan.resync == (now >= old(self).next_sync),
            *final(self) == old(self).after_sync_check(now, config@),
            plan.timeout_ms == final(self).timeout(now),
            plan.timeout_ms >= MIN_WAIT_MS,
    {
        let resync: bool = now >= self.next_sync;
        if resync {
            self.next_sync = deadline_after(now, config.scan_interval_seconds());
        }
        let to_sync: u64 = if self.next_sync >= now {
            self.next_sync - now
        } else {
            0
        };
        let to_fallback: u64 = if self.next_fallback >= now {
            self.next_fallback - now
        } else {
            0
        };
        let nearer: u64 = if to_sync <= to_fallback {
            to_sync
        } else {
            to_fallback
        };
        let timeout_ms: u64 = if nearer >= MIN_WAIT_MS {
            nearer
        } else {
            MIN_WAIT_MS
        };
        WaitPlan { resync, timeout_ms }
    }

    /// Whether the fallback poll is due at `now`, after the wait for events.
    pub fn after_wait(&mut self, now: u64, config: &Config) -> (due: bool)
        ensures
            due == (now >= old(self).next_fallback),
            *final(self) == old(self).after_fallback_check(now, config@),
    {
        let due: bool = now >= self.next_fallback;
        if due {
            self.next_fallback = deadline_after(now, config.fallback_poll_seconds());
        }
        due
    }
}

/// Why the watchdog could not be set up.
#[derive(Clone, Debug, PartialEq, Eq)]
pub enum InitError {
    /// The display of the configuration is no display name.
    InvalidDisplay(String),
    /// The kernel gave no inotify instance.
    NoInotify,
}

/// The mathematical content of a [`Guard`].
pub struct GuardView {
    pub config: ConfigView,
    pub socket_path: Seq<char>,
    pub fd: i32,
    pub watches: Map<i32, i32>,
    pub restart: RestartState,
}

/// The watchdog's state: its configuration, the path of the X11 socket, the
/// table of watches and the restart controller.
pub struct Guard {
    config: Config,
    socket_path: String,
    inotify: InotifyWatch,
    restart: RestartController,
}

impl View for Guard {
    type V = GuardView;

    closed spec fn view(&self) -> GuardView {
        GuardView {
            config: self.config@,
            socket_path: self.socket_path@,
            fd: self.inotify.spec_fd(),
            watches: self.inotify@,
            restart: self.restart@,
        }
    }
}

impl Guard {
    /// Sets the watchdog up for `config`, with the inotify instance that the
    /// kernel gave as `inotify_fd` (negative: it gave none).
    ///
    /// Fails where the display of the configuration is no display name, and
    /// else where there is no inotify instance.
    pub fn new(config: Config, inotify_fd: i32) -> (r: Result<Guard, InitError>)
        ensures
            match r {
                Ok(guard) => {
                    &&& valid_display(config@.display)
                    &&& inotify_fd >= 0
                    &&& guard@ == (GuardView {
                        config: config@,
                        socket_path: socket_prefix() + display_number(config@.display),
                        fd: inotify_fd,
                        watches: Map::empty(),
                        restart: RestartState { last_restart: None, phase: Phase::Idle },
                    })
                },
                Err(InitError::InvalidDisplay(display)) => !valid_display(config@.display)
                    && display@ == config@.display,
                Err(InitError::NoInotify) => valid_display(config@.display) && inotify_fd < 0,
            },
    {
        let socket_path = match display_to_socket(config.display()) {
            Ok(path) => path,
            Err(e) => {
                return Err(InitError::InvalidDisplay(e.display));
            },
        };
        let inotify = match InotifyWatch::new(inotify_fd) {
            Some(watch) => watch,
            None => {
                return Err(InitError::NoInotify);
            },
        };
        Ok(Guard { config, socket_path, inotify, restart: RestartController::new() })
    }

    /// The configuration.
    pub fn config(&self) -> (config: &Config)
        ensures
            config@ == self@.config,
    {
        &self.config
    }

    /// The path of the socket of the X11 server.
    pub fn socket_path(&self) -> (path: &str)
        ensures
            path@ == self@.socket_path,
    {
        self.socket_path.as_str()
    }

    /// The table of watches.
    pub fn inotify(&self) -> (watch: &InotifyWatch)
        ensures
            watch@ == self@.watches,
            watch.spec_fd() == self@.fd,
    {
        &self.inotify
    }

    /// The restart controller.
    pub fn restart(&self) -> (controller: &RestartController)
        ensures
            controller@ == self@.restart,
    {
        &self.restart
    }

    /// What to tell the user at the start.
    pub fn startup_notice(&self) -> (notice: Notice)
        ensures
            notice == (Notice::Started { threshold: self@.config.threshold }),
    {
        Notice::Started { threshold: self.config.threshold() }
    }

    /// What to tell the user about a count that is within bounds.
    pub fn status_notice(&self, count: usize) -> (notice: Notice)
        ensures
            notice == (Notice::Status { count, threshold: self@.config.threshold }),
    {
        Notice::Status { count, threshold: self.config.threshold() }
    }

    /// Brings the watches in line with `pids`, the processes of the
    /// application that exist: see [`InotifyWatch::sync_pids`].
    pub fn sync_watches(&mut self, pids: &[i32]) -> (plan: SyncPlan)
        ensures
            final(self)@ == (GuardView { watches: kept(old(self)@.watches, pids@), ..old(self)@ }),
            plan.retired@.no_duplicates(),
            plan.retired@.to_set() == stale_watches(old(self)@.watches, pids@),
            plan.wanted@.no_duplicates(),
            plan.wanted@.to_set() == unwatched(old(self)@.watches, pids@),
    {
        self.inotify.sync_pids(pids)
    }

    /// Records the kernel's answer `wd` to the request to watch `pid`: see
    /// [`InotifyWatch::add_pid`].
    pub fn add_watch(&mut self, pid: i32, wd: i32)
        ensures
            final(self)@ == (GuardView {
                watches: spec_add(old(self)@.watches, pid, wd),
                ..old(self)@
            }),
    {
        self.inotify.add_pid(pid, wd)
    }

    /// Takes in what was read after a wait: see
    /// [`InotifyWatch::wait_for_events`].
    pub fn wait_for_events(&mut self, order: ByteOrder, chunks: &Vec<Vec<u8>>) -> (batch:
        EventBatch)
        ensures
            gathered(final(self)@.watches, &batch) == spec_absorb_chunks(
                Gathered { table: old(self)@.watches, fired: Seq::empty(), retired: Seq::empty() },
                order,
                chunk_views(chunks@),
            ),
            final(self)@ == (GuardView { watches: final(self)@.watches, ..old(self)@ }),
            final(self)@.watches.submap_of(old(self)@.watches),
            batch.fired@.no_duplicates(),
            forall|p: i32| batch.fired@.contains(p) ==> old(self)@.watches.contains_key(p),
    {
        self.inotify.wait_for_events(order, chunks)
    }

    /// What to make of `count` connections held by the processes `pids`:
    /// see [`spec_verdict`].
    pub fn check_threshold(&self, trigger: Trigger, pids: &[i32], count: usize) -> (verdict:
        Verdict)
        ensures
            verdict == spec_verdict(trigger, pids@, count, self@.config.threshold),
    {
        check_threshold(trigger, pids, count, self.config.threshold())
    }

    /// Reports that the threshold is exceeded with `count` connections at
    /// `now`: see [`spec_begin`].
    pub fn restart_app(&mut self, now: u64, count: usize) -> (commands: Vec<Command>)
        ensures
            (Step { state: final(self)@.restart, commands: command_views(commands@) })
                == spec_begin(old(self)@.restart, now, count, old(self)@.config),
            final(self)@ == (GuardView { restart: final(self)@.restart, ..old(self)@ }),
    {
        self.restart.maybe_restart(now, count, &self.config)
    }

    /// Reports the processes of the application that exist at `now`, in
    /// answer to [`Command::Lookup`]: see [`spec_resume`].
    pub fn resume_restart(&mut self, now: u64, pids: &[i32]) -> (commands: Vec<Command>)
        ensures
            (Step { state: final(self)@.restart, commands: command_views(commands@) })
                == spec_resume(old(self)@.restart, now, pids@, old(self)@.config),
            final(self)@ == (GuardView { restart: final(self)@.restart, ..old(self)@ }),
    {
        self.restart.resume(now, pids, &self.config)
    }
}

} // verus!
