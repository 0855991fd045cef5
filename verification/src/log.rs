//! The lines that the watchdog writes: the time in seconds since the Unix
//! epoch, the prefix of the configuration, and the message.

use vstd::prelude::*;
use vstd::string::StringExecFns;
use crate::text::decimal_digits;
use crate::text::decimal_string;

verus! {

/// The time to write in front of a log line: the whole seconds that the
/// system clock shows since the Unix epoch, as read by the caller; zero
/// where the clock shows a time before the epoch, which is `None`.
pub fn timestamp(since_epoch: Option<u64>) -> (seconds: u64)
    ensures
        seconds == (match since_epoch {
            Some(s) => s,
            None => 0,
        }),
{
    match since_epoch {
        Some(s) => s,
        None => 0,
    }
}

/// The line for `message`: the seconds in base ten, the prefix and the
/// message, with one space between them.
pub open spec fn spec_log_line(seconds: u64, prefix: Seq<char>, message: Seq<char>) -> Seq<char> {
    decimal_digits(seconds as nat) + seq![' '] + prefix + seq![' '] + message
}

/// The log line for `message` at the time `seconds`.
pub fn log_line(seconds: u64, prefix: &str, message: &str) -> (line: String)
    ensures
        line@ == spec_log_line(seconds, prefix@, message@),
{
    proof {
        reveal_strlit(" ");
        assert(" "@ =~= seq![' ']);
    }
    decimal_string(seconds).concat(" ").concat(prefix).concat(" ").concat(message)
}

} // verus!
