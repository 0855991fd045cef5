//! The numbers that the operating system gives to the events, signals and
//! errors this library deals with. They are taken from the `libc` crate; the
//! contracts state the values that it defines for Linux.

use vstd::prelude::*;

verus! {

/// A file was created in a watched directory.
pub const CREATE: u32 = 0x100;

/// A file was deleted from a watched directory.
pub const DELETE: u32 = 0x200;

/// The metadata of a file in a watched directory changed.
pub const ATTRIB: u32 = 0x4;

/// A file was moved out of a watched directory.
pub const MOVED_FROM: u32 = 0x40;

/// A file was moved into a watched directory.
pub const MOVED_TO: u32 = 0x80;

/// The watched directory itself was moved.
pub const MOVE_SELF: u32 = 0x800;

/// The watched directory itself was deleted.
pub const DELETE_SELF: u32 = 0x400;

/// `libc::IN_CREATE`, which `libc` defines as `0x0000_0100`.
#[verifier::external_body]
pub(crate) fn in_create() -> (bit: u32)
    ensures
        bit == CREATE,
{
    libc::IN_CREATE
}

/// `libc::IN_DELETE`, which `libc` defines as `0x0000_0200`.
#[verifier::external_body]
pub(crate) fn in_delete() -> (bit: u32)
    ensures
        bit == DELETE,
{
    libc::IN_DELETE
}

/// `libc::IN_ATTRIB`, which `libc` defines as `0x0000_0004`.
#[verifier::external_body]
pub(crate) fn in_attrib() -> (bit: u32)
    ensures
        bit == ATTRIB,
{
    libc::IN_ATTRIB
}

/// `libc::IN_MOVED_FROM`, which `libc` defines as `0x0000_0040`.
#[verifier::external_body]
pub(crate) fn in_moved_from() -> (bit: u32)
    ensures
        bit == MOVED_FROM,
{
    libc::IN_MOVED_FROM
}

/// `libc::IN_MOVED_TO`, which `libc` defines as `0x0000_0080`.
#[verifier::external_body]
pub(crate) fn in_moved_to() -> (bit: u32)
    ensures
        bit == MOVED_TO,
{
    libc::IN_MOVED_TO
}

/// `libc::IN_MOVE_SELF`, which `libc` defines as `0x0000_0800`.
#[verifier::external_body]
pub(crate) fn in_move_self() -> (bit: u32)
    ensures
        bit == MOVE_SELF,
{
    libc::IN_MOVE_SELF
}

/// `libc::IN_DELETE_SELF`, which `libc` defines as `0x0000_0400`.
#[verifier::external_body]
pub(crate) fn in_delete_self() -> (bit: u32)
    ensures
        bit == DELETE_SELF,
{
    libc::IN_DELETE_SELF
}

/// `libc::SIGTERM`, which `libc` defines as 15.
#[verifier::external_body]
pub(crate) fn sigterm() -> (number: i32)
    ensures
        number == 15,
{
    libc::SIGTERM
}

/// `libc::SIGKILL`, which `libc` defines as 9.
#[verifier::external_body]
pub(crate) fn sigkill() -> (number: i32)
    ensures
        number == 9,
{
    libc::SIGKILL
}

/// `libc::EAGAIN`, which `libc` defines as 11 for Linux.
#[verifier::external_body]
pub(crate) fn eagain() -> (code: i32)
    ensures
        code == 11,
{
    libc::EAGAIN
}

/// `libc::EINTR`, which `libc` defines as 4 for Linux.
#[verifier::external_body]
pub(crate) fn eintr() -> (code: i32)
    ensures
        code == 4,
{
    libc::EINTR
}

/// A signal that the watchdog sends.
#[derive(Clone, Copy, Debug, PartialEq, Eq, Structural)]
pub enum Signal {
    /// Asks a process to end.
    Terminate,
    /// Ends a process, which cannot refuse.
    Kill,
}

/// The number of a signal: 15 to terminate, 9 to kill.
pub open spec fn spec_signal_number(signal: Signal) -> i32 {
    match signal {
        Signal::Terminate => 15,
        Signal::Kill => 9,
    }
}

/// The number by which the operating system knows `signal`.
pub fn signal_number(signal: Signal) -> (number: i32)
    ensures
        number == spec_signal_number(signal),
{
    match signal {
        Signal::Terminate => sigterm(),
        Signal::Kill => sigkill(),
    }
}

/// An error that says no more than "nothing now": the call would have
/// blocked (11), or a signal interrupted it (4).
pub open spec fn transient(errno: i32) -> bool {
    errno == 11 || errno == 4
}

/// Whether the error code `errno` of a failed wait or read is one to pass
/// over.
pub fn is_transient(errno: i32) -> (r: bool)
    ensures
        r == transient(errno),
{
    errno == eagain() || errno == eintr()
}

/// Every event that a watch on a directory of descriptors asks for: an entry
/// created, deleted, changed in its attributes, moved in or out, and the
/// directory itself moved or deleted.
pub open spec fn spec_watch_mask() -> u32 {
    0xfc4
}

/// The events to ask for when a directory of descriptors is watched.
pub fn watch_mask() -> (mask: u32)
    ensures
        mask == spec_watch_mask(),
        mask == CREATE | DELETE | ATTRIB | MOVED_FROM | MOVED_TO | MOVE_SELF | DELETE_SELF,
{
    let mask: u32 = in_create() | in_delete() | in_attrib() | in_moved_from() | in_moved_to()
        | in_move_self() | in_delete_self();
    assert(0x100u32 | 0x200u32 | 0x4u32 | 0x40u32 | 0x80u32 | 0x800u32 | 0x400u32 == 0xfc4u32)
        by (bit_vector);
    mask
}

/// Whether an event with these bits says that the watched directory itself
/// is gone: moved or deleted.
pub open spec fn self_gone(mask: u32) -> bool {
    mask & (DELETE_SELF | MOVE_SELF) != 0
}

/// Whether the event bits `mask` say that the watched directory is gone.
pub fn is_self_gone(mask: u32) -> (r: bool)
    ensures
        r == self_gone(mask),
{
    mask & (in_delete_self() | in_move_self()) != 0
}

} // verus!
