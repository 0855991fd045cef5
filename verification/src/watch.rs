//! The table of watched processes and the reading of the records by which
//! the kernel reports changes in their directories of descriptors.

use std::collections::HashMap;
use std::collections::HashSet;
use vstd::prelude::*;
use vstd::std_specs::iter::IteratorSpec;
use crate::sys::is_self_gone;
use crate::sys::self_gone;

verus! {

broadcast use vstd::std_specs::hash::group_hash_axioms;

/// The number of bytes to offer to one read of event records.
pub const EVENT_BUF_SIZE: usize = 8192;

/// The length of the fixed part of an event record: four fields of four
/// bytes, of which the last gives the length of the name that follows.
pub const HEADER_LEN: usize = 16;

/// The order in which the machine stores the bytes of a number.
#[derive(Clone, Copy, Debug, PartialEq, Eq, Structural)]
pub enum ByteOrder {
    /// Least significant byte first.
    Little,
    /// Most significant byte first.
    Big,
}

/// One event: the watch it belongs to, and the bits that say what happened.
#[derive(Clone, Copy, Debug, PartialEq, Eq, Structural)]
pub struct WatchEvent {
    pub wd: i32,
    pub mask: u32,
}

/// The number that four bytes write, the first of them the least significant.
pub open spec fn compose(b0: u8, b1: u8, b2: u8, b3: u8) -> u32 {
    (b0 as int + b1 as int * 0x100 + b2 as int * 0x1_0000 + b3 as int * 0x100_0000) as u32
}

/// The unsigned number held by the four bytes of `buf` from `at` on.
pub open spec fn spec_u32_at(order: ByteOrder, buf: Seq<u8>, at: int) -> u32 {
    match order {
        ByteOrder::Little => compose(buf[at], buf[at + 1], buf[at + 2], buf[at + 3]),
        ByteOrder::Big => compose(buf[at + 3], buf[at + 2], buf[at + 1], buf[at]),
    }
}

/// The signed number with the same 32 bits as `x` (two's complement).
pub open spec fn as_signed(x: u32) -> i32 {
    if x < 0x8000_0000 {
        x as i32
    } else {
        (x - 0x1_0000_0000) as i32
    }
}

/// The events recorded in `buf` from position `from` on.
///
/// A record is a watch descriptor, the event bits, a cookie and the length of
/// a name, four bytes each, and then the name. Reading stops at the first
/// record that the buffer does not hold whole, be it its fixed part or its
/// name.
pub open spec fn spec_decode(order: ByteOrder, buf: Seq<u8>, from: int) -> Seq<WatchEvent>
    decreases buf.len() - from,
{
    if from < 0 || from + HEADER_LEN > buf.len() {
        Seq::empty()
    } else {
        let next = from + HEADER_LEN + spec_u32_at(order, buf, from + 12);
        if next > buf.len() {
            Seq::empty()
        } else {
            seq![
                WatchEvent {
                    wd: as_signed(spec_u32_at(order, buf, from)),
                    mask: spec_u32_at(order, buf, from + 4),
                },
            ] + spec_decode(order, buf, next)
        }
    }
}

/// Reads the unsigned number held by four bytes of `buf`.
fn u32_at(order: ByteOrder, buf: &[u8], at: usize) -> (x: u32)
    requires
        at + 4 <= buf@.len(),
    ensures
        x == spec_u32_at(order, buf@, at as int),
{
    let a: u32 = buf[at] as u32;
    let b: u32 = buf[at + 1] as u32;
    let c: u32 = buf[at + 2] as u32;
    let d: u32 = buf[at + 3] as u32;
    match order {
        ByteOrder::Little => a + b * 0x100 + c * 0x1_0000 + d * 0x100_0000,
        ByteOrder::Big => d + c * 0x100 + b * 0x1_0000 + a * 0x100_0000,
    }
}

/// Reads `x` as a signed number of the same bits.
fn to_signed(x: u32) -> (y: i32)
    ensures
        y == as_signed(x),
{
    if x < 0x8000_0000 {
        x as i32
    } else {
        ((x - 0x8000_0000) as i32) + i32::MIN
    }
}

/// Reads the event records that `buf` holds whole, in order.
pub fn decode_events(order: ByteOrder, buf: &[u8]) -> (events: Vec<WatchEvent>)
    ensures
        events@ == spec_decode(order, buf@, 0),
{
    let total: usize = buf.len();
    let mut events: Vec<WatchEvent> = Vec::new();
    let mut offset: usize = 0;
    while total - offset >= HEADER_LEN
        invariant
            offset <= total,
            total == buf@.len(),
            events@ + spec_decode(order, buf@, offset as int) == spec_decode(order, buf@, 0),
        ensures
            spec_decode(order, buf@, offset as int) == Seq::<WatchEvent>::empty(),
        decreases total - offset,
    {
        let name_len: usize = u32_at(order, buf, offset + 12) as usize;
        if name_len > total - offset - HEADER_LEN {
            break ;
        }
        let event = WatchEvent {
            wd: to_signed(u32_at(order, buf, offset)),
            mask: u32_at(order, buf, offset + 4),
        };
        let ghost rest = spec_decode(order, buf@, offset + HEADER_LEN + name_len);
        assert(spec_decode(order, buf@, offset as int) == seq![event] + rest);
        assert(events@.push(event) + rest =~= events@ + (seq![event] + rest));
        events.push(event);
        offset = offset + HEADER_LEN + name_len;
    }
    assert(events@ + Seq::<WatchEvent>::empty() =~= events@);
    events
}

/// Whether `v` holds `x`.
pub fn holds(v: &[i32], x: i32) -> (r: bool)
    ensures
        r == v@.contains(x),
{
    let mut i: usize = 0;
    while i < v.len()
        invariant
            i <= v@.len(),
            forall|k: int| 0 <= k < i ==> v@[k] != x,
        decreases v@.len() - i,
    {
        if v[i] == x {
            return true;
        }
        i += 1;
    }
    false
}

/// The set of the processes that `pids` lists.
pub fn pid_set(pids: &[i32]) -> (set: HashSet<i32>)
    ensures
        set@ == pids@.to_set(),
{
    let mut set: HashSet<i32> = HashSet::new();
    let mut i: usize = 0;
    assert(pids@.take(0).to_set() =~= Set::<i32>::empty());
    while i < pids.len()
        invariant
            i <= pids@.len(),
            set@ == pids@.take(i as int).to_set(),
        decreases pids@.len() - i,
    {
        proof {
            pids@.take(i as int).lemma_push_to_set_commute(pids@[i as int]);
            assert(pids@.take(i + 1) =~= pids@.take(i as int).push(pids@[i as int]));
        }
        set.insert(pids[i]);
        i += 1;
    }
    assert(pids@.take(i as int) =~= pids@);
    set
}

/// Two maps that are each other's inverse.
pub open spec fn paired(by_wd: Map<i32, i32>, by_pid: Map<i32, i32>) -> bool {
    &&& forall|w: i32| #[trigger]
        by_wd.contains_key(w) ==> by_pid.contains_key(by_wd[w]) && by_pid[by_wd[w]] == w
    &&& forall|p: i32| #[trigger]
        by_pid.contains_key(p) ==> by_wd.contains_key(by_pid[p]) && by_wd[by_pid[p]] == p
}

/// No two processes of the table share a watch.
pub open spec fn one_to_one(table: Map<i32, i32>) -> bool {
    forall|p: i32, q: i32|
        table.contains_key(p) && table.contains_key(q) && #[trigger] table[p] == #[trigger] table[q]
            ==> p == q
}

/// The process that the watch `wd` belongs to in `table`, if there is one.
pub open spec fn owner(table: Map<i32, i32>, wd: i32) -> Option<i32> {
    if exists|p: i32| table.contains_key(p) && #[trigger] table[p] == wd {
        Some(choose|p: i32| table.contains_key(p) && #[trigger] table[p] == wd)
    } else {
        None
    }
}

/// The table without the process that holds the watch `wd`.
pub open spec fn without_watch(table: Map<i32, i32>, wd: i32) -> Map<i32, i32> {
    table.restrict(Set::new(|p: i32| table.contains_key(p) && table[p] != wd))
}

/// The table after the kernel has answered the request to watch `pid` with
/// `wd`. Nothing changes where `pid` is watched already or the request
/// failed (`wd` is negative). Else `pid` holds `wd`, and no other process
/// does.
pub open spec fn spec_add(table: Map<i32, i32>, pid: i32, wd: i32) -> Map<i32, i32> {
    if table.contains_key(pid) || wd < 0 {
        table
    } else {
        without_watch(table, wd).insert(pid, wd)
    }
}

/// What is to be done to bring the watches in line with the processes that
/// exist: the watch descriptors to hand back to the kernel, and the processes
/// for which to ask the kernel for a watch.
#[derive(Clone, Debug, PartialEq, Eq)]
pub struct SyncPlan {
    pub retired: Vec<i32>,
    pub wanted: Vec<i32>,
}

/// The table without the processes that are not among `current`.
pub open spec fn kept(table: Map<i32, i32>, current: Seq<i32>) -> Map<i32, i32> {
    table.restrict(current.to_set())
}

/// The watch descriptors of the processes that are not among `current`.
pub open spec fn stale_watches(table: Map<i32, i32>, current: Seq<i32>) -> Set<i32> {
    Set::new(
        |w: i32|
            exists|p: i32|
                table.contains_key(p) && !current.contains(p) && #[trigger] table[p] == w,
    )
}

/// The processes among `current` that are not watched.
pub open spec fn unwatched(table: Map<i32, i32>, current: Seq<i32>) -> Set<i32> {
    Set::new(|p: i32| current.contains(p) && !table.contains_key(p))
}

/// What a wait has gathered: the processes whose watch fired, each once and
/// in the order in which they first fired, and the watch descriptors that
/// left the table because their directory is gone.
#[derive(Clone, Debug, PartialEq, Eq)]
pub struct EventBatch {
    pub fired: Vec<i32>,
    pub retired: Vec<i32>,
}

/// The table and what has been gathered, while events are taken in.
pub struct Gathered {
    pub table: Map<i32, i32>,
    pub fired: Seq<i32>,
    pub retired: Seq<i32>,
}

/// A table together with what a batch holds.
pub open spec fn gathered(table: Map<i32, i32>, batch: &EventBatch) -> Gathered {
    Gathered { table, fired: batch.fired@, retired: batch.retired@ }
}

/// Takes in one event.
///
/// An event of a watch that the table does not hold changes nothing. Else
/// the process that holds the watch has fired. If the event says that the
/// watched directory is gone, the process leaves the table and its watch is
/// retired.
pub open spec fn spec_note(g: Gathered, event: WatchEvent) -> Gathered {
    match owner(g.table, event.wd) {
        None => g,
        Some(pid) => Gathered {
            table: if self_gone(event.mask) {
                g.table.remove(pid)
            } else {
                g.table
            },
            fired: if g.fired.contains(pid) {
                g.fired
            } else {
                g.fired.push(pid)
            },
            retired: if self_gone(event.mask) {
                g.retired.push(event.wd)
            } else {
                g.retired
            },
        },
    }
}

/// Takes in the events of a list, first to last.
pub open spec fn spec_absorb(g: Gathered, events: Seq<WatchEvent>) -> Gathered
    decreases events.len(),
{
    if events.len() == 0 {
        g
    } else {
        spec_note(spec_absorb(g, events.drop_last()), events.last())
    }
}

/// Takes in the events recorded in a list of buffers, first to last.
pub open spec fn spec_absorb_chunks(g: Gathered, order: ByteOrder, chunks: Seq<Seq<u8>>) -> Gathered
    decreases chunks.len(),
{
    if chunks.len() == 0 {
        g
    } else {
        spec_absorb(
            spec_absorb_chunks(g, order, chunks.drop_last()),
            spec_decode(order, chunks.last(), 0),
        )
    }
}

/// The bytes that a list of buffers holds.
pub open spec fn chunk_views(chunks: Seq<Vec<u8>>) -> Seq<Seq<u8>> {
    chunks.map_values(|c: Vec<u8>| c@)
}

/// What to do after waiting for the inotify instance to become readable.
#[derive(Clone, Copy, Debug, PartialEq, Eq, Structural)]
pub enum Readiness {
    /// The wait failed for good.
    Fatal,
    /// Nothing to read: the time ran out, or the wait was cut short.
    Idle,
    /// There are events to read.
    Readable,
}

/// What to do after one read from the inotify instance.
#[derive(Clone, Copy, Debug, PartialEq, Eq, Structural)]
pub enum ReadStep {
    /// The read failed for good.
    Fatal,
    /// Everything has been read.
    Drained,
    /// The buffer holds this many bytes of event records, at most its own
    /// length; read again after taking them in.
    Data(usize),
}

/// The time to wait, in milliseconds, as the kernel takes it: at most
/// `i32::MAX`.
pub fn poll_timeout(timeout_ms: u64) -> (t: i32)
    ensures
        t == (if timeout_ms <= i32::MAX { timeout_ms as int } else { i32::MAX as int }),
{
    if timeout_ms <= i32::MAX as u64 {
        timeout_ms as i32
    } else {
        i32::MAX
    }
}

/// Reads the answer of a wait: `result` is what the kernel returned, and
/// `errno` the error code where that is negative.
pub fn after_poll(result: i32, errno: i32) -> (r: Readiness)
    ensures
        r == (if result > 0 {
            Readiness::Readable
        } else if result == 0 || crate::sys::transient(errno) {
            Readiness::Idle
        } else {
            Readiness::Fatal
        }),
{
    if result > 0 {
        Readiness::Readable
    } else if result == 0 || crate::sys::is_transient(errno) {
        Readiness::Idle
    } else {
        Readiness::Fatal
    }
}

/// Reads the answer of a read into a buffer of `capacity` bytes: `size` is
/// what the kernel returned, and `errno` the error code where that is
/// negative. The data is never taken to be longer than the buffer.
pub fn after_read(size: isize, errno: i32, capacity: usize) -> (r: ReadStep)
    ensures
        r == (if size > 0 {
            ReadStep::Data(
                if size <= capacity {
                    size as usize
                } else {
                    capacity
                },
            )
        } else if size == 0 || crate::sys::transient(errno) {
            ReadStep::Drained
        } else {
            ReadStep::Fatal
        }),
{
    if size > 0 {
        let length: usize = size as usize;
        ReadStep::Data(
            if length <= capacity {
                length
            } else {
                capacity
            },
        )
    } else if size == 0 || crate::sys::is_transient(errno) {
        ReadStep::Drained
    } else {
        ReadStep::Fatal
    }
}

/// The two directions of the table.
struct Table {
    by_wd: HashMap<i32, i32>,
    by_pid: HashMap<i32, i32>,
}

impl Table {
    fn new() -> (t: Table)
        ensures
            t.by_wd@ == Map::<i32, i32>::empty(),
            t.by_pid@ == Map::<i32, i32>::empty(),
    {
        Table { by_wd: HashMap::new(), by_pid: HashMap::new() }
    }
}

/// Which process is watched through which watch descriptor of one inotify
/// instance. A process has at most one watch, and a watch one process.
pub struct InotifyWatch {
    fd: i32,
    table: Table,
}

impl View for InotifyWatch {
    type V = Map<i32, i32>;

    /// The watch descriptor of each watched process.
    closed spec fn view(&self) -> Map<i32, i32> {
        self.table.by_pid@
    }
}

impl InotifyWatch {
    #[verifier::type_invariant]
    spec fn well_formed(self) -> bool {
        self.fd >= 0 && paired(self.table.by_wd@, self.table.by_pid@)
    }

    /// The descriptor of the inotify instance.
    pub closed spec fn spec_fd(&self) -> i32 {
        self.fd
    }

    /// An empty table for the inotify instance that the kernel gave as `fd`;
    /// none where `fd` is negative, which is how the kernel says that it
    /// gave none.
    pub fn new(fd: i32) -> (watch: Option<InotifyWatch>)
        ensures
            fd < 0 <==> watch is None,
            watch matches Some(w) ==> w.spec_fd() == fd && w@ == Map::<i32, i32>::empty(),
    {
        if fd < 0 {
            None
        } else {
            Some(InotifyWatch { fd, table: Table::new() })
        }
    }

    /// Shows what holds of every table: its descriptor is not negative, and
    /// no two processes share a watch.
    pub fn validity(&self)
        ensures
            self.spec_fd() >= 0,
            one_to_one(self@),
            self@.dom().finite(),
    {
        proof {
            use_type_invariant(self);
            assert forall|p: i32, q: i32|
                self@.contains_key(p) && self@.contains_key(q) && #[trigger] self@[p]
                    == #[trigger] self@[q] implies p == q by {
                assert(self.table.by_wd@[self@[p]] == p);
                assert(self.table.by_wd@[self@[q]] == q);
            }
        }
    }

    /// The descriptor of the inotify instance.
    pub fn fd(&self) -> (fd: i32)
        ensures
            fd == self.spec_fd(),
            fd >= 0,
    {
        proof {
            use_type_invariant(self);
        }
        self.fd
    }

    /// Whether `pid` is watched.
    pub fn watched(&self, pid: i32) -> (r: bool)
        ensures
            r == self@.contains_key(pid),
    {
        self.table.by_pid.contains_key(&pid)
    }

    /// The number of watched processes.
    pub fn len(&self) -> (n: usize)
        ensures
            n == self@.len(),
    {
        self.table.by_pid.len()
    }

    /// The watch descriptor of `pid`, if it is watched.
    pub fn watch_of(&self, pid: i32) -> (wd: Option<i32>)
        ensures
            wd == (if self@.contains_key(pid) {
                Some(self@[pid])
            } else {
                None
            }),
    {
        match self.table.by_pid.get(&pid) {
            Some(wd) => Some(*wd),
            None => None,
        }
    }

    /// The process watched through `wd`, if there is one.
    pub fn pid_of(&self, wd: i32) -> (pid: Option<i32>)
        ensures
            pid == owner(self@, wd),
    {
        proof {
            use_type_invariant(self);
        }
        match self.table.by_wd.get(&wd) {
            Some(pid) => {
                assert(self@.contains_key(*pid) && self@[*pid] == wd);
                let ghost other = choose|p: i32| self@.contains_key(p) && #[trigger] self@[p] == wd;
                assert(self.table.by_wd@[self@[other]] == other);
                Some(*pid)
            },
            None => {
                assert forall|p: i32| self@.contains_key(p) implies #[trigger] self@[p] != wd by {
                    if self@[p] == wd {
                        assert(self.table.by_wd@.contains_key(self@[p]));
                    }
                }
                None
            },
        }
    }

    /// Records that the kernel answered the request to watch the directory
    /// of descriptors of `pid` with `wd`.
    ///
    /// Nothing is recorded for a process that is watched already, nor for a
    /// request that failed (a negative `wd`). Should `wd` belong to another
    /// process of the table, that process leaves it: the kernel has given its
    /// watch away.
    pub fn add_pid(&mut self, pid: i32, wd: i32)
        ensures
            final(self)@ == spec_add(old(self)@, pid, wd),
            final(self).spec_fd() == old(self).spec_fd(),
    {
        proof {
            use_type_invariant(&*self);
        }
        if wd < 0 || self.table.by_pid.contains_key(&pid) {
            return ;
        }
        let mut table = Table::new();
        std::mem::swap(&mut self.table, &mut table);
        let ghost before = table.by_pid@;
        match table.by_wd.remove(&wd) {
            Some(other) => {
                table.by_pid.remove(&other);
                assert(table.by_pid@ =~= without_watch(before, wd)) by {
                    assert forall|p: i32| before.contains_key(p) && p != other implies before[p]
                        != wd by {
                        if before[p] == wd {
                            assert(before.contains_key(p));
                        }
                    }
                }
            },
            None => {
                assert(table.by_pid@ =~= without_watch(before, wd)) by {
                    assert forall|p: i32| before.contains_key(p) implies before[p] != wd by {
                        if before[p] == wd {
                            assert(before.contains_key(p));
                        }
                    }
                }
            },
        }
        table.by_wd.insert(wd, pid);
        table.by_pid.insert(pid, wd);
        self.table = table;
    }

    /// The watched processes that are not among `current`, each once.
    fn stale_pids(&self, current: &HashSet<i32>) -> (stale: Vec<i32>)
        ensures
            stale@.no_duplicates(),
            forall|k: int|
                0 <= k < stale@.len() ==> self@.contains_key(#[trigger] stale@[k])
                    && !current@.contains(stale@[k]),
            forall|p: i32| self@.contains_key(p) && !current@.contains(p) ==> stale@.contains(p),
    {
        let mut stale: Vec<i32> = Vec::new();
        let ghost mut src: Seq<int> = Seq::empty();
        let keys = self.table.by_pid.keys();
        let ghost all = keys.remaining();
        assert(all.unref().to_set() == self@.dom());
        for pid in it: keys
            invariant
                it.seq() == all,
                all.no_duplicates(),
                all.unref().to_set() == self@.dom(),
                src.len() == stale@.len(),
                forall|k: int|
                    0 <= k < src.len() ==> 0 <= #[trigger] src[k] < it.index() && stale@[k]
                        == *all[src[k]],
                forall|a: int, b: int| 0 <= a < b < src.len() ==> src[a] < src[b],
                forall|k: int|
                    0 <= k < stale@.len() ==> !current@.contains(#[trigger] stale@[k]),
                forall|j: int|
                    0 <= j < it.index() && !current@.contains(*#[trigger] all[j])
                        ==> stale@.contains(*all[j]),
        {
            let ghost at = it.index();
            let ghost prev = stale@;
            if !current.contains(pid) {
                stale.push(*pid);
                proof {
                    src = src.push(at as int);
                    assert forall|j: int|
                        0 <= j < at + 1 && !current@.contains(*#[trigger] all[j]) implies stale@.contains(
                        *all[j],
                    ) by {
                        if j < at {
                            let k = choose|k: int| 0 <= k < prev.len() && prev[k] == *all[j];
                            assert(stale@[k] == *all[j]);
                        } else {
                            assert(stale@[prev.len() as int] == *all[j]);
                        }
                    }
                }
            }
        }
        proof {
            assert forall|a: int, b: int|
                0 <= a < stale@.len() && 0 <= b < stale@.len() && a != b implies stale@[a]
                != stale@[b] by {
                assert(src[a] != src[b]);
                assert(all[src[a]] != all[src[b]]);
            }
            assert forall|k: int| 0 <= k < stale@.len() implies self@.contains_key(
                #[trigger] stale@[k],
            ) by {
                assert(all.unref()[src[k]] == stale@[k]);
                assert(all.unref().to_set().contains(stale@[k]));
            }
            assert forall|p: i32|
                self@.contains_key(p) && !current@.contains(p) implies stale@.contains(p) by {
                assert(all.unref().to_set().contains(p));
                let j = choose|j: int| 0 <= j < all.unref().len() && all.unref()[j] == p;
                assert(*all[j] == p);
            }
        }
        stale
    }

    /// Brings the table in line with `current`, the processes that exist.
    ///
    /// The processes that are not among them leave the table. The plan lists
    /// their watch descriptors, and the processes among `current` that have
    /// no watch: for each of these the caller asks the kernel for a watch and
    /// hands the answer to [`InotifyWatch::add_pid`].
    pub fn sync_pids(&mut self, current: &[i32]) -> (plan: SyncPlan)
        ensures
            final(self)@ == kept(old(self)@, current@),
            final(self).spec_fd() == old(self).spec_fd(),
            plan.retired@.no_duplicates(),
            plan.retired@.to_set() == stale_watches(old(self)@, current@),
            plan.wanted@.no_duplicates(),
            plan.wanted@.to_set() == unwatched(old(self)@, current@),
    {
        proof {
            use_type_invariant(&*self);
        }
        self.validity();
        let ghost before = self@;
        let present = pid_set(current);
        let stale = self.stale_pids(&present);
        let mut table = Table::new();
        std::mem::swap(&mut self.table, &mut table);
        let mut retired: Vec<i32> = Vec::new();
        let mut i: usize = 0;
        while i < stale.len()
            invariant
                i <= stale@.len(),
                stale@.no_duplicates(),
                forall|k: int|
                    0 <= k < stale@.len() ==> before.contains_key(#[trigger] stale@[k])
                        && !current@.contains(stale@[k]),
                paired(table.by_wd@, table.by_pid@),
                forall|p: i32|
                    #![trigger table.by_pid@.contains_key(p)]
                    table.by_pid@.contains_key(p) <==> before.contains_key(p) && !stale@.take(
                        i as int,
                    ).contains(p),
                forall|p: i32|
                    table.by_pid@.contains_key(p) ==> #[trigger] table.by_pid@[p] == before[p],
                retired@.len() == i,
                forall|k: int| 0 <= k < i ==> #[trigger] retired@[k] == before[stale@[k]],
            decreases stale@.len() - i,
        {
            let pid: i32 = stale[i];
            proof {
                assert(stale@[i as int] == pid);
                if stale@.take(i as int).contains(pid) {
                    let k = choose|k: int| 0 <= k < i && stale@.take(i as int)[k] == pid;
                    assert(stale@[k] == stale@[i as int]);
                }
                assert(table.by_pid@.contains_key(pid));
            }
            let found = table.by_pid.remove(&pid);
            let wd: i32 = found.unwrap();
            table.by_wd.remove(&wd);
            retired.push(wd);
            proof {
                assert forall|p: i32|
                    #![trigger table.by_pid@.contains_key(p)]
                    table.by_pid@.contains_key(p) <==> before.contains_key(p) && !stale@.take(
                        i + 1,
                    ).contains(p) by {
                    let shorter = stale@.take(i as int);
                    let longer = stale@.take(i + 1);
                    assert(longer =~= shorter.push(pid));
                    if shorter.contains(p) {
                        let k = choose|k: int| 0 <= k < shorter.len() && shorter[k] == p;
                        assert(longer[k] == p);
                    }
                    if p == pid {
                        assert(longer[i as int] == p);
                    }
                    if longer.contains(p) && p != pid {
                        let k = choose|k: int| 0 <= k < longer.len() && longer[k] == p;
                        assert(shorter[k] == p);
                    }
                }
            }
            i += 1;
        }
        let mut wanted: Vec<i32> = Vec::new();
        let mut listed: HashSet<i32> = HashSet::new();
        let mut j: usize = 0;
        while j < current.len()
            invariant
                j <= current@.len(),
                wanted@.no_duplicates(),
                listed@ == wanted@.to_set(),
                forall|p: i32|
                    #![trigger wanted@.contains(p)]
                    wanted@.contains(p) <==> current@.take(j as int).contains(p)
                        && !table.by_pid@.contains_key(p),
            decreases current@.len() - j,
        {
            let pid: i32 = current[j];
            let ghost prev = wanted@;
            let mut add: bool = false;
            if !table.by_pid.contains_key(&pid) {
                add = listed.insert(pid);
            }
            if add {
                wanted.push(pid);
                proof {
                    prev.lemma_push_to_set_commute(pid);
                }
            } else {
                assert(listed@ =~= prev.to_set());
            }
            proof {
                let shorter = current@.take(j as int);
                let longer = current@.take(j + 1);
                assert(longer =~= shorter.push(pid));
                assert forall|p: i32|
                    #![trigger wanted@.contains(p)]
                    wanted@.contains(p) <==> longer.contains(p) && !table.by_pid@.contains_key(
                        p,
                    ) by {
                    if shorter.contains(p) {
                        let k = choose|k: int| 0 <= k < shorter.len() && shorter[k] == p;
                        assert(longer[k] == p);
                    }
                    if p == pid {
                        assert(longer[j as int] == p);
                    }
                    if longer.contains(p) && p != pid {
                        let k = choose|k: int| 0 <= k < longer.len() && longer[k] == p;
                        assert(shorter[k] == p);
                    }
                    if add {
                        assert(wanted@ =~= prev.push(pid));
                        if prev.contains(p) {
                            let k = choose|k: int| 0 <= k < prev.len() && prev[k] == p;
                            assert(wanted@[k] == p);
                        }
                        if p == pid {
                            assert(wanted@[prev.len() as int] == p);
                        }
                        if wanted@.contains(p) && p != pid {
                            let k = choose|k: int| 0 <= k < wanted@.len() && wanted@[k] == p;
                            assert(prev[k] == p);
                        }
                    }
                }
            }
            j += 1;
        }
        proof {
            assert(stale@.take(stale@.len() as int) =~= stale@);
            assert(current@.take(current@.len() as int) =~= current@);
            assert(table.by_pid@ =~= kept(before, current@)) by {
                assert forall|p: i32| table.by_pid@.contains_key(p) <==> kept(
                    before,
                    current@,
                ).contains_key(p) by {
                    if before.contains_key(p) && !current@.contains(p) {
                        assert(stale@.contains(p));
                    }
                    if stale@.contains(p) {
                        let k = choose|k: int| 0 <= k < stale@.len() && stale@[k] == p;
                        assert(!current@.contains(stale@[k]));
                    }
                }
            }
            assert(retired@.no_duplicates()) by {
                assert forall|a: int, b: int|
                    0 <= a < retired@.len() && 0 <= b < retired@.len() && a != b implies retired@[a]
                    != retired@[b] by {
                    assert(retired@[a] == before[stale@[a]]);
                    assert(retired@[b] == before[stale@[b]]);
                    assert(stale@[a] != stale@[b]);
                }
            }
            assert(retired@.to_set() =~= stale_watches(before, current@)) by {
                assert forall|w: i32|
                    retired@.to_set().contains(w) <==> stale_watches(before, current@).contains(
                        w,
                    ) by {
                    if retired@.contains(w) {
                        let k = choose|k: int| 0 <= k < retired@.len() && retired@[k] == w;
                        assert(before[stale@[k]] == w);
                    }
                    if stale_watches(before, current@).contains(w) {
                        let p = choose|p: i32|
                            before.contains_key(p) && !current@.contains(p) && #[trigger] before[p]
                                == w;
                        assert(stale@.contains(p));
                        let k = choose|k: int| 0 <= k < stale@.len() && stale@[k] == p;
                        assert(retired@[k] == w);
                    }
                }
            }
            assert(wanted@.to_set() =~= unwatched(before, current@)) by {
                assert forall|p: i32|
                    wanted@.to_set().contains(p) <==> unwatched(before, current@).contains(p) by {
                    if current@.contains(p) && before.contains_key(p) {
                        assert(table.by_pid@.contains_key(p));
                    }
                }
            }
        }
        self.table = table;
        SyncPlan { retired, wanted }
    }

    /// Takes in one event: see [`spec_note`].
    pub fn note_event(&mut self, event: WatchEvent, batch: &mut EventBatch)
        ensures
            gathered(final(self)@, final(batch)) == spec_note(
                gathered(old(self)@, old(batch)),
                event,
            ),
            final(self).spec_fd() == old(self).spec_fd(),
    {
        let ghost before = gathered(self@, batch);
        match self.pid_of(event.wd) {
            None => {},
            Some(pid) => {
                if !holds(batch.fired.as_slice(), pid) {
                    batch.fired.push(pid);
                }
                if is_self_gone(event.mask) {
                    self.remove_pid(pid);
                    batch.retired.push(event.wd);
                }
                proof {
                    let after = gathered(self@, batch);
                    let goal = spec_note(before, event);
                    assert(after.table =~= goal.table);
                    assert(after.fired =~= goal.fired);
                    assert(after.retired =~= goal.retired);
                }
            },
        }
    }

    /// Takes in the event records that `buf` holds whole, first to last.
    pub fn absorb(&mut self, order: ByteOrder, buf: &[u8], batch: &mut EventBatch)
        ensures
            gathered(final(self)@, final(batch)) == spec_absorb(
                gathered(old(self)@, old(batch)),
                spec_decode(order, buf@, 0),
            ),
            final(self).spec_fd() == old(self).spec_fd(),
    {
        let ghost start = gathered(self@, batch);
        let ghost fd = self.spec_fd();
        let events = decode_events(order, buf);
        let mut i: usize = 0;
        assert(events@.take(0) =~= Seq::<WatchEvent>::empty());
        while i < events.len()
            invariant
                i <= events@.len(),
                self.spec_fd() == fd,
                gathered(self@, batch) == spec_absorb(start, events@.take(i as int)),
            decreases events@.len() - i,
        {
            assert(events@.take(i + 1).drop_last() =~= events@.take(i as int));
            self.note_event(events[i], batch);
            i += 1;
        }
        assert(events@.take(i as int) =~= events@);
    }

    /// Takes in everything that was read after a wait: `chunks` holds what
    /// each read returned, in order. Gives the processes whose watch fired,
    /// each once, and the watch descriptors to hand back to the kernel.
    pub fn wait_for_events(&mut self, order: ByteOrder, chunks: &Vec<Vec<u8>>) -> (batch:
        EventBatch)
        ensures
            gathered(final(self)@, &batch) == spec_absorb_chunks(
                Gathered { table: old(self)@, fired: Seq::empty(), retired: Seq::empty() },
                order,
                chunk_views(chunks@),
            ),
            final(self).spec_fd() == old(self).spec_fd(),
            final(self)@.submap_of(old(self)@),
            batch.fired@.no_duplicates(),
            forall|p: i32| batch.fired@.contains(p) ==> old(self)@.contains_key(p),
    {
        self.validity();
        let ghost start = Gathered { table: self@, fired: Seq::empty(), retired: Seq::empty() };

        let ghost fd = self.spec_fd();
        let ghost all = chunk_views(chunks@);
        let mut batch = EventBatch { fired: Vec::new(), retired: Vec::new() };
        let mut i: usize = 0;
        assert(all.take(0) =~= Seq::<Seq<u8>>::empty());
        while i < chunks.len()
            invariant
                i <= chunks@.len(),
                all == chunk_views(chunks@),
                self.spec_fd() == fd,
                gathered(self@, &batch) == spec_absorb_chunks(start, order, all.take(i as int)),
            decreases chunks@.len() - i,
        {
            assert(all.take(i + 1).drop_last() =~= all.take(i as int));
            assert(all.take(i + 1).last() == chunks@[i as int]@);
            self.absorb(order, chunks[i].as_slice(), &mut batch);
            i += 1;
        }
        assert(all.take(i as int) =~= all);
        proof {
            lemma_absorb_chunks(start, order, all);
            let end = spec_absorb_chunks(start, order, all);
            assert(batch.fired@ == end.fired);
            assert forall|p: i32| batch.fired@.contains(p) implies start.table.contains_key(p) by {
                assert(end.fired.contains(p));
                assert(!start.fired.contains(p));
            }
        }
        batch
    }

    /// Forgets `pid`, and gives the watch descriptor that it held, which is
    /// then to be handed back to the kernel.
    pub fn remove_pid(&mut self, pid: i32) -> (wd: Option<i32>)
        ensures
            final(self)@ == old(self)@.remove(pid),
            final(self).spec_fd() == old(self).spec_fd(),
            wd == (if old(self)@.contains_key(pid) {
                Some(old(self)@[pid])
            } else {
                None
            }),
    {
        proof {
            use_type_invariant(&*self);
        }
        let mut table = Table::new();
        std::mem::swap(&mut self.table, &mut table);
        let found = table.by_pid.remove(&pid);
        match found {
            Some(wd) => {
                table.by_wd.remove(&wd);
            },
            None => {},
        }
        self.table = table;
        found
    }
}

/// Bringing a table in line twice with the same processes changes nothing
/// the second time: no process leaves, no watch is retired, and the
/// processes to ask a watch for are those that the first time left without
/// one.
pub proof fn lemma_sync_twice(table: Map<i32, i32>, current: Seq<i32>)
    ensures
        kept(kept(table, current), current) == kept(table, current),
        stale_watches(kept(table, current), current) == Set::<i32>::empty(),
        unwatched(kept(table, current), current) == unwatched(table, current),
{
    let once = kept(table, current);
    assert(kept(once, current) =~= once);
    assert(stale_watches(once, current) =~= Set::<i32>::empty());
    assert(unwatched(once, current) =~= unwatched(table, current));
}

/// Where the watched processes are exactly the processes that exist,
/// bringing the table in line asks for nothing at all.
pub proof fn lemma_sync_settled(table: Map<i32, i32>, current: Seq<i32>)
    requires
        forall|p: i32| table.contains_key(p) <==> current.contains(p),
    ensures
        kept(table, current) == table,
        stale_watches(table, current) == Set::<i32>::empty(),
        unwatched(table, current) == Set::<i32>::empty(),
{
    assert(kept(table, current) =~= table);
    assert(stale_watches(table, current) =~= Set::<i32>::empty());
    assert(unwatched(table, current) =~= Set::<i32>::empty());
}

/// A watch that the kernel gave is in the table afterwards, with its
/// process, and the table stays one to one.
pub proof fn lemma_add(table: Map<i32, i32>, pid: i32, wd: i32)
    requires
        one_to_one(table),
        wd >= 0,
    ensures
        spec_add(table, pid, wd).contains_key(pid),
        !table.contains_key(pid) ==> spec_add(table, pid, wd)[pid] == wd,
        one_to_one(spec_add(table, pid, wd)),
        forall|p: i32|
            table.contains_key(p) && table[p] != wd ==> #[trigger] spec_add(
                table,
                pid,
                wd,
            ).contains_key(p),
{
}

/// Taking in events never adds a process to the table, and keeps it one to
/// one.
pub proof fn lemma_note_shrinks(g: Gathered, event: WatchEvent)
    requires
        one_to_one(g.table),
    ensures
        spec_note(g, event).table.submap_of(g.table),
        one_to_one(spec_note(g, event).table),
        g.fired.no_duplicates() ==> spec_note(g, event).fired.no_duplicates(),
{
}

/// Whatever events are taken in, the table only loses processes and stays
/// one to one, no process is listed twice among those that fired, and each
/// that is listed anew was watched before.
pub proof fn lemma_absorb(g: Gathered, events: Seq<WatchEvent>)
    requires
        one_to_one(g.table),
        g.fired.no_duplicates(),
    ensures
        spec_absorb(g, events).table.submap_of(g.table),
        one_to_one(spec_absorb(g, events).table),
        spec_absorb(g, events).fired.no_duplicates(),
        forall|p: i32|
            spec_absorb(g, events).fired.contains(p) ==> g.fired.contains(p)
                || g.table.contains_key(p),
    decreases events.len(),
{
    if events.len() > 0 {
        let before = spec_absorb(g, events.drop_last());
        lemma_absorb(g, events.drop_last());
        lemma_note_shrinks(before, events.last());
        let after = spec_note(before, events.last());
        assert forall|p: i32| after.fired.contains(p) implies g.fired.contains(p)
            || g.table.contains_key(p) by {
            if !before.fired.contains(p) {
                let k = choose|k: int| 0 <= k < after.fired.len() && after.fired[k] == p;
                if k < before.fired.len() {
                    assert(before.fired[k] == p);
                }
                assert(before.table.contains_key(p));
            }
        }
    }
}

/// The same of the events recorded in a list of buffers.
pub proof fn lemma_absorb_chunks(g: Gathered, order: ByteOrder, chunks: Seq<Seq<u8>>)
    requires
        one_to_one(g.table),
        g.fired.no_duplicates(),
    ensures
        spec_absorb_chunks(g, order, chunks).table.submap_of(g.table),
        one_to_one(spec_absorb_chunks(g, order, chunks).table),
        spec_absorb_chunks(g, order, chunks).fired.no_duplicates(),
        forall|p: i32|
            spec_absorb_chunks(g, order, chunks).fired.contains(p) ==> g.fired.contains(p)
                || g.table.contains_key(p),
    decreases chunks.len(),
{
    if chunks.len() > 0 {
        let before = spec_absorb_chunks(g, order, chunks.drop_last());
        lemma_absorb_chunks(g, order, chunks.drop_last());
        lemma_absorb(before, spec_decode(order, chunks.last(), 0));
        let after = spec_absorb_chunks(g, order, chunks);
        assert forall|p: i32| #[trigger] after.table.contains_key(p) implies g.table.contains_key(p)
            && after.table[p] == g.table[p] by {
            assert(before.table.contains_key(p));
        }
        assert forall|p: i32| after.fired.contains(p) implies g.fired.contains(p)
            || g.table.contains_key(p) by {
            if before.table.contains_key(p) {
                assert(g.table.contains_key(p));
            }
        }
    }
}

/// An event that says that the directory of a watched process is gone takes
/// the process out of the table, lists it among those that fired, and retires
/// its watch, to which no process belongs afterwards.
pub proof fn lemma_self_removal(g: Gathered, event: WatchEvent, pid: i32)
    requires
        one_to_one(g.table),
        g.table.contains_key(pid),
        g.table[pid] == event.wd,
        self_gone(event.mask),
    ensures
        spec_note(g, event).table == g.table.remove(pid),
        spec_note(g, event).fired.contains(pid),
        spec_note(g, event).retired == g.retired.push(event.wd),
        owner(spec_note(g, event).table, event.wd) is None,
{
    let after = spec_note(g, event);
    assert(owner(g.table, event.wd) == Some(pid));
    if g.fired.contains(pid) {
    } else {
        assert(g.fired.push(pid)[g.fired.len() as int] == pid);
    }
}

} // verus!
