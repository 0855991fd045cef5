//! Finding the processes of an application in a listing of the process
//! table.

use vstd::prelude::*;
use vstd::string::StringExecFns;
use crate::text::all_digit_chars;
use crate::text::all_digits;
use crate::text::chars_of;
use crate::text::decimal_digits;
use crate::text::decimal_string;
use crate::text::decimal_value;
use crate::text::parse_decimal;
use crate::text::spec_trim;
use crate::text::str_eq;
use crate::text::trim;

verus! {

broadcast use vstd::seq_lib::to_multiset_insert;

/// One entry of the directory of processes: its name, and the short command
/// name read from it. The command name is missing where the entry names no
/// process or could not be read, as when the process has ended meanwhile.
#[derive(Clone, Debug, PartialEq, Eq)]
pub struct ProcEntry {
    pub name: String,
    pub comm: Option<String>,
}

/// The mathematical content of a [`ProcEntry`].
pub struct ProcEntryView {
    pub name: Seq<char>,
    pub comm: Option<Seq<char>>,
}

impl View for ProcEntry {
    type V = ProcEntryView;

    open spec fn view(&self) -> ProcEntryView {
        ProcEntryView {
            name: self.name@,
            comm: match self.comm {
                Some(c) => Some(c@),
                None => None,
            },
        }
    }
}

/// The mathematical content of a list of entries.
pub open spec fn entry_views(entries: Seq<ProcEntry>) -> Seq<ProcEntryView> {
    entries.map_values(|e: ProcEntry| e@)
}

/// The process that a directory entry names: its name is made of digits
/// only, at least one, and they write a number that a process identifier can
/// hold.
pub open spec fn spec_pid_of(name: Seq<char>) -> Option<i32> {
    if name.len() > 0 && all_digits(name) && decimal_value(name) <= i32::MAX {
        Some(decimal_value(name) as i32)
    } else {
        None
    }
}

/// The process of an entry, where the entry names one whose command name,
/// without the white space around it, is `process_name`.
pub open spec fn spec_match(entry: ProcEntryView, process_name: Seq<char>) -> Option<i32> {
    match (spec_pid_of(entry.name), entry.comm) {
        (Some(pid), Some(comm)) => if spec_trim(comm) == process_name {
            Some(pid)
        } else {
            None
        },
        _ => None,
    }
}

/// The processes named `process_name`, in the order of the entries.
pub open spec fn spec_matching(entries: Seq<ProcEntryView>, process_name: Seq<char>) -> Seq<i32>
    decreases entries.len(),
{
    if entries.len() == 0 {
        Seq::empty()
    } else {
        let before = spec_matching(entries.drop_last(), process_name);
        match spec_match(entries.last(), process_name) {
            Some(pid) => before.push(pid),
            None => before,
        }
    }
}

/// No element is larger than one that follows it.
pub open spec fn ascending(s: Seq<i32>) -> bool {
    forall|i: int, j: int| 0 <= i <= j < s.len() ==> s[i] <= s[j]
}

/// The decimal writing of a process identifier, with a minus sign where it
/// is negative.
pub open spec fn pid_digits(pid: i32) -> Seq<char> {
    if pid < 0 {
        seq!['-'] + decimal_digits((-pid) as nat)
    } else {
        decimal_digits(pid as nat)
    }
}

/// The process that the directory entry `name` names, if it names one.
pub fn pid_of_entry(name: &str) -> (pid: Option<i32>)
    ensures
        pid == spec_pid_of(name@),
{
    let chars = chars_of(name);
    if chars.len() == 0 || !all_digit_chars(&chars) {
        return None;
    }
    assert(name@[0] != '+');
    match parse_decimal(name, i32::MAX as u64) {
        Some(n) => Some(n as i32),
        None => None,
    }
}

/// Writes a process identifier in base ten.
pub fn pid_string(pid: i32) -> (s: String)
    ensures
        s@ == pid_digits(pid),
{
    if pid < 0 {
        let magnitude: u64 = (-(pid as i64)) as u64;
        let digits = decimal_string(magnitude);
        proof {
            reveal_strlit("-");
            assert("-"@ =~= seq!['-']);
        }
        String::from_str("-").concat(digits.as_str())
    } else {
        decimal_string(pid as u64)
    }
}

/// The directory that lists the open descriptors of `pid`.
pub fn fd_dir(pid: i32) -> (path: String)
    ensures
        path@ == "/proc/"@ + pid_digits(pid) + "/fd"@,
{
    let digits = pid_string(pid);
    String::from_str("/proc/").concat(digits.as_str()).concat("/fd")
}

/// The file that holds the short command name of `pid`.
pub fn comm_path(pid: i32) -> (path: String)
    ensures
        path@ == "/proc/"@ + pid_digits(pid) + "/comm"@,
{
    let digits = pid_string(pid);
    String::from_str("/proc/").concat(digits.as_str()).concat("/comm")
}

/// Whether `entry` names a process whose command name is `process_name`.
pub fn match_entry(entry: &ProcEntry, process_name: &str) -> (pid: Option<i32>)
    ensures
        pid == spec_match(entry@, process_name@),
{
    match pid_of_entry(entry.name.as_str()) {
        Some(pid) => match &entry.comm {
            Some(comm) => if str_eq(trim(comm.as_str()), process_name) {
                Some(pid)
            } else {
                None
            },
            None => None,
        },
        None => None,
    }
}

/// Puts `x` into the ascending list `v`, before the first element that is
/// larger.
fn insert_ascending(v: &mut Vec<i32>, x: i32)
    requires
        ascending(old(v)@),
    ensures
        ascending(final(v)@),
        final(v)@.to_multiset() == old(v)@.to_multiset().insert(x),
{
    let mut at: usize = 0;
    while at < v.len() && v[at] <= x
        invariant
            at <= v@.len(),
            v@ == old(v)@,
            forall|k: int| 0 <= k < at ==> v@[k] <= x,
        decreases v@.len() - at,
    {
        at += 1;
    }
    let ghost before = v@;
    v.insert(at, x);
    assert(ascending(v@)) by {
        assert forall|i: int, j: int| 0 <= i <= j < v@.len() implies v@[i] <= v@[j] by {
            if i < at && j > at {
                assert(before[i] <= before[j - 1]);
            } else if i > at {
                assert(before[i - 1] <= before[j - 1]);
            } else if i == at && j > at {
                assert(before[at as int] <= before[j - 1]);
            }
        }
    }
}

/// The processes named `process_name`, in ascending order.
///
/// `entries` is a listing of the directory of processes. An entry counts
/// where its name is the number of a process and its command name, without
/// the white space around it, is `process_name`. A process counts as often as
/// it is listed.
pub fn find_pids_by_name(process_name: &str, entries: &Vec<ProcEntry>) -> (pids: Vec<i32>)
    ensures
        ascending(pids@),
        pids@.to_multiset() == spec_matching(entry_views(entries@), process_name@).to_multiset(),
{
    let ghost all = entry_views(entries@);
    let mut pids: Vec<i32> = Vec::new();
    let mut i: usize = 0;
    assert(all.take(0) =~= Seq::<ProcEntryView>::empty());
    while i < entries.len()
        invariant
            i <= entries@.len(),
            all == entry_views(entries@),
            ascending(pids@),
            pids@.to_multiset() == spec_matching(all.take(i as int), process_name@).to_multiset(),
        decreases entries@.len() - i,
    {
        proof {
            assert(all.take(i + 1).drop_last() =~= all.take(i as int));
            assert(all.take(i + 1).last() == entries@[i as int]@);
            vstd::seq_lib::to_multiset_build(
                spec_matching(all.take(i as int), process_name@),
                spec_match(entries@[i as int]@, process_name@).unwrap(),
            );
        }
        match match_entry(&entries[i], process_name) {
            Some(pid) => {
                insert_ascending(&mut pids, pid);
            },
            None => {},
        }
        i += 1;
    }
    assert(all.take(i as int) =~= all);
    pids
}

} // verus!
