//! From the name of an X11 display to the path of the socket on which its
//! server listens.

use vstd::prelude::*;
use vstd::string::StrSliceExecFns;
use vstd::string::StringExecFns;
use crate::text::all_digits;
use crate::text::chars_of;
use crate::text::is_digit_char;

verus! {

/// The directory of the X11 sockets, with the letter that begins the name of
/// each socket.
pub open spec fn socket_prefix() -> Seq<char> {
    "/tmp/.X11-unix/X"@
}

/// The position of the first `'.'` of `s` at or after `from`; the length of
/// `s` where there is none.
pub open spec fn dot_from(s: Seq<char>, from: int) -> int
    decreases s.len() - from,
{
    if from < 0 || from >= s.len() {
        s.len() as int
    } else if s[from] == '.' {
        from
    } else {
        dot_from(s, from + 1)
    }
}

/// The number of a display: what stands between its first character and its
/// first `'.'`.
pub open spec fn display_number(display: Seq<char>) -> Seq<char> {
    display.subrange(1, dot_from(display, 1))
}

/// The screen of a display: what follows its first `'.'`, where it has one.
pub open spec fn display_screen(display: Seq<char>) -> Option<Seq<char>> {
    let dot = dot_from(display, 1);
    if dot < display.len() {
        Some(display.subrange(dot + 1, display.len() as int))
    } else {
        None
    }
}

/// A number as a display name holds it: digits only, at least one.
pub open spec fn is_number(s: Seq<char>) -> bool {
    s.len() >= 1 && all_digits(s)
}

/// A display name that this library takes: `:N` or `:N.M`, where `N` and
/// `M` are numbers. That is a colon, a number, and then either the end or a
/// `'.'` and a number up to the end.
pub open spec fn valid_display(display: Seq<char>) -> bool {
    &&& display.len() >= 1
    &&& display[0] == ':'
    &&& is_number(display_number(display))
    &&& match display_screen(display) {
        Some(screen) => is_number(screen),
        None => true,
    }
}

/// The display name that was refused.
#[derive(Clone, Debug, PartialEq, Eq)]
pub struct InvalidDisplay {
    pub display: String,
}

/// Whether the characters of `chars` from `from` up to `to` are digits, at
/// least one.
fn number_between(chars: &Vec<char>, from: usize, to: usize) -> (r: bool)
    requires
        from <= to <= chars@.len(),
    ensures
        r == is_number(chars@.subrange(from as int, to as int)),
{
    let ghost part = chars@.subrange(from as int, to as int);
    let mut i: usize = from;
    while i < to
        invariant
            from <= i <= to <= chars@.len(),
            part == chars@.subrange(from as int, to as int),
            forall|k: int| 0 <= k < i - from ==> crate::text::is_digit(#[trigger] part[k]),
        decreases to - i,
    {
        if !is_digit_char(chars[i]) {
            assert(part[i - from] == chars@[i as int]);
            return false;
        }
        i += 1;
    }
    from < to
}

/// The path of the socket of the X11 server of `display`.
///
/// `:N` and `:N.M` both give `/tmp/.X11-unix/XN`. Any other name is refused.
pub fn display_to_socket(display: &str) -> (r: Result<String, InvalidDisplay>)
    ensures
        match r {
            Ok(path) => valid_display(display@) && path@ == socket_prefix() + display_number(
                display@,
            ),
            Err(e) => !valid_display(display@) && e.display@ == display@,
        },
{
    let chars = chars_of(display);
    let n: usize = chars.len();
    if n == 0 || chars[0] != ':' {
        return Err(InvalidDisplay { display: display.to_owned() });
    }
    let mut end: usize = 1;
    while end < n && chars[end] != '.'
        invariant
            1 <= end <= n,
            n == chars@.len(),
            chars@ == display@,
            dot_from(display@, 1) == dot_from(display@, end as int),
        decreases n - end,
    {
        end += 1;
    }
    assert(dot_from(display@, 1) == end);
    if !number_between(&chars, 1, end) {
        return Err(InvalidDisplay { display: display.to_owned() });
    }
    if end < n && !number_between(&chars, end + 1, n) {
        return Err(InvalidDisplay { display: display.to_owned() });
    }
    let path = String::from_str("/tmp/.X11-unix/X").concat(display.substring_char(1, end));
    Ok(path)
}

/// A colon and a number make a display name, and so do a colon, a number,
/// a `'.'` and a number. Both name the display of the first number.
pub proof fn lemma_display_forms(number: Seq<char>, screen: Seq<char>)
    requires
        is_number(number),
        is_number(screen),
    ensures
        valid_display(seq![':'] + number),
        display_number(seq![':'] + number) == number,
        display_screen(seq![':'] + number) is None,
        valid_display(seq![':'] + number + seq!['.'] + screen),
        display_number(seq![':'] + number + seq!['.'] + screen) == number,
        display_screen(seq![':'] + number + seq!['.'] + screen) == Some(screen),
{
    let plain = seq![':'] + number;
    let full = seq![':'] + number + seq!['.'] + screen;
    let end = plain.len() as int;
    assert forall|i: int| 1 <= i < end implies plain[i] != '.' && full[i] != '.' by {
        assert(plain[i] == number[i - 1]);
        assert(full[i] == number[i - 1]);
    }
    lemma_dot_from(plain, 1, end);
    lemma_dot_from(full, 1, end);
    assert(display_number(plain) =~= number);
    assert(display_number(full) =~= number);
    assert(full.subrange(end + 1, full.len() as int) =~= screen);
}

/// There are no other display names: one that this library takes is a
/// colon and its number, or a colon, its number, a `'.'` and its screen, both
/// of them numbers.
pub proof fn lemma_display_shape(display: Seq<char>)
    requires
        valid_display(display),
    ensures
        is_number(display_number(display)),
        match display_screen(display) {
            None => display == seq![':'] + display_number(display),
            Some(screen) => is_number(screen) && display == seq![':'] + display_number(display)
                + seq!['.'] + screen,
        },
{
    lemma_dot_is_dot(display, 1);
    match display_screen(display) {
        None => {
            assert(display =~= seq![':'] + display_number(display));
        },
        Some(screen) => {
            assert(display =~= seq![':'] + display_number(display) + seq!['.'] + screen);
        },
    }
}

/// The screen is ignored: a display name names the same socket with and
/// without a `'.'` and a screen number after it.
pub proof fn lemma_screen_ignored(display: Seq<char>, screen: Seq<char>)
    requires
        valid_display(display),
        display_screen(display) is None,
        is_number(screen),
    ensures
        valid_display(display + seq!['.'] + screen),
        display_number(display + seq!['.'] + screen) == display_number(display),
{
    lemma_display_shape(display);
    lemma_display_forms(display_number(display), screen);
}

/// The first `'.'` at or after `from` lies between `from` and the end of
/// the text, with no `'.'` before it, and is a `'.'` unless it is the end.
pub proof fn lemma_dot_is_dot(s: Seq<char>, from: int)
    requires
        0 <= from <= s.len(),
    ensures
        from <= dot_from(s, from) <= s.len(),
        forall|i: int| from <= i < dot_from(s, from) ==> s[i] != '.',
        dot_from(s, from) < s.len() ==> s[dot_from(s, from)] == '.',
    decreases s.len() - from,
{
    if from < s.len() && s[from] != '.' {
        lemma_dot_is_dot(s, from + 1);
    }
}

/// Where no `'.'` stands from `from` up to `end`, and `end` is a `'.'` or
/// the end of the text, the first `'.'` at or after `from` is at `end`.
pub proof fn lemma_dot_from(s: Seq<char>, from: int, end: int)
    requires
        0 <= from <= end <= s.len(),
        forall|i: int| from <= i < end ==> s[i] != '.',
        end < s.len() ==> s[end] == '.',
    ensures
        dot_from(s, from) == end,
    decreases end - from,
{
    if from < end {
        lemma_dot_from(s, from + 1, end);
    }
}

} // verus!
