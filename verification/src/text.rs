//! Character classes and small text routines shared by the other modules.
//!
//! Texts are modelled by their sequence of characters (`Seq<char>`), which is
//! what the view `@` of a `&str` or `String` gives.

use vstd::prelude::*;
use vstd::string::StrSliceExecFns;
use vstd::string::StringExecFns;

verus! {

/// ASCII decimal digit.
pub open spec fn is_digit(c: char) -> bool {
    '0' <= c && c <= '9'
}

/// Every character of `s` is an ASCII decimal digit (true of the empty text).
pub open spec fn all_digits(s: Seq<char>) -> bool {
    forall|i: int| 0 <= i < s.len() ==> is_digit(#[trigger] s[i])
}

/// The number a digit stands for; 0 for any other character.
pub open spec fn digit_value(c: char) -> nat {
    if is_digit(c) {
        (c as u32 - '0' as u32) as nat
    } else {
        0
    }
}

/// The number that the digits of `s` write in base ten, most significant
/// digit first. The empty text writes 0.
pub open spec fn decimal_value(s: Seq<char>) -> nat
    decreases s.len(),
{
    if s.len() == 0 {
        0
    } else {
        decimal_value(s.drop_last()) * 10 + digit_value(s.last())
    }
}

/// `s` without one leading plus sign, if it has one.
pub open spec fn unsigned_part(s: Seq<char>) -> Seq<char> {
    if s.len() > 0 && s[0] == '+' {
        s.skip(1)
    } else {
        s
    }
}

/// What an unsigned decimal number reads as: an optional `+`, then at least
/// one digit and nothing else, with a value of at most `max`.
pub open spec fn spec_parse_decimal(s: Seq<char>, max: u64) -> Option<u64> {
    let d = unsigned_part(s);
    if d.len() > 0 && all_digits(d) && decimal_value(d) <= max {
        Some(decimal_value(d) as u64)
    } else {
        None
    }
}

/// A prefix never writes a larger number than the whole text.
pub proof fn lemma_decimal_prefix(s: Seq<char>, k: int)
    requires
        0 <= k <= s.len(),
    ensures
        decimal_value(s.take(k)) <= decimal_value(s),
    decreases s.len() - k,
{
    if k == s.len() {
        assert(s.take(k) =~= s);
    } else {
        lemma_decimal_prefix(s, k + 1);
        assert(s.take(k + 1).drop_last() =~= s.take(k));
    }
}

/// The characters of `s`, in order.
pub fn chars_of(s: &str) -> (v: Vec<char>)
    ensures
        v@ == s@,
{
    let mut v: Vec<char> = Vec::new();
    for c in it: s.chars()
        invariant
            v@ == it.seq().take(it.index() as int),
            it.seq() == s@,
    {
        v.push(c);
    }
    v
}

/// Whether two texts hold the same characters.
pub fn str_eq(a: &str, b: &str) -> (same: bool)
    ensures
        same == (a@ == b@),
{
    let x = a.to_owned();
    let y = b.to_owned();
    x == y
}

/// Whether `c` is an ASCII decimal digit.
pub fn is_digit_char(c: char) -> (r: bool)
    ensures
        r == is_digit(c),
{
    '0' <= c && c <= '9'
}

/// Whether every character of `chars` is an ASCII decimal digit.
pub fn all_digit_chars(chars: &Vec<char>) -> (r: bool)
    ensures
        r == all_digits(chars@),
{
    let mut i: usize = 0;
    while i < chars.len()
        invariant
            i <= chars.len(),
            all_digits(chars@.take(i as int)),
        decreases chars.len() - i,
    {
        if !is_digit_char(chars[i]) {
            return false;
        }
        i += 1;
        assert forall|k: int| 0 <= k < i implies is_digit(#[trigger] chars@.take(i as int)[k]) by {
            if k < i - 1 {
                assert(chars@.take(i - 1)[k] == chars@[k]);
            }
        }
    }
    assert(chars@.take(i as int) =~= chars@);
    true
}

/// Reads an unsigned decimal number of at most `max`.
///
/// Accepts what the standard parser of unsigned integers accepts: an optional
/// leading `+` and then only digits, at least one. Leading zeros are allowed.
pub fn parse_decimal(s: &str, max: u64) -> (r: Option<u64>)
    ensures
        r == spec_parse_decimal(s@, max),
{
    let chars = chars_of(s);
    let n: usize = chars.len();
    let start: usize = if n > 0 && chars[0] == '+' {
        1
    } else {
        0
    };
    if start == n {
        return None;
    }
    let ghost d = unsigned_part(s@);
    assert(d == s@.skip(start as int));
    let mut acc: u64 = 0;
    let mut i: usize = start;
    assert(d.take(0) =~= Seq::<char>::empty());
    while i < n
        invariant
            start <= i <= n,
            n == chars.len(),
            chars@ == s@,
            d == s@.skip(start as int),
            d == unsigned_part(s@),
            d.len() == n - start,
            all_digits(d.take(i - start)),
            acc == decimal_value(d.take(i - start)),
            acc <= max,
        decreases n - i,
    {
        let c: char = chars[i];
        assert(c == d[i - start]);
        if !is_digit_char(c) {
            return None;
        }
        let dv: u64 = (c as u32 - '0' as u32) as u64;
        proof {
            let p = d.take(i + 1 - start);
            assert(p.drop_last() =~= d.take(i - start));
            assert(p.last() == c);
            assert(decimal_value(p) == acc * 10 + dv);
            lemma_decimal_prefix(d, i + 1 - start);
            assert forall|k: int| 0 <= k < p.len() implies is_digit(#[trigger] p[k]) by {
                if k < p.len() - 1 {
                    assert(d.take(i - start)[k] == p[k]);
                }
            }
        }
        if dv > max || acc > (max - dv) / 10 {
            return None;
        }
        acc = acc * 10 + dv;
        i += 1;
    }
    assert(d.take(i - start) =~= d);
    Some(acc)
}

/// The character that writes a digit below ten.
pub open spec fn digit_char(d: nat) -> char {
    if d == 0 {
        '0'
    } else if d == 1 {
        '1'
    } else if d == 2 {
        '2'
    } else if d == 3 {
        '3'
    } else if d == 4 {
        '4'
    } else if d == 5 {
        '5'
    } else if d == 6 {
        '6'
    } else if d == 7 {
        '7'
    } else if d == 8 {
        '8'
    } else {
        '9'
    }
}

/// The decimal writing of `n`, without sign or leading zeros.
pub open spec fn decimal_digits(n: nat) -> Seq<char>
    decreases n,
{
    if n < 10 {
        seq![digit_char(n)]
    } else {
        decimal_digits(n / 10).push(digit_char(n % 10))
    }
}

/// The one-character text of a digit below ten.
fn digit_str(d: u64) -> (s: &'static str)
    requires
        d < 10,
    ensures
        s@ == seq![digit_char(d as nat)],
{
    proof {
        reveal_strlit("0");
        reveal_strlit("1");
        reveal_strlit("2");
        reveal_strlit("3");
        reveal_strlit("4");
        reveal_strlit("5");
        reveal_strlit("6");
        reveal_strlit("7");
        reveal_strlit("8");
        reveal_strlit("9");
    }
    let s: &'static str = if d == 0 {
        "0"
    } else if d == 1 {
        "1"
    } else if d == 2 {
        "2"
    } else if d == 3 {
        "3"
    } else if d == 4 {
        "4"
    } else if d == 5 {
        "5"
    } else if d == 6 {
        "6"
    } else if d == 7 {
        "7"
    } else if d == 8 {
        "8"
    } else {
        "9"
    };
    assert(s@ =~= seq![digit_char(d as nat)]);
    s
}

/// Writes `n` in base ten.
pub fn decimal_string(n: u64) -> (s: String)
    ensures
        s@ == decimal_digits(n as nat),
    decreases n,
{
    if n < 10 {
        String::from_str(digit_str(n))
    } else {
        let mut s = decimal_string(n / 10);
        s.append(digit_str(n % 10));
        assert(s@ =~= decimal_digits(n as nat));
        s
    }
}

/// White space as Unicode defines it (the property `White_Space`).
pub open spec fn is_space(c: char) -> bool {
    ||| ('\u{9}' <= c && c <= '\u{d}')
    ||| c == ' '
    ||| c == '\u{85}'
    ||| c == '\u{a0}'
    ||| c == '\u{1680}'
    ||| ('\u{2000}' <= c && c <= '\u{200a}')
    ||| c == '\u{2028}'
    ||| c == '\u{2029}'
    ||| c == '\u{202f}'
    ||| c == '\u{205f}'
    ||| c == '\u{3000}'
}

/// Whether `c` is white space.
pub fn is_space_char(c: char) -> (r: bool)
    ensures
        r == is_space(c),
{
    ('\u{9}' <= c && c <= '\u{d}') || c == ' ' || c == '\u{85}' || c == '\u{a0}' || c
        == '\u{1680}' || ('\u{2000}' <= c && c <= '\u{200a}') || c == '\u{2028}' || c
        == '\u{2029}' || c == '\u{202f}' || c == '\u{205f}' || c == '\u{3000}'
}

/// How many white-space characters `s` begins with.
pub open spec fn leading_spaces(s: Seq<char>) -> nat
    decreases s.len(),
{
    if s.len() > 0 && is_space(s[0]) {
        1 + leading_spaces(s.skip(1))
    } else {
        0
    }
}

/// How many white-space characters `s` ends with.
pub open spec fn trailing_spaces(s: Seq<char>) -> nat
    decreases s.len(),
{
    if s.len() > 0 && is_space(s.last()) {
        1 + trailing_spaces(s.drop_last())
    } else {
        0
    }
}

/// `s` without the white space at its start.
pub open spec fn trim_start(s: Seq<char>) -> Seq<char> {
    s.skip(leading_spaces(s) as int)
}

/// `s` without the white space at its end.
pub open spec fn trim_end(s: Seq<char>) -> Seq<char> {
    s.take(s.len() - trailing_spaces(s))
}

/// `s` without the white space at either end.
pub open spec fn spec_trim(s: Seq<char>) -> Seq<char> {
    trim_end(trim_start(s))
}

/// A run of `k` white-space characters followed by the end of the text or by
/// another character is all the white space that the text begins with.
pub proof fn lemma_leading_spaces(s: Seq<char>, k: int)
    requires
        0 <= k <= s.len(),
        forall|i: int| 0 <= i < k ==> is_space(#[trigger] s[i]),
        k < s.len() ==> !is_space(s[k]),
    ensures
        leading_spaces(s) == k,
    decreases k,
{
    if k > 0 {
        let t = s.skip(1);
        assert forall|i: int| 0 <= i < k - 1 implies is_space(#[trigger] t[i]) by {
            assert(t[i] == s[i + 1]);
        }
        lemma_leading_spaces(t, k - 1);
    }
}

/// The same for the white space that the text ends with.
pub proof fn lemma_trailing_spaces(s: Seq<char>, k: int)
    requires
        0 <= k <= s.len(),
        forall|i: int| s.len() - k <= i < s.len() ==> is_space(#[trigger] s[i]),
        k < s.len() ==> !is_space(s[s.len() - k - 1]),
    ensures
        trailing_spaces(s) == k,
    decreases k,
{
    if k > 0 {
        let t = s.drop_last();
        assert forall|i: int| t.len() - (k - 1) <= i < t.len() implies is_space(
            #[trigger] t[i],
        ) by {
            assert(t[i] == s[i]);
        }
        lemma_trailing_spaces(t, k - 1);
    }
}

/// Removes the white space at both ends of `s`.
pub fn trim<'a>(s: &'a str) -> (t: &'a str)
    ensures
        t@ == spec_trim(s@),
{
    let chars = chars_of(s);
    let n: usize = chars.len();
    let mut i: usize = 0;
    while i < n && is_space_char(chars[i])
        invariant
            i <= n,
            n == chars.len(),
            forall|k: int| 0 <= k < i ==> is_space(#[trigger] chars@[k]),
        decreases n - i,
    {
        i += 1;
    }
    let mut j: usize = n;
    while j > i && is_space_char(chars[j - 1])
        invariant
            i <= j <= n,
            n == chars.len(),
            forall|k: int| j <= k < n ==> is_space(#[trigger] chars@[k]),
        decreases j,
    {
        j -= 1;
    }
    proof {
        lemma_leading_spaces(s@, i as int);
        let rest = s@.skip(i as int);
        assert forall|k: int| rest.len() - (n - j) <= k < rest.len() implies is_space(
            #[trigger] rest[k],
        ) by {
            assert(rest[k] == s@[k + i]);
        }
        if n - j < rest.len() {
            assert(rest[rest.len() - (n - j) - 1] == s@[j - 1]);
        }
        lemma_trailing_spaces(rest, n - j);
        assert(s@.subrange(i as int, j as int) =~= spec_trim(s@));
    }
    s.substring_char(i, j)
}

/// The state of a split of a text, read from left to right: the pieces that
/// a separator has closed, and the piece that is still open at the end of the
/// text.
pub struct Split {
    pub closed: Seq<Seq<char>>,
    pub open: Seq<char>,
}

/// Splits `s` at every `'\n'`. The pieces hold no `'\n'`; a text with `k`
/// of them has `k + 1` pieces, of which any may be empty.
pub open spec fn split_lines(s: Seq<char>) -> Split
    decreases s.len(),
{
    if s.len() == 0 {
        Split { closed: Seq::empty(), open: Seq::empty() }
    } else {
        let before = split_lines(s.drop_last());
        if s.last() == '\n' {
            Split { closed: before.closed.push(before.open), open: Seq::empty() }
        } else {
            Split { closed: before.closed, open: before.open.push(s.last()) }
        }
    }
}

/// The lines of `s`: its pieces between line feeds, in order.
pub open spec fn spec_lines(s: Seq<char>) -> Seq<Seq<char>> {
    split_lines(s).closed.push(split_lines(s).open)
}

/// Splits `s` at white space, dropping empty pieces.
pub open spec fn split_words(s: Seq<char>) -> Split
    decreases s.len(),
{
    if s.len() == 0 {
        Split { closed: Seq::empty(), open: Seq::empty() }
    } else {
        let before = split_words(s.drop_last());
        if !is_space(s.last()) {
            Split { closed: before.closed, open: before.open.push(s.last()) }
        } else if before.open.len() > 0 {
            Split { closed: before.closed.push(before.open), open: Seq::empty() }
        } else {
            Split { closed: before.closed, open: Seq::empty() }
        }
    }
}

/// The words of `s`: its maximal runs of characters that are not white
/// space, in order.
pub open spec fn spec_words(s: Seq<char>) -> Seq<Seq<char>> {
    let split = split_words(s);
    if split.open.len() > 0 {
        split.closed.push(split.open)
    } else {
        split.closed
    }
}

/// The texts that a list of string slices holds.
pub open spec fn str_views(v: Seq<&str>) -> Seq<Seq<char>> {
    v.map_values(|t: &str| t@)
}

/// The texts that a list of strings holds.
pub open spec fn string_views(v: Seq<String>) -> Seq<Seq<char>> {
    v.map_values(|t: String| t@)
}

/// The lines of `s`, split at line feeds.
pub fn lines<'a>(s: &'a str) -> (out: Vec<&'a str>)
    ensures
        str_views(out@) == spec_lines(s@),
{
    let chars = chars_of(s);
    let n: usize = chars.len();
    let mut out: Vec<&'a str> = Vec::new();
    let mut start: usize = 0;
    let mut i: usize = 0;
    assert(s@.take(0) =~= Seq::<char>::empty());
    assert(str_views(out@) =~= Seq::<Seq<char>>::empty());
    assert(s@.subrange(0, 0) =~= Seq::<char>::empty());
    while i < n
        invariant
            start <= i <= n,
            n == chars.len(),
            chars@ == s@,
            str_views(out@) == split_lines(s@.take(i as int)).closed,
            s@.subrange(start as int, i as int) == split_lines(s@.take(i as int)).open,
        decreases n - i,
    {
        let ghost before = split_lines(s@.take(i as int));
        proof {
            let p = s@.take(i + 1);
            assert(p.drop_last() =~= s@.take(i as int));
            assert(p.last() == chars@[i as int]);
        }
        if chars[i] == '\n' {
            let piece = s.substring_char(start, i);
            let ghost prev = out@;
            out.push(piece);
            assert(str_views(out@) =~= str_views(prev).push(piece@));
            start = i + 1;
            assert(s@.subrange(start as int, i + 1) =~= Seq::<char>::empty());
        } else {
            assert(s@.subrange(start as int, i + 1) =~= s@.subrange(start as int, i as int).push(
                chars@[i as int],
            ));
        }
        i += 1;
    }
    assert(s@.take(n as int) =~= s@);
    let piece = s.substring_char(start, n);
    let ghost prev = out@;
    out.push(piece);
    assert(str_views(out@) =~= str_views(prev).push(piece@));
    out
}

/// The words of `s`, split at white space.
pub fn words<'a>(s: &'a str) -> (out: Vec<&'a str>)
    ensures
        str_views(out@) == spec_words(s@),
{
    let chars = chars_of(s);
    let n: usize = chars.len();
    let mut out: Vec<&'a str> = Vec::new();
    let mut start: usize = 0;
    let mut i: usize = 0;
    assert(s@.take(0) =~= Seq::<char>::empty());
    assert(str_views(out@) =~= Seq::<Seq<char>>::empty());
    assert(s@.subrange(0, 0) =~= Seq::<char>::empty());
    while i < n
        invariant
            start <= i <= n,
            n == chars.len(),
            chars@ == s@,
            str_views(out@) == split_words(s@.take(i as int)).closed,
            s@.subrange(start as int, i as int) == split_words(s@.take(i as int)).open,
        decreases n - i,
    {
        proof {
            let p = s@.take(i + 1);
            assert(p.drop_last() =~= s@.take(i as int));
            assert(p.last() == chars@[i as int]);
        }
        if is_space_char(chars[i]) {
            if start < i {
                let piece = s.substring_char(start, i);
                let ghost prev = out@;
                out.push(piece);
                assert(str_views(out@) =~= str_views(prev).push(piece@));
            }
            start = i + 1;
            assert(s@.subrange(start as int, i + 1) =~= Seq::<char>::empty());
        } else {
            assert(s@.subrange(start as int, i + 1) =~= s@.subrange(start as int, i as int).push(
                chars@[i as int],
            ));
        }
        i += 1;
    }
    assert(s@.take(n as int) =~= s@);
    if start < n {
        let piece = s.substring_char(start, n);
        let ghost prev = out@;
        out.push(piece);
        assert(str_views(out@) =~= str_views(prev).push(piece@));
    }
    out
}

/// No piece of a split at white space is empty or holds white space, be it
/// closed or, where it has begun, still open.
pub proof fn lemma_split_words(s: Seq<char>)
    ensures
        forall|k: int|
            0 <= k < split_words(s).closed.len() ==> (#[trigger] split_words(s).closed[k]).len() > 0,
        forall|k: int, i: int|
            0 <= k < split_words(s).closed.len() && 0 <= i < split_words(s).closed[k].len()
                ==> !is_space(#[trigger] split_words(s).closed[k][i]),
        forall|i: int|
            0 <= i < split_words(s).open.len() ==> !is_space(#[trigger] split_words(s).open[i]),
    decreases s.len(),
{
    if s.len() > 0 {
        lemma_split_words(s.drop_last());
        let before = split_words(s.drop_last());
        let after = split_words(s);
        assert forall|k: int| 0 <= k < after.closed.len() implies (#[trigger] after.closed[k]).len()
            > 0 by {
            if k < before.closed.len() {
                assert(after.closed[k] == before.closed[k]);
            }
        }
        assert forall|k: int, i: int|
            0 <= k < after.closed.len() && 0 <= i < after.closed[k].len() implies !is_space(
            #[trigger] after.closed[k][i],
        ) by {
            if k < before.closed.len() {
                assert(after.closed[k] == before.closed[k]);
            } else {
                assert(after.closed[k] == before.open);
            }
        }
        assert forall|i: int| 0 <= i < after.open.len() implies !is_space(
            #[trigger] after.open[i],
        ) by {
            if i < before.open.len() {
                assert(after.open[i] == before.open[i]);
            }
        }
    }
}

/// A word is not empty and holds no white space.
pub proof fn lemma_words(s: Seq<char>)
    ensures
        forall|k: int| 0 <= k < spec_words(s).len() ==> (#[trigger] spec_words(s)[k]).len() > 0,
        forall|k: int, i: int|
            0 <= k < spec_words(s).len() && 0 <= i < spec_words(s)[k].len() ==> !is_space(
                #[trigger] spec_words(s)[k][i],
            ),
{
    lemma_split_words(s);
    let split = split_words(s);
    let all = spec_words(s);
    assert forall|k: int| 0 <= k < all.len() implies (#[trigger] all[k]).len() > 0 by {
        if k < split.closed.len() {
            assert(all[k] == split.closed[k]);
        }
    }
    assert forall|k: int, i: int| 0 <= k < all.len() && 0 <= i < all[k].len() implies !is_space(
        #[trigger] all[k][i],
    ) by {
        if k < split.closed.len() {
            assert(all[k] == split.closed[k]);
        } else {
            assert(all[k] == split.open);
        }
    }
}

} // verus!
