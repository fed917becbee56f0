//! Text helpers: lossy UTF-8 decoding, trimming and searching over characters.

use vstd::prelude::*;
use vstd::utf8::{decode_utf8, valid_utf8};

verus! {

/// What `String::from_utf8_lossy` makes of a byte sequence: the decoded
/// characters, with each malformed sequence replaced by U+FFFD.
pub uninterp spec fn utf8_lossy(bytes: Seq<u8>) -> Seq<char>;

/// Decodes bytes as UTF-8, replacing malformed sequences with U+FFFD.
///
/// Trusted: calls `String::from_utf8_lossy`. The contract claims that the
/// result is a function of the bytes alone, and that valid UTF-8 is decoded
/// as such (std documents that valid input is returned unchanged).
#[verifier::external_body]
pub(crate) fn decode_utf8_lossy(bytes: &[u8]) -> (s: String)
    ensures
        s@ == utf8_lossy(bytes@),
        valid_utf8(bytes@) ==> s@ == decode_utf8(bytes@),
{
    String::from_utf8_lossy(bytes).into_owned()
}

/// What `str::to_lowercase` makes of a text: its lowercase mapping under
/// Unicode's rules.
pub uninterp spec fn lowercase(s: Seq<char>) -> Seq<char>;

/// Maps a text to lowercase.
///
/// Trusted: calls `str::to_lowercase`. The contract claims only that the
/// result is a function of the text (std documents the mapping as Unicode's
/// `Lowercase` property, independent of locale).
#[verifier::external_body]
pub(crate) fn to_lowercase(s: &str) -> (r: String)
    ensures
        r@ == lowercase(s@),
{
    s.to_lowercase()
}

/// The characters of a string, in order.
pub fn chars_of(s: &str) -> (v: Vec<char>)
    ensures
        v@ == s@,
{
    broadcast use vstd::string::group_string_axioms;

    let mut v: Vec<char> = Vec::new();
    for c in it: s.chars()
        invariant
            v@ == it.seq().take(it.index() as int),
    {
        v.push(c);
    }
    v
}

/// Whether a character has the Unicode `White_Space` property, as
/// `char::is_whitespace` decides it.
pub open spec fn is_white_space(c: char) -> bool {
    let u = c as u32;
    (0x09 <= u && u <= 0x0D) || u == 0x20 || u == 0x85 || u == 0xA0 || u == 0x1680 || (0x2000
        <= u && u <= 0x200A) || u == 0x2028 || u == 0x2029 || u == 0x202F || u == 0x205F || u
        == 0x3000
}

/// Exec version of [`is_white_space`].
pub fn char_is_white_space(c: char) -> (b: bool)
    ensures
        b == is_white_space(c),
{
    let u = c as u32;
    (0x09 <= u && u <= 0x0D) || u == 0x20 || u == 0x85 || u == 0xA0 || u == 0x1680 || (0x2000
        <= u && u <= 0x200A) || u == 0x2028 || u == 0x2029 || u == 0x202F || u == 0x205F || u
        == 0x3000
}

/// `s` with every trailing NUL character removed (`trim_end_matches('\0')`).
pub open spec fn trim_end_nul(s: Seq<char>) -> Seq<char>
    decreases s.len(),
{
    if s.len() > 0 && s.last() == '\0' {
        trim_end_nul(s.drop_last())
    } else {
        s
    }
}

/// `s` without trailing white space.
pub open spec fn trim_end_ws(s: Seq<char>) -> Seq<char>
    decreases s.len(),
{
    if s.len() > 0 && is_white_space(s.last()) {
        trim_end_ws(s.drop_last())
    } else {
        s
    }
}

/// `s` without leading white space.
pub open spec fn trim_start_ws(s: Seq<char>) -> Seq<char>
    decreases s.len(),
{
    if s.len() > 0 && is_white_space(s.first()) {
        trim_start_ws(s.drop_first())
    } else {
        s
    }
}

/// The text of a fixed-width name or unit field: trailing NULs removed, then
/// white space trimmed at both ends.
pub open spec fn field_text(s: Seq<char>) -> Seq<char> {
    trim_start_ws(trim_end_ws(trim_end_nul(s)))
}

/// The text of a fixed-width field: the field's characters with trailing
/// NULs removed and then white space trimmed at both ends.
pub fn trimmed_field_text(s: &str) -> (res: String)
    ensures
        res@ == field_text(s@),
{
    let chars = chars_of(s);
    let mut end: usize = chars.len();
    assert(s@.subrange(0, end as int) == s@);
    while end > 0 && chars[end - 1] == '\0'
        invariant
            end <= chars.len(),
            chars@ == s@,
            trim_end_nul(s@) == trim_end_nul(s@.subrange(0, end as int)),
        decreases end,
    {
        proof {
            let t = s@.subrange(0, end as int);
            assert(t.drop_last() == s@.subrange(0, end - 1));
        }
        end = end - 1;
    }
    let ghost no_nul = s@.subrange(0, end as int);
    assert(trim_end_nul(s@) == no_nul);
    let end_nul = end;
    while end > 0 && char_is_white_space(chars[end - 1])
        invariant
            end <= end_nul <= chars.len(),
            chars@ == s@,
            no_nul == s@.subrange(0, end_nul as int),
            trim_end_ws(no_nul) == trim_end_ws(s@.subrange(0, end as int)),
        decreases end,
    {
        proof {
            let t = s@.subrange(0, end as int);
            assert(t.drop_last() == s@.subrange(0, end - 1));
        }
        end = end - 1;
    }
    let ghost no_ws = s@.subrange(0, end as int);
    assert(trim_end_ws(no_nul) == no_ws);
    let mut start: usize = 0;
    while start < end && char_is_white_space(chars[start])
        invariant
            start <= end <= chars.len(),
            chars@ == s@,
            no_ws == s@.subrange(0, end as int),
            trim_start_ws(no_ws) == trim_start_ws(s@.subrange(start as int, end as int)),
        decreases end - start,
    {
        proof {
            let t = s@.subrange(start as int, end as int);
            assert(t.drop_first() == s@.subrange(start + 1, end as int));
        }
        start = start + 1;
    }
    assert(trim_start_ws(no_ws) == s@.subrange(start as int, end as int));
    let sub = s.substring_char(start, end);
    sub.to_owned()
}

/// Whether `p` occurs in `s` at position `i`.
pub open spec fn occurs_at(s: Seq<char>, p: Seq<char>, i: int) -> bool {
    0 <= i && i + p.len() <= s.len() && s.subrange(i, i + p.len()) == p
}

/// The first position at or after `i` where `p` occurs in `s`, as `str::find`
/// reports it (counted in characters).
pub open spec fn find_from(s: Seq<char>, p: Seq<char>, i: int) -> Option<int>
    decreases s.len() + 1 - i,
{
    if i < 0 || i + p.len() > s.len() {
        None
    } else if occurs_at(s, p, i) {
        Some(i)
    } else {
        find_from(s, p, i + 1)
    }
}

/// A position that `find_from` reports is at or after the start, and the
/// pattern fits there.
pub proof fn lemma_find_from_bounds(s: Seq<char>, p: Seq<char>, i: int)
    ensures
        find_from(s, p, i) matches Some(j) ==> i <= j && j + p.len() <= s.len() && occurs_at(
            s,
            p,
            j,
        ),
    decreases s.len() + 1 - i,
{
    if !(i < 0 || i + p.len() > s.len()) && !occurs_at(s, p, i) {
        lemma_find_from_bounds(s, p, i + 1);
    }
}

/// Whether `needle` occurs in `hay` at position `i`.
fn occurs_at_exec(hay: &Vec<char>, needle: &Vec<char>, i: usize) -> (b: bool)
    requires
        i + needle.len() <= hay.len(),
    ensures
        b == occurs_at(hay@, needle@, i as int),
{
    let mut k: usize = 0;
    while k < needle.len()
        invariant
            k <= needle.len(),
            i + needle.len() <= hay.len(),
            forall|j: int| 0 <= j < k ==> hay@[i + j] == needle@[j],
        decreases needle.len() - k,
    {
        if hay[i + k] != needle[k] {
            assert(hay@.subrange(i as int, i + needle.len())[k as int] != needle@[k as int]);
            return false;
        }
        k = k + 1;
    }
    assert(hay@.subrange(i as int, i + needle.len()) =~= needle@);
    true
}

/// The first position at or after `from` where `needle` occurs in `hay`.
pub fn find_chars(hay: &Vec<char>, needle: &Vec<char>, from: usize) -> (res: Option<usize>)
    ensures
        res matches Some(i) ==> find_from(hay@, needle@, from as int) == Some(i as int),
        res is None ==> find_from(hay@, needle@, from as int) is None,
{
    if needle.len() > hay.len() {
        return None;
    }
    let last = hay.len() - needle.len();
    let mut i = from;
    while i <= last
        invariant
            last + needle.len() == hay.len(),
            from <= i,
            find_from(hay@, needle@, from as int) == find_from(hay@, needle@, i as int),
        decreases last + 1 - i,
    {
        if occurs_at_exec(hay, needle, i) {
            return Some(i);
        }
        if i == last {
            assert(find_from(hay@, needle@, i + 1) is None);
            return None;
        }
        i = i + 1;
    }
    None
}

/// The text from the first occurrence of `tag` up to (not including) the
/// next double quote; empty when either is missing.
pub open spec fn quoted_after(s: Seq<char>, tag: Seq<char>) -> Seq<char> {
    match find_from(s, tag, 0) {
        Some(a) => match find_from(s, seq!['"'], a) {
            Some(b) => s.subrange(a, b),
            None => Seq::empty(),
        },
        None => Seq::empty(),
    }
}

/// The text from the first occurrence of `tag` in `text` up to (not
/// including) the next double quote; empty when either is missing.
pub fn text_quoted_after(text: &String, tag: &str) -> (res: String)
    ensures
        res@ == quoted_after(text@, tag@),
{
    let hay = chars_of(text.as_str());
    let needle = chars_of(tag);
    let quote = chars_of("\"");
    proof {
        reveal_strlit("\"");
    }
    assert(quote@ =~= seq!['"']);
    match find_chars(&hay, &needle, 0) {
        Some(a) => match find_chars(&hay, &quote, a) {
            Some(b) => {
                proof {
                    lemma_find_from_bounds(hay@, quote@, a as int);
                }
                let sub = text.as_str().substring_char(a, b);
                sub.to_owned()
            },
            None => String::new(),
        },
        None => String::new(),
    }
}

/// The character of decimal digit `d`.
pub open spec fn digit_char(d: nat) -> char {
    if d == 0 {
        '0'
    } else if d == 1 {
        '1'
    } else if d == 2 {
        '2'
    } else if d == 3 {
        '3'
    } else if d == 4 {
        '4'
    } else if d == 5 {
        '5'
    } else if d == 6 {
        '6'
    } else if d == 7 {
        '7'
    } else if d == 8 {
        '8'
    } else {
        '9'
    }
}

/// The decimal representation of `n`, without leading zeros.
pub open spec fn decimal(n: nat) -> Seq<char>
    decreases n,
{
    if n < 10 {
        seq![digit_char(n)]
    } else {
        decimal(n / 10).push(digit_char(n % 10))
    }
}

/// The one-character string of decimal digit `d`.
fn digit_str(d: usize) -> (s: &'static str)
    requires
        d < 10,
    ensures
        s@ == seq![digit_char(d as nat)],
{
    proof {
        reveal_strlit("0");
        reveal_strlit("1");
        reveal_strlit("2");
        reveal_strlit("3");
        reveal_strlit("4");
        reveal_strlit("5");
        reveal_strlit("6");
        reveal_strlit("7");
        reveal_strlit("8");
        reveal_strlit("9");
    }
    let s = if d == 0 {
        "0"
    } else if d == 1 {
        "1"
    } else if d == 2 {
        "2"
    } else if d == 3 {
        "3"
    } else if d == 4 {
        "4"
    } else if d == 5 {
        "5"
    } else if d == 6 {
        "6"
    } else if d == 7 {
        "7"
    } else if d == 8 {
        "8"
    } else {
        "9"
    };
    assert(s@ =~= seq![digit_char(d as nat)]);
    s
}

/// The decimal representation of `n`.
pub fn decimal_string(n: usize) -> (s: String)
    ensures
        s@ == decimal(n as nat),
{
    let mut rest = n / 10;
    let mut s = String::from_str(digit_str(n % 10));
    assert(rest > 0 ==> decimal(n as nat) =~= decimal(rest as nat) + s@);
    while rest > 0
        invariant
            rest > 0 ==> decimal(n as nat) == decimal(rest as nat) + s@,
            rest == 0 ==> s@ == decimal(n as nat),
        decreases rest,
    {
        let d = rest % 10;
        let next = rest / 10;
        proof {
            if next > 0 {
                assert(decimal(rest as nat) == decimal(next as nat).push(digit_char(d as nat)));
                assert(decimal(rest as nat) + s@ =~= decimal(next as nat) + (seq![
                    digit_char(d as nat),
                ] + s@));
            } else {
                assert(decimal(rest as nat) == seq![digit_char(d as nat)]);
            }
        }
        s = String::from_str(digit_str(d)).concat(s.as_str());
        rest = next;
    }
    s
}

} // verus!
