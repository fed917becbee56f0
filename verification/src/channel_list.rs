//! The channel list of a file: which channels a search shows.

use vstd::prelude::*;

use crate::text::{chars_of, find_chars, find_from, lemma_find_from_bounds, lowercase, occurs_at, to_lowercase};

verus! {

/// Whether `p` occurs anywhere in `s`.
pub open spec fn contains_text(s: Seq<char>, p: Seq<char>) -> bool {
    find_from(s, p, 0) is Some
}

/// Whether a channel is shown for a search, all three texts already in
/// lowercase: every channel for an empty search, otherwise a channel whose
/// name or display name contains the search text.
pub open spec fn shown_for_search(name: Seq<char>, display: Seq<char>, search: Seq<char>) -> bool {
    search.len() == 0 || contains_text(name, search) || contains_text(display, search)
}

/// Whether a channel is shown for a search, all three texts already in
/// lowercase.
pub fn search_matches(name_lower: &str, display_lower: &str, search_lower: &str) -> (b: bool)
    ensures
        b == shown_for_search(name_lower@, display_lower@, search_lower@),
{
    let search = chars_of(search_lower);
    if search.len() == 0 {
        return true;
    }
    let name = chars_of(name_lower);
    if find_chars(&name, &search, 0).is_some() {
        return true;
    }
    let display = chars_of(display_lower);
    find_chars(&display, &search, 0).is_some()
}

/// Whether the channel with name `name`, displayed as `display`, is shown
/// for the search text `search`; the comparison ignores case.
pub fn channel_matches_search(name: &str, display: &str, search: &str) -> (b: bool)
    ensures
        b == shown_for_search(lowercase(name@), lowercase(display@), lowercase(search@)),
{
    let search_lower = to_lowercase(search);
    let name_lower = to_lowercase(name);
    let display_lower = to_lowercase(display);
    search_matches(name_lower.as_str(), display_lower.as_str(), search_lower.as_str())
}

proof fn lemma_find_from_finds(s: Seq<char>, p: Seq<char>, j: int, i: int)
    requires
        0 <= j <= i,
        occurs_at(s, p, i),
    ensures
        find_from(s, p, j) is Some,
    decreases i - j,
{
    if !occurs_at(s, p, j) {
        lemma_find_from_finds(s, p, j + 1, i);
    }
}

/// A text contains another exactly when the whole other text occurs in it
/// at some position.
pub proof fn law_contains_text(s: Seq<char>, p: Seq<char>)
    ensures
        contains_text(s, p) <==> exists|i: int|
            0 <= i && i + p.len() <= s.len() && #[trigger] s.subrange(i, i + p.len()) == p,
{
    lemma_find_from_bounds(s, p, 0);
    if exists|i: int| 0 <= i && i + p.len() <= s.len() && #[trigger] s.subrange(i, i + p.len()) == p {
        let i = choose|i: int|
            0 <= i && i + p.len() <= s.len() && #[trigger] s.subrange(i, i + p.len()) == p;
        lemma_find_from_finds(s, p, 0, i);
    }
    if let Some(j) = find_from(s, p, 0) {
        assert(s.subrange(j, j + p.len()) == p);
    }
}

/// A channel is shown for an empty search, and for any other search exactly
/// when the whole search text occurs in its name or in its display name.
pub proof fn law_search_shows(name: Seq<char>, display: Seq<char>, search: Seq<char>)
    ensures
        shown_for_search(name, display, search) <==> (search.len() == 0 || (exists|i: int|
            0 <= i && i + search.len() <= name.len() && #[trigger] name.subrange(
                i,
                i + search.len(),
            ) == search) || (exists|i: int|
            0 <= i && i + search.len() <= display.len() && #[trigger] display.subrange(
                i,
                i + search.len(),
            ) == search)),
{
    law_contains_text(name, search);
    law_contains_text(display, search);
}

} // verus!
