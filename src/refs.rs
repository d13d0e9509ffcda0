//! Extraction of in-text cross-references (`#` followed by digits).
use crate::text::{chars_of, parse_u64_from, parse_u64_spec};
use vstd::prelude::*;

verus! {

/// The pattern of a reference to another post: `#` and one or more digits.
pub const REFERENCE_PATTERN: &'static str = "#(\\d{1,})";

/// What the regex engine finds for `pattern` in `text`, leftmost first and
/// without overlap; nothing where the pattern does not compile.
pub uninterp spec fn regex_find_all(pattern: Seq<char>, text: Seq<char>) -> Option<Seq<Seq<char>>>;

pub open spec fn views_of(v: Seq<String>) -> Seq<Seq<char>> {
    v.map_values(|m: String| m@)
}

/// Relies on regex::Regex::new and Regex::find_iter: the text of every
/// successive non-overlapping match of `pattern` in `text`.
#[verifier::external_body]
fn find_all(pattern: &str, text: &str) -> (r: Option<Vec<String>>)
    ensures
        match r {
            Some(v) => regex_find_all(pattern@, text@) == Some(views_of(v@)),
            None => regex_find_all(pattern@, text@) is None,
        },
{
    match regex::Regex::new(pattern) {
        Ok(re) => Some(re.find_iter(text).map(|m| m.as_str().to_string()).collect()),
        Err(_) => None,
    }
}

/// The post a match refers to: the number after its `#`, where it parses
/// as a `u64`.
pub open spec fn reference_of(m: Seq<char>) -> Option<u64> {
    if m.len() > 0 && m[0] == '#' {
        parse_u64_spec(m.drop_first())
    } else {
        None
    }
}

/// The references of successive matches, in order; a match whose number does
/// not parse is dropped.
pub open spec fn references_in(ms: Seq<Seq<char>>) -> Seq<u64>
    decreases ms.len(),
{
    if ms.len() == 0 {
        Seq::empty()
    } else {
        let p = references_in(ms.drop_last());
        match reference_of(ms.last()) {
            Some(x) => p.push(x),
            None => p,
        }
    }
}

/// The candidate references of a post's text, in order of appearance,
/// duplicates kept.
pub open spec fn references_of_text(text: Seq<char>) -> Seq<u64> {
    match regex_find_all(REFERENCE_PATTERN@, text) {
        Some(ms) => references_in(ms),
        None => Seq::empty(),
    }
}

/// The reference of one match, where it has one.
pub fn reference_in_match(m: &String) -> (r: Option<u64>)
    ensures
        r == reference_of(m@),
{
    let cs = chars_of(m.as_str());
    if cs.len() > 0 && cs[0] == '#' {
        assert(cs@.subrange(1, cs@.len() as int) =~= m@.drop_first());
        parse_u64_from(&cs, 1)
    } else {
        None
    }
}

/// The references of the matches `ms`, in order.
pub fn ids_from_matches(ms: &Vec<String>) -> (r: Vec<u64>)
    ensures
        r@ == references_in(views_of(ms@)),
{
    let mut out: Vec<u64> = Vec::new();
    let mut i: usize = 0;
    assert(views_of(ms@).subrange(0, 0) =~= Seq::<Seq<char>>::empty());
    while i < ms.len()
        invariant
            i <= ms@.len(),
            out@ == references_in(views_of(ms@).subrange(0, i as int)),
        decreases ms@.len() - i,
    {
        let ghost p = views_of(ms@).subrange(0, i + 1);
        assert(p.drop_last() =~= views_of(ms@).subrange(0, i as int));
        assert(p.last() == ms@[i as int]@);
        match reference_in_match(&ms[i]) {
            Some(x) => out.push(x),
            None => {},
        }
        i = i + 1;
    }
    assert(views_of(ms@).subrange(0, ms@.len() as int) =~= views_of(ms@));
    out
}

/// The candidate references of a post's text.
pub fn extract_refs(text: &str) -> (r: Vec<u64>)
    ensures
        r@ == references_of_text(text@),
{
    match find_all(REFERENCE_PATTERN, text) {
        Some(ms) => ids_from_matches(&ms),
        None => Vec::new(),
    }
}

} // verus!
