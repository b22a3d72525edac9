//! Extracting a piece of text framed by two markers.

use vstd::prelude::*;

use crate::text::{
    chars_of, find, first_occurrence, lemma_first_occurrence_from, occurs_at, slice, string_of,
};

verus! {

/// The text between the first `left` in `text` and the first `right` after
/// it, if both are there.
pub open spec fn delimited(text: Seq<char>, left: Seq<char>, right: Seq<char>) -> Option<
    Seq<char>,
> {
    match first_occurrence(text, left) {
        None => None,
        Some(i) => {
            let rest = text.skip(i + left.len());
            match first_occurrence(rest, right) {
                None => None,
                Some(j) => Some(rest.take(j)),
            }
        },
    }
}

/// `delimited` over character vectors.
pub fn delimited_chars(text: &Vec<char>, left: &Vec<char>, right: &Vec<char>) -> (r: Option<
    Vec<char>,
>)
    ensures
        r matches Some(v) ==> delimited(text@, left@, right@) == Some(v@),
        r is None ==> delimited(text@, left@, right@) is None,
{
    let found = find(text, left);
    let i = match found {
        None => return None,
        Some(i) => i,
    };
    let n: usize = text.len();
    let ll: usize = left.len();
    assert(occurs_at(text@, left@, i as int));
    assert(i + ll <= n);
    let rest = slice(text, i + ll, n);
    assert(rest@ =~= text@.skip(i + left@.len()));
    let j = match find(&rest, right) {
        None => return None,
        Some(j) => j,
    };
    let r = slice(&rest, 0, j);
    assert(r@ =~= rest@.take(j as int));
    Some(r)
}

/// Finds the text between the first `left_delimiter` and the first
/// `right_delimiter` that follows it; `None` if either is missing.
pub fn extract_text_delimited_by(text: &str, left_delimiter: &str, right_delimiter: &str) -> (r:
    Option<String>)
    ensures
        r matches Some(s) ==> delimited(text@, left_delimiter@, right_delimiter@) == Some(s@),
        r is None ==> delimited(text@, left_delimiter@, right_delimiter@) is None,
{
    let t = chars_of(text);
    let l = chars_of(left_delimiter);
    let rd = chars_of(right_delimiter);
    match delimited_chars(&t, &l, &rd) {
        None => None,
        Some(v) => Some(string_of(&v)),
    }
}

/// Text without the left marker, or without the right marker after the
/// first left one, has nothing delimited.
pub proof fn missing_delimiter_gives_none(text: Seq<char>, left: Seq<char>, right: Seq<char>)
    ensures
        (forall|i: int| !#[trigger] occurs_at(text, left, i)) ==> delimited(text, left, right) is None,
        (first_occurrence(text, left) matches Some(i) && forall|j: int|
            !#[trigger] occurs_at(text.skip(i + left.len()), right, j)) ==> delimited(
            text,
            left,
            right,
        ) is None,
{
    lemma_first_occurrence_from(text, left, 0);
    if let Some(i) = first_occurrence(text, left) {
        lemma_first_occurrence_from(text.skip(i + left.len()), right, 0);
    }
}

} // verus!
