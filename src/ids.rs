//! Scanning numeric identifiers out of a message body.

use vstd::prelude::*;

use crate::text::{chars_of, is_whitespace, slice, trim, trimmed, unicode_whitespace};

verus! {

/// Player and weapon identifiers as the server writes them.
pub type Id = u16;

pub open spec fn is_digit(c: char) -> bool {
    '0' <= c && c <= '9'
}

pub open spec fn digit_value(c: char) -> nat {
    (c as int - '0' as int) as nat
}

/// The decimal value of a run of digits.
pub open spec fn digits_value(s: Seq<char>) -> nat
    decreases s.len(),
{
    if s.len() == 0 {
        0
    } else {
        digits_value(s.drop_last()) * 10 + digit_value(s.last())
    }
}

pub open spec fn all_digits(s: Seq<char>) -> bool {
    forall|i: int| 0 <= i < s.len() ==> is_digit(#[trigger] s[i])
}

/// `s` without one leading `+`.
pub open spec fn unsigned_part(s: Seq<char>) -> Seq<char> {
    if s.len() > 0 && s[0] == '+' {
        s.drop_first()
    } else {
        s
    }
}

/// How `u16::from_str` reads `s`: an optional `+`, then one or more ASCII
/// digits whose value fits in 16 bits.
pub open spec fn parsed_id(s: Seq<char>) -> Option<Id> {
    let d = unsigned_part(s);
    if d.len() > 0 && all_digits(d) && digits_value(d) <= u16::MAX {
        Some(digits_value(d) as u16)
    } else {
        None
    }
}

/// Length of the token at the start of `s`: everything before the first
/// whitespace character or colon.
pub open spec fn token_len(s: Seq<char>) -> nat
    decreases s.len(),
{
    if s.len() == 0 || unicode_whitespace(s[0]) || s[0] == ':' {
        0
    } else {
        1 + token_len(s.drop_first())
    }
}

/// One step of the scan over `rest`: the text left afterwards, and the
/// identifier read, if any.
pub open spec fn scan_step(rest: Seq<char>) -> (Seq<char>, Option<Id>) {
    let t = trimmed(rest);
    if t.len() == 0 {
        (t, None)
    } else {
        let n = token_len(t) as int;
        (t.skip(n), parsed_id(t.take(n)))
    }
}

proof fn lemma_digits_value_grows(s: Seq<char>)
    requires
        s.len() > 0,
    ensures
        digits_value(s) >= digits_value(s.drop_last()),
{
}

/// Reads `v` as `u16::from_str` would.
fn parse_chars(v: &Vec<char>) -> (r: Option<Id>)
    ensures
        r == parsed_id(v@),
{
    let start: usize = if v.len() > 0 && v[0] == '+' { 1 } else { 0 };
    let d = slice(v, start, v.len());
    assert(d@ =~= unsigned_part(v@));
    if d.len() == 0 {
        return None;
    }
    let mut acc: u32 = 0;
    let mut over = false;
    let mut k: usize = 0;
    while k < d.len()
        invariant
            d@ == unsigned_part(v@),
            d@.len() > 0,
            k <= d@.len(),
            all_digits(d@.take(k as int)),
            !over ==> acc == digits_value(d@.take(k as int)) && acc <= u16::MAX,
            over ==> digits_value(d@.take(k as int)) > u16::MAX,
        decreases d@.len() - k,
    {
        let c = d[k];
        if !('0' <= c && c <= '9') {
            assert(!is_digit(d@[k as int]));
            assert(!all_digits(d@));
            return None;
        }
        proof {
            assert(d@.take(k + 1).drop_last() =~= d@.take(k as int));
            assert(d@.take(k + 1).last() == c);
            lemma_digits_value_grows(d@.take(k + 1));
            assert forall|i: int| 0 <= i < k + 1 implies is_digit(#[trigger] d@.take(k + 1)[i]) by {
                if i < k {
                    assert(d@.take(k + 1)[i] == d@.take(k as int)[i]);
                }
            }
        }
        if !over {
            let next = acc * 10 + (c as u32 - '0' as u32);
            if next > 65535 {
                over = true;
            } else {
                acc = next;
            }
        }
        k = k + 1;
    }
    assert(d@.take(d@.len() as int) =~= d@);
    if over {
        None
    } else {
        Some(acc as u16)
    }
}

/// A best-effort scan of the identifiers in a message body.
///
/// Each step drops surrounding whitespace, takes the text up to the next
/// whitespace or colon and reads it as an identifier. The scan ends at the
/// first step that finds no text, or text that is no identifier: that step
/// and every later one yield `None`. Callers asking for the first few
/// identifiers then get fewer of them, and no error.
pub struct IdSequenceParser {
    rest: Vec<char>,
    ended: bool,
}

impl View for IdSequenceParser {
    /// The text not scanned yet, and whether the scan has ended.
    type V = (Seq<char>, bool);

    closed spec fn view(&self) -> (Seq<char>, bool) {
        (self.rest@, self.ended)
    }
}

impl IdSequenceParser {
    pub fn new(text: &str) -> (r: Self)
        ensures
            r@ == (text@, false),
    {
        IdSequenceParser { rest: chars_of(text), ended: false }
    }

    /// A scan over the characters of `text`.
    pub fn from_chars(text: &Vec<char>) -> (r: Self)
        ensures
            r@ == (text@, false),
    {
        IdSequenceParser { rest: slice(text, 0, text.len()), ended: false }
    }

    /// The next identifier of the scan, if the scan has not ended and the
    /// next token is one; `None` ends the scan.
    pub fn next(&mut self) -> (r: Option<Id>)
        ensures
            old(self)@.1 ==> r is None && final(self)@ == old(self)@,
            !old(self)@.1 ==> {
                &&& r == scan_step(old(self)@.0).1
                &&& final(self)@.0 == scan_step(old(self)@.0).0
                &&& final(self)@.1 == r is None
            },
    {
        if self.ended {
            return None;
        }
        let t = trim(&self.rest);
        if t.len() == 0 {
            self.rest = t;
            self.ended = true;
            return None;
        }
        let mut n: usize = 0;
        assert(t@.skip(0) =~= t@);
        while n < t.len() && !is_whitespace(t[n]) && t[n] != ':'
            invariant
                n <= t@.len(),
                token_len(t@) == n + token_len(t@.skip(n as int)),
            decreases t@.len() - n,
        {
            assert(t@.skip(n as int).drop_first() =~= t@.skip(n + 1));
            n = n + 1;
        }
        let piece = slice(&t, 0, n);
        self.rest = slice(&t, n, t.len());
        assert(piece@ =~= t@.take(n as int));
        assert(self.rest@ =~= t@.skip(n as int));
        let r = parse_chars(&piece);
        self.ended = r.is_none();
        r
    }
}

/// The first identifier of `text`, if its first token is one.
pub fn parse_id(text: &str) -> (r: Option<Id>)
    ensures
        r == scan_step(text@).1,
{
    IdSequenceParser::new(text).next()
}

} // verus!
