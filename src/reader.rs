//! Picking the kill messages out of a log's lines.

use vstd::prelude::*;

use crate::text::{chars_of, find, first_occurrence};

verus! {

/// The text that marks a line holding a kill message.
pub open spec fn kill_marker() -> Seq<char> {
    " Kill: "@
}

pub open spec fn is_kill_line(line: Seq<char>) -> bool {
    first_occurrence(line, kill_marker()) is Some
}

/// Hands out, in order, the lines of a log that hold a kill message.
pub struct LogReader {
    lines: Vec<String>,
    next_index: usize,
}

impl LogReader {
    /// The lines not handed out or passed over yet.
    pub closed spec fn pending(&self) -> Seq<Seq<char>> {
        self.lines@.skip(self.next_index as int).map_values(|l: String| l@)
    }

    pub closed spec fn wf(&self) -> bool {
        self.next_index <= self.lines@.len()
    }

    pub fn new(lines: Vec<String>) -> (r: Self)
        ensures
            r.wf(),
            r.pending() == lines@.map_values(|l: String| l@),
    {
        let r = LogReader { lines, next_index: 0 };
        assert(r.lines@.skip(0) =~= r.lines@);
        r
    }

    /// The next pending kill line; the lines before it are passed over.
    pub fn next(&mut self) -> (r: Option<String>)
        requires
            old(self).wf(),
        ensures
            final(self).wf(),
            match r {
                Some(l) => exists|k: int|
                    0 <= k < old(self).pending().len() && old(self).pending()[k] == l@
                        && is_kill_line(l@) && (forall|m: int|
                        0 <= m < k ==> !is_kill_line(#[trigger] old(self).pending()[m]))
                        && final(self).pending() == old(self).pending().skip(k + 1),
                None => forall|m: int|
                    0 <= m < old(self).pending().len() ==> !is_kill_line(
                        #[trigger] old(self).pending()[m],
                    ),
            },
    {
        let marker = chars_of(" Kill: ");
        let ghost start = self.next_index as int;
        let ghost before = old(self).pending();
        while self.next_index < self.lines.len()
            invariant
                0 <= start <= self.next_index <= self.lines@.len(),
                before == self.lines@.skip(start).map_values(|l: String| l@),
                before == old(self).pending(),
                marker@ == kill_marker(),
                forall|m: int| 0 <= m < self.next_index - start ==> !is_kill_line(#[trigger] before[m]),
            decreases self.lines@.len() - self.next_index,
        {
            let i = self.next_index;
            let text = chars_of(self.lines[i].as_str());
            self.next_index = i + 1;
            assert(self.lines@.skip(start)[i - start] == self.lines@[i as int]);
            assert(before[i - start] == self.lines@[i as int]@);
            if find(&text, &marker).is_some() {
                let line = self.lines[i].clone();
                assert forall|m: int| 0 <= m < self.pending().len() implies #[trigger] self.pending()[m]
                    == before.skip(i - start + 1)[m] by {
                    assert(self.lines@.skip(i + 1)[m] == self.lines@[i + 1 + m]);
                    assert(self.lines@.skip(start)[i - start + 1 + m] == self.lines@[i + 1 + m]);
                }
                assert(self.pending() =~= before.skip(i - start + 1));
                assert(line@ == text@);
                assert(is_kill_line(line@));
                assert(before[i - start] == line@);
                return Some(line);
            }
        }
        None
    }
}

} // verus!
