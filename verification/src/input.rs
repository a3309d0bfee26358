//! The input source: the lines that answer the prompts of an operation.
//!
//! A line is either text or unreadable (a read that failed). Once the lines are
//! used up, every further read gives the empty text, as a stream at its end does.

use vstd::prelude::*;
use crate::text::{chars_of, lines_of, split_lines, string_of, trimmed, views_of};

verus! {

/// The lines still to be read, first line first.
pub struct Input {
    lines: Vec<Option<String>>,
    next: usize,
}

/// What a stored line stands for: its characters, or nothing where it is
/// unreadable.
pub open spec fn line_view(line: Option<String>) -> Option<Seq<char>> {
    match line {
        Some(text) => Some(text@),
        None => None,
    }
}

/// The views of `lines`, in order.
pub open spec fn line_views(lines: Seq<Option<String>>) -> Seq<Option<Seq<char>>> {
    Seq::new(lines.len(), |i: int| line_view(lines[i]))
}

/// `lines`, each as a readable line.
pub open spec fn readable(lines: Seq<Seq<char>>) -> Seq<Option<Seq<char>>> {
    Seq::new(lines.len(), |i: int| Some(lines[i]))
}

/// What the next read of `pending` gives: its first line, or the empty text at
/// the end of the input.
pub open spec fn first_line(pending: Seq<Option<Seq<char>>>) -> Option<Seq<char>> {
    if pending.len() > 0 {
        pending[0]
    } else {
        Some(Seq::empty())
    }
}

/// What is left of `pending` after one read.
pub open spec fn after_line(pending: Seq<Option<Seq<char>>>) -> Seq<Option<Seq<char>>> {
    if pending.len() > 0 {
        pending.skip(1)
    } else {
        pending
    }
}

/// The text that is read from `pending` when unreadable lines are passed over:
/// the first readable line, trimmed.
pub open spec fn text_read(pending: Seq<Option<Seq<char>>>) -> Seq<char>
    decreases pending.len(),
{
    match first_line(pending) {
        Some(text) => trimmed(text),
        None => text_read(pending.skip(1)),
    }
}

/// What is left of `pending` after `text_read`.
pub open spec fn after_text(pending: Seq<Option<Seq<char>>>) -> Seq<Option<Seq<char>>>
    decreases pending.len(),
{
    match first_line(pending) {
        Some(_) => after_line(pending),
        None => after_text(pending.skip(1)),
    }
}

impl Input {
    /// The lines still to be read, first line first.
    pub closed spec fn pending(&self) -> Seq<Option<Seq<char>>> {
        if self.next <= self.lines@.len() {
            Seq::new(
                (self.lines@.len() - self.next) as nat,
                |i: int| line_view(self.lines@[self.next + i]),
            )
        } else {
            Seq::empty()
        }
    }

    /// An input that gives `lines` in order; `None` stands for an unreadable line.
    pub fn new(lines: Vec<Option<String>>) -> (input: Input)
        ensures
            input.pending() == line_views(lines@),
    {
        let input = Input { lines, next: 0 };
        proof {
            assert(input.pending() =~= line_views(lines@));
        }
        input
    }

    /// An input that gives the lines of `text`, all of them readable.
    pub fn from_text(text: &str) -> (input: Input)
        ensures
            input.pending() == readable(lines_of(text@)),
    {
        let chars = chars_of(text);
        let split = split_lines(&chars);
        let mut lines: Vec<Option<String>> = Vec::new();
        let mut i: usize = 0;
        while i < split.len()
            invariant
                i <= split@.len(),
                lines@.len() == i,
                forall|j: int| 0 <= j < i ==> line_view(lines@[j]) == Some(split@[j]@),
            decreases split@.len() - i,
        {
            lines.push(Some(string_of(&split[i])));
            i += 1;
        }
        let input = Input { lines, next: 0 };
        proof {
            assert(views_of(split@).len() == split@.len());
            assert forall|j: int| 0 <= j < split@.len() implies input.pending()[j] == readable(
                lines_of(text@),
            )[j] by {
                assert(views_of(split@)[j] == split@[j]@);
            }
            assert(input.pending() =~= readable(lines_of(text@)));
        }
        input
    }

    /// Reads one line: `None` where it is unreadable, the empty text at the end
    /// of the input.
    pub fn read_line(&mut self) -> (line: Option<String>)
        ensures
            line_view(line) == first_line(old(self).pending()),
            final(self).pending() == after_line(old(self).pending()),
    {
        if self.next < self.lines.len() {
            let line = match &self.lines[self.next] {
                Some(text) => Some(text.clone()),
                None => None,
            };
            self.next += 1;
            proof {
                assert(self.pending() =~= old(self).pending().skip(1));
            }
            line
        } else {
            proof {
                assert(old(self).pending().len() == 0);
            }
            Some(String::new())
        }
    }

    /// Reads lines until one is readable, and returns it trimmed.
    pub fn read_trimmed(&mut self) -> (text: String)
        ensures
            text@ == text_read(old(self).pending()),
            final(self).pending() == after_text(old(self).pending()),
    {
        loop
            invariant
                text_read(self.pending()) == text_read(old(self).pending()),
                after_text(self.pending()) == after_text(old(self).pending()),
            decreases self.pending().len(),
        {
            let ghost before = self.pending();
            match self.read_line() {
                Some(line) => {
                    let chars = chars_of(line.as_str());
                    let kept = crate::text::trim(&chars);
                    return string_of(&kept);
                },
                None => {
                    proof {
                        assert(before.len() > 0);
                    }
                },
            }
        }
    }
}

} // verus!
