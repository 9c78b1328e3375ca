//! The text-buffer and cursor model of the editor.
//!
//! [`TextEditor`] owns the document — a vector of characters, newlines
//! included — and a single cursor offset into it. The cursor always stays in
//! `0 ..= text.len()`: every motion or edit that would leave that range is a
//! no-op instead. Vertical motion keeps the cursor's raw offset from the
//! start of its line and deliberately does not clamp the column to the
//! target line's length.

use crate::model::char_count;
use crate::model::column_of;
use crate::model::down_cursor;
use crate::model::left_cursor;
use crate::model::lemma_char_count_take_step;
use crate::model::lemma_char_count_split;
use crate::model::lemma_lines_count;
use crate::model::lemma_up_step_bound;
use crate::model::line_of;
use crate::model::line_start;
use crate::model::lines_of;
use crate::model::right_cursor;
use crate::model::up_cursor;
use vstd::prelude::*;

verus! {

/// A document and a cursor offset into it.
pub struct TextEditor {
    /// The document: its full contents, newline characters included.
    pub text: Vec<char>,
    /// The cursor: an offset in `0 ..= text.len()`. A character is inserted
    /// at this offset, and a backspace removes the character just before it.
    pub cursor: usize,
}

impl TextEditor {
    /// The cursor never leaves the document.
    pub open spec fn wf(&self) -> bool {
        self.cursor <= self.text@.len()
    }

    /// A fresh editor over `text`, with the cursor at the start.
    pub fn new(text: Vec<char>) -> (r: TextEditor)
        ensures
            r.wf(),
            r.text@ == text@,
            r.cursor == 0,
    {
        TextEditor { text, cursor: 0 }
    }

    /// The number of newlines in the first `upto` characters of the document.
    fn count_newlines_upto(&self, upto: usize) -> (r: usize)
        requires
            upto <= self.text@.len(),
        ensures
            r == char_count(self.text@.take(upto as int), '\n'),
            r <= upto,
    {
        let mut count: usize = 0;
        let mut i: usize = 0;
        proof {
            assert(self.text@.take(0) =~= Seq::<char>::empty());
        }
        while i < upto
            invariant
                i <= upto <= self.text@.len(),
                count <= i,
                count == char_count(self.text@.take(i as int), '\n'),
            decreases upto - i,
        {
            proof {
                lemma_char_count_take_step(self.text@, i as int, '\n');
            }
            if self.text[i] == '\n' {
                count = count + 1;
            }
            i = i + 1;
        }
        count
    }

    /// The zero-based line the cursor is on: the number of newlines before it.
    pub fn get_current_y(&self) -> (r: usize)
        requires
            self.wf(),
        ensures
            r == line_of(self.text@, self.cursor as int),
    {
        self.count_newlines_upto(self.cursor)
    }

    /// The one-based number of the cursor's line: the number of
    /// newline-separated pieces that the document before the cursor falls into.
    pub fn get_line_number(&self) -> (r: usize)
        requires
            self.wf(),
            self.cursor < usize::MAX,
        ensures
            r == line_of(self.text@, self.cursor as int) + 1,
    {
        let y = self.count_newlines_upto(self.cursor);
        y + 1
    }

    /// The cursor's column: its distance from the start of its line.
    pub fn get_current_x(&self) -> (r: usize)
        requires
            self.wf(),
        ensures
            r == column_of(self.text@, self.cursor as int),
    {
        let mut j: usize = self.cursor;
        while j > 0 && self.text[j - 1] != '\n'
            invariant
                j <= self.cursor <= self.text@.len(),
                line_start(self.text@, self.cursor as int) == line_start(self.text@, j as int),
            decreases j,
        {
            j = j - 1;
        }
        self.cursor - j
    }

    /// The document's lines: the stretches between newlines, in order. There
    /// is always at least one line, and a trailing newline opens a last,
    /// empty one.
    pub fn get_lines(&self) -> (r: Vec<Vec<char>>)
        ensures
            r@.len() == lines_of(self.text@).len(),
            forall|k: int| 0 <= k < r@.len() ==> (#[trigger] r@[k])@ == lines_of(self.text@)[k],
    {
        let ghost s = self.text@;
        let mut r: Vec<Vec<char>> = Vec::new();
        let mut cur: Vec<char> = Vec::new();
        let mut i: usize = 0;
        proof {
            assert(s.take(0) =~= Seq::<char>::empty());
        }
        while i < self.text.len()
            invariant
                s == self.text@,
                i <= s.len(),
                r@.len() + 1 == lines_of(s.take(i as int)).len(),
                forall|k: int|
                    0 <= k < r@.len() ==> (#[trigger] r@[k])@ == lines_of(s.take(i as int))[k],
                cur@ == lines_of(s.take(i as int)).last(),
            decreases s.len() - i,
        {
            proof {
                assert(s.take(i + 1).drop_last() =~= s.take(i as int));
                assert(s.take(i + 1).last() == s[i as int]);
            }
            let ch = self.text[i];
            if ch == '\n' {
                r.push(cur);
                cur = Vec::new();
            } else {
                cur.push(ch);
            }
            i = i + 1;
        }
        proof {
            assert(s.take(s.len() as int) =~= s);
        }
        r.push(cur);
        r
    }

    /// The number of lines in the document: one more than its newlines.
    pub fn line_count(&self) -> (r: usize)
        requires
            self.text@.len() < usize::MAX,
        ensures
            r == lines_of(self.text@).len(),
    {
        proof {
            lemma_lines_count(self.text@);
            assert(self.text@.take(self.text@.len() as int) =~= self.text@);
        }
        let total = self.count_newlines_upto(self.text.len());
        total + 1
    }

    /// The length of the line at index `at`.
    pub fn get_line_len(&self, at: usize) -> (r: usize)
        requires
            at < lines_of(self.text@).len(),
        ensures
            r == lines_of(self.text@)[at as int].len(),
    {
        let lines = self.get_lines();
        lines[at].len()
    }

    /// The length of the line whose index equals the cursor offset — a
    /// diagnostic reading, meaningful only while the cursor offset is also a
    /// valid line index.
    pub fn current_line_len(&self) -> (r: usize)
        requires
            self.cursor < lines_of(self.text@).len(),
        ensures
            r == lines_of(self.text@)[self.cursor as int].len(),
    {
        self.get_line_len(self.cursor)
    }

    /// The document as displayed: its characters with a single `|` marker
    /// inserted at the cursor offset. The marker is synthetic; the document
    /// itself is unchanged.
    pub fn get_text(&self) -> (r: Vec<char>)
        requires
            self.wf(),
        ensures
            r@ == self.text@.insert(self.cursor as int, '|'),
    {
        let mut r = self.text.clone();
        proof {
            assert(r@ =~= self.text@);
        }
        r.insert(self.cursor, '|');
        r
    }

    /// Inserts `ch` at the cursor and advances the cursor past it. Always
    /// succeeds, on the empty document too.
    pub fn insert(&mut self, ch: char)
        requires
            old(self).wf(),
        ensures
            final(self).wf(),
            final(self).text@ == old(self).text@.insert(old(self).cursor as int, ch),
            final(self).cursor == old(self).cursor + 1,
    {
        let at = self.cursor;
        self.text.insert(at, ch);
        proof {
            old(self).text@.insert_ensures(old(self).cursor as int, ch);
        }
        self.move_right();
    }

    /// Removes the character just before the cursor and moves the cursor back
    /// over it — a backspace. At the start of the document it is a no-op.
    pub fn delete(&mut self)
        requires
            old(self).wf(),
        ensures
            final(self).wf(),
            old(self).cursor == 0 ==> *final(self) == *old(self),
            old(self).cursor > 0 ==> final(self).text@ == old(self).text@.remove(
                old(self).cursor - 1,
            ) && final(self).cursor == old(self).cursor - 1,
    {
        if self.cursor == 0 {
            return ;
        }
        self.move_left();
        let at = self.cursor;
        self.text.remove(at);
        proof {
            old(self).text@.remove_ensures(old(self).cursor - 1);
        }
    }

    /// One step right, through newlines like any other character; a no-op at
    /// the end of the document.
    pub fn move_right(&mut self)
        requires
            old(self).wf(),
        ensures
            final(self).wf(),
            final(self).text@ == old(self).text@,
            final(self).cursor == right_cursor(
                old(self).cursor as int,
                old(self).text@.len() as int,
            ),
    {
        if self.cursor == self.text.len() {
            return ;
        }
        self.cursor = self.cursor + 1;
    }

    /// One step left; a no-op at the start of the document.
    pub fn move_left(&mut self)
        requires
            old(self).wf(),
        ensures
            final(self).wf(),
            final(self).text@ == old(self).text@,
            final(self).cursor == left_cursor(old(self).cursor as int),
    {
        if self.cursor == 0 {
            return ;
        }
        self.cursor = self.cursor - 1;
    }

    /// One line up: the cursor steps back over the whole previous line and
    /// the newline that ends it, keeping its raw offset from the line start
    /// rather than clamping to the previous line's length. On the first line
    /// it is a no-op.
    pub fn move_up(&mut self)
        requires
            old(self).wf(),
        ensures
            final(self).wf(),
            final(self).text@ == old(self).text@,
            final(self).cursor == up_cursor(old(self).text@, old(self).cursor as int),
    {
        let y = self.get_current_y();
        if y == 0 {
            return ;
        }
        proof {
            lemma_up_step_bound(self.text@, self.cursor as int);
        }
        let prev_len = self.get_line_len(y - 1);
        self.cursor = self.cursor - prev_len - 1;
    }

    /// One line down: the cursor steps forward over the rest of its line, the
    /// newline, and on into the next line by its old column, without clamping
    /// to that line's length. On the last line it is a no-op, and so is a
    /// move that would carry the cursor past the end of the document.
    pub fn move_down(&mut self)
        requires
            old(self).wf(),
        ensures
            final(self).wf(),
            final(self).text@ == old(self).text@,
            final(self).cursor == down_cursor(old(self).text@, old(self).cursor as int),
    {
        let y = self.get_current_y();
        let total = self.count_newlines_upto(self.text.len());
        proof {
            lemma_lines_count(self.text@);
            assert(self.text@.take(self.text@.len() as int) =~= self.text@);
            lemma_char_count_split(self.text@, self.cursor as int, '\n');
        }
        if y == total {
            return ;
        }
        let step_len = self.get_line_len(y);
        let rest = self.text.len() - self.cursor;
        if step_len >= rest {
            return ;
        }
        self.cursor = self.cursor + step_len + 1;
    }
}

} // verus!
