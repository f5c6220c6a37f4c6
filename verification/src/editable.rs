//! Single-line and multi-line text editing widgets for the compose view.
//! Cursors count characters, never bytes, so multibyte text is safe.

use vstd::prelude::*;

use crate::text::{insert_at, remove_at, string_insert_char, string_remove_char, substring};

verus! {

/// A single-line editable field (To/Cc/Bcc/Subject).
#[derive(Debug, Clone)]
pub struct TextInput {
    pub value: String,
    /// Character index, not byte index.
    pub cursor: usize,
}

/// The position that an edit at `cursor` acts on: the cursor, clamped to
/// the end of the text.
pub open spec fn clamp(cursor: int, len: int) -> int {
    if cursor < len { cursor } else { len }
}

impl Default for TextInput {
    fn default() -> (r: Self)
        ensures
            r.value@ == Seq::<char>::empty(),
            r.cursor == 0,
    {
        TextInput { value: String::new(), cursor: 0 }
    }
}

impl TextInput {
    /// A field holding `value`, with the cursor after its last character.
    pub fn with_value(value: &str) -> (r: Self)
        ensures
            r.value@ == value@,
            r.cursor == value@.len(),
    {
        let cursor = value.unicode_len();
        TextInput { value: String::from_str(value), cursor }
    }

    /// Inserts `c` at the cursor (at the end when the cursor lies past
    /// it) and moves the cursor one place right.
    pub fn insert(&mut self, c: char)
        requires
            old(self).cursor < usize::MAX,
        ensures
            final(self).value@ == insert_at(
                old(self).value@,
                clamp(old(self).cursor as int, old(self).value@.len() as int),
                c,
            ),
            final(self).cursor == old(self).cursor + 1,
    {
        let n = self.value.as_str().unicode_len();
        let k = if self.cursor < n { self.cursor } else { n };
        self.value = string_insert_char(self.value.as_str(), k, c);
        self.cursor = self.cursor + 1;
    }

    /// Deletes the character before the cursor; a no-op at the start.
    pub fn backspace(&mut self)
        requires
            old(self).cursor <= old(self).value@.len(),
        ensures
            old(self).cursor == 0 ==> *final(self) == *old(self),
            old(self).cursor > 0 ==> {
                &&& final(self).cursor == old(self).cursor - 1
                &&& final(self).value@ == remove_at(old(self).value@, old(self).cursor - 1)
            },
    {
        if self.cursor == 0 {
            return;
        }
        self.cursor = self.cursor - 1;
        self.value = string_remove_char(self.value.as_str(), self.cursor);
    }

    /// Moves the cursor one character left, stopping at 0.
    pub fn left(&mut self)
        ensures
            final(self).value == old(self).value,
            final(self).cursor == (if old(self).cursor > 0 { old(self).cursor - 1 } else { 0 }),
    {
        if self.cursor > 0 {
            self.cursor = self.cursor - 1;
        }
    }

    /// Moves the cursor one character right, stopping at the end.
    pub fn right(&mut self)
        ensures
            final(self).value == old(self).value,
            final(self).cursor == clamp(old(self).cursor + 1, old(self).value@.len() as int),
    {
        let n = self.value.as_str().unicode_len();
        self.cursor = if self.cursor < n { self.cursor + 1 } else { n };
    }
}


/// A multi-line editable field (the message body).
#[derive(Debug, Clone)]
pub struct TextArea {
    pub lines: Vec<String>,
    pub cursor_row: usize,
    pub cursor_col: usize,
}

/// The character sequences of a list of lines.
pub open spec fn lines_view(lines: Seq<String>) -> Seq<Seq<char>> {
    lines.map_values(|l: String| l@)
}

/// The lines joined with `'\n'` between consecutive ones.
pub open spec fn join_lines(lines: Seq<Seq<char>>) -> Seq<char>
    decreases lines.len(),
{
    if lines.len() == 0 {
        Seq::empty()
    } else if lines.len() == 1 {
        lines[0]
    } else {
        join_lines(lines.drop_last()) + seq!['\n'] + lines.last()
    }
}

impl TextArea {
    /// The character sequences of the lines.
    pub open spec fn view_lines(&self) -> Seq<Seq<char>> {
        lines_view(self.lines@)
    }

    /// The cursor's row names an existing line: what every edit needs.
    pub open spec fn row_ok(&self) -> bool {
        self.cursor_row < self.lines@.len()
    }

    /// The line under the cursor.
    pub open spec fn current(&self) -> Seq<char> {
        self.lines@[self.cursor_row as int]@
    }
}

impl Default for TextArea {
    fn default() -> (r: Self)
        ensures
            r.view_lines() == seq![Seq::<char>::empty()],
            r.cursor_row == 0,
            r.cursor_col == 0,
    {
        let mut lines: Vec<String> = Vec::new();
        lines.push(String::new());
        let r = TextArea { lines, cursor_row: 0, cursor_col: 0 };
        assert(r.view_lines() =~= seq![Seq::<char>::empty()]);
        r
    }
}

impl TextArea {
    /// Inserts `c` at the cursor (at the end of the line when the cursor
    /// lies past it) and moves the cursor one place right.
    pub fn insert(&mut self, c: char)
        requires
            old(self).row_ok(),
            old(self).cursor_col < usize::MAX,
        ensures
            final(self).view_lines() == old(self).view_lines().update(
                old(self).cursor_row as int,
                insert_at(
                    old(self).current(),
                    clamp(old(self).cursor_col as int, old(self).current().len() as int),
                    c,
                ),
            ),
            final(self).cursor_row == old(self).cursor_row,
            final(self).cursor_col == old(self).cursor_col + 1,
    {
        let row = self.cursor_row;
        let n = self.lines[row].as_str().unicode_len();
        let k = if self.cursor_col < n { self.cursor_col } else { n };
        let updated = string_insert_char(self.lines[row].as_str(), k, c);
        self.lines.set(row, updated);
        self.cursor_col = self.cursor_col + 1;
        assert(self.view_lines() =~= old(self).view_lines().update(
            row as int,
            insert_at(old(self).current(), k as int, c),
        ));
    }

    /// Splits the current line at the cursor: the text after it moves to
    /// a new line below, where the cursor goes, at column 0.
    pub fn newline(&mut self)
        requires
            old(self).row_ok(),
            old(self).lines@.len() < usize::MAX,
        ensures
            ({
                let k = clamp(old(self).cursor_col as int, old(self).current().len() as int);
                let row = old(self).cursor_row as int;
                final(self).view_lines() == old(self).view_lines().update(
                    row,
                    old(self).current().take(k),
                ).insert(row + 1, old(self).current().skip(k))
            }),
            final(self).cursor_row == old(self).cursor_row + 1,
            final(self).cursor_col == 0,
    {
        let row = self.cursor_row;
        let n = self.lines[row].as_str().unicode_len();
        let k = if self.cursor_col < n { self.cursor_col } else { n };
        let head = substring(self.lines[row].as_str(), 0, k);
        let rest = substring(self.lines[row].as_str(), k, n);
        self.lines.set(row, head);
        self.lines.insert(row + 1, rest);
        self.cursor_row = row + 1;
        self.cursor_col = 0;
        assert(self.view_lines() =~= old(self).view_lines().update(
            row as int,
            old(self).current().take(k as int),
        ).insert(row + 1, old(self).current().skip(k as int)));
    }

    /// Deletes the character before the cursor; at the start of a line,
    /// joins the line onto the end of the previous one instead, leaving
    /// the cursor at the join point; at the very start, does nothing.
    pub fn backspace(&mut self)
        requires
            old(self).row_ok(),
            old(self).cursor_col <= old(self).current().len(),
        ensures
            old(self).cursor_col > 0 ==> {
                &&& final(self).view_lines() == old(self).view_lines().update(
                    old(self).cursor_row as int,
                    remove_at(old(self).current(), old(self).cursor_col - 1),
                )
                &&& final(self).cursor_row == old(self).cursor_row
                &&& final(self).cursor_col == old(self).cursor_col - 1
            },
            old(self).cursor_col == 0 && old(self).cursor_row > 0 ==> {
                let row = old(self).cursor_row as int;
                let prev = old(self).view_lines()[row - 1];
                &&& final(self).view_lines() == old(self).view_lines().update(
                    row - 1,
                    prev + old(self).current(),
                ).remove(row)
                &&& final(self).cursor_row == row - 1
                &&& final(self).cursor_col == prev.len()
            },
            old(self).cursor_col == 0 && old(self).cursor_row == 0 ==> *final(self) == *old(self),
    {
        if self.cursor_col > 0 {
            let row = self.cursor_row;
            self.cursor_col = self.cursor_col - 1;
            let updated = string_remove_char(self.lines[row].as_str(), self.cursor_col);
            self.lines.set(row, updated);
            assert(self.view_lines() =~= old(self).view_lines().update(
                row as int,
                remove_at(old(self).current(), old(self).cursor_col - 1),
            ));
        } else if self.cursor_row > 0 {
            let row = self.cursor_row;
            let current = self.lines.remove(row);
            self.cursor_row = row - 1;
            let prev_len = self.lines[row - 1].as_str().unicode_len();
            let mut joined = String::from_str(self.lines[row - 1].as_str());
            joined.append(current.as_str());
            self.lines.set(row - 1, joined);
            self.cursor_col = prev_len;
            assert(self.view_lines() =~= old(self).view_lines().update(
                row - 1,
                old(self).view_lines()[row - 1] + old(self).current(),
            ).remove(row as int));
        }
    }

    /// Moves the cursor one character left, wrapping to the end of the
    /// previous line from the start of a line.
    pub fn left(&mut self)
        requires
            old(self).row_ok(),
        ensures
            final(self).lines == old(self).lines,
            old(self).cursor_col > 0 ==> final(self).cursor_row == old(self).cursor_row
                && final(self).cursor_col == old(self).cursor_col - 1,
            old(self).cursor_col == 0 && old(self).cursor_row > 0 ==> final(self).cursor_row
                == old(self).cursor_row - 1 && final(self).cursor_col == old(self).view_lines()[old(
                self,
            ).cursor_row - 1].len(),
            old(self).cursor_col == 0 && old(self).cursor_row == 0 ==> *final(self) == *old(self),
    {
        if self.cursor_col > 0 {
            self.cursor_col = self.cursor_col - 1;
        } else if self.cursor_row > 0 {
            self.cursor_row = self.cursor_row - 1;
            self.cursor_col = self.lines[self.cursor_row].as_str().unicode_len();
        }
    }

    /// Moves the cursor one character right, wrapping to the start of the
    /// next line from the end of a line; stays put at the very end.
    pub fn right(&mut self)
        requires
            old(self).row_ok(),
        ensures
            final(self).lines == old(self).lines,
            old(self).cursor_col < old(self).current().len() ==> final(self).cursor_row == old(
                self,
            ).cursor_row && final(self).cursor_col == old(self).cursor_col + 1,
            old(self).cursor_col >= old(self).current().len() && old(self).cursor_row + 1 < old(
                self,
            ).lines@.len() ==> final(self).cursor_row == old(self).cursor_row + 1
                && final(self).cursor_col == 0,
            old(self).cursor_col >= old(self).current().len() && old(self).cursor_row + 1 >= old(
                self,
            ).lines@.len() ==> *final(self) == *old(self),
    {
        let len = self.lines[self.cursor_row].as_str().unicode_len();
        if self.cursor_col < len {
            self.cursor_col = self.cursor_col + 1;
        } else if self.cursor_row < self.lines.len() - 1 {
            self.cursor_row = self.cursor_row + 1;
            self.cursor_col = 0;
        }
    }

    /// Moves the cursor up a line, clamping the column to that line's
    /// length; stays put on the first line.
    pub fn up(&mut self)
        requires
            old(self).row_ok(),
        ensures
            final(self).lines == old(self).lines,
            old(self).cursor_row > 0 ==> final(self).cursor_row == old(self).cursor_row - 1
                && final(self).cursor_col == clamp(
                old(self).cursor_col as int,
                old(self).view_lines()[old(self).cursor_row - 1].len() as int,
            ),
            old(self).cursor_row == 0 ==> *final(self) == *old(self),
    {
        if self.cursor_row > 0 {
            self.cursor_row = self.cursor_row - 1;
            let n = self.lines[self.cursor_row].as_str().unicode_len();
            if n < self.cursor_col {
                self.cursor_col = n;
            }
        }
    }

    /// Moves the cursor down a line, clamping the column to that line's
    /// length; stays put on the last line.
    pub fn down(&mut self)
        requires
            old(self).row_ok(),
        ensures
            final(self).lines == old(self).lines,
            old(self).cursor_row + 1 < old(self).lines@.len() ==> final(self).cursor_row == old(
                self,
            ).cursor_row + 1 && final(self).cursor_col == clamp(
                old(self).cursor_col as int,
                old(self).view_lines()[old(self).cursor_row + 1].len() as int,
            ),
            old(self).cursor_row + 1 >= old(self).lines@.len() ==> *final(self) == *old(self),
    {
        if self.cursor_row < self.lines.len() - 1 {
            self.cursor_row = self.cursor_row + 1;
            let n = self.lines[self.cursor_row].as_str().unicode_len();
            if n < self.cursor_col {
                self.cursor_col = n;
            }
        }
    }

    /// The whole text: the lines joined with newlines.
    pub fn text(&self) -> (r: String)
        ensures
            r@ == join_lines(self.view_lines()),
    {
        let mut r = String::new();
        let mut i: usize = 0;
        while i < self.lines.len()
            invariant
                i <= self.lines@.len(),
                r@ == join_lines(self.view_lines().take(i as int)),
            decreases self.lines@.len() - i,
        {
            let ghost before = self.view_lines().take(i as int);
            if i > 0 {
                proof {
                    reveal_strlit("\n");
                }
                r.append("\n");
            }
            r.append(self.lines[i].as_str());
            i += 1;
            assert(self.view_lines().take(i as int).drop_last() =~= before);
            assert(self.view_lines().take(i as int).last() == self.lines@[i - 1]@);
        }
        assert(self.view_lines().take(i as int) =~= self.view_lines());
        r
    }
}

} // verus!
