//! The cursor: a position that moves over the text of a store.

use vstd::prelude::*;
use crate::gap_store::GapStore;
use crate::position::Position;
use crate::text::{in_bounds, lemma_bounds, lemma_line_starts_shape, line_count, line_len};

verus! {

/// Where a jump to `to` leaves a cursor that stood at `from`: at `to` if
/// that is a place in `text`, and where it was if not.
pub open spec fn after_move_to(text: Seq<char>, from: Position, to: Position) -> Position {
    if in_bounds(text, to) {
        to
    } else {
        from
    }
}

/// Where a step onto line `line` leaves a cursor that stood at `from`: on
/// that line, in the column it had or at the end of the line if the line is
/// shorter; where it was if `text` has no such line.
pub open spec fn after_move_to_line(text: Seq<char>, from: Position, line: int) -> Position {
    if 0 <= line < line_count(text) {
        Position {
            line: line as usize,
            offset: if from.offset <= line_len(text, line) {
                from.offset
            } else {
                line_len(text, line) as usize
            },
        }
    } else {
        from
    }
}

/// Where a step to column `offset` of its own line leaves a cursor that
/// stood at `from`: there if that is a place in `text`, where it was if not.
pub open spec fn after_move_to_column(text: Seq<char>, from: Position, offset: int) -> Position {
    if from.line < line_count(text) && 0 <= offset <= line_len(text, from.line as int) {
        Position { line: from.line, offset: offset as usize }
    } else {
        from
    }
}

/// A position that tracks the place of editing in a store.
///
/// The cursor does not hold the store: each movement is given the store and
/// checks against its text as it then is. A movement never leaves the cursor
/// at a position that is no place in that text; one that would is not made.
/// Sideways movement stays within the line: it does not wrap to the line
/// before or after.
#[derive(Clone, Copy, Debug, PartialEq, Eq, Structural)]
pub struct Cursor {
    pub position: Position,
}

impl Cursor {
    /// A cursor at the start of the text.
    pub fn new() -> (cursor: Cursor)
        ensures
            cursor.position == (Position { line: 0, offset: 0 }),
    {
        Cursor { position: Position { line: 0, offset: 0 } }
    }

    /// The line the cursor is on.
    pub fn line(&self) -> (line: usize)
        ensures
            line == self.position.line,
    {
        self.position.line
    }

    /// The column the cursor is in.
    pub fn offset(&self) -> (offset: usize)
        ensures
            offset == self.position.offset,
    {
        self.position.offset
    }

    /// Jumps to `position` if it is a place in the text of `store`, and says
    /// whether it did. Otherwise the cursor stays where it is.
    pub fn move_to(&mut self, store: &GapStore, position: Position) -> (moved: bool)
        requires
            store.wf(),
        ensures
            moved == in_bounds(store@, position),
            final(self).position == after_move_to(store@, old(self).position, position),
            in_bounds(store@, old(self).position) ==> in_bounds(store@, final(self).position),
    {
        if store.in_bounds(&position) {
            self.position = position;
            true
        } else {
            false
        }
    }

    /// Steps to the line above, keeping the column where that line is long
    /// enough and going to its end where it is not. On the first line the
    /// cursor stays where it is.
    pub fn move_up(&mut self, store: &GapStore)
        requires
            store.wf(),
        ensures
            final(self).position == after_move_to_line(
                store@,
                old(self).position,
                old(self).position.line - 1,
            ),
            in_bounds(store@, old(self).position) ==> in_bounds(store@, final(self).position),
    {
        if self.position.line > 0 {
            self.move_to_line(store, self.position.line - 1);
        }
    }

    /// Steps to the line below, keeping the column where that line is long
    /// enough and going to its end where it is not. On the last line the
    /// cursor stays where it is.
    pub fn move_down(&mut self, store: &GapStore)
        requires
            store.wf(),
        ensures
            final(self).position == after_move_to_line(
                store@,
                old(self).position,
                old(self).position.line + 1,
            ),
            in_bounds(store@, old(self).position) ==> in_bounds(store@, final(self).position),
    {
        proof {
            store.lemma_addressable();
        }
        if self.position.line < usize::MAX {
            self.move_to_line(store, self.position.line + 1);
        }
    }

    /// Steps one character to the left. At the start of a line the cursor
    /// stays where it is.
    pub fn move_left(&mut self, store: &GapStore)
        requires
            store.wf(),
        ensures
            final(self).position == after_move_to_column(
                store@,
                old(self).position,
                old(self).position.offset - 1,
            ),
            in_bounds(store@, old(self).position) ==> in_bounds(store@, final(self).position),
    {
        if self.position.offset > 0 {
            let target = Position { line: self.position.line, offset: self.position.offset - 1 };
            self.move_to(store, target);
        }
    }

    /// Steps one character to the right. At the end of a line the cursor
    /// stays where it is.
    pub fn move_right(&mut self, store: &GapStore)
        requires
            store.wf(),
        ensures
            final(self).position == after_move_to_column(
                store@,
                old(self).position,
                old(self).position.offset + 1,
            ),
            in_bounds(store@, old(self).position) ==> in_bounds(store@, final(self).position),
    {
        proof {
            store.lemma_addressable();
            lemma_line_starts_shape(store@);
        }
        if self.position.offset < usize::MAX {
            let target = Position { line: self.position.line, offset: self.position.offset + 1 };
            self.move_to(store, target);
        }
    }

    /// Goes to the first column of the line.
    pub fn move_to_start_of_line(&mut self, store: &GapStore)
        requires
            store.wf(),
        ensures
            final(self).position == after_move_to_column(store@, old(self).position, 0),
            in_bounds(store@, old(self).position) ==> in_bounds(store@, final(self).position),
    {
        proof {
            lemma_bounds(store@);
        }
        let target = Position { line: self.position.line, offset: 0 };
        self.move_to(store, target);
    }

    /// Goes to the end of the line: the column just past its last character.
    pub fn move_to_end_of_line(&mut self, store: &GapStore)
        requires
            store.wf(),
        ensures
            final(self).position == after_move_to_column(
                store@,
                old(self).position,
                line_len(store@, old(self).position.line as int),
            ),
            in_bounds(store@, old(self).position) ==> in_bounds(store@, final(self).position),
    {
        match store.line_length(self.position.line) {
            Some(length) => {
                self.position = Position { line: self.position.line, offset: length };
            },
            None => {},
        }
    }

    /// Goes onto line `line`, as [`after_move_to_line`] says.
    fn move_to_line(&mut self, store: &GapStore, line: usize)
        requires
            store.wf(),
        ensures
            final(self).position == after_move_to_line(store@, old(self).position, line as int),
            in_bounds(store@, final(self).position) || final(self).position == old(self).position,
    {
        match store.line_length(line) {
            Some(length) => {
                let offset = if self.position.offset <= length {
                    self.position.offset
                } else {
                    length
                };
                self.position = Position { line, offset };
            },
            None => {},
        }
    }
}

} // verus!
