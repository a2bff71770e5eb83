//! The text store: characters in a vector with a movable gap, and an index
//! of where its lines start.

use vstd::prelude::*;
use crate::chars::chars_of;
use crate::line_index::{as_ints, index_after_insert, index_after_remove, index_lines};
use crate::position::{Position, Range};
use crate::text::{
    in_bounds, lemma_line_starts_insert, lemma_line_starts_remove, lemma_line_starts_shape,
    lemma_line_starts_truncate, lemma_offset_in_text, lemma_offset_monotonic, line_count,
    line_len, line_starts, offset_of, with_inserted, with_removed,
};

verus! {

/// A text held for editing in one place at a time.
///
/// The characters lie in `data` in document order, with a run of unused
/// slots, the gap, somewhere among them: `data[..gap_start]` is the text
/// before the gap and `data[gap_end..]` the text after it. What the slots of
/// the gap hold means nothing. An edit first brings the gap to where it
/// happens, so an edit next to the last one moves few characters.
///
/// A slot holds a whole character, so the gap never parts the bytes of one,
/// and the text is at all times a sequence of Unicode scalar values.
///
/// `line_starts` holds the offset into the text at which each line starts,
/// and is brought up to date by every edit.
#[derive(Debug)]
pub struct GapStore {
    data: Vec<char>,
    gap_start: usize,
    gap_end: usize,
    line_starts: Vec<usize>,
}

/// The size of the gap that an insertion of `needed` characters works with,
/// in a store of `len` characters whose gap has `gap` slots. A gap that is
/// large enough stays. One that is too small is doubled, or made to fit the
/// insertion exactly if that is more; it is also made to fit exactly where
/// the doubled store could not be addressed.
pub open spec fn grown_gap(gap: int, needed: int, len: int) -> int {
    if needed <= gap {
        gap
    } else if needed <= 2 * gap && len + 2 * gap <= usize::MAX {
        2 * gap
    } else {
        needed
    }
}

/// What is left of `text` when `range` has been deleted from it. A range that
/// runs backwards, or starts at no place of the text, deletes nothing. One
/// that ends at no place of the text deletes through to the end.
pub open spec fn after_delete(text: Seq<char>, range: Range) -> Seq<char> {
    if range.ordered() && in_bounds(text, range.start) {
        let to = if in_bounds(text, range.end) {
            offset_of(text, range.end)
        } else {
            text.len() as int
        };
        with_removed(text, offset_of(text, range.start), to)
    } else {
        text
    }
}

impl View for GapStore {
    type V = Seq<char>;

    /// The text: what lies before the gap, then what lies after it.
    closed spec fn view(&self) -> Seq<char> {
        self.data@.take(self.gap_start as int) + self.data@.skip(self.gap_end as int)
    }
}

impl GapStore {
    /// The gap lies within the storage, and the line index is that of the
    /// text.
    pub closed spec fn wf(&self) -> bool {
        &&& self.gap_start <= self.gap_end <= self.data.len()
        &&& as_ints(self.line_starts@) =~= line_starts(self@)
    }

    /// The number of unused slots.
    pub closed spec fn gap_len(&self) -> int {
        self.gap_end - self.gap_start
    }

    /// The offset into the text at which the gap lies.
    pub closed spec fn gap_offset(&self) -> int {
        self.gap_start as int
    }

    /// The text of a store can be addressed: its length is a `usize`, and so
    /// is the number of its lines.
    pub proof fn lemma_addressable(&self)
        requires
            self.wf(),
        ensures
            self@.len() <= usize::MAX,
            line_count(self@) <= usize::MAX,
    {
        assert(self@.len() == self.gap_start + (self.data.len() - self.gap_end));
        assert(as_ints(self.line_starts@).len() == self.line_starts.len());
    }

    /// A store that holds `text`, with no room to spare.
    pub fn new(text: &str) -> (store: GapStore)
        ensures
            store.wf(),
            store@ == text@,
            store.gap_len() == 0,
            store.gap_offset() == text@.len(),
    {
        let data = chars_of(text);
        let line_starts = index_lines(&data);
        let len = data.len();
        proof {
            assert(data@.take(len as int) + data@.skip(len as int) == data@);
        }
        GapStore { data, gap_start: len, gap_end: len, line_starts }
    }

    /// The number of characters of the text.
    pub fn len(&self) -> (len: usize)
        requires
            self.wf(),
        ensures
            len == self@.len(),
    {
        self.data.len() - (self.gap_end - self.gap_start)
    }

    /// The number of unused slots that the next insertion can fill.
    pub fn gap_size(&self) -> (size: usize)
        requires
            self.wf(),
        ensures
            size == self.gap_len(),
    {
        self.gap_end - self.gap_start
    }

    /// The offset into the text at which the gap lies: where the last edit
    /// ended.
    pub fn gap_position(&self) -> (offset: usize)
        requires
            self.wf(),
        ensures
            offset == self.gap_offset(),
    {
        self.gap_start
    }

    /// The number of lines of the text.
    pub fn line_count(&self) -> (count: usize)
        requires
            self.wf(),
        ensures
            count == line_count(self@),
            count >= 1,
    {
        proof {
            lemma_line_starts_shape(self@);
        }
        self.line_starts.len()
    }

    /// The number of characters on line `line`, if the text has that line.
    pub fn line_length(&self, line: usize) -> (length: Option<usize>)
        requires
            self.wf(),
        ensures
            line < line_count(self@) ==> (length matches Some(n) && n == line_len(
                self@,
                line as int,
            )),
            line >= line_count(self@) ==> length is None,
    {
        proof {
            lemma_line_starts_shape(self@);
        }
        if line >= self.line_starts.len() {
            return None;
        }
        let start = self.line_starts[line];
        assert(start == line_starts(self@)[line as int]);
        let end = if line + 1 < self.line_starts.len() {
            let next = self.line_starts[line + 1];
            assert(next == line_starts(self@)[line + 1]);
            assert(line_starts(self@)[line as int] < line_starts(self@)[line + 1]);
            next - 1
        } else {
            self.len()
        };
        Some(end - start)
    }

    /// The whole text as a string.
    pub fn snapshot(&self) -> (text: String)
        requires
            self.wf(),
        ensures
            text@ == self@,
    {
        let mut text = String::new();
        let mut i: usize = 0;
        while i < self.gap_start
            invariant
                self.wf(),
                i <= self.gap_start,
                text@ == self.data@.take(i as int),
            decreases self.gap_start - i,
        {
            text.push(self.data[i]);
            i += 1;
        }
        let mut j: usize = self.gap_end;
        while j < self.data.len()
            invariant
                self.wf(),
                self.gap_end <= j <= self.data.len(),
                text@ == self.data@.take(self.gap_start as int) + self.data@.subrange(
                    self.gap_end as int,
                    j as int,
                ),
            decreases self.data.len() - j,
        {
            text.push(self.data[j]);
            j += 1;
        }
        text
    }

    /// Whether `position` names a place in the text. See
    /// [`in_bounds`](crate::text::in_bounds).
    pub fn in_bounds(&self, position: &Position) -> (within: bool)
        requires
            self.wf(),
        ensures
            within == in_bounds(self@, *position),
    {
        match self.line_length(position.line) {
            Some(length) => position.offset <= length,
            None => false,
        }
    }

    /// The offset into the text of the place that `position` names, if it
    /// names one.
    pub fn find_offset(&self, position: &Position) -> (offset: Option<usize>)
        requires
            self.wf(),
        ensures
            in_bounds(self@, *position) ==> (offset matches Some(n) && n == offset_of(
                self@,
                *position,
            )),
            !in_bounds(self@, *position) ==> offset is None,
    {
        if !self.in_bounds(position) {
            return None;
        }
        proof {
            lemma_offset_in_text(self@, *position);
        }
        let start = self.line_starts[position.line];
        assert(start == line_starts(self@)[position.line as int]);
        Some(start + position.offset)
    }
}

impl GapStore {
    /// Brings the gap to `offset` in the text. The characters between the
    /// old and the new place of the gap are carried across it, one by one,
    /// and no others are touched.
    fn move_gap(&mut self, offset: usize)
        requires
            old(self).wf(),
            offset <= old(self)@.len(),
        ensures
            final(self).wf(),
            final(self)@ == old(self)@,
            final(self).gap_offset() == offset,
            final(self).gap_len() == old(self).gap_len(),
            final(self).line_starts == old(self).line_starts,
    {
        let ghost text = self@;
        while self.gap_start > offset
            invariant
                self.gap_start <= self.gap_end <= self.data.len(),
                offset <= text.len(),
                self@ == text,
                self.gap_end - self.gap_start == old(self).gap_end - old(self).gap_start,
                self.line_starts == old(self).line_starts,
            decreases self.gap_start,
        {
            let c = self.data[self.gap_start - 1];
            self.gap_start -= 1;
            self.gap_end -= 1;
            self.data.set(self.gap_end, c);
            assert(self@ =~= text);
        }
        while self.gap_start < offset
            invariant
                self.gap_start <= self.gap_end <= self.data.len(),
                self.gap_start <= offset <= text.len(),
                self@ == text,
                self.gap_end - self.gap_start == old(self).gap_end - old(self).gap_start,
                self.line_starts == old(self).line_starts,
            decreases offset - self.gap_start,
        {
            assert(self@.len() == self.gap_start + (self.data.len() - self.gap_end));
            let c = self.data[self.gap_end];
            self.data.set(self.gap_start, c);
            self.gap_start += 1;
            self.gap_end += 1;
            assert(self@ =~= text);
        }
    }

    /// Makes room for `needed` characters: a gap that is too small is moved
    /// to the end of the text and widened there as [`grown_gap`] says.
    fn grow_gap(&mut self, needed: usize)
        requires
            old(self).wf(),
            old(self)@.len() + needed <= usize::MAX,
        ensures
            final(self).wf(),
            final(self)@ == old(self)@,
            final(self).gap_len() == grown_gap(
                old(self).gap_len(),
                needed as int,
                old(self)@.len() as int,
            ),
            final(self).line_starts == old(self).line_starts,
    {
        let gap = self.gap_size();
        if needed <= gap {
            return ;
        }
        let len = self.len();
        let room = usize::MAX - len;
        let target = if gap <= room / 2 && needed <= 2 * gap {
            2 * gap
        } else {
            needed
        };
        self.move_gap(len);
        let ghost text = self@;
        let ghost moved = self.data@;
        assert(self@.len() == self.gap_start + (self.data.len() - self.gap_end));
        self.data.resize(len + target, ' ');
        self.gap_end = self.data.len();
        assert(self.data@.take(self.gap_start as int) =~= moved.take(self.gap_start as int)) by {
            assert(self.data@.subrange(0, moved.len() as int) == moved);
            assert forall|i: int| 0 <= i < self.gap_start implies self.data@[i] == moved[i] by {
                assert(self.data@.subrange(0, moved.len() as int)[i] == self.data@[i]);
            }
        }
        assert(self@ =~= text);
    }

    /// Puts `text` into the store at `at`. Where `at` names no place in the
    /// text, nothing happens, whatever `text` is: the store is left exactly
    /// as it was. Where it names one, the text must still be addressable
    /// when `text` has been put in.
    ///
    /// The gap is brought to `at`, widened first if `text` does not fit in
    /// it, and `text` is written into it; each line break in `text` opens a
    /// new line.
    pub fn insert(&mut self, text: &str, at: &Position)
        requires
            old(self).wf(),
            in_bounds(old(self)@, *at) ==> old(self)@.len() + text@.len() <= usize::MAX,
        ensures
            final(self).wf(),
            in_bounds(old(self)@, *at) ==> final(self)@ == with_inserted(
                old(self)@,
                offset_of(old(self)@, *at),
                text@,
            ) && final(self).gap_len() == grown_gap(
                old(self).gap_len(),
                text@.len() as int,
                old(self)@.len() as int,
            ) - text@.len() && final(self).gap_offset() == offset_of(old(self)@, *at)
                + text@.len(),
            !in_bounds(old(self)@, *at) ==> *final(self) == *old(self),
    {
        let offset = match self.find_offset(at) {
            Some(offset) => offset,
            None => {
                return ;
            },
        };
        proof {
            lemma_offset_in_text(self@, *at);
        }
        let chars = chars_of(text);
        let count = chars.len();
        self.grow_gap(count);
        self.move_gap(offset);
        let ghost before = self@;
        let ghost room = self.gap_end - self.gap_start;
        let mut i: usize = 0;
        assert(self.data@.take(self.gap_start as int) =~= before.take(offset as int) + chars@.take(
            0,
        ));
        assert(self.data@.skip(self.gap_end as int) =~= before.skip(offset as int));
        while i < count
            invariant
                i <= count == chars.len() <= room,
                self.gap_start == offset + i,
                self.gap_end - self.gap_start == room - i,
                self.gap_end <= self.data.len(),
                self.data@.take(self.gap_start as int) == before.take(offset as int) + chars@.take(
                    i as int,
                ),
                self.data@.skip(self.gap_end as int) == before.skip(offset as int),
                self.line_starts == old(self).line_starts,
            decreases count - i,
        {
            let ghost filled = self.data@;
            self.data.set(self.gap_start, chars[i]);
            self.gap_start += 1;
            i += 1;
            assert(self.data@.take(self.gap_start as int) =~= filled.take(self.gap_start - 1).push(
                chars@[i - 1],
            ));
            assert(chars@.take(i as int) =~= chars@.take(i - 1).push(chars@[i - 1]));
            assert(self.data@.skip(self.gap_end as int) =~= filled.skip(self.gap_end as int));
        }
        assert(chars@.take(count as int) == chars@);
        proof {
            lemma_line_starts_shape(before);
            lemma_line_starts_insert(before, at.line as int, offset as int, chars@);
            assert forall|k: int| 0 <= k < self.line_starts.len() implies self.line_starts[k]
                + count <= usize::MAX by {
                assert(as_ints(self.line_starts@)[k] == line_starts(before)[k]);
            }
        }
        self.line_starts = index_after_insert(&self.line_starts, at.line, offset, &chars);
    }

    /// Takes the text of `range` out of the store: the characters from
    /// `range.start` up to, not including, `range.end`. See [`after_delete`].
    /// Where the range runs backwards or starts at no place in the text,
    /// nothing happens: the store is left exactly as it was. Where it ends
    /// at no place in the text, everything from its start on is taken out.
    ///
    /// The gap is brought to the start of the range and widened over it, so
    /// the room that the store has grows by what was deleted.
    pub fn delete(&mut self, range: &Range)
        requires
            old(self).wf(),
        ensures
            final(self).wf(),
            final(self)@ == after_delete(old(self)@, *range),
            final(self).gap_len() == old(self).gap_len() + old(self)@.len() - final(self)@.len(),
            range.ordered() && in_bounds(old(self)@, range.start) ==> final(self).gap_offset()
                == offset_of(old(self)@, range.start),
            !(range.ordered() && in_bounds(old(self)@, range.start)) ==> *final(self) == *old(
                self,
            ),
    {
        if !range.is_ordered() {
            return ;
        }
        let from = match self.find_offset(&range.start) {
            Some(offset) => offset,
            None => {
                return ;
            },
        };
        let ghost text = self@;
        proof {
            lemma_line_starts_shape(text);
            assert(as_ints(self.line_starts@).len() == self.line_starts.len());
            assert(range.start.line < self.line_starts.len());
        }
        match self.find_offset(&range.end) {
            Some(to) => {
                proof {
                    lemma_offset_monotonic(text, range.start, range.end);
                    lemma_offset_in_text(text, range.end);
                    lemma_line_starts_remove(
                        text,
                        range.start.line as int,
                        from as int,
                        range.end.line as int,
                        to as int,
                    );
                    assert forall|k: int|
                        range.end.line < k < self.line_starts.len() implies self.line_starts[k]
                        >= to - from by {
                        assert(as_ints(self.line_starts@)[k] == line_starts(text)[k]);
                        if range.end.line + 1 < k {
                            assert(line_starts(text)[range.end.line + 1] < line_starts(text)[k]);
                        }
                    }
                }
                self.move_gap(from);
                assert(self@.len() == self.gap_start + (self.data.len() - self.gap_end));
                self.gap_end = self.gap_end + (to - from);
                assert(self@ =~= with_removed(text, from as int, to as int));
                self.line_starts = index_after_remove(
                    &self.line_starts,
                    range.start.line,
                    range.end.line,
                    to - from,
                );
            },
            None => {
                proof {
                    lemma_line_starts_truncate(text, range.start.line as int, from as int);
                }
                self.move_gap(from);
                self.gap_end = self.data.len();
                assert(self@ =~= with_removed(text, from as int, text.len() as int));
                let ghost index = self.line_starts@;
                self.line_starts.truncate(range.start.line + 1);
                assert(as_ints(self.line_starts@) =~= as_ints(index).take(range.start.line + 1));
            },
        }
    }
}

} // verus!
