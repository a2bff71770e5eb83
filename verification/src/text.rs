//! The line structure of a text, as mathematics.
//!
//! A text is a sequence of characters. Its lines are separated by line
//! breaks: a text with `n` line breaks has `n + 1` lines, the last of which
//! may be empty. Everything the store and the cursor promise about lines and
//! columns is stated over the functions of this module.

use vstd::prelude::*;
use crate::position::Position;

verus! {

/// The character that ends a line.
pub open spec fn is_line_break(c: char) -> bool {
    c == '\n'
}

/// The offsets at which the lines of `text` start, in ascending order: 0,
/// and every offset that directly follows a line break.
pub open spec fn line_starts(text: Seq<char>) -> Seq<int>
    decreases text.len(),
{
    if text.len() == 0 {
        seq![0int]
    } else {
        let before = line_starts(text.drop_last());
        if is_line_break(text.last()) {
            before.push(text.len() as int)
        } else {
            before
        }
    }
}

/// How many lines `text` has; never zero.
pub open spec fn line_count(text: Seq<char>) -> int {
    line_starts(text).len() as int
}

/// The offset of the first character of line `line`.
pub open spec fn line_start(text: Seq<char>, line: int) -> int {
    line_starts(text)[line]
}

/// The offset just past the last character of line `line`: the offset of the
/// line break that ends it, or the end of the text for the last line.
pub open spec fn line_end(text: Seq<char>, line: int) -> int {
    if line + 1 < line_count(text) {
        line_starts(text)[line + 1] - 1
    } else {
        text.len() as int
    }
}

/// The number of characters on line `line`, its line break not counted.
pub open spec fn line_len(text: Seq<char>, line: int) -> int {
    line_end(text, line) - line_start(text, line)
}

/// Whether `pos` names a place in `text`: an existing line, and a column that
/// is at most the length of that line. The column just past the last
/// character of a line is a place; the one after it is not.
pub open spec fn in_bounds(text: Seq<char>, pos: Position) -> bool {
    &&& pos.line < line_count(text)
    &&& pos.offset <= line_len(text, pos.line as int)
}

/// The offset into `text` of the place that `pos` names.
pub open spec fn offset_of(text: Seq<char>, pos: Position) -> int {
    line_start(text, pos.line as int) + pos.offset
}

/// `starts` with `by` added to each entry.
pub open spec fn shifted(starts: Seq<int>, by: int) -> Seq<int> {
    Seq::new(starts.len(), |i: int| starts[i] + by)
}

/// `text` with `inserted` put in at `offset`.
pub open spec fn with_inserted(text: Seq<char>, offset: int, inserted: Seq<char>) -> Seq<char> {
    text.take(offset) + inserted + text.skip(offset)
}

/// `text` without the characters from `from` up to, not including, `to`.
pub open spec fn with_removed(text: Seq<char>, from: int, to: int) -> Seq<char> {
    text.take(from) + text.skip(to)
}

/// The shape of a line index: it begins with 0, ascends strictly, stays
/// within the text, each later entry follows a line break, and no line break
/// is missed.
pub proof fn lemma_line_starts_shape(text: Seq<char>)
    ensures
        line_starts(text).len() >= 1,
        line_starts(text).len() <= text.len() + 1,
        line_starts(text)[0] == 0,
        forall|i: int|
            0 <= i < line_starts(text).len() ==> 0 <= #[trigger] line_starts(text)[i] <= text.len(),
        forall|i: int, j: int|
            0 <= i < j < line_starts(text).len() ==> #[trigger] line_starts(text)[i]
                < #[trigger] line_starts(text)[j],
        forall|i: int|
            1 <= i < line_starts(text).len() ==> is_line_break(
                text[#[trigger] line_starts(text)[i] - 1],
            ),
        forall|p: int|
            0 <= p < text.len() && is_line_break(#[trigger] text[p]) ==> line_starts(
                text,
            ).contains(p + 1),
    decreases text.len(),
{
    if text.len() > 0 {
        let shorter = text.drop_last();
        let before = line_starts(shorter);
        lemma_line_starts_shape(shorter);
        let now = line_starts(text);
        assert forall|p: int|
            0 <= p < text.len() && is_line_break(#[trigger] text[p]) implies now.contains(p + 1) by {
            if p < shorter.len() {
                assert(shorter[p] == text[p]);
                let i = choose|i: int| 0 <= i < before.len() && before[i] == p + 1;
                assert(now[i] == p + 1);
            } else {
                assert(now[now.len() - 1] == p + 1);
            }
        }
        assert forall|i: int| 1 <= i < now.len() implies is_line_break(
            text[#[trigger] now[i] - 1],
        ) by {
            if i < before.len() {
                assert(shorter[before[i] - 1] == text[before[i] - 1]);
            }
        }
    }
}

/// The line index of two texts joined: that of the first, then that of the
/// second moved along by the length of the first, its leading 0 left out.
pub proof fn lemma_line_starts_concat(a: Seq<char>, b: Seq<char>)
    ensures
        line_starts(a + b) == line_starts(a) + shifted(line_starts(b).skip(1), a.len() as int),
    decreases b.len(),
{
    let joined = a + b;
    lemma_line_starts_shape(b);
    if b.len() == 0 {
        assert(joined == a);
        assert(line_starts(a) + shifted(line_starts(b).skip(1), a.len() as int) == line_starts(a));
    } else {
        let shorter = b.drop_last();
        lemma_line_starts_concat(a, shorter);
        lemma_line_starts_shape(shorter);
        assert(joined.drop_last() == a + shorter);
        assert(joined.last() == b.last());
        if is_line_break(b.last()) {
            assert(line_starts(b).skip(1) == line_starts(shorter).skip(1).push(b.len() as int));
            assert(shifted(line_starts(b).skip(1), a.len() as int) == shifted(
                line_starts(shorter).skip(1),
                a.len() as int,
            ).push(joined.len() as int));
            assert(line_starts(joined) == line_starts(a) + shifted(
                line_starts(b).skip(1),
                a.len() as int,
            ));
        }
    }
}

/// What a line holds: from its start to its end there is no line break, and
/// at its end stands the line break that parts it from the next line, if
/// there is a next line.
pub proof fn lemma_line_content(text: Seq<char>, line: int)
    requires
        0 <= line < line_count(text),
    ensures
        0 <= line_start(text, line) <= line_end(text, line) <= text.len(),
        forall|p: int|
            line_start(text, line) <= p < line_end(text, line) ==> !is_line_break(
                #[trigger] text[p],
            ),
        line + 1 < line_count(text) ==> is_line_break(text[line_end(text, line)]),
{
    lemma_line_starts_shape(text);
    let starts = line_starts(text);
    if line + 1 < line_count(text) {
        assert(starts[line] < starts[line + 1]);
        assert(is_line_break(text[starts[line + 1] - 1]));
    }
    assert forall|p: int| line_start(text, line) <= p < line_end(text, line) implies !is_line_break(
        #[trigger] text[p],
    ) by {
        if is_line_break(text[p]) {
            assert(starts.contains(p + 1));
            let i = choose|i: int| 0 <= i < starts.len() && starts[i] == p + 1;
            if i <= line {
                if i < line {
                    assert(starts[i] < starts[line]);
                }
            } else if line + 1 < i {
                assert(starts[line + 1] < starts[i]);
            }
        }
    }
}

/// A place in the text lies between the start of its line and that line's
/// end, and so within the text.
pub proof fn lemma_offset_in_text(text: Seq<char>, pos: Position)
    requires
        in_bounds(text, pos),
    ensures
        line_start(text, pos.line as int) <= offset_of(text, pos) <= line_end(
            text,
            pos.line as int,
        ) <= text.len(),
        0 <= line_start(text, pos.line as int),
{
    lemma_line_starts_shape(text);
}

/// Document order of places is the order of their offsets.
pub proof fn lemma_offset_monotonic(text: Seq<char>, p: Position, q: Position)
    requires
        in_bounds(text, p),
        in_bounds(text, q),
    ensures
        p.at_or_before(q) <==> offset_of(text, p) <= offset_of(text, q),
        p == q <==> offset_of(text, p) == offset_of(text, q),
{
    lemma_line_starts_shape(text);
    lemma_offset_in_text(text, p);
    lemma_offset_in_text(text, q);
    let starts = line_starts(text);
    if p.line < q.line {
        assert(starts[p.line + 1] <= starts[q.line as int]) by {
            if p.line + 1 < q.line {
                assert(starts[p.line + 1] < starts[q.line as int]);
            }
        }
    } else if q.line < p.line {
        assert(starts[q.line + 1] <= starts[p.line as int]) by {
            if q.line + 1 < p.line {
                assert(starts[q.line + 1] < starts[p.line as int]);
            }
        }
    }
}

/// Whether offset `offset` lies on line `line` of `text`: between the start
/// of that line and its end, both included.
pub open spec fn on_line(text: Seq<char>, line: int, offset: int) -> bool {
    &&& 0 <= line < line_count(text)
    &&& line_start(text, line) <= offset <= line_end(text, line)
}

/// Cutting a text at an offset cuts its line index after the line on which
/// the offset lies: the part before the cut has the lines up to and
/// including that one, and the starts of the later lines are those of the
/// part after the cut.
pub proof fn lemma_line_starts_split(text: Seq<char>, line: int, offset: int)
    requires
        on_line(text, line, offset),
    ensures
        0 <= offset <= text.len(),
        line_starts(text.take(offset)) == line_starts(text).take(line + 1),
        shifted(line_starts(text.skip(offset)).skip(1), offset) == line_starts(text).skip(line + 1),
{
    let a = text.take(offset);
    let b = text.skip(offset);
    let starts = line_starts(text);
    let tail = shifted(line_starts(b).skip(1), offset);
    lemma_line_starts_shape(text);
    lemma_line_starts_shape(a);
    lemma_line_starts_shape(b);
    lemma_line_starts_concat(a, b);
    assert(a + b == text);
    assert(starts == line_starts(a) + tail);
    let k = line_starts(a).len() as int;
    assert(starts[k - 1] == line_starts(a)[k - 1]);
    assert(starts[k - 1] <= offset);
    if k < starts.len() {
        assert(starts[k] == tail[0]);
        assert(tail[0] == line_starts(b)[1] + offset);
        assert(line_starts(b)[0] < line_starts(b)[1]);
        assert(starts[k] > offset);
    }
    if line + 1 < k {
        assert(starts[line + 1] <= starts[k - 1]) by {
            if line + 1 < k - 1 {
                assert(starts[line + 1] < starts[k - 1]);
            }
        }
    }
    if line + 1 > k {
        assert(starts[k] <= starts[line]) by {
            if k < line {
                assert(starts[k] < starts[line]);
            }
        }
    }
    assert(k == line + 1);
    assert(line_starts(a) == starts.take(line + 1));
    assert(tail == starts.skip(line + 1));
}

/// The line index after an insertion at an offset on line `line`: the lines
/// up to that one keep their starts, the line breaks of the inserted text
/// open new lines behind them, and the later lines move along by its length.
pub proof fn lemma_line_starts_insert(
    text: Seq<char>,
    line: int,
    offset: int,
    inserted: Seq<char>,
)
    requires
        on_line(text, line, offset),
    ensures
        line_starts(with_inserted(text, offset, inserted)) == line_starts(text).take(line + 1)
            + shifted(line_starts(inserted).skip(1), offset) + shifted(
            line_starts(text).skip(line + 1),
            inserted.len() as int,
        ),
{
    let a = text.take(offset);
    let b = text.skip(offset);
    lemma_line_starts_split(text, line, offset);
    lemma_line_starts_concat(a + inserted, b);
    lemma_line_starts_concat(a, inserted);
    assert(shifted(line_starts(b).skip(1), offset + inserted.len()) == shifted(
        shifted(line_starts(b).skip(1), offset),
        inserted.len() as int,
    ));
}

/// The line index after the text from offset `from`, on line `from_line`, to
/// offset `to`, on line `to_line`, has been removed: the lines up to
/// `from_line` keep their starts, and the lines behind `to_line` move back
/// by the length of what was removed.
pub proof fn lemma_line_starts_remove(
    text: Seq<char>,
    from_line: int,
    from: int,
    to_line: int,
    to: int,
)
    requires
        on_line(text, from_line, from),
        on_line(text, to_line, to),
        from <= to,
    ensures
        line_starts(with_removed(text, from, to)) == line_starts(text).take(from_line + 1)
            + shifted(line_starts(text).skip(to_line + 1), from - to),
{
    let a = text.take(from);
    let c = text.skip(to);
    lemma_line_starts_split(text, from_line, from);
    lemma_line_starts_split(text, to_line, to);
    lemma_line_starts_concat(a, c);
    assert(shifted(line_starts(c).skip(1), from) == shifted(
        shifted(line_starts(c).skip(1), to),
        from - to,
    ));
}

/// The line index after everything from offset `from`, on line `from_line`,
/// to the end of the text has been removed: the lines up to `from_line`, and
/// no others.
pub proof fn lemma_line_starts_truncate(text: Seq<char>, from_line: int, from: int)
    requires
        on_line(text, from_line, from),
    ensures
        line_starts(with_removed(text, from, text.len() as int)) == line_starts(text).take(
            from_line + 1,
        ),
{
    lemma_line_starts_split(text, from_line, from);
    assert(with_removed(text, from, text.len() as int) == text.take(from));
}

/// `text` without the character at `pos`. Where `pos` is no place in the
/// text, or is its very end, there is no such character and the text is
/// whole. At the end of a line the character at `pos` is the line break, so
/// that taking it out joins the line to the next.
pub open spec fn with_deleted_at(text: Seq<char>, pos: Position) -> Seq<char> {
    if in_bounds(text, pos) && offset_of(text, pos) < text.len() {
        text.remove(offset_of(text, pos))
    } else {
        text
    }
}

/// What follows a place in the text: the next column of its line, or, at the
/// end of a line, the start of the next line, one character on in either
/// case; at the end of the last line, nothing.
pub proof fn lemma_next_place(text: Seq<char>, pos: Position)
    requires
        in_bounds(text, pos),
    ensures
        pos.offset < line_len(text, pos.line as int) ==> offset_of(text, pos) < text.len(),
        pos.offset == line_len(text, pos.line as int) && pos.line + 1 < line_count(text) ==> {
            &&& offset_of(text, pos) + 1 == line_start(text, pos.line + 1)
            &&& offset_of(text, pos) < text.len()
            &&& is_line_break(text[offset_of(text, pos)])
            &&& 0 <= line_len(text, pos.line + 1)
        },
        pos.offset == line_len(text, pos.line as int) && pos.line + 1 == line_count(text)
            ==> offset_of(text, pos) == text.len(),
{
    lemma_line_starts_shape(text);
    lemma_bounds(text);
    let starts = line_starts(text);
    if pos.line + 1 < line_count(text) {
        assert(is_line_break(text[starts[pos.line + 1] - 1]));
    }
}

/// A place in a text is still a place in it after an insertion at that very
/// place: the inserted text comes to stand behind it.
pub proof fn lemma_place_survives_insert(text: Seq<char>, pos: Position, inserted: Seq<char>)
    requires
        in_bounds(text, pos),
    ensures
        in_bounds(with_inserted(text, offset_of(text, pos), inserted), pos),
        offset_of(with_inserted(text, offset_of(text, pos), inserted), pos) == offset_of(text, pos),
{
    let o = offset_of(text, pos);
    let after = with_inserted(text, o, inserted);
    let starts = line_starts(text);
    let opened = shifted(line_starts(inserted).skip(1), o);
    let moved = shifted(starts.skip(pos.line + 1), inserted.len() as int);
    lemma_offset_in_text(text, pos);
    lemma_line_starts_shape(text);
    lemma_line_starts_shape(inserted);
    lemma_line_starts_insert(text, pos.line as int, o, inserted);
    let now = line_starts(after);
    assert(now == starts.take(pos.line + 1) + opened + moved);
    assert(now[pos.line as int] == starts[pos.line as int]);
    if pos.line + 1 < now.len() {
        if opened.len() > 0 {
            assert(now[pos.line + 1] == opened[0]);
            assert(line_starts(inserted)[0] < line_starts(inserted)[1]);
        } else {
            assert(now[pos.line + 1] == moved[0]);
        }
    }
}

/// A place in a text is still a place in it after the character at that
/// place has been taken out.
pub proof fn lemma_place_survives_delete(text: Seq<char>, pos: Position)
    requires
        in_bounds(text, pos),
    ensures
        in_bounds(with_deleted_at(text, pos), pos),
        offset_of(with_deleted_at(text, pos), pos) == offset_of(text, pos),
{
    let o = offset_of(text, pos);
    let starts = line_starts(text);
    lemma_offset_in_text(text, pos);
    lemma_line_starts_shape(text);
    lemma_next_place(text, pos);
    if o < text.len() {
        let after = text.remove(o);
        let to_line = if pos.offset < line_len(text, pos.line as int) {
            pos.line as int
        } else {
            pos.line + 1
        };
        assert(on_line(text, to_line, o + 1));
        lemma_line_starts_remove(text, pos.line as int, o, to_line, o + 1);
        assert(after == with_removed(text, o, o + 1));
        let now = line_starts(after);
        let moved = shifted(starts.skip(to_line + 1), -1);
        assert(now == starts.take(pos.line + 1) + moved);
        assert(now[pos.line as int] == starts[pos.line as int]);
        if pos.line + 1 < now.len() {
            assert(now[pos.line + 1] == moved[0]);
            assert(moved[0] == starts[to_line + 1] - 1);
            if to_line == pos.line + 1 {
                assert(starts[pos.line + 1] < starts[to_line + 1]);
            }
        }
    }
}

/// The bounds of a text with `L` lines: no place lies on line `L`; on every
/// line, the last being line `L - 1`, the column equal to the line's length
/// is a place and the column after it is not.
pub proof fn lemma_bounds(text: Seq<char>)
    ensures
        line_count(text) >= 1,
        forall|pos: Position| pos.line >= line_count(text) ==> !#[trigger] in_bounds(text, pos),
        forall|pos: Position|
            pos.line < line_count(text) && pos.offset == line_len(text, pos.line as int)
                ==> #[trigger] in_bounds(text, pos),
        forall|pos: Position|
            pos.line < line_count(text) && pos.offset > line_len(text, pos.line as int)
                ==> !#[trigger] in_bounds(text, pos),
        forall|line: int| 0 <= line < line_count(text) ==> 0 <= #[trigger] line_len(text, line),
{
    lemma_line_starts_shape(text);
    let starts = line_starts(text);
    assert forall|line: int| 0 <= line < line_count(text) implies 0 <= #[trigger] line_len(
        text,
        line,
    ) by {
        if line + 1 < line_count(text) {
            assert(starts[line] < starts[line + 1]);
        }
    }
}

} // verus!
