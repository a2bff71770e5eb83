//! The index of line starts that the store keeps beside its text, and how
//! an edit changes it.

use vstd::prelude::*;
use crate::text::{lemma_line_starts_shape, line_starts, shifted};

verus! {

/// The entries of an index as mathematical integers.
pub open spec fn as_ints(index: Seq<usize>) -> Seq<int> {
    Seq::new(index.len(), |i: int| index[i] as int)
}

/// Appending to an index appends to its integers.
pub proof fn lemma_as_ints_push(index: Seq<usize>, entry: usize)
    ensures
        as_ints(index.push(entry)) == as_ints(index).push(entry as int),
{
    assert(as_ints(index.push(entry)) =~= as_ints(index).push(entry as int));
}

/// The line index of `chars`: see [`line_starts`](crate::text::line_starts).
pub fn index_lines(chars: &Vec<char>) -> (index: Vec<usize>)
    ensures
        as_ints(index@) == line_starts(chars@),
{
    let mut index: Vec<usize> = Vec::new();
    index.push(0);
    let mut i: usize = 0;
    assert(chars@.take(0).len() == 0);
    while i < chars.len()
        invariant
            i <= chars.len(),
            as_ints(index@) == line_starts(chars@.take(i as int)),
        decreases chars.len() - i,
    {
        proof {
            let longer = chars@.take(i + 1);
            assert(longer.drop_last() == chars@.take(i as int));
            assert(longer.last() == chars@[i as int]);
        }
        if chars[i] == '\n' {
            index.push(i + 1);
        }
        i += 1;
    }
    assert(chars@.take(i as int) == chars@);
    index
}

/// The line index after an insertion: the first `line + 1` entries of
/// `index`, then an entry for each line break of `inserted`, which begins at
/// `offset`, then the other entries of `index`, moved along by the length of
/// `inserted`.
pub fn index_after_insert(
    index: &Vec<usize>,
    line: usize,
    offset: usize,
    inserted: &Vec<char>,
) -> (result: Vec<usize>)
    requires
        line < index.len(),
        offset + inserted.len() <= usize::MAX,
        forall|k: int| 0 <= k < index.len() ==> index[k] + inserted.len() <= usize::MAX,
    ensures
        as_ints(result@) == as_ints(index@).take(line + 1) + shifted(
            line_starts(inserted@).skip(1),
            offset as int,
        ) + shifted(as_ints(index@).skip(line + 1), inserted.len() as int),
{
    let mut result: Vec<usize> = Vec::new();
    let mut k: usize = 0;
    while k <= line
        invariant
            k <= line + 1 <= index.len(),
            as_ints(result@) == as_ints(index@).take(k as int),
        decreases line + 1 - k,
    {
        proof {
            lemma_as_ints_push(result@, index[k as int]);
        }
        result.push(index[k]);
        k += 1;
        assert(as_ints(index@).take(k as int) =~= as_ints(index@).take(k - 1).push(
            index[k - 1] as int,
        ));
    }
    let ghost kept = as_ints(index@).take(line + 1);
    let mut i: usize = 0;
    assert(line_starts(inserted@.take(0)).skip(1) =~= Seq::<int>::empty());
    assert(as_ints(result@) =~= kept + shifted(
        line_starts(inserted@.take(0)).skip(1),
        offset as int,
    ));
    while i < inserted.len()
        invariant
            i <= inserted.len(),
            offset + inserted.len() <= usize::MAX,
            as_ints(result@) == kept + shifted(
                line_starts(inserted@.take(i as int)).skip(1),
                offset as int,
            ),
        decreases inserted.len() - i,
    {
        let ghost seen = inserted@.take(i as int);
        let ghost longer = inserted@.take(i + 1);
        proof {
            assert(longer.drop_last() == seen);
            assert(longer.last() == inserted@[i as int]);
            lemma_line_starts_shape(seen);
        }
        if inserted[i] == '\n' {
            proof {
                lemma_as_ints_push(result@, (offset + i + 1) as usize);
            }
            result.push(offset + i + 1);
            assert(line_starts(longer).skip(1) =~= line_starts(seen).skip(1).push(i + 1));
            assert(shifted(line_starts(longer).skip(1), offset as int) =~= shifted(
                line_starts(seen).skip(1),
                offset as int,
            ).push(offset + i + 1));
            assert(as_ints(result@) =~= kept + shifted(
                line_starts(longer).skip(1),
                offset as int,
            ));
        }
        i += 1;
    }
    assert(inserted@.take(i as int) == inserted@);
    let ghost opened = shifted(line_starts(inserted@).skip(1), offset as int);
    assert(as_ints(result@) =~= kept + opened + shifted(
        as_ints(index@).subrange(line + 1, k as int),
        inserted.len() as int,
    ));
    while k < index.len()
        invariant
            line + 1 <= k <= index.len(),
            forall|j: int| 0 <= j < index.len() ==> index[j] + inserted.len() <= usize::MAX,
            as_ints(result@) == kept + opened + shifted(
                as_ints(index@).subrange(line + 1, k as int),
                inserted.len() as int,
            ),
        decreases index.len() - k,
    {
        proof {
            lemma_as_ints_push(result@, (index[k as int] + inserted.len()) as usize);
        }
        result.push(index[k] + inserted.len());
        k += 1;
        assert(shifted(as_ints(index@).subrange(line + 1, k as int), inserted.len() as int)
            =~= shifted(
            as_ints(index@).subrange(line + 1, k - 1),
            inserted.len() as int,
        ).push(index[k - 1] + inserted.len()));
        assert(as_ints(result@) =~= kept + opened + shifted(
            as_ints(index@).subrange(line + 1, k as int),
            inserted.len() as int,
        ));
    }
    assert(as_ints(index@).subrange(line + 1, k as int) == as_ints(index@).skip(line + 1));
    result
}

/// The line index after a removal of `removed` characters that begins in
/// line `from_line` and ends in line `to_line`: the first `from_line + 1`
/// entries of `index`, then the entries behind `to_line`, moved back by
/// `removed`.
pub fn index_after_remove(
    index: &Vec<usize>,
    from_line: usize,
    to_line: usize,
    removed: usize,
) -> (result: Vec<usize>)
    requires
        from_line <= to_line < index.len(),
        forall|k: int| to_line < k < index.len() ==> index[k] >= removed,
    ensures
        as_ints(result@) == as_ints(index@).take(from_line + 1) + shifted(
            as_ints(index@).skip(to_line + 1),
            -(removed as int),
        ),
{
    let mut result: Vec<usize> = Vec::new();
    let mut k: usize = 0;
    while k <= from_line
        invariant
            k <= from_line + 1 <= index.len(),
            as_ints(result@) == as_ints(index@).take(k as int),
        decreases from_line + 1 - k,
    {
        proof {
            lemma_as_ints_push(result@, index[k as int]);
        }
        result.push(index[k]);
        k += 1;
        assert(as_ints(index@).take(k as int) =~= as_ints(index@).take(k - 1).push(
            index[k - 1] as int,
        ));
    }
    let ghost kept = as_ints(index@).take(from_line + 1);
    k = to_line + 1;
    assert(as_ints(result@) =~= kept + shifted(
        as_ints(index@).subrange(to_line + 1, k as int),
        -(removed as int),
    ));
    while k < index.len()
        invariant
            to_line + 1 <= k <= index.len(),
            forall|j: int| to_line < j < index.len() ==> index[j] >= removed,
            as_ints(result@) == kept + shifted(
                as_ints(index@).subrange(to_line + 1, k as int),
                -(removed as int),
            ),
        decreases index.len() - k,
    {
        proof {
            lemma_as_ints_push(result@, (index[k as int] - removed) as usize);
        }
        result.push(index[k] - removed);
        k += 1;
        assert(shifted(as_ints(index@).subrange(to_line + 1, k as int), -(removed as int))
            =~= shifted(as_ints(index@).subrange(to_line + 1, k - 1), -(removed as int)).push(
            index[k - 1] - removed,
        ));
        assert(as_ints(result@) =~= kept + shifted(
            as_ints(index@).subrange(to_line + 1, k as int),
            -(removed as int),
        ));
    }
    assert(as_ints(index@).subrange(to_line + 1, k as int) == as_ints(index@).skip(to_line + 1));
    result
}

} // verus!
