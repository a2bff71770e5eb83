//! Paths as bytes, and the parts of a path that the buffer reads.

use vstd::prelude::*;
use vstd::string::StrSliceExecFns;
use vstd::utf8::encode_utf8;

verus! {

/// The byte that separates the components of a path: a slash.
pub const SEPARATOR: u8 = 0x2f;

/// The byte that separates a file name from its extension: a full stop.
pub const DOT: u8 = 0x2e;

/// The index of the last `byte` in `bytes`, or -1 if there is none.
pub open spec fn last_index_of(bytes: Seq<u8>, byte: u8) -> int
    decreases bytes.len(),
{
    if bytes.len() == 0 {
        -1
    } else if bytes.last() == byte {
        bytes.len() - 1
    } else {
        last_index_of(bytes.drop_last(), byte)
    }
}

/// Whether `path` ends in something that belongs to no component: a
/// separator, or a single dot behind a separator, which stands for the
/// directory named before it.
pub open spec fn ends_in_nothing(path: Seq<u8>) -> bool {
    ||| path.len() >= 1 && path.last() == SEPARATOR
    ||| path.len() >= 2 && path.last() == DOT && path[path.len() - 2] == SEPARATOR
}

/// `path` up to the end of its last component: without the separators and
/// the single dots that follow it.
pub open spec fn up_to_last_component(path: Seq<u8>) -> Seq<u8>
    decreases path.len(),
{
    if ends_in_nothing(path) {
        up_to_last_component(path.drop_last())
    } else {
        path
    }
}

/// Whether `name` is one of the two names that stand for a directory and
/// name no file: a single dot, or two dots.
pub open spec fn is_dots(name: Seq<u8>) -> bool {
    ||| name.len() == 1 && name[0] == DOT
    ||| name.len() == 2 && name[0] == DOT && name[1] == DOT
}

/// The file name of a path: its last component. Separators at the end of
/// the path do not count, nor do single dots between them, so that `a/b/`
/// and `a/b/.` have the file name `b`. There is no file name where nothing
/// is left then, as for the empty path and the root, nor where the last
/// component is a single dot or two dots.
pub open spec fn file_name_of(path: Seq<u8>) -> Option<Seq<u8>> {
    let whole = up_to_last_component(path);
    let name = whole.skip(last_index_of(whole, SEPARATOR) + 1);
    if name.len() == 0 || is_dots(name) {
        None
    } else {
        Some(name)
    }
}

/// The extension of a path: what follows the last dot of its file name. A
/// path without a file name has none, nor has a file name without a dot,
/// nor one whose only dot is its first byte.
pub open spec fn extension_of(path: Seq<u8>) -> Option<Seq<u8>> {
    match file_name_of(path) {
        Some(name) => {
            let dot = last_index_of(name, DOT);
            if dot > 0 {
                Some(name.skip(dot + 1))
            } else {
                None
            }
        },
        None => None,
    }
}

/// What `last_index_of` finds: a place where the byte stands and behind
/// which it does not stand again.
pub proof fn lemma_last_index_of(bytes: Seq<u8>, byte: u8)
    ensures
        -1 <= last_index_of(bytes, byte) < bytes.len(),
        last_index_of(bytes, byte) >= 0 ==> bytes[last_index_of(bytes, byte)] == byte,
        forall|i: int| last_index_of(bytes, byte) < i < bytes.len() ==> bytes[i] != byte,
    decreases bytes.len(),
{
    if bytes.len() > 0 && bytes.last() != byte {
        let shorter = bytes.drop_last();
        lemma_last_index_of(shorter, byte);
        assert forall|i: int| last_index_of(bytes, byte) < i < bytes.len() implies bytes[i]
            != byte by {
            if i < shorter.len() {
                assert(shorter[i] == bytes[i]);
            }
        }
    }
}

/// What `up_to_last_component` leaves: a beginning of the path that does
/// not end in a separator or in a single dot behind one, with nothing but
/// separators and dots behind it.
pub proof fn lemma_up_to_last_component(path: Seq<u8>)
    ensures
        up_to_last_component(path).len() <= path.len(),
        up_to_last_component(path) == path.take(up_to_last_component(path).len() as int),
        !ends_in_nothing(up_to_last_component(path)),
        forall|i: int|
            up_to_last_component(path).len() <= i < path.len() ==> path[i] == SEPARATOR || path[i]
                == DOT,
    decreases path.len(),
{
    if ends_in_nothing(path) {
        let shorter = path.drop_last();
        lemma_up_to_last_component(shorter);
        let kept = up_to_last_component(shorter);
        assert(kept == path.take(kept.len() as int));
        assert forall|i: int| kept.len() <= i < path.len() implies path[i] == SEPARATOR || path[i]
            == DOT by {
            if i < shorter.len() {
                assert(shorter[i] == path[i]);
            }
        }
    } else {
        assert(path == path.take(path.len() as int));
    }
}

/// The file name of a path stands in the path, at the end of what
/// `up_to_last_component` leaves of it, as the whole of that or behind a
/// separator. It is not empty, holds no separator, and is neither a single
/// dot nor two dots. The extension, where there is one, is the end of the
/// file name, holds no dot, and stands behind a dot that is not the first
/// byte of the file name.
pub proof fn lemma_file_name(path: Seq<u8>)
    ensures
        file_name_of(path) matches Some(name) ==> {
            let whole = up_to_last_component(path);
            &&& 0 < name.len() <= whole.len() <= path.len()
            &&& name == path.subrange(whole.len() - name.len(), whole.len() as int)
            &&& !name.contains(SEPARATOR)
            &&& !is_dots(name)
            &&& name.len() < whole.len() ==> path[whole.len() - name.len() - 1] == SEPARATOR
        },
        extension_of(path) matches Some(extension) ==> {
            &&& file_name_of(path) matches Some(name)
            &&& extension.len() + 1 < name.len()
            &&& extension == name.skip(name.len() - extension.len())
            &&& !extension.contains(DOT)
            &&& name[name.len() - extension.len() - 1] == DOT
        },
{
    let whole = up_to_last_component(path);
    lemma_up_to_last_component(path);
    lemma_last_index_of(whole, SEPARATOR);
    if let Some(name) = file_name_of(path) {
        lemma_last_index_of(name, DOT);
        assert(name == path.subrange(whole.len() - name.len(), whole.len() as int));
    }
}

/// The paths that name no file: the empty path, a path of separators alone,
/// as the root is, a single dot, two dots, and every path that ends in two
/// dots behind a separator.
pub proof fn lemma_no_file_name(path: Seq<u8>)
    ensures
        path.len() == 0 ==> file_name_of(path) is None,
        (forall|i: int| 0 <= i < path.len() ==> path[i] == SEPARATOR) ==> file_name_of(path)
            is None,
        is_dots(path) ==> file_name_of(path) is None,
        path.len() >= 3 && path[path.len() - 3] == SEPARATOR && path[path.len() - 2] == DOT
            && path[path.len() - 1] == DOT ==> file_name_of(path) is None,
    decreases path.len(),
{
    lemma_last_index_of(path, SEPARATOR);
    if path.len() > 0 && (forall|i: int| 0 <= i < path.len() ==> path[i] == SEPARATOR) {
        let shorter = path.drop_last();
        assert forall|i: int| 0 <= i < shorter.len() implies shorter[i] == SEPARATOR by {
            assert(shorter[i] == path[i]);
        }
        lemma_no_file_name(shorter);
        lemma_up_to_last_component(shorter);
        lemma_last_index_of(up_to_last_component(shorter), SEPARATOR);
        assert(up_to_last_component(shorter).len() == 0) by {
            let kept = up_to_last_component(shorter);
            if kept.len() > 0 {
                assert(kept.last() == shorter[kept.len() - 1]);
            }
        }
    }
}

/// Separators at the end of a path do not change its file name, nor does a
/// single dot behind a separator.
pub proof fn lemma_trailing_separator(path: Seq<u8>)
    ensures
        file_name_of(path.push(SEPARATOR)) == file_name_of(path),
        file_name_of(path.push(SEPARATOR).push(DOT)) == file_name_of(path),
{
    assert(path.push(SEPARATOR).drop_last() == path);
    assert(path.push(SEPARATOR).push(DOT).drop_last() == path.push(SEPARATOR));
}

/// A path in a file system, as the bytes it is written with. They need not
/// be text.
#[derive(Clone, Debug, PartialEq, Eq, Hash)]
pub struct Path {
    bytes: Vec<u8>,
}

impl View for Path {
    type V = Seq<u8>;

    closed spec fn view(&self) -> Seq<u8> {
        self.bytes@
    }
}

impl Path {
    /// The path written as `text`.
    pub fn new(text: &str) -> (path: Path)
        ensures
            path@ == encode_utf8(text@),
    {
        Path { bytes: text.as_bytes_vec() }
    }

    /// The path made of `bytes`.
    pub fn from_bytes(bytes: Vec<u8>) -> (path: Path)
        ensures
            path@ == bytes@,
    {
        Path { bytes }
    }

    /// A copy of the path.
    pub fn duplicate(&self) -> (path: Path)
        ensures
            path@ == self@,
    {
        Path { bytes: part(&self.bytes, 0, self.bytes.len()) }
    }

    /// The bytes of the path.
    pub fn as_bytes(&self) -> (bytes: &Vec<u8>)
        ensures
            bytes@ == self@,
    {
        &self.bytes
    }

    /// The file name of the path, if it has one: see [`file_name_of`].
    pub fn filename(&self) -> (name: Option<Vec<u8>>)
        ensures
            name is Some == file_name_of(self@) is Some,
            name matches Some(bytes) ==> file_name_of(self@) == Some(bytes@),
    {
        let mut end = self.bytes.len();
        assert(self.bytes@.take(end as int) == self.bytes@);
        while ends_in_nothing_at(&self.bytes, end)
            invariant
                end <= self.bytes.len(),
                up_to_last_component(self.bytes@) == up_to_last_component(
                    self.bytes@.take(end as int),
                ),
            decreases end,
        {
            assert(self.bytes@.take(end as int).drop_last() == self.bytes@.take(end - 1));
            end -= 1;
        }
        let start = match find_last(&self.bytes, end, SEPARATOR) {
            Some(at) => at + 1,
            None => 0,
        };
        let ghost whole = self.bytes@.take(end as int);
        assert(whole.skip(start as int) == self.bytes@.subrange(start as int, end as int));
        let count = end - start;
        if count == 0 {
            None
        } else if count == 1 && self.bytes[start] == DOT {
            None
        } else if count == 2 && self.bytes[start] == DOT && self.bytes[start + 1] == DOT {
            None
        } else {
            Some(part(&self.bytes, start, end))
        }
    }

    /// The extension of the path, if it has one: see [`extension_of`].
    pub fn extension(&self) -> (extension: Option<Vec<u8>>)
        ensures
            extension is Some == extension_of(self@) is Some,
            extension matches Some(bytes) ==> extension_of(self@) == Some(bytes@),
    {
        match self.filename() {
            Some(name) => {
                assert(name@.take(name.len() as int) == name@);
                match find_last(&name, name.len(), DOT) {
                    Some(dot) => if dot > 0 {
                        Some(part(&name, dot + 1, name.len()))
                    } else {
                        None
                    },
                    None => None,
                }
            },
            None => None,
        }
    }
}

/// Whether the first `end` bytes of `bytes` end in something that belongs
/// to no component: see [`ends_in_nothing`].
fn ends_in_nothing_at(bytes: &Vec<u8>, end: usize) -> (r: bool)
    requires
        end <= bytes.len(),
    ensures
        r == ends_in_nothing(bytes@.take(end as int)),
{
    if end >= 1 && bytes[end - 1] == SEPARATOR {
        true
    } else {
        end >= 2 && bytes[end - 1] == DOT && bytes[end - 2] == SEPARATOR
    }
}

/// Where `byte` stands last among the first `end` bytes of `bytes`, if it
/// stands there at all.
fn find_last(bytes: &Vec<u8>, end: usize, byte: u8) -> (found: Option<usize>)
    requires
        end <= bytes.len(),
    ensures
        found is None <==> last_index_of(bytes@.take(end as int), byte) == -1,
        found matches Some(at) ==> at == last_index_of(bytes@.take(end as int), byte) && at < end,
{
    let mut i = end;
    while i > 0
        invariant
            i <= end <= bytes.len(),
            last_index_of(bytes@.take(end as int), byte) == last_index_of(
                bytes@.take(i as int),
                byte,
            ),
        decreases i,
    {
        if bytes[i - 1] == byte {
            return Some(i - 1);
        }
        assert(bytes@.take(i as int).drop_last() == bytes@.take(i - 1));
        i -= 1;
    }
    None
}

/// The bytes of `bytes` from `start` up to, not including, `end`.
fn part(bytes: &Vec<u8>, start: usize, end: usize) -> (rest: Vec<u8>)
    requires
        start <= end <= bytes.len(),
    ensures
        rest@ == bytes@.subrange(start as int, end as int),
{
    let mut rest: Vec<u8> = Vec::new();
    let mut i = start;
    while i < end
        invariant
            start <= i <= end <= bytes.len(),
            rest@ == bytes@.subrange(start as int, i as int),
        decreases end - i,
    {
        rest.push(bytes[i]);
        i += 1;
    }
    rest
}

} // verus!
