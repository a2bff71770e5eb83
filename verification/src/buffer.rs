//! The buffer: a text store, the cursor at which it is edited, and what is
//! known of the file it belongs to.

use vstd::prelude::*;
use vstd::string::StrSliceExecFns;
use vstd::utf8::{decode_utf8, encode_utf8, valid_utf8};
use crate::cursor::Cursor;
use crate::gap_store::GapStore;
use crate::path::{file_name_of, Path};
use crate::position::{Position, Range};
use crate::text::{
    in_bounds, lemma_bounds, lemma_next_place, lemma_offset_in_text, lemma_place_survives_delete,
    lemma_place_survives_insert, line_count, line_len, offset_of, with_deleted_at, with_inserted,
    with_removed,
};
use crate::token::{joined, text_token, token_views, Category, Lexer, Token};
use crate::type_detection::{from_path, type_of, Type};

verus! {

/// The lexer for the content of the file at `path`, if its extension tells
/// of one.
pub open spec fn lexer_for(path: Seq<u8>) -> Option<Lexer> {
    match type_of(path) {
        Some(Type::JSON) => Some(Lexer::Json),
        Some(Type::XML) => Some(Lexer::Xml),
        None => None,
    }
}

/// The file name of a buffer with path `path`: the file name of the path,
/// read as UTF-8. There is none where there is no path, where the path has
/// no file name, as the root and `..` have none, or where the file name is
/// not UTF-8.
pub open spec fn file_name_text(path: Option<Seq<u8>>) -> Option<Seq<char>> {
    match path {
        Some(bytes) => match file_name_of(bytes) {
            Some(name) => if valid_utf8(name) {
                Some(decode_utf8(name))
            } else {
                None
            },
            None => None,
        },
        None => None,
    }
}

/// Calls `String::from_utf8` and drops its error. Taken on trust: that it
/// accepts exactly the bytes that are valid UTF-8, and that the string it
/// then gives holds the characters that they encode.
#[verifier::external_body]
fn text_of(bytes: Vec<u8>) -> (text: Option<String>)
    ensures
        text is Some == valid_utf8(bytes@),
        text matches Some(decoded) ==> decoded@ == decode_utf8(bytes@),
{
    match String::from_utf8(bytes) {
        Ok(text) => Some(text),
        Err(_) => None,
    }
}

/// What is to be written to save a buffer, and where.
#[derive(Debug)]
pub struct Write {
    pub path: Path,
    pub data: Vec<u8>,
}

/// A text under edit.
///
/// The buffer owns its store. Its cursor is a position of its own that is
/// checked against the store at each use: an edit at a cursor that names no
/// place in the text does nothing. An edit leaves a cursor that names a
/// place in the text at a place in the text, and does not move it.
///
/// The path and the lexer are set when the buffer is made; no edit changes
/// them.
#[derive(Debug)]
pub struct Buffer {
    pub store: GapStore,
    pub cursor: Cursor,
    pub path: Option<Path>,
    pub lexer: Option<Lexer>,
}

impl View for Buffer {
    type V = Seq<char>;

    /// The text of the buffer.
    open spec fn view(&self) -> Seq<char> {
        self.store@
    }
}

impl Buffer {
    /// The store of the buffer is sound.
    pub open spec fn wf(&self) -> bool {
        self.store.wf()
    }

    /// The bytes of the buffer's path, if it has one.
    pub open spec fn path_bytes(&self) -> Option<Seq<u8>> {
        match self.path {
            Some(path) => Some(path@),
            None => None,
        }
    }

    /// The tokens of the buffer: those that its lexer makes of its text or,
    /// without a lexer, the whole text as one token of plain text.
    pub open spec fn lexemes(&self) -> Seq<(Seq<char>, Category)> {
        match self.lexer {
            Some(lexer) => lexer.lexemes(self@),
            None => seq![(self@, Category::Text)],
        }
    }

    /// The text of the buffer as a string.
    pub fn data(&self) -> (text: String)
        requires
            self.wf(),
        ensures
            text@ == self@,
    {
        self.store.snapshot()
    }

    /// What saving the buffer writes, and where: the text of the buffer in
    /// UTF-8, to the buffer's path, or to the empty path if it has none.
    /// The writing itself is the caller's.
    pub fn save(&self) -> (write: Write)
        requires
            self.wf(),
        ensures
            write.path@ == match self.path_bytes() {
                Some(bytes) => bytes,
                None => Seq::<u8>::empty(),
            },
            write.data@ == encode_utf8(self@),
            valid_utf8(write.data@),
    {
        broadcast use vstd::utf8::encode_utf8_valid_utf8;

        let path = match &self.path {
            Some(path) => path.duplicate(),
            None => Path::from_bytes(Vec::new()),
        };
        let text = self.data();
        Write { path, data: text.as_str().as_bytes_vec() }
    }

    /// Puts `data` into the text at the cursor. The cursor stays where it
    /// is, in front of what was put in. At a cursor that names no place in
    /// the text nothing happens, whatever `data` is. At one that names a
    /// place, the text must still be addressable when `data` has been put in.
    pub fn insert(&mut self, data: &str)
        requires
            old(self).wf(),
            in_bounds(old(self)@, old(self).cursor.position) ==> old(self)@.len() + data@.len()
                <= usize::MAX,
        ensures
            final(self).wf(),
            final(self)@ == if in_bounds(old(self)@, old(self).cursor.position) {
                with_inserted(old(self)@, offset_of(old(self)@, old(self).cursor.position), data@)
            } else {
                old(self)@
            },
            final(self).cursor == old(self).cursor,
            final(self).path == old(self).path,
            final(self).lexer == old(self).lexer,
            in_bounds(old(self)@, old(self).cursor.position) ==> in_bounds(
                final(self)@,
                final(self).cursor.position,
            ) && offset_of(final(self)@, final(self).cursor.position) == offset_of(
                old(self)@,
                old(self).cursor.position,
            ),
            !in_bounds(old(self)@, old(self).cursor.position) ==> *final(self) == *old(self),
    {
        let at = self.cursor.position;
        proof {
            if in_bounds(self@, at) {
                lemma_place_survives_insert(self@, at, data@);
            }
        }
        self.store.insert(data, &at);
    }

    /// Takes the character at the cursor out of the text: the one to its
    /// right or, at the end of a line, the line break, which joins the line
    /// to the next. At the end of the text, and at a cursor that names no
    /// place in the text, nothing happens. The cursor stays where it is.
    pub fn delete(&mut self)
        requires
            old(self).wf(),
        ensures
            final(self).wf(),
            final(self)@ == with_deleted_at(old(self)@, old(self).cursor.position),
            final(self).cursor == old(self).cursor,
            final(self).path == old(self).path,
            final(self).lexer == old(self).lexer,
            in_bounds(old(self)@, old(self).cursor.position) ==> in_bounds(
                final(self)@,
                final(self).cursor.position,
            ) && offset_of(final(self)@, final(self).cursor.position) == offset_of(
                old(self)@,
                old(self).cursor.position,
            ),
            !in_bounds(old(self)@, old(self).cursor.position) ==> *final(self) == *old(self),
    {
        let start = self.cursor.position;
        let ghost text = self@;
        proof {
            lemma_bounds(text);
            self.store.lemma_addressable();
            if in_bounds(text, start) {
                lemma_offset_in_text(text, start);
                lemma_next_place(text, start);
                lemma_place_survives_delete(text, start);
            }
        }
        if start.line == usize::MAX {
            return ;
        }
        // The character to the right or, where there is none on this line,
        // the start of the line below.
        let below = Position { line: start.line + 1, offset: 0 };
        let end = if start.offset < usize::MAX {
            let right = Position { line: start.line, offset: start.offset + 1 };
            if self.store.in_bounds(&right) {
                right
            } else {
                below
            }
        } else {
            below
        };
        self.store.delete(&Range { start, end });
        proof {
            if in_bounds(text, start) {
                let o = offset_of(text, start);
                if in_bounds(text, end) {
                    if end == below {
                        assert(start.offset == line_len(text, start.line as int));
                    }
                    assert(offset_of(text, end) == o + 1);
                    assert(with_removed(text, o, o + 1) =~= text.remove(o));
                } else {
                    assert(start.offset == line_len(text, start.line as int));
                    assert(start.line + 1 == line_count(text));
                    assert(with_removed(text, o, text.len() as int) =~= text);
                }
            }
        }
    }

    /// The text of the buffer cut into tokens: by the lexer that was found
    /// for it or, without one, as a single token of plain text. Either way
    /// the lexemes of the tokens, joined in order, are the text.
    pub fn tokens(&self) -> (tokens: Vec<Token>)
        requires
            self.wf(),
        ensures
            token_views(tokens@) == self.lexemes(),
            joined(token_views(tokens@)) == self@,
    {
        let text = self.data();
        match self.lexer {
            Some(lexer) => lexer.lex(text.as_str()),
            None => text_token(text),
        }
    }

    /// The text of the buffer cut into tokens by a lexer that the caller
    /// brings: what `lexer` returns when it is given the text.
    pub fn tokens_with<F: Fn(&str) -> Vec<Token>>(&self, lexer: F) -> (tokens: Vec<Token>)
        requires
            self.wf(),
            forall|text: &str| text@ == self@ ==> call_requires(lexer, (text,)),
        ensures
            exists|text: &str| text@ == self@ && call_ensures(lexer, (text,), tokens),
    {
        let text = self.data();
        lexer(text.as_str())
    }

    /// The file name of the buffer: the file name of its path, if it has a
    /// path, the path has a file name and that name is UTF-8. See
    /// [`file_name_text`].
    pub fn filename(&self) -> (name: Option<String>)
        ensures
            name is Some == file_name_text(self.path_bytes()) is Some,
            name matches Some(text) ==> file_name_text(self.path_bytes()) == Some(text@),
    {
        match &self.path {
            Some(path) => match path.filename() {
                Some(name) => text_of(name),
                None => None,
            },
            None => None,
        }
    }
}

/// An empty buffer without a path, its cursor at the start.
pub fn new() -> (buffer: Buffer)
    ensures
        buffer.wf(),
        buffer@ == Seq::<char>::empty(),
        buffer.cursor.position == (Position { line: 0, offset: 0 }),
        in_bounds(buffer@, buffer.cursor.position),
        buffer.path is None,
        buffer.lexer is None,
{
    let store = GapStore::new("");
    proof {
        reveal_strlit("");
        lemma_bounds(store@);
    }
    Buffer { store, cursor: Cursor::new(), path: None, lexer: None }
}

/// A buffer for the file at `path`, which holds `contents`: its text is
/// `contents`, its cursor is at the start, and its lexer is the one that the
/// extension of `path` tells of, if any. Reading the file is the caller's.
pub fn from_file(path: Path, contents: &str) -> (buffer: Buffer)
    ensures
        buffer.wf(),
        buffer@ == contents@,
        buffer.cursor.position == (Position { line: 0, offset: 0 }),
        in_bounds(buffer@, buffer.cursor.position),
        buffer.path_bytes() == Some(path@),
        buffer.lexer == lexer_for(path@),
{
    let store = GapStore::new(contents);
    proof {
        lemma_bounds(store@);
    }
    let lexer = match from_path(&path) {
        Some(Type::JSON) => Some(Lexer::Json),
        Some(Type::XML) => Some(Lexer::Xml),
        None => None,
    };
    Buffer { store, cursor: Cursor::new(), path: Some(path), lexer }
}

} // verus!
