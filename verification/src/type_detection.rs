//! Telling what a file holds from its name.

use vstd::prelude::*;
use crate::path::{extension_of, Path};

verus! {

/// The kinds of content that are told apart.
#[derive(Clone, Copy, Debug, PartialEq, Eq, Structural, Hash)]
pub enum Type {
    JSON,
    XML,
}

/// The extension `json`, in ASCII.
pub open spec fn json_extension() -> Seq<u8> {
    seq![0x6au8, 0x73u8, 0x6fu8, 0x6eu8]
}

/// The extension `xml`, in ASCII.
pub open spec fn xml_extension() -> Seq<u8> {
    seq![0x78u8, 0x6du8, 0x6cu8]
}

/// The kind of content that a path's extension stands for, if any. Case
/// counts: only the lower-case extensions are known.
pub open spec fn type_of(path: Seq<u8>) -> Option<Type> {
    match extension_of(path) {
        Some(extension) => if extension == json_extension() {
            Some(Type::JSON)
        } else if extension == xml_extension() {
            Some(Type::XML)
        } else {
            None
        },
        None => None,
    }
}

/// Tells the kind of content of the file at `path` from its extension.
pub fn from_path(path: &Path) -> (detected: Option<Type>)
    ensures
        detected == type_of(path@),
{
    match path.extension() {
        Some(extension) => {
            if is_json(&extension) {
                Some(Type::JSON)
            } else if is_xml(&extension) {
                Some(Type::XML)
            } else {
                None
            }
        },
        None => None,
    }
}

/// Whether `extension` is `json`.
fn is_json(extension: &Vec<u8>) -> (r: bool)
    ensures
        r == (extension@ == json_extension()),
{
    let r = extension.len() == 4 && extension[0] == 0x6a && extension[1] == 0x73 && extension[2]
        == 0x6f && extension[3] == 0x6e;
    proof {
        let known = json_extension();
        assert(known.len() == 4 && known[0] == 0x6a && known[1] == 0x73 && known[2] == 0x6f
            && known[3] == 0x6e);
        if r {
            assert(extension@ =~= known);
        }
    }
    r
}

/// Whether `extension` is `xml`.
fn is_xml(extension: &Vec<u8>) -> (r: bool)
    ensures
        r == (extension@ == xml_extension()),
{
    let r = extension.len() == 3 && extension[0] == 0x78 && extension[1] == 0x6d && extension[2]
        == 0x6c;
    proof {
        let known = xml_extension();
        assert(known.len() == 3 && known[0] == 0x78 && known[1] == 0x6d && known[2] == 0x6c);
        if r {
            assert(extension@ =~= known);
        }
    }
    r
}

} // verus!
