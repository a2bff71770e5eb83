use scribe::path::Path;
use scribe::type_detection::{from_path, Type};

#[test]
fn path_holds_the_bytes_of_its_text() {
    assert_eq!(Path::new("a/b").as_bytes(), &b"a/b".to_vec());
    assert_eq!(Path::new("caf\u{e9}").as_bytes(), &vec![b'c', b'a', b'f', 0xc3, 0xa9]);
    assert_eq!(Path::from_bytes(vec![1, 2, 3]).as_bytes(), &vec![1, 2, 3]);
    assert_eq!(Path::new("a/b").duplicate(), Path::new("a/b"));
}

#[test]
fn path_filename_is_the_last_component() {
    assert_eq!(Path::new("tests/sample/file").filename(), Some(b"file".to_vec()));
    assert_eq!(Path::new("file").filename(), Some(b"file".to_vec()));
    assert_eq!(Path::new("/file.txt").filename(), Some(b"file.txt".to_vec()));
    assert_eq!(Path::new("a//b").filename(), Some(b"b".to_vec()));
    assert_eq!(Path::new("/usr/bin").filename(), Some(b"bin".to_vec()));
    assert_eq!(Path::new("...").filename(), Some(b"...".to_vec()));
    assert_eq!(Path::new("a/..b").filename(), Some(b"..b".to_vec()));
    assert_eq!(Path::new("./a").filename(), Some(b"a".to_vec()));
}

#[test]
fn path_filename_passes_over_trailing_separators_and_single_dots() {
    assert_eq!(Path::new("tests/sample/").filename(), Some(b"sample".to_vec()));
    assert_eq!(Path::new("/usr/bin/").filename(), Some(b"bin".to_vec()));
    assert_eq!(Path::new("a/b//").filename(), Some(b"b".to_vec()));
    assert_eq!(Path::new("foo.txt/.").filename(), Some(b"foo.txt".to_vec()));
    assert_eq!(Path::new("foo.txt/.//").filename(), Some(b"foo.txt".to_vec()));
    assert_eq!(Path::new("a/././").filename(), Some(b"a".to_vec()));
    assert_eq!(Path::new("a./").filename(), Some(b"a.".to_vec()));
}

#[test]
fn path_filename_is_none_for_the_root_and_for_dots() {
    assert_eq!(Path::new("").filename(), None);
    assert_eq!(Path::new("/").filename(), None);
    assert_eq!(Path::new("//").filename(), None);
    assert_eq!(Path::new("/.").filename(), None);
    assert_eq!(Path::new(".").filename(), None);
    assert_eq!(Path::new("./").filename(), None);
    assert_eq!(Path::new("./.").filename(), None);
    assert_eq!(Path::new("..").filename(), None);
    assert_eq!(Path::new("../").filename(), None);
    assert_eq!(Path::new("foo.txt/..").filename(), None);
    assert_eq!(Path::new("a/b/../.").filename(), None);
    assert_eq!(Path::new("/..").filename(), None);
}

#[test]
fn path_extension_is_what_follows_the_last_dot_of_the_filename() {
    assert_eq!(Path::new("data.json").extension(), Some(b"json".to_vec()));
    assert_eq!(Path::new("a/b.tar.gz").extension(), Some(b"gz".to_vec()));
    assert_eq!(Path::new("a/b.").extension(), Some(b"".to_vec()));
    assert_eq!(Path::new("dir.d/").extension(), Some(b"d".to_vec()));
    assert_eq!(Path::new("dir.d/.").extension(), Some(b"d".to_vec()));
    assert_eq!(Path::new("...").extension(), Some(b"".to_vec()));
    assert_eq!(Path::new(".a.b").extension(), Some(b"b".to_vec()));
}

#[test]
fn path_extension_is_none_without_a_dot_behind_the_first_byte() {
    assert_eq!(Path::new("data").extension(), None);
    assert_eq!(Path::new(".bashrc").extension(), None);
    assert_eq!(Path::new("dir.d/file").extension(), None);
    assert_eq!(Path::new("").extension(), None);
}

#[test]
fn path_extension_is_none_without_a_filename() {
    assert_eq!(Path::new("..").extension(), None);
    assert_eq!(Path::new(".").extension(), None);
    assert_eq!(Path::new("/").extension(), None);
    assert_eq!(Path::new("data.json/..").extension(), None);
}

#[test]
fn type_is_detected_from_the_extension() {
    assert_eq!(from_path(&Path::new("data.json")), Some(Type::JSON));
    assert_eq!(from_path(&Path::new("a/b/data.xml")), Some(Type::XML));
    assert_eq!(from_path(&Path::new("archive.json.xml")), Some(Type::XML));
    assert_eq!(from_path(&Path::new("data.xml/")), Some(Type::XML));
    assert_eq!(from_path(&Path::new("data.json/.")), Some(Type::JSON));
}

#[test]
fn type_is_not_detected_from_anything_else() {
    assert_eq!(from_path(&Path::new("data.txt")), None);
    assert_eq!(from_path(&Path::new("data.jso")), None);
    assert_eq!(from_path(&Path::new("data.jsonx")), None);
    assert_eq!(from_path(&Path::new("data.Json")), None);
    assert_eq!(from_path(&Path::new("xml")), None);
    assert_eq!(from_path(&Path::new(".xml")), None);
    assert_eq!(from_path(&Path::new("data.xml/..")), None);
    assert_eq!(from_path(&Path::new("data.xml/file")), None);
    assert_eq!(from_path(&Path::new("")), None);
}
