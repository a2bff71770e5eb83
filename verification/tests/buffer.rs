use scribe::buffer::{from_file, new};
use scribe::path::Path;
use scribe::position::Position;
use scribe::token::{Category, Lexer, Token};

fn placeholder_lexer(_: &str) -> Vec<Token> {
    vec![Token { lexeme: "lexer".to_string(), category: Category::Text }]
}

#[test]
fn tokens_returns_one_text_token_when_no_lexer_is_set() {
    let mut buffer = new();
    buffer.insert("scribe");
    let expected_tokens = vec![Token { lexeme: "scribe".to_string(), category: Category::Text }];
    assert_eq!(buffer.tokens(), expected_tokens);
}

#[test]
fn tokens_returns_result_of_lexer_when_set() {
    let buffer = new();
    let expected_tokens = placeholder_lexer("scribe");
    assert_eq!(buffer.tokens_with(placeholder_lexer), expected_tokens);
}

#[test]
fn delete_joins_lines_when_invoked_at_end_of_line() {
    let mut buffer = new();
    buffer.insert("scribe\n library");
    buffer.cursor.move_to_end_of_line(&buffer.store);
    buffer.delete();
    assert_eq!(buffer.data(), "scribe library");
}

#[test]
fn delete_does_nothing_when_invoked_at_the_end_of_the_document() {
    let mut buffer = new();
    buffer.insert("scribe\n library");
    buffer.cursor.move_down(&buffer.store);
    buffer.cursor.move_to_end_of_line(&buffer.store);
    buffer.delete();
    assert_eq!(buffer.data(), "scribe\n library");
}

#[test]
fn new_buffer_is_empty_with_cursor_at_start() {
    let buffer = new();
    assert_eq!(buffer.data(), "");
    assert_eq!(buffer.cursor.line(), 0);
    assert_eq!(buffer.cursor.offset(), 0);
    assert!(buffer.path.is_none());
    assert!(buffer.lexer.is_none());
}

#[test]
fn insert_into_empty_buffer_yields_the_text() {
    let mut buffer = new();
    buffer.insert("scribe");
    assert_eq!(buffer.data(), "scribe");
}

#[test]
fn insert_leaves_the_cursor_in_front_of_the_text() {
    let mut buffer = new();
    buffer.insert("scribe");
    assert_eq!(buffer.cursor.position, Position { line: 0, offset: 0 });
    buffer.insert("a ");
    assert_eq!(buffer.data(), "a scribe");
}

#[test]
fn insert_at_the_cursor_after_moving() {
    let mut buffer = new();
    buffer.insert("scribe\nlibrary");
    assert!(buffer.cursor.move_to(&buffer.store, Position { line: 1, offset: 3 }));
    buffer.insert("--");
    assert_eq!(buffer.data(), "scribe\nlib--rary");
    assert_eq!(buffer.cursor.position, Position { line: 1, offset: 3 });
}

#[test]
fn delete_removes_the_character_at_the_cursor() {
    let mut buffer = new();
    buffer.insert("scribe");
    buffer.delete();
    assert_eq!(buffer.data(), "cribe");
    assert_eq!(buffer.cursor.position, Position { line: 0, offset: 0 });
}

#[test]
fn delete_counts_characters_not_bytes() {
    let mut buffer = new();
    buffer.insert("h\u{e9}llo\nw\u{f6}rld");
    assert!(buffer.cursor.move_to(&buffer.store, Position { line: 1, offset: 1 }));
    buffer.delete();
    assert_eq!(buffer.data(), "h\u{e9}llo\nwrld");
    assert!(buffer.cursor.move_to(&buffer.store, Position { line: 0, offset: 2 }));
    buffer.insert("\u{1f600}");
    assert_eq!(buffer.data(), "h\u{e9}\u{1f600}llo\nwrld");
}

#[test]
fn insert_at_a_cursor_out_of_bounds_changes_nothing() {
    let mut buffer = new();
    buffer.insert("scribe\n library");
    let lines = buffer.store.line_count();
    let stale = Position { line: lines, offset: 0 };
    buffer.cursor.position = stale;
    buffer.insert("lost");
    assert_eq!(buffer.data(), "scribe\n library");
    assert_eq!(buffer.cursor.position, stale);
    let past_end_of_line = Position { line: 0, offset: 7 };
    buffer.cursor.position = past_end_of_line;
    buffer.insert("lost");
    assert_eq!(buffer.data(), "scribe\n library");
    assert_eq!(buffer.cursor.position, past_end_of_line);
    let past_end_of_last_line = Position { line: lines - 1, offset: 9 };
    buffer.cursor.position = past_end_of_last_line;
    buffer.insert("");
    buffer.insert("lost\nlost");
    assert_eq!(buffer.data(), "scribe\n library");
    assert_eq!(buffer.cursor.position, past_end_of_last_line);
}

#[test]
fn delete_at_a_cursor_out_of_bounds_changes_nothing() {
    let mut buffer = new();
    buffer.insert("scribe\n library");
    let stale = Position { line: 1, offset: 9 };
    buffer.cursor.position = stale;
    buffer.delete();
    assert_eq!(buffer.data(), "scribe\n library");
    assert_eq!(buffer.cursor.position, stale);
    let far = Position { line: usize::MAX, offset: usize::MAX };
    buffer.cursor.position = far;
    buffer.delete();
    assert_eq!(buffer.data(), "scribe\n library");
    assert_eq!(buffer.cursor.position, far);
}

#[test]
fn move_to_a_position_out_of_bounds_changes_nothing() {
    let mut buffer = new();
    buffer.insert("scribe\n library");
    assert!(buffer.cursor.move_to(&buffer.store, Position { line: 1, offset: 8 }));
    assert!(!buffer.cursor.move_to(&buffer.store, Position { line: 1, offset: 9 }));
    assert!(!buffer.cursor.move_to(&buffer.store, Position { line: 2, offset: 0 }));
    assert_eq!(buffer.cursor.position, Position { line: 1, offset: 8 });
    assert_eq!(buffer.data(), "scribe\n library");
}

#[test]
fn cursor_stays_in_bounds_through_edits() {
    let mut buffer = new();
    buffer.insert("ab\ncd");
    buffer.cursor.move_to_end_of_line(&buffer.store);
    for _ in 0..5 {
        buffer.delete();
        assert!(buffer.store.in_bounds(&buffer.cursor.position));
    }
    assert_eq!(buffer.data(), "ab");
    buffer.insert("\n\n");
    assert!(buffer.store.in_bounds(&buffer.cursor.position));
    assert_eq!(buffer.data(), "ab\n\n");
}

#[test]
fn lexemes_of_tokens_join_to_the_data_after_edits() {
    let mut buffer = from_file(Path::new("notes.json"), "{\"a\": [1, 2]}\n");
    let mut plain = new();
    plain.insert("one\ntwo");
    for step in 0..4 {
        buffer.cursor.move_right(&buffer.store);
        buffer.insert("\"x\" ");
        buffer.cursor.move_down(&buffer.store);
        buffer.delete();
        plain.cursor.move_to_end_of_line(&plain.store);
        plain.insert("three\n");
        plain.delete();
        let joined: String = buffer.tokens().iter().map(|t| t.lexeme.as_str()).collect();
        assert_eq!(joined, buffer.data(), "step {}", step);
        let joined: String = plain.tokens().iter().map(|t| t.lexeme.as_str()).collect();
        assert_eq!(joined, plain.data(), "step {}", step);
    }
}

#[test]
fn from_file_holds_the_contents_and_the_path() {
    let buffer = from_file(Path::new("tests/sample/file"), "it works!\n");
    assert_eq!(buffer.data(), "it works!\n");
    assert_eq!(buffer.cursor.line(), 0);
    assert_eq!(buffer.cursor.offset(), 0);
    assert_eq!(buffer.path, Some(Path::new("tests/sample/file")));
    assert_eq!(buffer.lexer, None);
}

#[test]
fn from_file_chooses_the_lexer_by_extension() {
    assert_eq!(from_file(Path::new("a/data.json"), "").lexer, Some(Lexer::Json));
    assert_eq!(from_file(Path::new("data.xml"), "").lexer, Some(Lexer::Xml));
    assert_eq!(from_file(Path::new("data.JSON"), "").lexer, None);
    assert_eq!(from_file(Path::new("data.txt"), "").lexer, None);
    assert_eq!(from_file(Path::new("json"), "").lexer, None);
}

#[test]
fn tokens_uses_the_json_lexer_for_a_json_file() {
    let buffer = from_file(Path::new("data.json"), "{\"key\": true}");
    let expected = vec![
        Token { lexeme: "{".to_string(), category: Category::Brace },
        Token { lexeme: "\"key\"".to_string(), category: Category::String },
        Token { lexeme: ":".to_string(), category: Category::Operator },
        Token { lexeme: " ".to_string(), category: Category::Whitespace },
        Token { lexeme: "true".to_string(), category: Category::Boolean },
        Token { lexeme: "}".to_string(), category: Category::Brace },
    ];
    assert_eq!(buffer.tokens(), expected);
}

#[test]
fn tokens_uses_the_xml_lexer_for_an_xml_file() {
    let buffer = from_file(Path::new("data.xml"), "<a>b</a>");
    let expected = vec![
        Token { lexeme: "<".to_string(), category: Category::Text },
        Token { lexeme: "a".to_string(), category: Category::Identifier },
        Token { lexeme: ">".to_string(), category: Category::Text },
        Token { lexeme: "b".to_string(), category: Category::Identifier },
        Token { lexeme: "</".to_string(), category: Category::Text },
        Token { lexeme: "a".to_string(), category: Category::Identifier },
        Token { lexeme: ">".to_string(), category: Category::Text },
    ];
    assert_eq!(buffer.tokens(), expected);
}

#[test]
fn tokens_of_an_empty_buffer() {
    let buffer = new();
    assert_eq!(buffer.tokens(), vec![Token { lexeme: String::new(), category: Category::Text }]);
    let lexed = from_file(Path::new("empty.json"), "");
    assert_eq!(lexed.tokens(), vec![]);
}

#[test]
fn tokens_with_hands_the_data_to_the_lexer() {
    let mut buffer = new();
    buffer.insert("a b");
    let words = |text: &str| -> Vec<Token> {
        text.split(' ')
            .map(|word| Token { lexeme: word.to_string(), category: Category::Identifier })
            .collect()
    };
    let expected = vec![
        Token { lexeme: "a".to_string(), category: Category::Identifier },
        Token { lexeme: "b".to_string(), category: Category::Identifier },
    ];
    assert_eq!(buffer.tokens_with(words), expected);
}

#[test]
fn filename_is_the_last_component_of_the_path() {
    let buffer = from_file(Path::new("tests/sample/file"), "it works!\n");
    assert_eq!(buffer.filename().unwrap(), "file");
    let accented = from_file(Path::new("notes/caf\u{e9}.txt"), "");
    assert_eq!(accented.filename().unwrap(), "caf\u{e9}.txt");
    let directory = from_file(Path::new("tests/sample/"), "");
    assert_eq!(directory.filename().unwrap(), "sample");
}

#[test]
fn filename_is_none_without_a_path_or_a_file_component() {
    assert_eq!(new().filename(), None);
    assert_eq!(from_file(Path::new(""), "").filename(), None);
    assert_eq!(from_file(Path::new("/"), "").filename(), None);
    assert_eq!(from_file(Path::new(".."), "").filename(), None);
    assert_eq!(from_file(Path::new("."), "").filename(), None);
    assert_eq!(from_file(Path::new("tests/sample/.."), "").filename(), None);
}

#[test]
fn filename_is_none_when_it_is_not_utf8() {
    let path = Path::from_bytes(vec![b'd', b'i', b'r', b'/', 0xff, 0xfe, b'.', b't']);
    assert_eq!(from_file(path, "").filename(), None);
    let cut_short = Path::from_bytes(vec![b'a', 0xc3]);
    assert_eq!(from_file(cut_short, "").filename(), None);
    let valid_only_before_the_separator = Path::from_bytes(vec![0xff, b'/', b'o', b'k']);
    assert_eq!(from_file(valid_only_before_the_separator, "").filename().unwrap(), "ok");
}

#[test]
fn save_gives_the_path_and_the_bytes_to_write() {
    let mut buffer = from_file(Path::new("my_doc"), "");
    buffer.insert("scr\u{ef}be");
    let write = buffer.save();
    assert_eq!(write.path, Path::new("my_doc"));
    assert_eq!(write.data, "scr\u{ef}be".as_bytes().to_vec());
}

#[test]
fn save_without_a_path_names_the_empty_path() {
    let mut buffer = new();
    buffer.insert("scribe");
    let write = buffer.save();
    assert_eq!(write.path.as_bytes().len(), 0);
    assert_eq!(write.data, b"scribe".to_vec());
}
