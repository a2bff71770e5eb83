use scribe::chars::chars_of;
use scribe::token::{text_token, Category, Lexer, Token};

fn token(lexeme: &str, category: Category) -> Token {
    Token { lexeme: lexeme.to_string(), category }
}

fn joined(tokens: &[Token]) -> String {
    tokens.iter().map(|t| t.lexeme.as_str()).collect()
}

#[test]
fn json_lexer_tells_the_categories_apart() {
    let tokens = Lexer::Json.lex("[\"a\\\"b\", null,\nfalse]x");
    let expected = vec![
        token("[", Category::Bracket),
        token("\"a\\\"b\"", Category::String),
        token(",", Category::Text),
        token(" ", Category::Whitespace),
        token("null", Category::Keyword),
        token(",", Category::Text),
        token("\n", Category::Whitespace),
        token("false", Category::Boolean),
        token("]", Category::Bracket),
        token("x", Category::Text),
    ];
    assert_eq!(tokens, expected);
}

#[test]
fn xml_lexer_tells_the_categories_apart() {
    let tokens = Lexer::Xml.lex("<t a=\"v\" />");
    let expected = vec![
        token("<", Category::Text),
        token("t", Category::Identifier),
        token(" ", Category::Whitespace),
        token("a", Category::Identifier),
        token("=", Category::Operator),
        token("\"v\"", Category::String),
        token(" ", Category::Whitespace),
        token("/>", Category::Text),
    ];
    assert_eq!(tokens, expected);
}

#[test]
fn lexemes_of_lexers_join_to_the_text() {
    let texts = [
        "",
        "scribe",
        "{\"key\": [1, 2.5, \"unterminated",
        "<a b=\"c\"><!-- d --></a>\n  </",
        " \n \n",
        "\"\\",
        "h\u{e9}llo \u{1f600} true false null",
    ];
    for text in texts {
        assert_eq!(joined(&Lexer::Json.lex(text)), text);
        assert_eq!(joined(&Lexer::Xml.lex(text)), text);
    }
}

#[test]
fn text_token_is_one_token_of_plain_text() {
    assert_eq!(text_token("scribe".to_string()), vec![token("scribe", Category::Text)]);
    assert_eq!(text_token(String::new()), vec![token("", Category::Text)]);
}

#[test]
fn chars_of_gives_the_characters_in_order() {
    assert_eq!(chars_of(""), Vec::<char>::new());
    assert_eq!(chars_of("a\u{e9}\n\u{1f600}"), vec!['a', '\u{e9}', '\n', '\u{1f600}']);
}
