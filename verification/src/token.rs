//! Tokens, and the lexers that cut a text into them.

use vstd::prelude::*;
use luthor::token::Category as Kind;

verus! {

/// What a lexeme is in its language or format.
#[derive(Clone, Copy, Debug, PartialEq, Eq, Structural, Hash)]
pub enum Category {
    Whitespace,
    Identifier,
    Keyword,
    Brace,
    Bracket,
    Parenthesis,
    Operator,
    Integer,
    Float,
    String,
    Boolean,
    Text,
    Comment,
    Function,
    Method,
    Call,
    Literal,
    Key,
}

/// A piece of a text with its category.
#[derive(Clone, Debug, PartialEq, Eq, Hash)]
pub struct Token {
    pub lexeme: String,
    pub category: Category,
}

impl View for Token {
    type V = (Seq<char>, Category);

    /// The characters of the lexeme, and the category.
    open spec fn view(&self) -> (Seq<char>, Category) {
        (self.lexeme@, self.category)
    }
}

/// The tokens of a list, each by its view.
pub open spec fn token_views(tokens: Seq<Token>) -> Seq<(Seq<char>, Category)> {
    tokens.map_values(|token: Token| token@)
}

/// The lexemes of a list of tokens, written one after the other.
pub open spec fn joined(tokens: Seq<(Seq<char>, Category)>) -> Seq<char>
    decreases tokens.len(),
{
    if tokens.len() == 0 {
        Seq::<char>::empty()
    } else {
        joined(tokens.drop_last()) + tokens.last().0
    }
}

/// The tokens that the JSON lexer makes of a text.
pub uninterp spec fn json_lexemes(text: Seq<char>) -> Seq<(Seq<char>, Category)>;

/// The tokens that the XML lexer makes of a text.
pub uninterp spec fn xml_lexemes(text: Seq<char>) -> Seq<(Seq<char>, Category)>;

/// Calls `luthor::lexers::json::lex` and hands its tokens on, each with its
/// lexeme and its category under the same name. Not proved: that the tokens
/// depend on the text alone, and that their lexemes joined give the text
/// back, which is what that crate documents of every tokenizer's output.
#[verifier::external_body]
fn lex_json(text: &str) -> (tokens: Vec<Token>)
    ensures
        token_views(tokens@) == json_lexemes(text@),
        joined(token_views(tokens@)) == text@,
{
    luthor::lexers::json::lex(text).into_iter().map(|t| {
        let category = match t.category {
            Kind::Whitespace => Category::Whitespace, Kind::Identifier => Category::Identifier,
            Kind::Keyword => Category::Keyword, Kind::Brace => Category::Brace,
            Kind::Bracket => Category::Bracket, Kind::Parenthesis => Category::Parenthesis,
            Kind::Operator => Category::Operator, Kind::Integer => Category::Integer,
            Kind::Float => Category::Float, Kind::String => Category::String,
            Kind::Boolean => Category::Boolean, Kind::Text => Category::Text,
            Kind::Comment => Category::Comment, Kind::Function => Category::Function,
            Kind::Method => Category::Method, Kind::Call => Category::Call,
            Kind::Literal => Category::Literal, Kind::Key => Category::Key,
        };
        Token { lexeme: t.lexeme, category }
    }).collect()
}

/// Calls `luthor::lexers::xml::lex` and hands its tokens on, each with its
/// lexeme and its category under the same name. Not proved: that the tokens
/// depend on the text alone, and that their lexemes joined give the text
/// back, which is what that crate documents of every tokenizer's output.
#[verifier::external_body]
fn lex_xml(text: &str) -> (tokens: Vec<Token>)
    ensures
        token_views(tokens@) == xml_lexemes(text@),
        joined(token_views(tokens@)) == text@,
{
    luthor::lexers::xml::lex(text).into_iter().map(|t| {
        let category = match t.category {
            Kind::Whitespace => Category::Whitespace, Kind::Identifier => Category::Identifier,
            Kind::Keyword => Category::Keyword, Kind::Brace => Category::Brace,
            Kind::Bracket => Category::Bracket, Kind::Parenthesis => Category::Parenthesis,
            Kind::Operator => Category::Operator, Kind::Integer => Category::Integer,
            Kind::Float => Category::Float, Kind::String => Category::String,
            Kind::Boolean => Category::Boolean, Kind::Text => Category::Text,
            Kind::Comment => Category::Comment, Kind::Function => Category::Function,
            Kind::Method => Category::Method, Kind::Call => Category::Call,
            Kind::Literal => Category::Literal, Kind::Key => Category::Key,
        };
        Token { lexeme: t.lexeme, category }
    }).collect()
}

/// A lexer that the library can run on a text.
#[derive(Clone, Copy, Debug, PartialEq, Eq, Structural, Hash)]
pub enum Lexer {
    Json,
    Xml,
}

impl Lexer {
    /// The tokens that this lexer makes of `text`.
    pub open spec fn lexemes(self, text: Seq<char>) -> Seq<(Seq<char>, Category)> {
        match self {
            Lexer::Json => json_lexemes(text),
            Lexer::Xml => xml_lexemes(text),
        }
    }

    /// Cuts `text` into tokens. Their lexemes, joined in order, are `text`.
    pub fn lex(&self, text: &str) -> (tokens: Vec<Token>)
        ensures
            token_views(tokens@) == self.lexemes(text@),
            joined(token_views(tokens@)) == text@,
    {
        match self {
            Lexer::Json => lex_json(text),
            Lexer::Xml => lex_xml(text),
        }
    }
}

/// The one token that stands for a text that no lexer has cut: the whole
/// text, as plain text.
pub fn text_token(text: String) -> (tokens: Vec<Token>)
    ensures
        token_views(tokens@) == seq![(text@, Category::Text)],
        joined(token_views(tokens@)) == text@,
{
    let mut tokens: Vec<Token> = Vec::new();
    tokens.push(Token { lexeme: text, category: Category::Text });
    proof {
        let views = token_views(tokens@);
        assert(views =~= seq![(text@, Category::Text)]);
        assert(views.drop_last().len() == 0);
        assert(joined(views.drop_last()) =~= Seq::<char>::empty());
        assert(joined(views) =~= text@);
    }
    tokens
}

} // verus!
