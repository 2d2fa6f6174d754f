use vstd::prelude::*;

verus! {

/// A half-open byte range `start..end` of the source text.
#[derive(Debug, Clone, Copy, PartialEq, Eq, Structural)]
pub struct WindSpan {
    pub start: usize,
    pub end: usize,
}

/// A token of the Wind language.
#[derive(Debug, Clone, PartialEq, Eq, Hash)]
pub enum Token {
    /// `fn`
    Fn,
    /// `struct`
    Struct,
    /// `enum`
    Enum,
    /// `extra`
    Extra,
    /// `impl`
    Impl,
    /// `trait`
    Trait,
    /// `const`
    Const,
    /// `constatic`
    Constatic,
    /// `which`
    Which,
    /// `where`
    Where,
    /// `type`
    Type,
    /// `group`
    Group,
    /// `in`
    In,
    /// `pub`
    Pub,
    /// `public`
    Public,
    /// `return`
    Return,
    /// `for`
    For,
    /// `while`
    While,
    /// `if`
    If,
    /// `elif`
    Elif,
    /// `else`
    Else,
    /// `to`
    To,
    /// `tag`
    Tag,
    /// `self`
    SelfKw,
    /// `this`
    ThisKw,
    /// `it`
    ItKw,
    /// `true`
    TrueKw,
    /// `false`
    FalseKw,
    /// `None`
    NoneKw,
    /// `<=`
    LessEqual,
    /// `>=`
    GreaterEqual,
    /// `!=`
    NotEqual,
    /// `!<`
    NotLess,
    /// `!>`
    NotGreater,
    /// `==`
    EqualEqual,
    /// `<:`
    LeftAssign,
    /// `:>`
    RightAssign,
    /// `//`
    DoubleSlash,
    /// `<<`
    LeftShift,
    /// `>>`
    RightShift,
    /// `::`
    DoubleColon,
    /// `->`
    Arrow,
    /// `&&`
    AndAnd,
    /// `||`
    OrOr,
    /// `.`
    Dot,
    /// `,`
    Comma,
    /// `;`
    Semicolon,
    /// `:`
    Colon,
    /// `(`
    OpenParen,
    /// `)`
    CloseParen,
    /// `[`
    OpenBracket,
    /// `]`
    CloseBracket,
    /// `{`
    OpenBrace,
    /// `}`
    CloseBrace,
    /// `@`
    At,
    /// `!`
    Bang,
    /// `-`
    Minus,
    /// `/`
    Slash,
    /// `%`
    Percent,
    /// `*`
    Star,
    /// `+`
    Plus,
    /// `&`
    Amp,
    /// `|`
    Pipe,
    /// `^`
    Caret,
    /// `=`
    Equal,
    /// `<`
    Less,
    /// `>`
    Greater,
    /// A literal such as `1.5`, kept as its source text.
    FloatLiteral(String),
    /// A decimal integer literal.
    IntLiteral(i64),
    /// The text between the quotes of a string literal.
    StringLiteral(String),
    /// The text between the quotes of a character literal.
    CharLiteral(String),
    /// A name: a letter or `_`, then letters, digits or `_`.
    Identifier(String),
    /// A comment from a backquote to the end of the line.
    LineComment,
}

/// The name the lexer module exports for [`Token`].
pub type WindToken = Token;

/// A token with its byte span in the source.
pub type WindSpannedToken = (Token, WindSpan);

/// A piece of the source that no token matches.
#[derive(Debug, Clone)]
pub struct LexError {
    pub message: String,
    pub span: WindSpan,
}

/// The keyword text of a keyword token, `None` for any other token.
pub open spec fn keyword_text(t: Token) -> Option<Seq<char>> {
    match t {
        Token::Fn => Some("fn"@),
        Token::Struct => Some("struct"@),
        Token::Enum => Some("enum"@),
        Token::Extra => Some("extra"@),
        Token::Impl => Some("impl"@),
        Token::Trait => Some("trait"@),
        Token::Const => Some("const"@),
        Token::Constatic => Some("constatic"@),
        Token::Which => Some("which"@),
        Token::Where => Some("where"@),
        Token::Type => Some("type"@),
        Token::Group => Some("group"@),
        Token::In => Some("in"@),
        Token::Pub => Some("pub"@),
        Token::Public => Some("public"@),
        Token::Return => Some("return"@),
        Token::For => Some("for"@),
        Token::While => Some("while"@),
        Token::If => Some("if"@),
        Token::Elif => Some("elif"@),
        Token::Else => Some("else"@),
        Token::To => Some("to"@),
        Token::Tag => Some("tag"@),
        Token::SelfKw => Some("self"@),
        Token::ThisKw => Some("this"@),
        Token::ItKw => Some("it"@),
        Token::TrueKw => Some("true"@),
        Token::FalseKw => Some("false"@),
        Token::NoneKw => Some("None"@),
        _ => None,
    }
}

/// The fixed text of every token that is neither a literal, a name nor a comment.
pub open spec fn fixed_text(t: Token) -> Option<Seq<char>> {
    match t {
        Token::Fn => Some("fn"@),
        Token::Struct => Some("struct"@),
        Token::Enum => Some("enum"@),
        Token::Extra => Some("extra"@),
        Token::Impl => Some("impl"@),
        Token::Trait => Some("trait"@),
        Token::Const => Some("const"@),
        Token::Constatic => Some("constatic"@),
        Token::Which => Some("which"@),
        Token::Where => Some("where"@),
        Token::Type => Some("type"@),
        Token::Group => Some("group"@),
        Token::In => Some("in"@),
        Token::Pub => Some("pub"@),
        Token::Public => Some("public"@),
        Token::Return => Some("return"@),
        Token::For => Some("for"@),
        Token::While => Some("while"@),
        Token::If => Some("if"@),
        Token::Elif => Some("elif"@),
        Token::Else => Some("else"@),
        Token::To => Some("to"@),
        Token::Tag => Some("tag"@),
        Token::SelfKw => Some("self"@),
        Token::ThisKw => Some("this"@),
        Token::ItKw => Some("it"@),
        Token::TrueKw => Some("true"@),
        Token::FalseKw => Some("false"@),
        Token::NoneKw => Some("None"@),
        Token::LessEqual => Some("<="@),
        Token::GreaterEqual => Some(">="@),
        Token::NotEqual => Some("!="@),
        Token::NotLess => Some("!<"@),
        Token::NotGreater => Some("!>"@),
        Token::EqualEqual => Some("=="@),
        Token::LeftAssign => Some("<:"@),
        Token::RightAssign => Some(":>"@),
        Token::DoubleSlash => Some("//"@),
        Token::LeftShift => Some("<<"@),
        Token::RightShift => Some(">>"@),
        Token::DoubleColon => Some("::"@),
        Token::Arrow => Some("->"@),
        Token::AndAnd => Some("&&"@),
        Token::OrOr => Some("||"@),
        Token::Dot => Some("."@),
        Token::Comma => Some(","@),
        Token::Semicolon => Some(";"@),
        Token::Colon => Some(":"@),
        Token::OpenParen => Some("("@),
        Token::CloseParen => Some(")"@),
        Token::OpenBracket => Some("["@),
        Token::CloseBracket => Some("]"@),
        Token::OpenBrace => Some("{"@),
        Token::CloseBrace => Some("}"@),
        Token::At => Some("@"@),
        Token::Bang => Some("!"@),
        Token::Minus => Some("-"@),
        Token::Slash => Some("/"@),
        Token::Percent => Some("%"@),
        Token::Star => Some("*"@),
        Token::Plus => Some("+"@),
        Token::Amp => Some("&"@),
        Token::Pipe => Some("|"@),
        Token::Caret => Some("^"@),
        Token::Equal => Some("="@),
        Token::Less => Some("<"@),
        Token::Greater => Some(">"@),
        _ => None,
    }
}

impl Token {
    /// The keyword that this token stands for, if it is a keyword.
    pub fn as_keyword_str(&self) -> (r: Option<&'static str>)
        ensures
            match r {
                Some(s) => keyword_text(*self) == Some(s@),
                None => keyword_text(*self) is None,
            },
    {
        match self {
            Token::Fn => Some("fn"),
            Token::Struct => Some("struct"),
            Token::Enum => Some("enum"),
            Token::Extra => Some("extra"),
            Token::Impl => Some("impl"),
            Token::Trait => Some("trait"),
            Token::Const => Some("const"),
            Token::Constatic => Some("constatic"),
            Token::Which => Some("which"),
            Token::Where => Some("where"),
            Token::Type => Some("type"),
            Token::Group => Some("group"),
            Token::In => Some("in"),
            Token::Pub => Some("pub"),
            Token::Public => Some("public"),
            Token::Return => Some("return"),
            Token::For => Some("for"),
            Token::While => Some("while"),
            Token::If => Some("if"),
            Token::Elif => Some("elif"),
            Token::Else => Some("else"),
            Token::To => Some("to"),
            Token::Tag => Some("tag"),
            Token::SelfKw => Some("self"),
            Token::ThisKw => Some("this"),
            Token::ItKw => Some("it"),
            Token::TrueKw => Some("true"),
            Token::FalseKw => Some("false"),
            Token::NoneKw => Some("None"),
            _ => None,
        }
    }
}

} // verus!
