use vstd::prelude::*;
use crate::tokens::keyword_text;
use crate::text::push_char;
use crate::text::push_str;
use crate::text::str_eq;
use crate::text::string_of;
use crate::text::u64_to_string;
use crate::tokens::LexError;
use crate::tokens::Token;
use crate::tokens::WindSpan;
use crate::tokens::WindSpannedToken;

verus! {

/// A token as the lexical rules see it: a fixed token, or a literal or name with its text or
/// value.
pub enum TokView {
    Fixed(Token),
    Float(Seq<char>),
    Int(int),
    Str(Seq<char>),
    Chr(Seq<char>),
    Ident(Seq<char>),
}

/// The view of a token.
pub open spec fn token_view(t: Token) -> TokView {
    match t {
        Token::FloatLiteral(s) => TokView::Float(s@),
        Token::IntLiteral(n) => TokView::Int(n as int),
        Token::StringLiteral(s) => TokView::Str(s@),
        Token::CharLiteral(s) => TokView::Chr(s@),
        Token::Identifier(s) => TokView::Ident(s@),
        _ => TokView::Fixed(t),
    }
}

/// Blank characters, which separate tokens.
pub open spec fn is_ws(c: char) -> bool {
    c == ' ' || c == '\t' || c == '\n' || c == '\r' || c == '\x0C'
}

/// Characters that start a name.
pub open spec fn is_ident_start(c: char) -> bool {
    ('a' <= c && c <= 'z') || ('A' <= c && c <= 'Z') || c == '_'
}

/// Characters that continue a name.
pub open spec fn is_ident_char(c: char) -> bool {
    is_ident_start(c) || is_digit(c)
}

/// Decimal digits.
pub open spec fn is_digit(c: char) -> bool {
    '0' <= c && c <= '9'
}

/// The end of the run of blanks that starts at `i`.
pub open spec fn ws_end(cs: Seq<char>, i: int) -> int
    decreases cs.len() - i,
{
    if 0 <= i < cs.len() && is_ws(cs[i]) {
        ws_end(cs, i + 1)
    } else {
        i
    }
}

/// The end of the run of name characters that starts at `i`.
pub open spec fn ident_end(cs: Seq<char>, i: int) -> int
    decreases cs.len() - i,
{
    if 0 <= i < cs.len() && is_ident_char(cs[i]) {
        ident_end(cs, i + 1)
    } else {
        i
    }
}

/// The end of the run of digits that starts at `i`.
pub open spec fn digits_end(cs: Seq<char>, i: int) -> int
    decreases cs.len() - i,
{
    if 0 <= i < cs.len() && is_digit(cs[i]) {
        digits_end(cs, i + 1)
    } else {
        i
    }
}

/// The end of the line that `i` is on: the first `\r` or `\n` at or after `i`, or the end.
pub open spec fn line_end(cs: Seq<char>, i: int) -> int
    decreases cs.len() - i,
{
    if 0 <= i < cs.len() && cs[i] != '\n' && cs[i] != '\r' {
        line_end(cs, i + 1)
    } else {
        i
    }
}

/// Three backticks start at `i`.
pub open spec fn triple_tick(cs: Seq<char>, i: int) -> bool {
    0 <= i && i + 3 <= cs.len() && cs[i] == '`' && cs[i + 1] == '`' && cs[i + 2] == '`'
}

/// The position just past the first three backticks at or after `i`, if there are any.
pub open spec fn block_close(cs: Seq<char>, i: int) -> Option<int>
    decreases cs.len() - i,
{
    if i < 0 || i + 3 > cs.len() {
        None
    } else if triple_tick(cs, i) {
        Some(i + 3)
    } else {
        block_close(cs, i + 1)
    }
}

/// The end of a string literal whose body resumes at `q`: any character but a quote or a
/// backslash, or a backslash and any character but a quote, up to the closing quote.
pub open spec fn string_end(cs: Seq<char>, q: int) -> Option<int>
    decreases cs.len() - q,
{
    if q < 0 || q >= cs.len() {
        None
    } else if cs[q] == '"' {
        Some(q + 1)
    } else if cs[q] == '\\' {
        if q + 1 < cs.len() && cs[q + 1] != '"' {
            string_end(cs, q + 2)
        } else {
            None
        }
    } else {
        string_end(cs, q + 1)
    }
}

/// The end of a char literal whose body resumes at `q`: any character but a quote or a
/// backslash, or a backslash and any character but a line feed, up to the closing quote.
pub open spec fn char_end(cs: Seq<char>, q: int) -> Option<int>
    decreases cs.len() - q,
{
    if q < 0 || q >= cs.len() {
        None
    } else if cs[q] == '\'' {
        Some(q + 1)
    } else if cs[q] == '\\' {
        if q + 1 < cs.len() && cs[q + 1] != '\n' {
            char_end(cs, q + 2)
        } else {
            None
        }
    } else {
        char_end(cs, q + 1)
    }
}

/// The value of the digits from `i` up to `j`.
pub open spec fn digits_value(cs: Seq<char>, i: int, j: int) -> nat
    decreases j - i,
{
    if j <= i {
        0
    } else {
        digits_value(cs, i, j - 1) * 10 + ((cs[j - 1] as int) - ('0' as int)) as nat
    }
}

/// The keyword token spelled `word`, if `word` is a keyword.
pub open spec fn keyword_token(word: Seq<char>) -> Option<Token> {
    if word == "fn"@ {
        Some(Token::Fn)
    } else if word == "struct"@ {
        Some(Token::Struct)
    } else if word == "enum"@ {
        Some(Token::Enum)
    } else if word == "extra"@ {
        Some(Token::Extra)
    } else if word == "impl"@ {
        Some(Token::Impl)
    } else if word == "trait"@ {
        Some(Token::Trait)
    } else if word == "const"@ {
        Some(Token::Const)
    } else if word == "constatic"@ {
        Some(Token::Constatic)
    } else if word == "which"@ {
        Some(Token::Which)
    } else if word == "where"@ {
        Some(Token::Where)
    } else if word == "type"@ {
        Some(Token::Type)
    } else if word == "group"@ {
        Some(Token::Group)
    } else if word == "in"@ {
        Some(Token::In)
    } else if word == "pub"@ {
        Some(Token::Pub)
    } else if word == "public"@ {
        Some(Token::Public)
    } else if word == "return"@ {
        Some(Token::Return)
    } else if word == "for"@ {
        Some(Token::For)
    } else if word == "while"@ {
        Some(Token::While)
    } else if word == "if"@ {
        Some(Token::If)
    } else if word == "elif"@ {
        Some(Token::Elif)
    } else if word == "else"@ {
        Some(Token::Else)
    } else if word == "to"@ {
        Some(Token::To)
    } else if word == "tag"@ {
        Some(Token::Tag)
    } else if word == "self"@ {
        Some(Token::SelfKw)
    } else if word == "this"@ {
        Some(Token::ThisKw)
    } else if word == "it"@ {
        Some(Token::ItKw)
    } else if word == "true"@ {
        Some(Token::TrueKw)
    } else if word == "false"@ {
        Some(Token::FalseKw)
    } else if word == "None"@ {
        Some(Token::NoneKw)
    } else {
        None
    }
}

/// A word lexes as a keyword token exactly when it is that token's keyword text, so the text
/// that `Token::as_keyword_str` gives back for a keyword lexes as that keyword again.
pub proof fn lemma_keyword_round_trip(t: Token, word: Seq<char>)
    ensures
        keyword_token(word) == Some(t) <==> keyword_text(t) == Some(word),
{
    reveal_strlit("fn");
    reveal_strlit("struct");
    reveal_strlit("enum");
    reveal_strlit("extra");
    reveal_strlit("impl");
    reveal_strlit("trait");
    reveal_strlit("const");
    reveal_strlit("constatic");
    reveal_strlit("which");
    reveal_strlit("where");
    reveal_strlit("type");
    reveal_strlit("group");
    reveal_strlit("in");
    reveal_strlit("pub");
    reveal_strlit("public");
    reveal_strlit("return");
    reveal_strlit("for");
    reveal_strlit("while");
    reveal_strlit("if");
    reveal_strlit("elif");
    reveal_strlit("else");
    reveal_strlit("to");
    reveal_strlit("tag");
    reveal_strlit("self");
    reveal_strlit("this");
    reveal_strlit("it");
    reveal_strlit("true");
    reveal_strlit("false");
    reveal_strlit("None");
    let names: Seq<Seq<char>> = seq!["fn"@, "struct"@, "enum"@, "extra"@, "impl"@, "trait"@, "const"@, "constatic"@, "which"@, "where"@, "type"@, "group"@, "in"@, "pub"@, "public"@, "return"@, "for"@, "while"@, "if"@, "elif"@, "else"@, "to"@, "tag"@, "self"@, "this"@, "it"@, "true"@, "false"@, "None"@];
    assert forall|i: int, j: int| 0 <= i < j < 29 implies names[i] != names[j] by {
        if names[i].len() == names[j].len() {
            assert(names[i][0] != names[j][0] || names[i][1] != names[j][1] || names[i][2] != names[j][2]
                || names[i][3] != names[j][3]);
        }
    }
    assert(names[0] == "fn"@ && names[1] == "struct"@ && names[2] == "enum"@ && names[3] == "extra"@ && names[4] == "impl"@);
    assert(names[5] == "trait"@ && names[6] == "const"@ && names[7] == "constatic"@ && names[8] == "which"@ && names[9] == "where"@);
    assert(names[10] == "type"@ && names[11] == "group"@ && names[12] == "in"@ && names[13] == "pub"@ && names[14] == "public"@);
    assert(names[15] == "return"@ && names[16] == "for"@ && names[17] == "while"@ && names[18] == "if"@ && names[19] == "elif"@);
    assert(names[20] == "else"@ && names[21] == "to"@ && names[22] == "tag"@ && names[23] == "self"@ && names[24] == "this"@);
    assert(names[25] == "it"@ && names[26] == "true"@ && names[27] == "false"@ && names[28] == "None"@);
}

/// The two-character operator spelled `a` `b`, if any.
pub open spec fn op2_token(a: char, b: char) -> Option<Token> {
    if a == '<' && b == '=' {
        Some(Token::LessEqual)
    } else if a == '>' && b == '=' {
        Some(Token::GreaterEqual)
    } else if a == '!' && b == '=' {
        Some(Token::NotEqual)
    } else if a == '!' && b == '<' {
        Some(Token::NotLess)
    } else if a == '!' && b == '>' {
        Some(Token::NotGreater)
    } else if a == '=' && b == '=' {
        Some(Token::EqualEqual)
    } else if a == '<' && b == ':' {
        Some(Token::LeftAssign)
    } else if a == ':' && b == '>' {
        Some(Token::RightAssign)
    } else if a == '/' && b == '/' {
        Some(Token::DoubleSlash)
    } else if a == '<' && b == '<' {
        Some(Token::LeftShift)
    } else if a == '>' && b == '>' {
        Some(Token::RightShift)
    } else if a == ':' && b == ':' {
        Some(Token::DoubleColon)
    } else if a == '-' && b == '>' {
        Some(Token::Arrow)
    } else if a == '&' && b == '&' {
        Some(Token::AndAnd)
    } else if a == '|' && b == '|' {
        Some(Token::OrOr)
    } else {
        None
    }
}

/// The one-character operator or punctuation spelled `a`, if any.
pub open spec fn op1_token(a: char) -> Option<Token> {
    if a == '.' {
        Some(Token::Dot)
    } else if a == ',' {
        Some(Token::Comma)
    } else if a == ';' {
        Some(Token::Semicolon)
    } else if a == ':' {
        Some(Token::Colon)
    } else if a == '(' {
        Some(Token::OpenParen)
    } else if a == ')' {
        Some(Token::CloseParen)
    } else if a == '[' {
        Some(Token::OpenBracket)
    } else if a == ']' {
        Some(Token::CloseBracket)
    } else if a == '{' {
        Some(Token::OpenBrace)
    } else if a == '}' {
        Some(Token::CloseBrace)
    } else if a == '@' {
        Some(Token::At)
    } else if a == '!' {
        Some(Token::Bang)
    } else if a == '-' {
        Some(Token::Minus)
    } else if a == '/' {
        Some(Token::Slash)
    } else if a == '%' {
        Some(Token::Percent)
    } else if a == '*' {
        Some(Token::Star)
    } else if a == '+' {
        Some(Token::Plus)
    } else if a == '&' {
        Some(Token::Amp)
    } else if a == '|' {
        Some(Token::Pipe)
    } else if a == '^' {
        Some(Token::Caret)
    } else if a == '=' {
        Some(Token::Equal)
    } else if a == '<' {
        Some(Token::Less)
    } else if a == '>' {
        Some(Token::Greater)
    } else {
        None
    }
}

/// The keyword token spelled `word`, if `word` is a keyword.
fn keyword_of(word: &str) -> (r: Option<Token>)
    ensures
        r == keyword_token(word@),
{
    if str_eq(word, "fn") {
        proof { reveal_strlit("fn"); }
        return Some(Token::Fn);
    }
    if str_eq(word, "struct") {
        proof { reveal_strlit("struct"); }
        return Some(Token::Struct);
    }
    if str_eq(word, "enum") {
        proof { reveal_strlit("enum"); }
        return Some(Token::Enum);
    }
    if str_eq(word, "extra") {
        proof { reveal_strlit("extra"); }
        return Some(Token::Extra);
    }
    if str_eq(word, "impl") {
        proof { reveal_strlit("impl"); }
        return Some(Token::Impl);
    }
    if str_eq(word, "trait") {
        proof { reveal_strlit("trait"); }
        return Some(Token::Trait);
    }
    if str_eq(word, "const") {
        proof { reveal_strlit("const"); }
        return Some(Token::Const);
    }
    if str_eq(word, "constatic") {
        proof { reveal_strlit("constatic"); }
        return Some(Token::Constatic);
    }
    if str_eq(word, "which") {
        proof { reveal_strlit("which"); }
        return Some(Token::Which);
    }
    if str_eq(word, "where") {
        proof { reveal_strlit("where"); }
        return Some(Token::Where);
    }
    if str_eq(word, "type") {
        proof { reveal_strlit("type"); }
        return Some(Token::Type);
    }
    if str_eq(word, "group") {
        proof { reveal_strlit("group"); }
        return Some(Token::Group);
    }
    if str_eq(word, "in") {
        proof { reveal_strlit("in"); }
        return Some(Token::In);
    }
    if str_eq(word, "pub") {
        proof { reveal_strlit("pub"); }
        return Some(Token::Pub);
    }
    if str_eq(word, "public") {
        proof { reveal_strlit("public"); }
        return Some(Token::Public);
    }
    if str_eq(word, "return") {
        proof { reveal_strlit("return"); }
        return Some(Token::Return);
    }
    if str_eq(word, "for") {
        proof { reveal_strlit("for"); }
        return Some(Token::For);
    }
    if str_eq(word, "while") {
        proof { reveal_strlit("while"); }
        return Some(Token::While);
    }
    if str_eq(word, "if") {
        proof { reveal_strlit("if"); }
        return Some(Token::If);
    }
    if str_eq(word, "elif") {
        proof { reveal_strlit("elif"); }
        return Some(Token::Elif);
    }
    if str_eq(word, "else") {
        proof { reveal_strlit("else"); }
        return Some(Token::Else);
    }
    if str_eq(word, "to") {
        proof { reveal_strlit("to"); }
        return Some(Token::To);
    }
    if str_eq(word, "tag") {
        proof { reveal_strlit("tag"); }
        return Some(Token::Tag);
    }
    if str_eq(word, "self") {
        proof { reveal_strlit("self"); }
        return Some(Token::SelfKw);
    }
    if str_eq(word, "this") {
        proof { reveal_strlit("this"); }
        return Some(Token::ThisKw);
    }
    if str_eq(word, "it") {
        proof { reveal_strlit("it"); }
        return Some(Token::ItKw);
    }
    if str_eq(word, "true") {
        proof { reveal_strlit("true"); }
        return Some(Token::TrueKw);
    }
    if str_eq(word, "false") {
        proof { reveal_strlit("false"); }
        return Some(Token::FalseKw);
    }
    if str_eq(word, "None") {
        proof { reveal_strlit("None"); }
        return Some(Token::NoneKw);
    }
    None
}

/// The two-character operator spelled `a` `b`, if any.
fn op2_of(a: char, b: char) -> (r: Option<Token>)
    ensures
        r == op2_token(a, b),
{
    if a == '<' && b == '=' {
        return Some(Token::LessEqual);
    }
    if a == '>' && b == '=' {
        return Some(Token::GreaterEqual);
    }
    if a == '!' && b == '=' {
        return Some(Token::NotEqual);
    }
    if a == '!' && b == '<' {
        return Some(Token::NotLess);
    }
    if a == '!' && b == '>' {
        return Some(Token::NotGreater);
    }
    if a == '=' && b == '=' {
        return Some(Token::EqualEqual);
    }
    if a == '<' && b == ':' {
        return Some(Token::LeftAssign);
    }
    if a == ':' && b == '>' {
        return Some(Token::RightAssign);
    }
    if a == '/' && b == '/' {
        return Some(Token::DoubleSlash);
    }
    if a == '<' && b == '<' {
        return Some(Token::LeftShift);
    }
    if a == '>' && b == '>' {
        return Some(Token::RightShift);
    }
    if a == ':' && b == ':' {
        return Some(Token::DoubleColon);
    }
    if a == '-' && b == '>' {
        return Some(Token::Arrow);
    }
    if a == '&' && b == '&' {
        return Some(Token::AndAnd);
    }
    if a == '|' && b == '|' {
        return Some(Token::OrOr);
    }
    None
}

/// The one-character operator or punctuation spelled `a`, if any.
fn op1_of(a: char) -> (r: Option<Token>)
    ensures
        r == op1_token(a),
{
    if a == '.' {
        return Some(Token::Dot);
    }
    if a == ',' {
        return Some(Token::Comma);
    }
    if a == ';' {
        return Some(Token::Semicolon);
    }
    if a == ':' {
        return Some(Token::Colon);
    }
    if a == '(' {
        return Some(Token::OpenParen);
    }
    if a == ')' {
        return Some(Token::CloseParen);
    }
    if a == '[' {
        return Some(Token::OpenBracket);
    }
    if a == ']' {
        return Some(Token::CloseBracket);
    }
    if a == '{' {
        return Some(Token::OpenBrace);
    }
    if a == '}' {
        return Some(Token::CloseBrace);
    }
    if a == '@' {
        return Some(Token::At);
    }
    if a == '!' {
        return Some(Token::Bang);
    }
    if a == '-' {
        return Some(Token::Minus);
    }
    if a == '/' {
        return Some(Token::Slash);
    }
    if a == '%' {
        return Some(Token::Percent);
    }
    if a == '*' {
        return Some(Token::Star);
    }
    if a == '+' {
        return Some(Token::Plus);
    }
    if a == '&' {
        return Some(Token::Amp);
    }
    if a == '|' {
        return Some(Token::Pipe);
    }
    if a == '^' {
        return Some(Token::Caret);
    }
    if a == '=' {
        return Some(Token::Equal);
    }
    if a == '<' {
        return Some(Token::Less);
    }
    if a == '>' {
        return Some(Token::Greater);
    }
    None
}

/// What the lexer finds at a position: blanks or a comment to skip up to a position, a token
/// ending at a position, or a character that starts no token.
pub enum Scan {
    Skip(int),
    Tok(TokView, int),
    Bad(int),
}

/// What starts at position `i` of `cs`. The longest token wins; a keyword beats a name of the
/// same text; a block between three backticks and a comment from a backtick to the end of the
/// line are both skipped, the longer one first.
pub open spec fn scan(cs: Seq<char>, i: int) -> Scan {
    let c = cs[i];
    if is_ws(c) {
        Scan::Skip(ws_end(cs, i))
    } else if c == '`' {
        let l = line_end(cs, i + 1);
        if triple_tick(cs, i) {
            match block_close(cs, i + 3) {
                Some(b) => if b > l { Scan::Skip(b) } else { Scan::Skip(l) },
                None => Scan::Skip(l),
            }
        } else {
            Scan::Skip(l)
        }
    } else if is_digit(c) {
        let d = digits_end(cs, i);
        if d + 1 < cs.len() && cs[d] == '.' && is_digit(cs[d + 1]) {
            let f = digits_end(cs, d + 1);
            Scan::Tok(TokView::Float(cs.subrange(i, f)), f)
        } else {
            Scan::Tok(TokView::Int(digits_value(cs, i, d) as int), d)
        }
    } else if c == '"' {
        match string_end(cs, i + 1) {
            Some(e) => Scan::Tok(TokView::Str(cs.subrange(i + 1, e - 1)), e),
            None => Scan::Bad(i + 1),
        }
    } else if c == '\'' {
        match char_end(cs, i + 1) {
            Some(e) => Scan::Tok(TokView::Chr(cs.subrange(i + 1, e - 1)), e),
            None => Scan::Bad(i + 1),
        }
    } else if is_ident_start(c) {
        let e = ident_end(cs, i);
        match keyword_token(cs.subrange(i, e)) {
            Some(t) => Scan::Tok(TokView::Fixed(t), e),
            None => Scan::Tok(TokView::Ident(cs.subrange(i, e)), e),
        }
    } else if i + 1 < cs.len() && op2_token(c, cs[i + 1]) is Some {
        Scan::Tok(TokView::Fixed(op2_token(c, cs[i + 1]).unwrap()), i + 2)
    } else if op1_token(c) is Some {
        Scan::Tok(TokView::Fixed(op1_token(c).unwrap()), i + 1)
    } else {
        Scan::Bad(i + 1)
    }
}

/// The position that a scan result moves to.
pub open spec fn scan_next(s: Scan) -> int {
    match s {
        Scan::Skip(j) => j,
        Scan::Tok(_, j) => j,
        Scan::Bad(j) => j,
    }
}

/// The tokens, with their spans in characters, and the spans of the characters that start no
/// token, from position `i` to the end.
pub struct LexOut {
    pub toks: Seq<(TokView, int, int)>,
    pub errs: Seq<(int, int)>,
}

/// The lexical analysis of `cs` from position `i` on.
pub open spec fn lex_from(cs: Seq<char>, i: int) -> LexOut
    decreases cs.len() - i,
{
    if i < 0 || i >= cs.len() {
        LexOut { toks: seq![], errs: seq![] }
    } else {
        let s = scan(cs, i);
        let j = scan_next(s);
        if j <= i || j > cs.len() {
            LexOut { toks: seq![], errs: seq![] }
        } else {
            let rest = lex_from(cs, j);
            match s {
                Scan::Skip(_) => rest,
                Scan::Tok(t, _) => LexOut { toks: seq![(t, i, j)] + rest.toks, errs: rest.errs },
                Scan::Bad(_) => LexOut { toks: rest.toks, errs: seq![(i, j)] + rest.errs },
            }
        }
    }
}

/// A blank character (space, tab, line feed, carriage return or form feed) adds nothing to what
/// the lexer finds: lexing from it gives what lexing from the next character gives, so CRLF line
/// endings lex like LF ones.
pub proof fn lemma_blank_adds_nothing(cs: Seq<char>, i: int)
    requires
        0 <= i < cs.len(),
        cs[i] == ' ' || cs[i] == '\t' || cs[i] == '\n' || cs[i] == '\r' || cs[i] == '\x0C',
    ensures
        lex_from(cs, i) == lex_from(cs, i + 1),
{
    assert(ws_end(cs, i) == ws_end(cs, i + 1));
    lemma_ws_end_bounds(cs, i + 1);
    if i + 1 < cs.len() && is_ws(cs[i + 1]) {
        assert(scan(cs, i + 1) == Scan::Skip(ws_end(cs, i + 1)));
    } else {
        assert(ws_end(cs, i + 1) == i + 1);
    }
}

/// The run of blanks from `i` ends between `i` and the end.
proof fn lemma_ws_end_bounds(cs: Seq<char>, i: int)
    requires
        0 <= i <= cs.len(),
    ensures
        i <= ws_end(cs, i) <= cs.len(),
    decreases cs.len() - i,
{
    if i < cs.len() && is_ws(cs[i]) {
        lemma_ws_end_bounds(cs, i + 1);
    }
}

/// A word that starts a name, runs to its end as a name and is a keyword's text lexes as that
/// keyword alone.
proof fn lemma_keyword_word_lexes(w: Seq<char>, t: Token)
    requires
        w.len() > 0,
        is_ident_start(w[0]),
        ident_end(w, 0) == w.len(),
        keyword_token(w) == Some(t),
    ensures
        lex_from(w, 0) == (LexOut { toks: seq![(TokView::Fixed(t), 0int, w.len() as int)], errs: seq![] }),
{
    assert(w.subrange(0, w.len() as int) =~= w);
    assert(lex_from(w, w.len() as int) == (LexOut { toks: seq![], errs: seq![] }));
    assert(seq![(TokView::Fixed(t), 0int, w.len() as int)] + Seq::<(TokView, int, int)>::empty()
        =~= seq![(TokView::Fixed(t), 0int, w.len() as int)]);
}

/// The text that `Token::as_keyword_str` gives for a keyword lexes back to that keyword alone,
/// spanning the whole text.
pub proof fn lemma_keyword_lexes_back(t: Token)
    requires
        keyword_text(t) is Some,
    ensures
        ({
            let w = keyword_text(t).unwrap();
            lex_from(w, 0) == (LexOut { toks: seq![(TokView::Fixed(t), 0int, w.len() as int)], errs: seq![] })
        }),
{
    let w = keyword_text(t).unwrap();
    lemma_keyword_round_trip(t, w);
    match t {
        Token::Fn => {
            reveal_strlit("fn");
            reveal_with_fuel(ident_end, 4);
        },
        Token::Struct => {
            reveal_strlit("struct");
            reveal_with_fuel(ident_end, 8);
        },
        Token::Enum => {
            reveal_strlit("enum");
            reveal_with_fuel(ident_end, 6);
        },
        Token::Extra => {
            reveal_strlit("extra");
            reveal_with_fuel(ident_end, 7);
        },
        Token::Impl => {
            reveal_strlit("impl");
            reveal_with_fuel(ident_end, 6);
        },
        Token::Trait => {
            reveal_strlit("trait");
            reveal_with_fuel(ident_end, 7);
        },
        Token::Const => {
            reveal_strlit("const");
            reveal_with_fuel(ident_end, 7);
        },
        Token::Constatic => {
            reveal_strlit("constatic");
            reveal_with_fuel(ident_end, 11);
        },
        Token::Which => {
            reveal_strlit("which");
            reveal_with_fuel(ident_end, 7);
        },
        Token::Where => {
            reveal_strlit("where");
            reveal_with_fuel(ident_end, 7);
        },
        Token::Type => {
            reveal_strlit("type");
            reveal_with_fuel(ident_end, 6);
        },
        Token::Group => {
            reveal_strlit("group");
            reveal_with_fuel(ident_end, 7);
        },
        Token::In => {
            reveal_strlit("in");
            reveal_with_fuel(ident_end, 4);
        },
        Token::Pub => {
            reveal_strlit("pub");
            reveal_with_fuel(ident_end, 5);
        },
        Token::Public => {
            reveal_strlit("public");
            reveal_with_fuel(ident_end, 8);
        },
        Token::Return => {
            reveal_strlit("return");
            reveal_with_fuel(ident_end, 8);
        },
        Token::For => {
            reveal_strlit("for");
            reveal_with_fuel(ident_end, 5);
        },
        Token::While => {
            reveal_strlit("while");
            reveal_with_fuel(ident_end, 7);
        },
        Token::If => {
            reveal_strlit("if");
            reveal_with_fuel(ident_end, 4);
        },
        Token::Elif => {
            reveal_strlit("elif");
            reveal_with_fuel(ident_end, 6);
        },
        Token::Else => {
            reveal_strlit("else");
            reveal_with_fuel(ident_end, 6);
        },
        Token::To => {
            reveal_strlit("to");
            reveal_with_fuel(ident_end, 4);
        },
        Token::Tag => {
            reveal_strlit("tag");
            reveal_with_fuel(ident_end, 5);
        },
        Token::SelfKw => {
            reveal_strlit("self");
            reveal_with_fuel(ident_end, 6);
        },
        Token::ThisKw => {
            reveal_strlit("this");
            reveal_with_fuel(ident_end, 6);
        },
        Token::ItKw => {
            reveal_strlit("it");
            reveal_with_fuel(ident_end, 4);
        },
        Token::TrueKw => {
            reveal_strlit("true");
            reveal_with_fuel(ident_end, 6);
        },
        Token::FalseKw => {
            reveal_strlit("false");
            reveal_with_fuel(ident_end, 7);
        },
        Token::NoneKw => {
            reveal_strlit("None");
            reveal_with_fuel(ident_end, 6);
        },
        _ => {},
    }
    lemma_keyword_word_lexes(w, t);
}

/// Tokens and unrecognised stretches come out in source order: from position `i` on, each
/// spans at least one character between `i` and the end, and none overlaps a later one.
pub proof fn lemma_lex_spans_ordered(cs: Seq<char>, i: int)
    requires
        0 <= i,
    ensures
        ({
            let out = lex_from(cs, i);
            &&& forall|k: int| 0 <= k < out.toks.len()
                ==> i <= (#[trigger] out.toks[k]).1 < out.toks[k].2 <= cs.len()
            &&& forall|k: int, m: int| 0 <= k < m < out.toks.len()
                ==> (#[trigger] out.toks[k]).2 <= (#[trigger] out.toks[m]).1
            &&& forall|k: int| 0 <= k < out.errs.len()
                ==> i <= (#[trigger] out.errs[k]).0 < out.errs[k].1 <= cs.len()
            &&& forall|k: int, m: int| 0 <= k < m < out.errs.len()
                ==> (#[trigger] out.errs[k]).1 <= (#[trigger] out.errs[m]).0
        }),
    decreases cs.len() - i,
{
    if i < cs.len() {
        let s = scan(cs, i);
        let j = scan_next(s);
        if i < j <= cs.len() {
            lemma_lex_spans_ordered(cs, j);
            let rest = lex_from(cs, j);
            let out = lex_from(cs, i);
            match s {
                Scan::Tok(t, _) => {
                    assert forall|k: int| 0 <= k < out.toks.len()
                        implies i <= (#[trigger] out.toks[k]).1 < out.toks[k].2 <= cs.len() by {
                        if k > 0 {
                            assert(out.toks[k] == rest.toks[k - 1]);
                        }
                    }
                    assert forall|k: int, m: int| 0 <= k < m < out.toks.len()
                        implies (#[trigger] out.toks[k]).2 <= (#[trigger] out.toks[m]).1 by {
                        assert(out.toks[m] == rest.toks[m - 1]);
                        if k > 0 {
                            assert(out.toks[k] == rest.toks[k - 1]);
                        }
                    }
                },
                Scan::Bad(_) => {
                    assert forall|k: int| 0 <= k < out.errs.len()
                        implies i <= (#[trigger] out.errs[k]).0 < out.errs[k].1 <= cs.len() by {
                        if k > 0 {
                            assert(out.errs[k] == rest.errs[k - 1]);
                        }
                    }
                    assert forall|k: int, m: int| 0 <= k < m < out.errs.len()
                        implies (#[trigger] out.errs[k]).1 <= (#[trigger] out.errs[m]).0 by {
                        assert(out.errs[m] == rest.errs[m - 1]);
                        if k > 0 {
                            assert(out.errs[k] == rest.errs[k - 1]);
                        }
                    }
                },
                Scan::Skip(_) => {},
            }
        }
    }
}

/// The byte offset of any character position is a character boundary of the encoded text.
pub proof fn lemma_byte_of_boundary(cs: Seq<char>, a: int)
    requires
        0 <= a <= cs.len(),
    ensures
        vstd::utf8::is_char_boundary(vstd::utf8::encode_utf8(cs), byte_of(cs, a)),
    decreases cs.len(),
{
    let bytes = vstd::utf8::encode_utf8(cs);
    vstd::utf8::encode_utf8_valid_utf8(cs);
    if a == 0 {
        assert(cs.take(0) =~= Seq::<char>::empty());
    } else {
        let rest = cs.drop_first();
        vstd::utf8::encode_utf8_first_scalar(cs);
        assert(vstd::utf8::pop_first_scalar(bytes) =~= vstd::utf8::encode_utf8(rest));
        lemma_byte_of_boundary(rest, a - 1);
        assert(cs.take(a).drop_first() =~= rest.take(a - 1));
        assert(cs.take(a)[0] == cs[0]);
        if a < cs.len() {
            lemma_byte_step(cs, a);
        } else {
            assert(cs.take(a) =~= cs);
        }
    }
}

/// The byte spans of the tokens and of the unrecognised stretches all start and end on
/// character boundaries of the source, so slicing the source by them never splits a character.
pub proof fn lemma_lex_spans_on_boundaries(cs: Seq<char>)
    ensures
        ({
            let out = lex_from(cs, 0);
            let bytes = vstd::utf8::encode_utf8(cs);
            &&& forall|k: int| 0 <= k < out.toks.len() ==> vstd::utf8::is_char_boundary(bytes, byte_of(cs, (#[trigger] out.toks[k]).1))
                && vstd::utf8::is_char_boundary(bytes, byte_of(cs, out.toks[k].2))
            &&& forall|k: int| 0 <= k < out.errs.len() ==> vstd::utf8::is_char_boundary(bytes, byte_of(cs, (#[trigger] out.errs[k]).0))
                && vstd::utf8::is_char_boundary(bytes, byte_of(cs, out.errs[k].1))
        }),
{
    lemma_lex_spans_ordered(cs, 0);
    let out = lex_from(cs, 0);
    assert forall|k: int| 0 <= k < out.toks.len() implies vstd::utf8::is_char_boundary(vstd::utf8::encode_utf8(cs), byte_of(cs, (#[trigger] out.toks[k]).1))
        && vstd::utf8::is_char_boundary(vstd::utf8::encode_utf8(cs), byte_of(cs, out.toks[k].2)) by {
        lemma_byte_of_boundary(cs, out.toks[k].1);
        lemma_byte_of_boundary(cs, out.toks[k].2);
    }
    assert forall|k: int| 0 <= k < out.errs.len() implies vstd::utf8::is_char_boundary(vstd::utf8::encode_utf8(cs), byte_of(cs, (#[trigger] out.errs[k]).0))
        && vstd::utf8::is_char_boundary(vstd::utf8::encode_utf8(cs), byte_of(cs, out.errs[k].1)) by {
        lemma_byte_of_boundary(cs, out.errs[k].0);
        lemma_byte_of_boundary(cs, out.errs[k].1);
    }
}

/// Every integer literal from position `i` on fits in an `i64`.
pub open spec fn ints_fit(cs: Seq<char>, i: int) -> bool
    decreases cs.len() - i,
{
    if i < 0 || i >= cs.len() {
        true
    } else {
        let s = scan(cs, i);
        let j = scan_next(s);
        if j <= i || j > cs.len() {
            true
        } else {
            (match s {
                Scan::Tok(TokView::Int(v), _) => v <= i64::MAX,
                _ => true,
            }) && ints_fit(cs, j)
        }
    }
}

/// The byte offset of character position `i`.
pub open spec fn byte_of(cs: Seq<char>, i: int) -> int {
    vstd::utf8::encode_utf8(cs.take(i)).len() as int
}

/// The message for characters that start no token.
pub open spec fn lex_error_text(cs: Seq<char>, i: int, j: int) -> Seq<char> {
    "词法错误: 无法识别的字符序列 `"@ + cs.subrange(i, j) + "` @ "@ + crate::text::decimal(byte_of(cs, i) as nat) + ".."@
        + crate::text::decimal(byte_of(cs, j) as nat)
}

/// The encoding of two texts one after the other is their encodings one after the other.
pub proof fn lemma_encode_concat(a: Seq<char>, b: Seq<char>)
    ensures
        vstd::utf8::encode_utf8(a + b) == vstd::utf8::encode_utf8(a) + vstd::utf8::encode_utf8(b),
    decreases a.len(),
{
    if a.len() == 0 {
        assert(a + b =~= b);
        assert(vstd::utf8::encode_utf8(a) =~= Seq::<u8>::empty());
        assert(Seq::<u8>::empty() + vstd::utf8::encode_utf8(b) =~= vstd::utf8::encode_utf8(b));
    } else {
        lemma_encode_concat(a.drop_first(), b);
        assert((a + b).drop_first() =~= a.drop_first() + b);
        assert((a + b)[0] == a[0]);
        let x = vstd::utf8::encode_scalar(a[0] as u32);
        assert(vstd::utf8::encode_utf8(a + b) =~= x + (vstd::utf8::encode_utf8(a.drop_first()) + vstd::utf8::encode_utf8(b)));
        assert(vstd::utf8::encode_utf8(a) =~= x + vstd::utf8::encode_utf8(a.drop_first()));
    }
}

/// The number of bytes that encode `c`.
pub open spec fn utf8_width(c: char) -> int {
    let v = c as u32;
    if v <= 0x7F {
        1
    } else if v <= 0x7FF {
        2
    } else if v <= 0xFFFF {
        3
    } else {
        4
    }
}

/// One character more adds its width to the byte offset.
proof fn lemma_byte_step(cs: Seq<char>, i: int)
    requires
        0 <= i < cs.len(),
    ensures
        byte_of(cs, i + 1) == byte_of(cs, i) + utf8_width(cs[i]),
        byte_of(cs, i) <= byte_of(cs, cs.len() as int),
{
    lemma_encode_concat(cs.take(i), seq![cs[i]]);
    assert(cs.take(i + 1) =~= cs.take(i) + seq![cs[i]]);
    vstd::utf8::char_is_scalar(cs[i]);
    assert(seq![cs[i]].drop_first() =~= Seq::<char>::empty());
    assert(vstd::utf8::encode_utf8(seq![cs[i]]) =~= vstd::utf8::encode_scalar(cs[i] as u32) + vstd::utf8::encode_utf8(Seq::<char>::empty()));
    lemma_encode_concat(cs.take(i), cs.skip(i));
    assert(cs.take(i) + cs.skip(i) =~= cs);
    assert(cs.take(cs.len() as int) =~= cs);
}


/// What one step of the lexer found.
enum Step {
    Skip,
    Tok(Token),
    Bad,
}

fn is_ws_char(c: char) -> (r: bool)
    ensures
        r == is_ws(c),
{
    c == ' ' || c == '\t' || c == '\n' || c == '\r' || c == '\x0C'
}

fn is_ident_start_char(c: char) -> (r: bool)
    ensures
        r == is_ident_start(c),
{
    ('a' <= c && c <= 'z') || ('A' <= c && c <= 'Z') || c == '_'
}

fn is_digit_char(c: char) -> (r: bool)
    ensures
        r == is_digit(c),
{
    '0' <= c && c <= '9'
}

fn is_ident_char_exec(c: char) -> (r: bool)
    ensures
        r == is_ident_char(c),
{
    is_ident_start_char(c) || is_digit_char(c)
}

/// The characters of `source`, in order.
fn chars_of(source: &str) -> (r: Vec<char>)
    ensures
        r@ == source@,
{
    let n = source.unicode_len();
    let mut r: Vec<char> = Vec::new();
    let mut i: usize = 0;
    while i < n
        invariant
            i <= n,
            n == source@.len(),
            r@ == source@.take(i as int),
        decreases n - i,
    {
        r.push(source.get_char(i));
        assert(r@ =~= source@.take(i + 1));
        i += 1;
    }
    assert(source@.take(n as int) =~= source@);
    r
}

/// The text of the characters from `i` up to `j`.
fn text_of(cs: &Vec<char>, i: usize, j: usize) -> (r: String)
    requires
        i <= j <= cs.len(),
    ensures
        r@ == cs@.subrange(i as int, j as int),
{
    let mut r = String::new();
    let mut k: usize = i;
    while k < j
        invariant
            i <= k <= j,
            j <= cs.len(),
            r@ == cs@.subrange(i as int, k as int),
        decreases j - k,
    {
        push_char(&mut r, cs[k]);
        assert(r@ =~= cs@.subrange(i as int, k + 1));
        k += 1;
    }
    r
}

fn ws_end_at(cs: &Vec<char>, i: usize) -> (r: usize)
    requires
        i <= cs.len(),
    ensures
        r == ws_end(cs@, i as int),
        i <= r <= cs.len(),
{
    let mut k = i;
    while k < cs.len() && is_ws_char(cs[k])
        invariant
            i <= k <= cs.len(),
            ws_end(cs@, i as int) == ws_end(cs@, k as int),
        decreases cs.len() - k,
    {
        k += 1;
    }
    k
}

fn ident_end_at(cs: &Vec<char>, i: usize) -> (r: usize)
    requires
        i <= cs.len(),
    ensures
        r == ident_end(cs@, i as int),
        i <= r <= cs.len(),
{
    let mut k = i;
    while k < cs.len() && is_ident_char_exec(cs[k])
        invariant
            i <= k <= cs.len(),
            ident_end(cs@, i as int) == ident_end(cs@, k as int),
        decreases cs.len() - k,
    {
        k += 1;
    }
    k
}

fn digits_end_at(cs: &Vec<char>, i: usize) -> (r: usize)
    requires
        i <= cs.len(),
    ensures
        r == digits_end(cs@, i as int),
        i <= r <= cs.len(),
        forall|t: int| i <= t < r ==> is_digit(#[trigger] cs@[t]),
{
    let mut k = i;
    while k < cs.len() && is_digit_char(cs[k])
        invariant
            i <= k <= cs.len(),
            digits_end(cs@, i as int) == digits_end(cs@, k as int),
            forall|t: int| i <= t < k ==> is_digit(#[trigger] cs@[t]),
        decreases cs.len() - k,
    {
        k += 1;
    }
    k
}

fn line_end_at(cs: &Vec<char>, i: usize) -> (r: usize)
    requires
        i <= cs.len(),
    ensures
        r == line_end(cs@, i as int),
        i <= r <= cs.len(),
{
    let mut k = i;
    while k < cs.len() && cs[k] != '\n' && cs[k] != '\r'
        invariant
            i <= k <= cs.len(),
            line_end(cs@, i as int) == line_end(cs@, k as int),
        decreases cs.len() - k,
    {
        k += 1;
    }
    k
}

fn block_close_at(cs: &Vec<char>, i: usize) -> (r: Option<usize>)
    requires
        i <= cs.len(),
    ensures
        match r {
            Some(e) => block_close(cs@, i as int) == Some(e as int) && i + 3 <= e <= cs.len(),
            None => block_close(cs@, i as int) is None,
        },
{
    let mut k = i;
    while k < cs.len() && cs.len() - k >= 3
        invariant
            i <= k <= cs.len(),
            block_close(cs@, i as int) == block_close(cs@, k as int),
        decreases cs.len() - k,
    {
        if cs[k] == '`' && cs[k + 1] == '`' && cs[k + 2] == '`' {
            return Some(k + 3);
        }
        k += 1;
    }
    None
}

fn string_end_at(cs: &Vec<char>, q: usize) -> (r: Option<usize>)
    requires
        q <= cs.len(),
    ensures
        match r {
            Some(e) => string_end(cs@, q as int) == Some(e as int) && q < e <= cs.len(),
            None => string_end(cs@, q as int) is None,
        },
{
    let mut k = q;
    while k < cs.len()
        invariant
            q <= k <= cs.len() + 1,
            string_end(cs@, q as int) == string_end(cs@, k as int),
        decreases cs.len() + 1 - k,
    {
        if cs[k] == '"' {
            return Some(k + 1);
        } else if cs[k] == '\\' {
            if k + 1 < cs.len() && cs[k + 1] != '"' {
                k += 2;
            } else {
                return None;
            }
        } else {
            k += 1;
        }
    }
    None
}

fn char_end_at(cs: &Vec<char>, q: usize) -> (r: Option<usize>)
    requires
        q <= cs.len(),
    ensures
        match r {
            Some(e) => char_end(cs@, q as int) == Some(e as int) && q < e <= cs.len(),
            None => char_end(cs@, q as int) is None,
        },
{
    let mut k = q;
    while k < cs.len()
        invariant
            q <= k <= cs.len() + 1,
            char_end(cs@, q as int) == char_end(cs@, k as int),
        decreases cs.len() + 1 - k,
    {
        if cs[k] == '\'' {
            return Some(k + 1);
        } else if cs[k] == '\\' {
            if k + 1 < cs.len() && cs[k + 1] != '\n' {
                k += 2;
            } else {
                return None;
            }
        } else {
            k += 1;
        }
    }
    None
}

/// Runs of blanks, name characters and digits end at or after their start.
proof fn lemma_runs_ge(cs: Seq<char>, k: int)
    ensures
        ws_end(cs, k) >= k,
        ident_end(cs, k) >= k,
        digits_end(cs, k) >= k,
        line_end(cs, k) >= k,
    decreases cs.len() - k,
{
    if 0 <= k < cs.len() {
        lemma_runs_ge(cs, k + 1);
    }
}

/// Digit values grow with the digits.
proof fn lemma_digits_value_mono(cs: Seq<char>, i: int, k: int, j: int)
    requires
        i <= k <= j <= cs.len(),
        0 <= i,
        forall|t: int| i <= t < j ==> is_digit(#[trigger] cs[t]),
    ensures
        digits_value(cs, i, k) <= digits_value(cs, i, j),
    decreases j - k,
{
    if k < j {
        lemma_digits_value_mono(cs, i, k, j - 1);
        assert(is_digit(cs[j - 1]));
    }
}

fn digits_value_of(cs: &Vec<char>, i: usize, d: usize) -> (r: i64)
    requires
        i <= d <= cs.len(),
        forall|t: int| i <= t < d ==> is_digit(#[trigger] cs@[t]),
        digits_value(cs@, i as int, d as int) <= i64::MAX,
    ensures
        r as int == digits_value(cs@, i as int, d as int),
{
    let mut v: i64 = 0;
    let mut k = i;
    while k < d
        invariant
            i <= k <= d,
            d <= cs.len(),
            forall|t: int| i <= t < d ==> is_digit(#[trigger] cs@[t]),
            digits_value(cs@, i as int, d as int) <= i64::MAX,
            v as int == digits_value(cs@, i as int, k as int),
        decreases d - k,
    {
        proof {
            lemma_digits_value_mono(cs@, i as int, k + 1, d as int);
            assert(is_digit(cs@[k as int]));
        }
        let digit = (cs[k] as u32 - '0' as u32) as i64;
        v = v * 10 + digit;
        k += 1;
    }
    v
}

/// The number of bytes that encode `c`.
fn width_of(c: char) -> (r: usize)
    ensures
        r == utf8_width(c),
{
    let v = c as u32;
    if v <= 0x7F {
        1
    } else if v <= 0x7FF {
        2
    } else if v <= 0xFFFF {
        3
    } else {
        4
    }
}

/// The byte offset of position `j`, from the byte offset of position `i`.
fn advance(cs: &Vec<char>, i: usize, j: usize, byte: usize, total: usize) -> (r: usize)
    requires
        i <= j <= cs.len(),
        byte == byte_of(cs@, i as int),
        total == byte_of(cs@, cs@.len() as int),
    ensures
        r == byte_of(cs@, j as int),
{
    let mut k = i;
    let mut b = byte;
    while k < j
        invariant
            i <= k <= j,
            j <= cs.len(),
            b == byte_of(cs@, k as int),
            total == byte_of(cs@, cs@.len() as int),
        decreases j - k,
    {
        proof {
            lemma_byte_step(cs@, k as int);
            if k + 1 < cs@.len() {
                lemma_byte_step(cs@, k + 1);
            } else {
                assert(k + 1 == cs@.len());
            }
        }
        b = b + width_of(cs[k]);
        k += 1;
    }
    b
}

/// What starts at position `i`.
fn scan_at(cs: &Vec<char>, i: usize) -> (r: (Step, usize))
    requires
        i < cs.len(),
        i < scan_next(scan(cs@, i as int)) <= cs.len() ==> (scan(cs@, i as int) matches Scan::Tok(TokView::Int(v), _) ==> v <= i64::MAX),
    ensures
        r.1 == scan_next(scan(cs@, i as int)),
        i < r.1 <= cs.len(),
        match (r.0, scan(cs@, i as int)) {
            (Step::Skip, Scan::Skip(_)) => true,
            (Step::Tok(t), Scan::Tok(v, _)) => token_view(t) == v,
            (Step::Bad, Scan::Bad(_)) => true,
            _ => false,
        },
{
    let c = cs[i];
    if is_ws_char(c) {
        proof { lemma_runs_ge(cs@, i + 1); }
        return (Step::Skip, ws_end_at(cs, i + 1));
    }
    if c == '`' {
        let l = line_end_at(cs, i + 1);
        if cs.len() - i >= 3 && cs[i + 1] == '`' && cs[i + 2] == '`' {
            match block_close_at(cs, i + 3) {
                Some(b) => {
                    if b > l {
                        return (Step::Skip, b);
                    }
                    return (Step::Skip, l);
                }
                None => {
                    return (Step::Skip, l);
                }
            }
        }
        return (Step::Skip, l);
    }
    if is_digit_char(c) {
        let d = digits_end_at(cs, i);
        proof { lemma_runs_ge(cs@, i + 1); }
        if cs.len() - d > 1 && cs[d] == '.' && is_digit_char(cs[d + 1]) {
            let f = digits_end_at(cs, d + 1);
            let text = text_of(cs, i, f);
            return (Step::Tok(Token::FloatLiteral(text)), f);
        }
        let v = digits_value_of(cs, i, d);
        return (Step::Tok(Token::IntLiteral(v)), d);
    }
    if c == '"' {
        match string_end_at(cs, i + 1) {
            Some(e) => {
                let text = text_of(cs, i + 1, e - 1);
                return (Step::Tok(Token::StringLiteral(text)), e);
            }
            None => {
                return (Step::Bad, i + 1);
            }
        }
    }
    if c == '\'' {
        match char_end_at(cs, i + 1) {
            Some(e) => {
                let text = text_of(cs, i + 1, e - 1);
                return (Step::Tok(Token::CharLiteral(text)), e);
            }
            None => {
                return (Step::Bad, i + 1);
            }
        }
    }
    if is_ident_start_char(c) {
        let e = ident_end_at(cs, i);
        proof { lemma_runs_ge(cs@, i + 1); }
        let word = text_of(cs, i, e);
        match keyword_of(word.as_str()) {
            Some(t) => {
                return (Step::Tok(t), e);
            }
            None => {
                return (Step::Tok(Token::Identifier(word)), e);
            }
        }
    }
    if i + 1 < cs.len() {
        match op2_of(c, cs[i + 1]) {
            Some(t) => {
                return (Step::Tok(t), i + 2);
            }
            None => {}
        }
    }
    match op1_of(c) {
        Some(t) => (Step::Tok(t), i + 1),
        None => (Step::Bad, i + 1),
    }
}

/// Whether the digits from `i` to `d` spell a number that fits in an `i64`.
fn digits_fit(cs: &Vec<char>, i: usize, d: usize) -> (r: bool)
    requires
        i <= d <= cs.len(),
        forall|t: int| i <= t < d ==> is_digit(#[trigger] cs@[t]),
    ensures
        r == (digits_value(cs@, i as int, d as int) <= i64::MAX),
{
    let mut v: u64 = 0;
    let mut k = i;
    while k < d
        invariant
            i <= k <= d,
            d <= cs.len(),
            forall|t: int| i <= t < d ==> is_digit(#[trigger] cs@[t]),
            v as int == digits_value(cs@, i as int, k as int),
            v <= i64::MAX,
        decreases d - k,
    {
        assert(is_digit(cs@[k as int]));
        let digit = (cs[k] as u32 - '0' as u32) as u64;
        if v > (i64::MAX as u64 - digit) / 10 {
            proof {
                lemma_digits_value_mono(cs@, i as int, k + 1, d as int);
                assert(digits_value(cs@, i as int, k + 1) == v * 10 + digit);
                assert(v * 10 + digit > i64::MAX) by (nonlinear_arith)
                    requires
                        v > (i64::MAX as u64 - digit) / 10,
                        digit <= 9;
            }
            return false;
        }
        proof {
            assert(v * 10 + digit <= i64::MAX) by (nonlinear_arith)
                requires
                    v <= (i64::MAX as u64 - digit) / 10,
                    digit <= 9;
        }
        v = v * 10 + digit;
        k += 1;
    }
    true
}

/// Whether every integer literal of `source` fits in an `i64`, which `lex` needs.
pub fn ints_fit_check(source: &str) -> (r: bool)
    ensures
        r == ints_fit(source@, 0),
{
    let cs = chars_of(source);
    let n = cs.len();
    let mut i: usize = 0;
    while i < n
        invariant
            cs@ == source@,
            n == cs@.len(),
            i <= n,
            ints_fit(cs@, 0) == ints_fit(cs@, i as int),
        decreases n - i,
    {
        let c = cs[i];
        if is_digit_char(c) {
            let d = digits_end_at(&cs, i);
            proof { lemma_runs_ge(cs@, i + 1); }
            let float = n - d > 1 && cs[d] == '.' && is_digit_char(cs[d + 1]);
            if !float && !digits_fit(&cs, i, d) {
                return false;
            }
        }
        let (_step, j) = scan_at(&cs, i);
        i = j;
    }
    true
}

/// Splits `source` into tokens with their byte spans, leaving out blanks and comments. It fails
/// with one error for each character that starts no token, in order.
pub fn lex(source: &str) -> (r: Result<Vec<WindSpannedToken>, Vec<LexError>>)
    requires
        ints_fit(source@, 0),
    ensures
        ({
            let cs = source@;
            let out = lex_from(cs, 0);
            match r {
                Ok(toks) => {
                    &&& out.errs.len() == 0
                    &&& toks@.len() == out.toks.len()
                    &&& forall|k: int| 0 <= k < toks@.len() ==> {
                        &&& token_view((#[trigger] toks@[k]).0) == out.toks[k].0
                        &&& toks@[k].1.start == byte_of(cs, out.toks[k].1)
                        &&& toks@[k].1.end == byte_of(cs, out.toks[k].2)
                    }
                },
                Err(errs) => {
                    &&& out.errs.len() > 0
                    &&& errs@.len() == out.errs.len()
                    &&& forall|k: int| 0 <= k < errs@.len() ==> {
                        &&& (#[trigger] errs@[k]).span.start == byte_of(cs, out.errs[k].0)
                        &&& errs@[k].span.end == byte_of(cs, out.errs[k].1)
                        &&& errs@[k].message@ == lex_error_text(cs, out.errs[k].0, out.errs[k].1)
                    }
                },
            }
        }),
{
    let cs = chars_of(source);
    let n = cs.len();
    let total = source.as_bytes().len();
    proof {
        assert(cs@.take(n as int) =~= cs@);
        assert(cs@.take(0) =~= Seq::<char>::empty());
    }
    let ghost all = lex_from(cs@, 0);
    let ghost mut done_toks: Seq<(TokView, int, int)> = seq![];
    let ghost mut done_errs: Seq<(int, int)> = seq![];
    let mut tokens: Vec<WindSpannedToken> = Vec::new();
    let mut errors: Vec<LexError> = Vec::new();
    let mut i: usize = 0;
    let mut byte: usize = 0;
    while i < n
        invariant
            cs@ == source@,
            n == cs@.len(),
            i <= n,
            byte == byte_of(cs@, i as int),
            total == byte_of(cs@, n as int),
            all == lex_from(cs@, 0),
            all.toks == done_toks + lex_from(cs@, i as int).toks,
            all.errs == done_errs + lex_from(cs@, i as int).errs,
            ints_fit(cs@, i as int),
            tokens@.len() == done_toks.len(),
            forall|k: int| 0 <= k < tokens@.len() ==> {
                &&& token_view((#[trigger] tokens@[k]).0) == done_toks[k].0
                &&& tokens@[k].1.start == byte_of(cs@, done_toks[k].1)
                &&& tokens@[k].1.end == byte_of(cs@, done_toks[k].2)
            },
            errors@.len() == done_errs.len(),
            forall|k: int| 0 <= k < errors@.len() ==> {
                &&& (#[trigger] errors@[k]).span.start == byte_of(cs@, done_errs[k].0)
                &&& errors@[k].span.end == byte_of(cs@, done_errs[k].1)
                &&& errors@[k].message@ == lex_error_text(cs@, done_errs[k].0, done_errs[k].1)
            },
        decreases n - i,
    {
        let (step, j) = scan_at(&cs, i);
        let bj = advance(&cs, i, j, byte, total);
        let ghost rest = lex_from(cs@, j as int);
        match step {
            Step::Skip => {}
            Step::Tok(t) => {
                proof {
                    done_toks = done_toks.push((token_view(t), i as int, j as int));
                }
                tokens.push((t, WindSpan { start: byte, end: bj }));
                proof {
                    assert(seq![(token_view(t), i as int, j as int)] + rest.toks =~= lex_from(cs@, i as int).toks);
                    assert(all.toks =~= done_toks + rest.toks);
                }
            }
            Step::Bad => {
                let sliced = text_of(&cs, i, j);
                let mut msg = string_of("词法错误: 无法识别的字符序列 `");
                push_str(&mut msg, sliced.as_str());
                push_str(&mut msg, "` @ ");
                let a = u64_to_string(byte as u64);
                push_str(&mut msg, a.as_str());
                push_str(&mut msg, "..");
                let b = u64_to_string(bj as u64);
                push_str(&mut msg, b.as_str());
                proof {
                    done_errs = done_errs.push((i as int, j as int));
                }
                errors.push(LexError { message: msg, span: WindSpan { start: byte, end: bj } });
                proof {
                    assert(seq![(i as int, j as int)] + rest.errs =~= lex_from(cs@, i as int).errs);
                    assert(all.errs =~= done_errs + rest.errs);
                }
            }
        }
        i = j;
        byte = bj;
    }
    proof {
        assert(done_toks =~= all.toks);
        assert(done_errs =~= all.errs);
    }
    if errors.len() == 0 {
        Ok(tokens)
    } else {
        Err(errors)
    }
}

/// The line and column, both counted from 1, of the byte `offset` of `source`; an offset past
/// the end counts as the end.
pub fn byte_to_line_col(source: &str, offset: usize) -> (r: (usize, usize))
    requires
        vstd::utf8::encode_utf8(source@).len() < usize::MAX,
        offset >= vstd::utf8::encode_utf8(source@).len() || vstd::utf8::is_char_boundary(vstd::utf8::encode_utf8(source@), offset as int),
    ensures
        ({
            let bytes = vstd::utf8::encode_utf8(source@);
            let o = if offset < bytes.len() { offset as int } else { bytes.len() as int };
            &&& r.0 == newlines_before(bytes, o) + 1
            &&& r.1 == o - line_start(bytes, o) + 1
        }),
{
    let bytes = source.as_bytes();
    let len = bytes.len();
    let o = if offset < len { offset } else { len };
    let mut lines: usize = 0;
    let mut start: usize = 0;
    let mut k: usize = 0;
    while k < o
        invariant
            k <= o,
            o <= len,
            len == bytes@.len(),
            bytes@ == vstd::utf8::encode_utf8(source@),
            lines == newlines_before(bytes@, k as int),
            start == line_start(bytes@, k as int),
            lines <= k,
            start <= k,
        decreases o - k,
    {
        if bytes[k] == 10u8 {
            lines = lines + 1;
            start = k + 1;
        }
        k += 1;
    }
    (lines + 1, o - start + 1)
}

/// The number of line feeds among the first `o` bytes.
pub open spec fn newlines_before(bytes: Seq<u8>, o: int) -> int
    decreases o,
{
    if o <= 0 {
        0
    } else {
        newlines_before(bytes, o - 1) + if bytes[o - 1] == 10u8 { 1int } else { 0int }
    }
}

/// The offset just past the last line feed among the first `o` bytes; zero if there is none.
pub open spec fn line_start(bytes: Seq<u8>, o: int) -> int
    decreases o,
{
    if o <= 0 {
        0
    } else if bytes[o - 1] == 10u8 {
        o
    } else {
        line_start(bytes, o - 1)
    }
}

} // verus!
