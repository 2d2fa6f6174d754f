use wind::ast::UnaryOp;
use wind::ast::WindBinaryOp;
use wind::ast::WindUnaryOp;
use wind::lexer::byte_to_line_col;
use wind::lexer::ints_fit_check;
use wind::lexer::lex;
use wind::tokens::Token;
use wind::tokens::WindSpan;

fn kinds_and_spans(source: &str) -> Vec<(Token, usize, usize)> {
    lex(source)
        .expect("the source lexes")
        .into_iter()
        .map(|(t, s)| (t, s.start, s.end))
        .collect()
}

#[test]
fn lex_simple_function() {
    assert_eq!(
        kinds_and_spans("fn main() {}"),
        vec![
            (Token::Fn, 0, 2),
            (Token::Identifier("main".to_string()), 3, 7),
            (Token::OpenParen, 7, 8),
            (Token::CloseParen, 8, 9),
            (Token::OpenBrace, 10, 11),
            (Token::CloseBrace, 11, 12),
        ]
    );
}

#[test]
fn lex_literals() {
    assert_eq!(
        kinds_and_spans("x = 3.14 + 42 \"hi\" 'c' true None"),
        vec![
            (Token::Identifier("x".to_string()), 0, 1),
            (Token::Equal, 2, 3),
            (Token::FloatLiteral("3.14".to_string()), 4, 8),
            (Token::Plus, 9, 10),
            (Token::IntLiteral(42), 11, 13),
            (Token::StringLiteral("hi".to_string()), 14, 18),
            (Token::CharLiteral("c".to_string()), 19, 22),
            (Token::TrueKw, 23, 27),
            (Token::NoneKw, 28, 32),
        ]
    );
}

#[test]
fn lex_two_character_operators() {
    let toks: Vec<Token> = lex("<= >= != !< !> == <: :> // << >> :: -> && ||")
        .expect("the source lexes")
        .into_iter()
        .map(|(t, _)| t)
        .collect();
    assert_eq!(
        toks,
        vec![
            Token::LessEqual,
            Token::GreaterEqual,
            Token::NotEqual,
            Token::NotLess,
            Token::NotGreater,
            Token::EqualEqual,
            Token::LeftAssign,
            Token::RightAssign,
            Token::DoubleSlash,
            Token::LeftShift,
            Token::RightShift,
            Token::DoubleColon,
            Token::Arrow,
            Token::AndAnd,
            Token::OrOr,
        ]
    );
}

#[test]
fn lex_single_character_operators() {
    let toks: Vec<Token> = lex(". , ; : ( ) [ ] { } @ ! - / % * + & | ^ = < >")
        .expect("the source lexes")
        .into_iter()
        .map(|(t, _)| t)
        .collect();
    assert_eq!(
        toks,
        vec![
            Token::Dot,
            Token::Comma,
            Token::Semicolon,
            Token::Colon,
            Token::OpenParen,
            Token::CloseParen,
            Token::OpenBracket,
            Token::CloseBracket,
            Token::OpenBrace,
            Token::CloseBrace,
            Token::At,
            Token::Bang,
            Token::Minus,
            Token::Slash,
            Token::Percent,
            Token::Star,
            Token::Plus,
            Token::Amp,
            Token::Pipe,
            Token::Caret,
            Token::Equal,
            Token::Less,
            Token::Greater,
        ]
    );
}

#[test]
fn lex_keywords_and_longer_names() {
    assert_eq!(
        kinds_and_spans("constatic const fnord iffy _x1"),
        vec![
            (Token::Constatic, 0, 9),
            (Token::Const, 10, 15),
            (Token::Identifier("fnord".to_string()), 16, 21),
            (Token::Identifier("iffy".to_string()), 22, 26),
            (Token::Identifier("_x1".to_string()), 27, 30),
        ]
    );
}

#[test]
fn lex_skips_line_comments() {
    assert_eq!(
        kinds_and_spans("a ` comment\nb"),
        vec![(Token::Identifier("a".to_string()), 0, 1), (Token::Identifier("b".to_string()), 12, 13)]
    );
}

#[test]
fn lex_skips_block_comments() {
    assert_eq!(kinds_and_spans("```x\ny```z"), vec![(Token::Identifier("z".to_string()), 9, 10)]);
}

#[test]
fn lex_spans_count_bytes() {
    assert_eq!(
        kinds_and_spans("\"中\" x"),
        vec![(Token::StringLiteral("中".to_string()), 0, 5), (Token::Identifier("x".to_string()), 6, 7)]
    );
}

#[test]
fn lex_reports_unrecognised_characters() {
    let errors = lex("a # b").expect_err("`#` starts no token");
    assert_eq!(errors.len(), 1);
    assert_eq!(errors[0].span, WindSpan { start: 2, end: 3 });
    assert_eq!(errors[0].message, "词法错误: 无法识别的字符序列 `#` @ 2..3");
}

#[test]
fn lex_reports_every_unrecognised_character() {
    let errors = lex("# $").expect_err("neither character starts a token");
    assert_eq!(errors.len(), 2);
    assert_eq!(errors[0].span, WindSpan { start: 0, end: 1 });
    assert_eq!(errors[1].span, WindSpan { start: 2, end: 3 });
    assert_eq!(errors[1].message, "词法错误: 无法识别的字符序列 `$` @ 2..3");
}

#[test]
fn lex_empty_source() {
    assert_eq!(kinds_and_spans("  \n\t"), vec![]);
}

#[test]
fn integer_literals_that_fit() {
    assert!(ints_fit_check("x = 9223372036854775807"));
    assert!(!ints_fit_check("x = 9223372036854775808"));
    assert!(ints_fit_check("x = 99999999999999999999.5"));
    assert!(ints_fit_check(""));
}

#[test]
fn lex_largest_integer() {
    assert_eq!(kinds_and_spans("9223372036854775807"), vec![(Token::IntLiteral(i64::MAX), 0, 19)]);
}

#[test]
fn line_and_column_of_offsets() {
    assert_eq!(byte_to_line_col("ab\ncd", 0), (1, 1));
    assert_eq!(byte_to_line_col("ab\ncd", 4), (2, 2));
    assert_eq!(byte_to_line_col("ab\ncd", 100), (2, 3));
}

#[test]
fn keyword_text_of_tokens() {
    assert_eq!(Token::Fn.as_keyword_str(), Some("fn"));
    assert_eq!(Token::Constatic.as_keyword_str(), Some("constatic"));
    assert_eq!(Token::NoneKw.as_keyword_str(), Some("None"));
    assert_eq!(Token::Plus.as_keyword_str(), None);
    assert_eq!(Token::Identifier("fn".to_string()).as_keyword_str(), None);
}

#[test]
fn keyword_text_lexes_back() {
    let words = ["fn", "struct", "while", "elif", "this", "false"];
    for w in words {
        let toks = lex(w).expect("a keyword lexes");
        assert_eq!(toks.len(), 1);
        assert_eq!(toks[0].0.as_keyword_str(), Some(w));
    }
}

#[test]
fn binary_operators_from_tokens() {
    assert_eq!(WindBinaryOp::from_token(&Token::Plus), Some(WindBinaryOp::Add));
    assert_eq!(WindBinaryOp::from_token(&Token::DoubleSlash), Some(WindBinaryOp::IntDiv));
    assert_eq!(WindBinaryOp::from_token(&Token::NotGreater), Some(WindBinaryOp::NotGt));
    assert_eq!(WindBinaryOp::from_token(&Token::In), Some(WindBinaryOp::In));
    assert_eq!(WindBinaryOp::from_token(&Token::Equal), None);
}

#[test]
fn unary_operators_from_tokens() {
    assert_eq!(UnaryOp::from_token(&Token::Minus), Some(WindUnaryOp::Neg));
    assert_eq!(UnaryOp::from_token(&Token::Bang), Some(WindUnaryOp::Not));
    assert_eq!(UnaryOp::from_token(&Token::Plus), None);
}

#[test]
fn keyword_texts_lex_back_to_their_keyword() {
    for t in [Token::Fn, Token::Struct, Token::Constatic, Token::NoneKw, Token::Which] {
        let text = t.as_keyword_str().expect("a keyword");
        let toks = lex(text).expect("a keyword lexes");
        assert_eq!(toks.len(), 1);
        assert_eq!(toks[0].0, t);
        assert_eq!(toks[0].1, WindSpan { start: 0, end: text.len() });
    }
}
