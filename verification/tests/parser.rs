use wind::ast::WindAssignOp;
use wind::ast::WindBinaryOp;
use wind::ast::WindExpr;
use wind::ast::WindProgram;
use wind::ast::WindStmt;
use wind::ast::WindStructField;
use wind::ast::WindType;
use wind::ast::WindUnaryOp;
use wind::ast::WindParseError;
use wind::lexer::lex;
use wind::parse::WindParser;
use wind::tokens::Token;
use wind::tokens::WindSpan;

fn parse(source: &str) -> Result<WindProgram, Vec<WindParseError>> {
    let tokens = lex(source).expect("the source lexes");
    WindParser::parse(source, &tokens)
}

fn items(source: &str) -> Vec<WindStmt> {
    parse(source).expect("the source parses").items
}

fn ident(s: &str) -> Box<WindExpr> {
    Box::new(WindExpr::Identifier(s.to_string()))
}

fn num(n: i64) -> Box<WindExpr> {
    Box::new(WindExpr::IntLiteral(n))
}

fn bin(left: Box<WindExpr>, op: WindBinaryOp, right: Box<WindExpr>) -> Box<WindExpr> {
    Box::new(WindExpr::Binary { left, op, right })
}

fn let_stmt(name: &str, ty: Option<WindType>, value: Box<WindExpr>) -> WindStmt {
    WindStmt::Let { name: name.to_string(), ty, value }
}

#[test]
fn parse_function_with_return() {
    assert_eq!(
        items("fn main() { return 0; }"),
        vec![WindStmt::FnDef {
            public: false,
            name: "main".to_string(),
            params: vec![],
            return_type: None,
            which: None,
            body: Box::new(WindStmt::Block(vec![WindStmt::Return(Some(num(0)))])),
        }]
    );
}

#[test]
fn parse_let_with_precedence() {
    assert_eq!(
        items("x: int = 1 + 2 * 3"),
        vec![let_stmt(
            "x",
            Some(WindType::Named("int".to_string())),
            bin(num(1), WindBinaryOp::Add, bin(num(2), WindBinaryOp::Mul, num(3))),
        )]
    );
}

#[test]
fn parse_prefix_minus_applies_to_the_sum() {
    assert_eq!(
        items("y = -1 + 2"),
        vec![let_stmt(
            "y",
            None,
            Box::new(WindExpr::Unary { op: WindUnaryOp::Neg, expr: bin(num(1), WindBinaryOp::Add, num(2)) }),
        )]
    );
}

#[test]
fn parse_comparison_below_shift() {
    assert_eq!(
        items("z = a << 1 < b && c || d"),
        vec![let_stmt(
            "z",
            None,
            bin(
                bin(bin(bin(ident("a"), WindBinaryOp::Shl, num(1)), WindBinaryOp::Lt, ident("b")), WindBinaryOp::And, ident("c")),
                WindBinaryOp::Or,
                ident("d"),
            ),
        )]
    );
}

#[test]
fn parse_assignment_to_field() {
    assert_eq!(
        items("a.b <: c;"),
        vec![WindStmt::Assignment {
            target: Box::new(WindExpr::FieldAccess { object: ident("a"), field: "b".to_string() }),
            op: WindAssignOp::LeftAbs,
            value: ident("c"),
        }]
    );
}

#[test]
fn parse_const_definition() {
    assert_eq!(
        items("const MAX: int = 10;"),
        vec![WindStmt::ConstDef { name: "MAX".to_string(), ty: WindType::Named("int".to_string()), value: num(10) }]
    );
}

#[test]
fn parse_struct_definition() {
    assert_eq!(
        items("pub struct Point { x: int; pub y: float = 0; }"),
        vec![WindStmt::StructDef {
            public: true,
            name: "Point".to_string(),
            fields: vec![
                WindStructField {
                    public: false,
                    is_static: false,
                    name: "x".to_string(),
                    ty: WindType::Named("int".to_string()),
                    which: None,
                    conditions: None,
                    default_value: None,
                },
                WindStructField {
                    public: true,
                    is_static: false,
                    name: "y".to_string(),
                    ty: WindType::Named("float".to_string()),
                    which: None,
                    conditions: None,
                    default_value: Some(num(0)),
                },
            ],
        }]
    );
}

#[test]
fn parse_tag_definition() {
    assert_eq!(
        items("tag T = { x = 1 };"),
        vec![let_stmt(
            "T",
            None,
            Box::new(WindExpr::TagExpr { name: "T".to_string(), body: vec![let_stmt("x", None, num(1))] }),
        )]
    );
}

#[test]
fn parse_if_elif_else() {
    assert_eq!(
        items("if x > 1 { y = 2 } elif x < 0 { y = 3 } else { y = 4 }"),
        vec![WindStmt::If {
            condition: bin(ident("x"), WindBinaryOp::Gt, num(1)),
            then_branch: Box::new(WindStmt::Block(vec![let_stmt("y", None, num(2))])),
            elif_branches: vec![(
                *bin(ident("x"), WindBinaryOp::Lt, num(0)),
                WindStmt::Block(vec![let_stmt("y", None, num(3))]),
            )],
            else_branch: Some(Box::new(WindStmt::Block(vec![let_stmt("y", None, num(4))]))),
        }]
    );
}

#[test]
fn parse_while_loop() {
    assert_eq!(
        items("while i < 3 { i = i + 1 }"),
        vec![WindStmt::While {
            condition: bin(ident("i"), WindBinaryOp::Lt, num(3)),
            body: Box::new(WindStmt::Block(vec![let_stmt("i", None, bin(ident("i"), WindBinaryOp::Add, num(1)))])),
        }]
    );
}

#[test]
fn parse_for_in_loop() {
    assert_eq!(
        items("for (x: xs) { print(x) }"),
        vec![WindStmt::ForIn {
            var: "x".to_string(),
            iterable: ident("xs"),
            body: Box::new(WindStmt::Block(vec![WindStmt::Expr(Box::new(WindExpr::Call {
                callee: ident("print"),
                args: vec![WindExpr::Identifier("x".to_string())],
            }))])),
        }]
    );
}

#[test]
fn parse_postfix_chain() {
    assert_eq!(
        items("obj.method(1, 2)[0]"),
        vec![WindStmt::Expr(Box::new(WindExpr::Index {
            expr: Box::new(WindExpr::Call {
                callee: Box::new(WindExpr::FieldAccess { object: ident("obj"), field: "method".to_string() }),
                args: vec![WindExpr::IntLiteral(1), WindExpr::IntLiteral(2)],
            }),
            index: num(0),
        }))]
    );
}

#[test]
fn parse_generic_type_and_array() {
    assert_eq!(
        items("v: vec<int> = [1, 2,]"),
        vec![let_stmt(
            "v",
            Some(WindType::Generic { base: "vec".to_string(), args: vec![WindType::Named("int".to_string())] }),
            Box::new(WindExpr::ArrayLiteral(vec![WindExpr::IntLiteral(1), WindExpr::IntLiteral(2)])),
        )]
    );
}

#[test]
fn parse_map_literal() {
    assert_eq!(
        items("m = {1: 2}"),
        vec![let_stmt("m", None, Box::new(WindExpr::MapLiteral(vec![(WindExpr::IntLiteral(1), WindExpr::IntLiteral(2))])))]
    );
}

#[test]
fn parse_apply_statement() {
    assert_eq!(
        items("Pos@p -> {x, y};"),
        vec![WindStmt::Apply {
            group: "Pos".to_string(),
            target: "p".to_string(),
            fields: vec!["x".to_string(), "y".to_string()],
        }]
    );
}

#[test]
fn parse_empty_program() {
    assert_eq!(items(""), vec![]);
}

#[test]
fn parse_error_points_at_the_stopping_token() {
    let errors = parse("x = 1 fn main( {").expect_err("the function header is broken");
    assert_eq!(errors.len(), 1);
    assert_eq!(errors[0].span, WindSpan { start: 6, end: 8 });
    assert_eq!(errors[0].found, Some(Token::Fn));
    assert!(errors[0].expected.is_empty());
    assert_eq!(errors[0].message, "语法错误 #0 [1:7]: 发现 Fn, 期望 <未知>");
}

#[test]
fn parse_condition_followed_by_block_reads_struct_literal() {
    assert!(parse("if a { b }").is_err());
}

#[test]
fn parse_counting_for_with_a_start_value() {
    assert_eq!(
        items("for (i = 0; i < 3; i) { }"),
        vec![WindStmt::For {
            init: Some(num(0)),
            condition: Some(bin(ident("i"), WindBinaryOp::Lt, num(3))),
            update: Some(ident("i")),
            body: Box::new(WindStmt::Block(vec![])),
        }]
    );
}

#[test]
fn parse_counting_for_without_a_start_value_starts_from_its_name() {
    assert_eq!(
        items("for (i: int; ; ) { }"),
        vec![WindStmt::For {
            init: Some(Box::new(WindExpr::TypeExpr { expr: ident("i"), ty: WindType::Named("int".to_string()) })),
            condition: None,
            update: None,
            body: Box::new(WindStmt::Block(vec![])),
        }]
    );
}
