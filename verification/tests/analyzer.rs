use wind::analyzer::SemanticAnalyzer;
use wind::ast::WindExpr;
use wind::ast::WindFnParam;
use wind::ast::WindProgram;
use wind::ast::WindStmt;
use wind::ast::WindStructField;
use wind::ast::WindType;

fn make_empty_program() -> WindProgram {
    WindProgram { items: vec![] }
}

fn main_fn(params: Vec<WindFnParam>) -> WindStmt {
    WindStmt::FnDef {
        public: true,
        name: "main".to_string(),
        params,
        return_type: Some(WindType::Named("int".to_string())),
        which: None,
        body: Box::new(WindStmt::Block(vec![WindStmt::Return(Some(Box::new(WindExpr::IntLiteral(0))))])),
    }
}

#[test]
fn test_empty_program() {
    let program = make_empty_program();
    let result = SemanticAnalyzer::new().analyze(&program);
    assert!(result.has_errors());
}

#[test]
fn test_program_with_main() {
    let program = WindProgram {
        items: vec![main_fn(vec![WindFnParam {
            name: "args".to_string(),
            ty: Some(WindType::Generic {
                base: "vec".to_string(),
                args: vec![WindType::Named("string".to_string())],
            }),
        }])],
    };
    let result = SemanticAnalyzer::new().analyze(&program);
    assert!(!result.has_errors());
}

#[test]
fn test_simple_const() {
    let program = WindProgram {
        items: vec![
            WindStmt::ConstDef {
                name: "x".to_string(),
                ty: WindType::Named("int".to_string()),
                value: Box::new(WindExpr::IntLiteral(42)),
            },
            main_fn(vec![]),
        ],
    };
    let result = SemanticAnalyzer::new().analyze(&program);
    assert!(!result.has_errors());
}

#[test]
fn test_struct_definition() {
    let field = |name: &str, ty: &str| WindStructField {
        public: true,
        is_static: false,
        name: name.to_string(),
        ty: WindType::Named(ty.to_string()),
        which: None,
        conditions: None,
        default_value: None,
    };
    let program = WindProgram {
        items: vec![
            WindStmt::StructDef {
                public: true,
                name: "User".to_string(),
                fields: vec![field("name", "string"), field("age", "int")],
            },
            main_fn(vec![]),
        ],
    };
    let result = SemanticAnalyzer::new().analyze(&program);
    assert!(!result.has_errors());
}

#[test]
fn test_missing_main_reports_error() {
    let program = WindProgram {
        items: vec![WindStmt::ConstDef {
            name: "x".to_string(),
            ty: WindType::Named("int".to_string()),
            value: Box::new(WindExpr::IntLiteral(1)),
        }],
    };
    let result = SemanticAnalyzer::new().analyze(&program);
    assert!(result.has_errors());
}
