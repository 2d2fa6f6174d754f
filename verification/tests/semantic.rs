use wind::analyzer::SemanticAnalyzer;
use wind::ast::WindAssignOp;
use wind::ast::WindExpr;
use wind::ast::WindProgram;
use wind::ast::WindStmt;
use wind::ast::WindType;
use wind::constraint::ConstraintChecker;
use wind::gather::GatherContext;
use wind::lexer::lex;
use wind::liveness::LivenessAnalyzer;
use wind::parse::WindParser;
use wind::ids::ScopeId;
use wind::resolve::Resolver;
use wind::sema::MangledName;

fn program_of(source: &str) -> WindProgram {
    let tokens = lex(source).expect("the source lexes");
    WindParser::parse(source, &tokens).expect("the source parses")
}

fn analyze(source: &str) -> SemanticAnalyzer {
    let program = program_of(source);
    SemanticAnalyzer::new()
        .with_source(source.to_string())
        .with_file_name("test.wind".to_string())
        .analyze(&program)
}

fn messages(result: &SemanticAnalyzer) -> Vec<String> {
    result.all_errors.iter().map(|e| e.message.clone()).collect()
}

#[test]
fn top_level_let_is_reported_with_its_span() {
    let result = analyze("x = 1\nfn main() {}");
    assert_eq!(
        messages(&result),
        vec!["Let statement 'x' is not allowed at top level. Use const, constatic, or explain.".to_string()]
    );
    assert_eq!(result.all_errors[0].span, Some((0, 1)));
    assert_eq!(
        result.print_errors(),
        vec!["[0..1] Let statement 'x' is not allowed at top level. Use const, constatic, or explain.".to_string()]
    );
}

#[test]
fn missing_main_is_the_last_error() {
    let result = analyze("const A: int = 1;");
    assert_eq!(
        messages(&result),
        vec!["No 'main' function found. A Wind program must have a 'main' entry point.".to_string()]
    );
    assert_eq!(result.all_errors[0].span, None);
    assert_eq!(
        result.print_errors(),
        vec!["No 'main' function found. A Wind program must have a 'main' entry point.".to_string()]
    );
}

#[test]
fn container_type_needs_arguments() {
    let result = analyze("const V: vec = [1];\nfn main() {}");
    assert_eq!(
        messages(&result),
        vec!["Top-level variable 'V' uses container type 'vec' without generic arguments. Specify e.g. vec<string>."
            .to_string()]
    );
    assert_eq!(result.all_errors[0].span, Some((6, 7)));
}

#[test]
fn constatic_needs_a_constant() {
    let result = analyze("constatic C: int = f(1);\nfn main() {}");
    assert_eq!(messages(&result), vec!["Constatic value must be a compile-time constant.".to_string()]);
}

#[test]
fn constatic_accepts_constant_expressions() {
    let result = analyze("constatic C: vec<int> = [1, -2, 3 + 4];\nfn main() {}");
    assert!(!result.has_errors());
}

#[test]
fn bare_expression_is_reported() {
    let result = analyze("print(1)\nfn main() {}");
    assert_eq!(
        messages(&result),
        vec!["Bare expression (function call) is not allowed at top level. Wrap it in a function or use const/constatic/explain."
            .to_string()]
    );
    assert_eq!(result.all_errors[0].span, None);
}

#[test]
fn top_level_statements_are_reported() {
    assert_eq!(messages(&analyze("return 1\nfn main() {}")), vec!["return is not allowed at top level.".to_string()]);
    assert_eq!(messages(&analyze("a.b = 1\nfn main() {}")), vec!["Assignment is not allowed at top level.".to_string()]);
    assert_eq!(
        messages(&analyze("while 1 < 2 { }\nfn main() {}")),
        vec!["Control flow statements are not allowed at top level.".to_string()]
    );
}

#[test]
fn duplicate_struct_field_is_reported() {
    let result = analyze("struct P { x: int; x: int; }\nfn main() {}");
    assert_eq!(messages(&result), vec!["Duplicate field 'x' in struct.".to_string()]);
    assert_eq!(result.all_errors[0].span, Some((11, 12)));
}

#[test]
fn impl_of_unknown_trait_and_struct() {
    let result = analyze("impl T for S { }\nfn main() {}");
    assert_eq!(
        messages(&result),
        vec!["Trait 'T' not found for impl.".to_string(), "Target struct 'S' not found for impl.".to_string()]
    );
    assert_eq!(result.all_errors[0].span, Some((5, 6)));
    assert_eq!(result.all_errors[1].span, Some((11, 12)));
}

#[test]
fn extra_of_unknown_struct() {
    let result = analyze("extra E: S { }\nfn main() {}");
    assert_eq!(messages(&result), vec!["Extra target struct 'S' not found.".to_string()]);
    assert_eq!(result.all_errors[0].span, Some((9, 10)));
}

#[test]
fn unnamed_extra_is_recorded_under_its_target() {
    let result = analyze("extra S { }\nfn main() {}");
    assert!(!result.has_errors());
}

#[test]
fn apply_of_unknown_group_and_target() {
    let result = analyze("Pos@p -> {x};\nfn main() {}");
    assert_eq!(
        messages(&result),
        vec![
            "Group 'Pos' not found (referenced in @p apply).".to_string(),
            "Target struct 'p' not found for @Pos.".to_string(),
        ]
    );
    assert_eq!(result.all_errors[0].span, Some((0, 3)));
    assert_eq!(result.all_errors[1].span, Some((4, 5)));
}

#[test]
fn reassigning_a_const_is_reported() {
    let result = analyze("const A: int = 1;\nfn main() { A <: 2 }");
    assert_eq!(messages(&result), vec!["Cannot reassign to A. Const variables are immutable.".to_string()]);
    assert_eq!(result.all_errors[0].span, None);
}

#[test]
fn reassigning_a_constatic_is_reported() {
    let result = analyze("constatic B: int = 1;\nfn main() { B :> 2 }");
    assert_eq!(messages(&result), vec!["Cannot reassign to B. Constatic variables are immutable.".to_string()]);
}

#[test]
fn every_value_gets_a_live_range() {
    let result = analyze("fn main() { x = 1 y = \"s\" x <: y }");
    assert!(!result.has_errors());
    assert!(!result.ctx.value_pool.values.is_empty());
    for info in &result.ctx.value_pool.values {
        assert!(result.live_ranges.iter().any(|r| r.value == info.id));
    }
}

#[test]
fn same_literal_shares_one_value() {
    let result = analyze("fn main() { a = 7 b = 7 }");
    let sevens: Vec<_> = result
        .ctx
        .value_pool
        .values
        .iter()
        .filter(|v| format!("{:?}", v.kind) == "ScalarConst")
        .collect();
    assert_eq!(sevens.len(), 1);
}

#[test]
fn passes_run_one_after_another() {
    let program = program_of("x = 1\nfn main() { y = 2 }");
    let mut ctx = GatherContext::new();
    ctx.gather(&program);
    assert!(ctx.errors.is_empty());
    let mut resolver = Resolver::new().with_source("x = 1\nfn main() { y = 2 }".to_string());
    resolver.resolve(&mut ctx, &program);
    assert!(resolver.errors.is_empty());
    let mut checker = ConstraintChecker::new().with_source("x = 1\nfn main() { y = 2 }".to_string());
    checker.check(&ctx, &program);
    assert_eq!(checker.errors.len(), 1);
    assert_eq!(checker.errors[0].span, Some((0, 1)));
    let mut liveness = LivenessAnalyzer::new();
    liveness.analyze(&ctx);
    assert_eq!(liveness.live_ranges.len(), ctx.value_pool.values.len());
}

#[test]
fn expression_kinds_are_named() {
    let checker = ConstraintChecker::new();
    assert_eq!(checker.expr_kind(&WindExpr::Identifier("q".to_string())), "identifier 'q'");
    assert_eq!(checker.expr_kind(&WindExpr::IntLiteral(1)), "int literal");
    assert_eq!(checker.expr_kind(&WindExpr::NoneLiteral), "None");
    assert_eq!(checker.expr_kind(&WindExpr::ArrayLiteral(vec![])), "array literal");
}

#[test]
fn diagnostics_underline_spans_inside_the_source() {
    let result = analyze("x = 1\nfn main() {}");
    let labels = result.diagnostic_labels();
    assert_eq!(labels.len(), 1);
    assert_eq!(labels[0].1, Some((0, 1)));
    let no_source = SemanticAnalyzer::new().analyze(&program_of("x = 1\nfn main() {}"));
    assert_eq!(no_source.all_errors[0].span, None);
    assert_eq!(no_source.diagnostic_labels()[0].1, None);
}

#[test]
fn default_analyzer_is_fresh() {
    let a = SemanticAnalyzer::default();
    assert!(!a.has_errors());
    assert!(a.source.is_none());
    assert!(a.file_name.is_none());
}

#[test]
fn resolution_opens_scopes_in_order_under_their_parents() {
    let tag = WindExpr::TagExpr { name: "T".to_string(), body: vec![] };
    let main_body = WindStmt::Block(vec![WindStmt::Let { name: "T".to_string(), ty: None, value: Box::new(tag) }]);
    let program = WindProgram {
        items: vec![
            WindStmt::Block(vec![WindStmt::Block(vec![])]),
            WindStmt::FnDef {
                public: false,
                name: "main".to_string(),
                params: vec![],
                return_type: None,
                which: None,
                body: Box::new(main_body),
            },
        ],
    };
    let mut ctx = GatherContext::new();
    let mut resolver = Resolver::new();
    resolver.resolve(&mut ctx, &program);
    let shape: Vec<(String, Option<u64>)> = ctx
        .scope_tree
        .scopes
        .iter()
        .map(|s| (format!("{:?}", s.kind), s.parent.map(|p| p.0)))
        .collect();
    assert_eq!(
        shape,
        vec![
            ("Global".to_string(), None),
            ("Block".to_string(), Some(1)),
            ("Block".to_string(), Some(2)),
            ("Function".to_string(), Some(1)),
            ("Block".to_string(), Some(4)),
            ("Block".to_string(), Some(5)),
        ]
    );
    assert_eq!(ctx.scope_tree.current.0, 1);
}

fn assign(name: &str, value: i64) -> WindStmt {
    WindStmt::Assignment {
        target: Box::new(WindExpr::Identifier(name.to_string())),
        op: WindAssignOp::Direct,
        value: Box::new(WindExpr::IntLiteral(value)),
    }
}

#[test]
fn assigning_to_a_constant_is_reported_and_binds_nothing() {
    let program = WindProgram {
        items: vec![
            WindStmt::ConstDef {
                name: "x".to_string(),
                ty: WindType::Named("int".to_string()),
                value: Box::new(WindExpr::IntLiteral(1)),
            },
            assign("x", 2),
        ],
    };
    let mut ctx = GatherContext::new();
    ctx.gather(&program);
    let mut resolver = Resolver::new();
    resolver.resolve(&mut ctx, &program);
    assert_eq!(resolver.errors.len(), 1);
    assert_eq!(resolver.errors[0].message, "Cannot reassign to x. Const variables are immutable.");
    assert_eq!(resolver.errors[0].span, None);
    assert_eq!(ctx.bindings.name_to_value.len(), 0);
}

#[test]
fn assigning_to_a_variable_binds_its_next_version() {
    let program = WindProgram {
        items: vec![
            WindStmt::Let { name: "x".to_string(), ty: None, value: Box::new(WindExpr::IntLiteral(1)) },
            assign("x", 2),
        ],
    };
    let mut ctx = GatherContext::new();
    let mut resolver = Resolver::new();
    resolver.resolve(&mut ctx, &program);
    assert!(resolver.errors.is_empty());
    let first = MangledName::new(ScopeId::new(1), "", 0, "x", 1);
    let second = MangledName::new(ScopeId::new(1), "", 0, "x", 2);
    assert_eq!(ctx.bindings.lookup(&first), None);
    let two = *ctx.value_pool.scalar_cache.get(&"2".to_string()).expect("2 is interned");
    assert_eq!(ctx.bindings.lookup(&second), Some(two));
    let names = &ctx.scope_tree.scopes[0].local_mangled_names;
    assert_eq!(format!("{:?}", names.last()), format!("{:?}", Some(&second)));
}

#[test]
fn equal_literals_share_one_scalar() {
    let program = WindProgram {
        items: vec![
            WindStmt::Expr(Box::new(WindExpr::IntLiteral(7))),
            WindStmt::Expr(Box::new(WindExpr::IntLiteral(7))),
        ],
    };
    let mut ctx = GatherContext::new();
    let mut resolver = Resolver::new();
    resolver.resolve(&mut ctx, &program);
    assert_eq!(ctx.value_pool.values.len(), 1);
    assert_eq!(format!("{:?}", ctx.value_pool.values[0].kind), "ScalarConst");
    assert_eq!(format!("{:?}", ctx.value_pool.values[0].ty), "Some(Int)");
    assert_eq!(ctx.value_pool.values[0].ref_count, 0);
}

#[test]
fn a_function_binds_its_parameters_in_its_own_scope() {
    let main = WindStmt::FnDef {
        public: false,
        name: "f".to_string(),
        params: vec![wind::ast::WindFnParam { name: "a".to_string(), ty: None }],
        return_type: None,
        which: None,
        body: Box::new(WindStmt::Block(vec![])),
    };
    let program = WindProgram { items: vec![main] };
    let mut ctx = GatherContext::new();
    let mut resolver = Resolver::new();
    resolver.resolve(&mut ctx, &program);
    assert_eq!(ctx.scope_tree.scopes.len(), 3);
    let function = &ctx.scope_tree.scopes[1];
    assert!(function.lookup("a").is_some());
    assert_eq!(function.local_mangled_names.len(), 1);
    assert_eq!(ctx.value_pool.values.len(), 1);
    let param = MangledName::new(ScopeId::new(2), "f", 0, "a", 1);
    assert_eq!(ctx.bindings.lookup(&param), None);
}
