use wind::analyzer::SemanticAnalyzer;
use wind::cli::debug_summary;
use wind::cli::print_liveness;
use wind::cli::print_symbol_table;
use wind::cli::print_value_pool;
use wind::cli::Cli;
use wind::cli::LogLevel;
use wind::cli::LogLine;
use wind::cli::SourceRequest;
use wind::cli::Utils;
use wind::ids::ValueId;
use wind::lexer::lex;
use wind::parse::WindParser;
use wind::sema::DropPoint;
use wind::sema::LiveRange;

fn cli(cmd: Option<&str>, path: Option<&str>) -> Cli {
    Cli {
        cmd: cmd.map(|s| s.to_string()),
        path: path.map(|s| s.to_string()),
        level: LogLevel::Info,
        lex: false,
        parse: false,
    }
}

fn texts(lines: &[LogLine]) -> Vec<String> {
    lines.iter().map(|l| l.text.clone()).collect()
}

fn analyze(source: &str) -> SemanticAnalyzer {
    let tokens = lex(source).expect("the source lexes");
    let program = WindParser::parse(source, &tokens).expect("the source parses");
    SemanticAnalyzer::new().with_source(source.to_string()).analyze(&program)
}

#[test]
fn file_name_is_the_path_or_cmd() {
    assert_eq!(Utils::resolve_file_name(&cli(None, Some("src/a.wind"))), "src/a.wind");
    assert_eq!(Utils::resolve_file_name(&cli(Some("fn main() {}"), None)), "<cmd>");
}

#[test]
fn inline_code_comes_before_the_path() {
    assert!(matches!(Utils::source_request(&cli(Some("x"), Some("p"))), SourceRequest::Inline(c) if c == "x"));
    assert!(matches!(Utils::source_request(&cli(None, Some("p"))), SourceRequest::File(f) if f == "p"));
    assert!(matches!(Utils::source_request(&cli(None, None)), SourceRequest::Missing));
}

#[test]
fn summary_of_a_fresh_analysis() {
    let a = SemanticAnalyzer::new();
    let lines = debug_summary(&a);
    assert_eq!(
        texts(&lines),
        vec![
            "符号表: 1 个作用域, 0 个符号".to_string(),
            "Value Pool: 0 个值".to_string(),
            "存活分析: 0 区间, 0 Drop (0 scope-exit, 0 early)".to_string(),
        ]
    );
    assert_eq!(lines[0].level, LogLevel::Info);
    assert_eq!(lines[1].level, LogLevel::Debug);
    assert_eq!(lines[2].level, LogLevel::Info);
}

#[test]
fn symbol_table_lists_the_global_symbols() {
    let a = analyze("const A: int = 1;\nfn main() {}");
    let lines = texts(&print_symbol_table(&a));
    let scopes = a.ctx.scope_tree.scopes.len();
    let symbols: usize = a.ctx.scope_tree.scopes.iter().map(|s| s.symbols.entries.len()).sum();
    assert_eq!(lines[0], format!("符号表: {} 个作用域, {} 个符号", scopes, symbols));
    assert!(lines.contains(&"    - A (var (Const))".to_string()));
    assert!(lines.contains(&"    - main (fn)".to_string()));
    assert!(lines.iter().any(|l| l.starts_with("  [Global scope_id=1] ")));
}

#[test]
fn value_pool_lines_name_each_value() {
    let a = analyze("fn main() { x = 5 }");
    let lines = texts(&print_value_pool(&a));
    assert_eq!(lines[0], format!("Value Pool: {} 个值", a.ctx.value_pool.values.len()));
    assert_eq!(lines.len(), a.ctx.value_pool.values.len() + 1);
    assert!(lines[1].starts_with("  - id=1 '"));
    assert!(lines[1].contains("' ScalarConst ::int  refs="));
}

#[test]
fn liveness_splits_scope_exit_and_early_drops() {
    let mut a = SemanticAnalyzer::new();
    a.live_ranges = vec![
        LiveRange {
            value: ValueId::new(1),
            description: "a".to_string(),
            born_at: 0,
            last_use: 0,
            drop_at: Some(0),
            dropped_by_scope_exit: true,
        },
        LiveRange {
            value: ValueId::new(2),
            description: "b".to_string(),
            born_at: 1,
            last_use: 1,
            drop_at: None,
            dropped_by_scope_exit: false,
        },
    ];
    a.drop_points = vec![
        DropPoint { value: ValueId::new(1), description: "'x' Allocated (id:1)".to_string(), at_position: 0 },
        DropPoint { value: ValueId::new(2), description: "Copied (id:2)".to_string(), at_position: 2 },
    ];
    assert_eq!(
        texts(&print_liveness(&a)),
        vec![
            "存活分析: 2 区间, 2 Drop (1 scope-exit, 1 early)".to_string(),
            "  [提前 Drop (ref_count→0)]:".to_string(),
            "    - Copied (id:2)".to_string(),
            "  [作用域退出 Drop]:".to_string(),
            "    - 'x' Allocated (id:1)".to_string(),
        ]
    );
}
