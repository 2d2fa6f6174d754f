use wind::ast::WindType;
use wind::ast::WindWhichClause;
use wind::bindings::Bindings;
use wind::ids::ConditionId;
use wind::ids::EnumId;
use wind::ids::FnSignatureId;
use wind::ids::ScopeId;
use wind::ids::StructId;
use wind::ids::TraitId;
use wind::ids::TypeId;
use wind::ids::ValueId;
use wind::ids::WindStructId;
use wind::ids::WindTraitId;
use wind::ids::WindTypeId;
use wind::scope::Scope;
use wind::scope::ScopeTree;
use wind::sema::MangledName;
use wind::sema::ScopeKind;
use wind::sema::SemanticError;
use wind::sema::StorageClass;
use wind::sema::Symbol;
use wind::sema::ValueKind;
use wind::sema::WindResolvedType;
use wind::sema::WindTypeRef;
use wind::sema::WindWhichClauseRef;
use wind::value_pool::ValuePool;
use wind::value_pool::WindValuePool;

fn var(name: &str, scope: u64) -> Symbol {
    Symbol::Variable {
        name: name.to_string(),
        mangled_name: MangledName::new(ScopeId::new(scope), "f", 1, name, 1),
        ty: None,
        mutable: true,
        storage_class: StorageClass::Let,
    }
}

fn is_var_in(sym: Option<&Symbol>, scope: u64) -> bool {
    match sym {
        Some(Symbol::Variable { mangled_name, .. }) => mangled_name.scope_id.get() == scope,
        _ => false,
    }
}

#[test]
fn push_then_pop_restores_the_current_scope() {
    let mut tree = ScopeTree::new();
    assert_eq!(tree.current.get(), 1);
    let id = tree.push_scope(ScopeKind::Function);
    assert_eq!(id.get(), 2);
    assert_eq!(tree.current_scope().kind, ScopeKind::Function);
    assert_eq!(tree.current_scope().parent.map(|p| p.get()), Some(1));
    assert_eq!(tree.pop_scope().map(|p| p.get()), Some(2));
    assert_eq!(tree.current.get(), 1);
    assert_eq!(tree.pop_scope().map(|p| p.get()), Some(1));
    assert_eq!(tree.current.get(), 1);
    assert_eq!(tree.scopes.len(), 2);
}

#[test]
fn inner_scopes_see_outer_names_and_shadow_them() {
    let mut tree = ScopeTree::new();
    tree.insert_symbol("a", var("a", 1));
    tree.push_scope(ScopeKind::Block);
    assert!(is_var_in(tree.lookup_symbol("a"), 1));
    tree.insert_symbol("a", var("a", 2));
    assert!(is_var_in(tree.lookup_symbol("a"), 2));
    assert!(is_var_in(tree.lookup_symbol_in_scope(ScopeId::new(1), "a"), 1));
    tree.pop_scope();
    assert!(is_var_in(tree.lookup_symbol("a"), 1));
    assert!(tree.lookup_symbol("b").is_none());
    assert!(tree.lookup_symbol_in_scope(ScopeId::new(9), "a").is_none());
}

#[test]
fn scopes_are_found_by_id() {
    let mut tree = ScopeTree::new();
    tree.push_scope(ScopeKind::Block);
    assert_eq!(tree.get_scope(ScopeId::new(2)).map(|s| s.kind), Some(ScopeKind::Block));
    assert!(tree.get_scope(ScopeId::new(0)).is_none());
    assert!(tree.get_scope(ScopeId::new(3)).is_none());
    if let Some(s) = tree.get_scope_mut(ScopeId::new(1)) {
        s.insert_symbol("g", var("g", 1));
    }
    assert!(tree.lookup_symbol("g").is_some());
    tree.current_scope_mut().add_mangled_name(MangledName::new(ScopeId::new(2), "f", 1, "m", 1));
    assert_eq!(tree.current_scope().local_mangled_names.len(), 1);
    assert!(tree.get_scope_mut(ScopeId::new(5)).is_none());
}

#[test]
fn a_scope_on_its_own() {
    let mut s = Scope::new(ScopeId::new(4), ScopeKind::Block, Some(ScopeId::new(1)));
    assert!(s.lookup("x").is_none());
    s.insert_symbol("x", var("x", 4));
    assert!(s.lookup("x").is_some());
    s.add_mangled_name(MangledName::new(ScopeId::new(4), "f", 1, "x", 1));
    assert_eq!(s.local_mangled_names.len(), 1);
}

#[test]
fn mangled_names_print_their_parts() {
    assert_eq!(MangledName::new(ScopeId::new(1), "global", 1, "x", 1).display(), "1_global_x");
    assert_eq!(MangledName::new(ScopeId::new(2), "main", 1, "y", 3).display(), "2_main_1_y:3");
}

#[test]
fn scalars_are_shared_in_the_pool() {
    let mut pool = WindValuePool::new();
    let a = pool.scalar("1", Some(WindResolvedType::Int));
    let b = pool.scalar("1", Some(WindResolvedType::Int));
    let c = pool.scalar("2", Some(WindResolvedType::Int));
    assert_eq!(a, b);
    assert_ne!(a, c);
    assert_eq!(pool.values.len(), 2);
    assert_eq!(pool.get(a).map(|v| v.ref_count), Some(0));
}

#[test]
fn references_count_in_the_pool() {
    let mut pool = WindValuePool::new();
    let v = pool.new_allocated(None);
    assert_eq!(v.get(), 1);
    let r = pool.new_reference(v, None);
    assert_eq!(r.get(), 2);
    assert_eq!(pool.get(v).map(|i| i.ref_count), Some(1));
    assert_eq!(pool.get(r).map(|i| i.kind), Some(ValueKind::Reference { target: v }));
    pool.inc_ref(v);
    assert!(!pool.dec_ref(v));
    assert!(pool.dec_ref(v));
    assert!(pool.dec_ref(v));
    assert_eq!(pool.get(v).map(|i| i.ref_count), Some(0));
    assert!(pool.dec_ref(ValueId::new(99)));
    let c = pool.new_copy_of(v, Some(WindResolvedType::Bool));
    assert_eq!(pool.get(c).map(|i| i.kind), Some(ValueKind::Copied));
    if let Some(info) = pool.get_mut(c) {
        info.ref_count = 5;
    }
    assert_eq!(pool.get(c).map(|i| i.ref_count), Some(5));
    assert!(pool.get(ValueId::new(0)).is_none());
    assert!(pool.get_mut(ValueId::new(42)).is_none());
}

#[test]
fn the_counting_pool_starts_values_with_a_reference() {
    let mut pool = ValuePool::new();
    let a = pool.scalar("x", None);
    assert_eq!(pool.get(a).map(|v| v.ref_count), Some(1));
    let b = pool.scalar("x", None);
    assert_eq!(a, b);
    assert_eq!(pool.get(a).map(|v| v.ref_count), Some(2));
    let h = pool.new_allocated(None);
    assert_eq!(pool.get(h).map(|v| v.ref_count), Some(1));
    let c = pool.new_copy_of(h, None);
    assert_eq!(pool.get(c).map(|v| v.ref_count), Some(1));
    let r = pool.new_reference(h, None);
    assert_eq!(pool.get(r).map(|v| v.ref_count), Some(0));
    assert_eq!(pool.get(h).map(|v| v.ref_count), Some(2));
    pool.inc_ref(h);
    assert!(!pool.dec_ref(h));
    if let Some(info) = pool.get_mut(h) {
        info.ref_count = 1;
    }
    assert!(pool.dec_ref(h));
    assert_eq!(pool.values.len(), 4);
}

#[test]
fn binding_moves_references_between_values() {
    let mut pool = WindValuePool::new();
    let mut b = Bindings::new();
    let v1 = pool.new_allocated(None);
    let v2 = pool.new_allocated(None);
    let x = MangledName::new(ScopeId::new(2), "main", 1, "x", 1);
    let y = MangledName::new(ScopeId::new(2), "main", 1, "y", 1);
    assert_eq!(b.bind(x.clone(), v1, &mut pool), None);
    assert_eq!(b.bind(y.clone(), v1, &mut pool), None);
    assert_eq!(b.lookup(&x), Some(v1));
    assert_eq!(b.get_names_for_value(v1).len(), 2);
    assert_eq!(pool.get(v1).map(|i| i.ref_count), Some(2));
    assert_eq!(b.bind(x.clone(), v2, &mut pool), None);
    assert_eq!(b.get_names_for_value(v1).len(), 1);
    assert_eq!(b.get_names_for_value(v2).len(), 1);
    assert_eq!(b.bind(y.clone(), v2, &mut pool), Some(v1));
    assert!(b.get_names_for_value(v1).is_empty());
    assert_eq!(b.unbind(&x, &mut pool), Some(v2));
    assert_eq!(b.lookup(&x), None);
    assert_eq!(b.unbind(&x, &mut pool), None);
    assert_eq!(pool.get(v2).map(|i| i.ref_count), Some(1));
}

#[test]
fn leaving_a_scope_reports_dead_values() {
    let mut pool = WindValuePool::new();
    let mut b = Bindings::new();
    let v1 = pool.new_allocated(None);
    let v2 = pool.new_allocated(None);
    let x = MangledName::new(ScopeId::new(2), "main", 1, "x", 1);
    let y = MangledName::new(ScopeId::new(2), "main", 1, "y", 1);
    let z = MangledName::new(ScopeId::new(2), "main", 1, "z", 1);
    b.bind(x.clone(), v1, &mut pool);
    b.bind(y.clone(), v2, &mut pool);
    b.bind(z.clone(), v2, &mut pool);
    let dead = b.unbind_all_in_scope(&[x.clone(), y.clone(), z.clone()], &mut pool);
    assert_eq!(dead.len(), 2);
    assert_eq!(dead[0].0.display(), "2_main_1_x:1");
    assert_eq!(dead[0].1, v1);
    assert_eq!(dead[1].0.display(), "2_main_1_z:1");
    assert_eq!(dead[1].1, v2);
    assert_eq!(b.lookup(&y), None);
}

#[test]
fn resolved_types_print_their_names() {
    assert_eq!(WindResolvedType::Vec(Box::new(WindResolvedType::Int)).display_name(), "vec<int>");
    assert_eq!(
        WindResolvedType::MapType(Box::new(WindResolvedType::String), Box::new(WindResolvedType::Int)).display_name(),
        "map<string, int>"
    );
    assert_eq!(
        WindResolvedType::Function {
            params: vec![WindResolvedType::Int, WindResolvedType::Bool],
            ret: Box::new(WindResolvedType::Char)
        }
        .display_name(),
        "fn(int, bool) -> char"
    );
    assert_eq!(WindResolvedType::Tuple(vec![WindResolvedType::Int, WindResolvedType::Float]).display_name(), "(int, float)");
    assert_eq!(WindResolvedType::SetType(Box::new(WindResolvedType::Byte)).display_name(), "set<byte>");
    assert_eq!(WindResolvedType::NoneType.display_name(), "None");
    assert_eq!(WindResolvedType::Struct("P".to_string()).display_name(), "P");
    assert_eq!(WindResolvedType::Unknown.display_name(), "<unknown>");
    assert_eq!(WindResolvedType::Error.display_name(), "<error>");
}

#[test]
fn builtin_names_round_trip() {
    for name in ["int", "float", "string", "char", "bool", "None", "byte", "tag"] {
        let t = WindResolvedType::from_builtin_name(name).expect("a built-in name");
        assert!(t.is_builtin());
        assert_eq!(t.display_name(), name);
    }
    assert!(WindResolvedType::from_builtin_name("vec").is_none());
    assert!(WindResolvedType::from_builtin_name("Int").is_none());
}

#[test]
fn type_classes() {
    assert!(WindResolvedType::Vec(Box::new(WindResolvedType::Int)).is_container());
    assert!(!WindResolvedType::Int.is_container());
    assert!(WindResolvedType::Int.is_value_type());
    assert!(!WindResolvedType::String.is_value_type());
    assert!(!WindResolvedType::Tag.is_value_type());
    assert!(WindResolvedType::Tag.is_builtin());
    assert!(!WindResolvedType::Struct("S".to_string()).is_builtin());
}

#[test]
fn recorded_types_print_as_written() {
    let written = WindType::Fn {
        params: vec![
            WindType::Generic { base: "vec".to_string(), args: vec![WindType::Named("string".to_string())] },
            WindType::SelfType,
        ],
        ret: Box::new(WindType::Named("int".to_string())),
    };
    let recorded = WindTypeRef::from_ast(&written);
    assert_eq!(recorded.display_name(), "fn(vec<string>, Self) -> int");
    assert_eq!(written.to_text(), recorded.display_name());
}

#[test]
fn which_clauses_are_recorded() {
    let clause = WindWhichClause { method: "m".to_string(), after: vec!["a".to_string(), "::b".to_string()] };
    let r = WindWhichClauseRef::from_ast(&clause);
    assert_eq!(r.method, "m");
    assert_eq!(r.after, vec!["a".to_string(), "::b".to_string()]);
}

#[test]
fn symbols_go_by_their_names() {
    assert_eq!(var("v", 1).name(), "v");
    let extra = Symbol::Extra { name: None, target_struct: "S".to_string(), functions: vec![] };
    assert_eq!(extra.name(), "<anonymous>");
    let imp = Symbol::Impl { trait_name: "T".to_string(), target_struct: "S".to_string(), functions: vec![] };
    assert_eq!(imp.name(), "T");
}

#[test]
fn errors_with_and_without_spans() {
    let e = SemanticError::new("m".to_string());
    assert_eq!(e.span, None);
    let f = SemanticError::with_span("n".to_string(), 2, 5);
    assert_eq!(f.span, Some((2, 5)));
    assert_eq!(f.message, "n");
}

#[test]
fn ids_keep_their_numbers() {
    assert_eq!(ScopeId::new(3).get(), 3);
    assert_eq!(TypeId::new(4).get(), 4);
    assert_eq!(FnSignatureId::new(5).get(), 5);
    assert_eq!(StructId::new(6).get(), 6);
    assert_eq!(TraitId::new(7).get(), 7);
    assert_eq!(EnumId::new(8).get(), 8);
    assert_eq!(ConditionId::new(9).get(), 9);
    assert_eq!(WindStructId::new(10).get(), 10);
    assert_eq!(WindTraitId::new(11).get(), 11);
    assert_eq!(WindTypeId::new(12).get(), 12);
}

#[test]
fn a_bound_name_survives_calls_about_other_names() {
    let mut pool = WindValuePool::new();
    let mut b = Bindings::new();
    let v1 = pool.new_allocated(None);
    let v2 = pool.new_allocated(None);
    let x = MangledName::new(ScopeId::new(2), "main", 1, "x", 1);
    let y = MangledName::new(ScopeId::new(2), "main", 1, "y", 1);
    b.bind(x.clone(), v1, &mut pool);
    b.bind(y.clone(), v2, &mut pool);
    b.unbind(&y, &mut pool);
    b.bind(y.clone(), v1, &mut pool);
    assert_eq!(b.lookup(&x), Some(v1));
    b.unbind(&x, &mut pool);
    assert_eq!(b.lookup(&x), None);
}
