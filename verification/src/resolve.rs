use vstd::prelude::*;
use crate::ast::WindAssignOp;
use crate::ast::WindExpr;
use crate::ast::WindProgram;
use crate::ast::WindStmt;
use crate::bindings::bind_effect;
use crate::bindings::unbind_effect;
use crate::bindings::unbind_all_effect;
use crate::bindings::NameView;
use crate::scope::symbol_inserted;
use crate::scope::name_added;
use crate::scope::scope_popped;
use crate::sema::type_ref_of;
use crate::ast::WindType;
use crate::ast::WindFnParam;
use crate::bindings::unbind_all;
use crate::bindings::unbind_step;
use crate::bindings::UnbindState;
use crate::gather::GatherContext;
use crate::ids::ScopeId;
use crate::ids::ValueId;
use crate::constraint::error_views;
use crate::constraint::ErrorView;
use crate::scope::scope_pushed;
use crate::scope::ScopeTree;
use crate::sema::MangledName;
use crate::sema::ScopeKind;
use crate::sema::SemanticError;
use crate::sema::StorageClass;
use crate::sema::Symbol;
use crate::sema::WindResolvedType;
use crate::sema::WindTypeRef;
use crate::text::find_bytes;
use crate::text::find_from;
use crate::text::i64_to_string;
use crate::text::push_str;
use crate::text::signed_decimal;
use crate::text::str_eq;
use crate::text::string_of;
use crate::sema::ValueInfo;
use crate::sema::ValueKind;
use crate::value_pool::scalar_taken;
use crate::value_pool::WindValuePool;

verus! {

/// The counter after one more step; past the largest value it starts again at zero.
pub open spec fn next_count(n: u64) -> u64 {
    if n < u64::MAX {
        (n + 1) as u64
    } else {
        0
    }
}

fn next_counter(n: u64) -> (r: u64)
    ensures
        r == next_count(n),
{
    if n < u64::MAX {
        n + 1
    } else {
        0
    }
}

/// `b` is `a` with more values: the values of `a` keep their kind and type, and the literals
/// that `a` knew keep their value.
pub open spec fn pool_extends(a: WindValuePool, b: WindValuePool) -> bool {
    &&& a.values@.len() <= b.values@.len()
    &&& forall|i: int| 0 <= i < a.values@.len() ==> (#[trigger] b.values@[i]).kind == a.values@[i].kind
        && b.values@[i].ty == a.values@[i].ty
    &&& forall|k: Seq<char>| #[trigger] a.scalar_cache@.contains_key(k) ==> b.scalar_cache@.contains_key(k)
        && b.scalar_cache@[k] == a.scalar_cache@[k]
}

/// `b` is `a` with more scopes and the same current scope; the scopes of `a` keep their
/// kind and parent.
pub open spec fn tree_extends(a: ScopeTree, b: ScopeTree) -> bool {
    &&& b.current == a.current
    &&& a.scopes@.len() <= b.scopes@.len()
    &&& forall|i: int| 0 <= i < a.scopes@.len() ==> (#[trigger] b.scopes@[i]).parent == a.scopes@[i].parent
        && b.scopes@[i].kind == a.scopes@[i].kind
}

/// The span of the first occurrence of `label` in the source, in bytes, when there is a source
/// and the label occurs in it.
pub open spec fn label_span(source: Option<String>, label: Seq<char>) -> Option<(usize, usize)> {
    match source {
        Some(s) => match find_from(vstd::utf8::encode_utf8(s@), vstd::utf8::encode_utf8(label), 0) {
            Some(p) => Some((p as usize, (p + vstd::utf8::encode_utf8(label).len()) as usize)),
            None => None,
        },
        None => None,
    }
}

/// The names that stand for the receiver of a method.
pub open spec fn is_self_name(name: Seq<char>) -> bool {
    name == "self"@ || name == "this"@ || name == "it"@
}

/// The message for a reassignment of an immutable variable.
pub open spec fn reassign_text(name: Seq<char>, storage: StorageClass) -> Seq<char> {
    "Cannot reassign to "@ + name + ". "@ + (if storage == StorageClass::Const {
        "Const"@
    } else {
        "Constatic"@
    }) + " variables are immutable."@
}

/// The message for an apply whose group is unknown.
pub open spec fn missing_group_text(group: Seq<char>, target: Seq<char>) -> Seq<char> {
    "Group '"@ + group + "' not found (referenced in @"@ + target + " apply)."@
}

/// The message for an apply whose target is unknown.
pub open spec fn missing_target_text(target: Seq<char>, group: Seq<char>) -> Seq<char> {
    "Target struct '"@ + target + "' not found for @"@ + group + "."@
}

/// The name lookup pass: it walks the program, declares and binds variables, and reports
/// references to unknown groups and writes to immutable variables.
#[derive(Debug)]
pub struct Resolver {
    pub errors: Vec<SemanticError>,
    pub current_fn_name: String,
    pub current_fn_scope_id: ScopeId,
    pub current_subscope_counter: u64,
    pub source: Option<String>,
}

/// The function, scope and sub-scope that the resolver stands in are the same.
pub open spec fn same_frame(a: Resolver, b: Resolver) -> bool {
    &&& a.current_fn_name == b.current_fn_name
    &&& a.current_fn_scope_id == b.current_fn_scope_id
    &&& a.current_subscope_counter == b.current_subscope_counter
    &&& a.source == b.source
}

/// The errors of `b` start with those of `a`.
pub open spec fn errors_extend(a: Resolver, b: Resolver) -> bool {
    &&& a.errors@.len() <= b.errors@.len()
    &&& forall|i: int| 0 <= i < a.errors@.len() ==> #[trigger] b.errors@[i] == a.errors@[i]
}

/// What resolving any part of a program keeps: well-formed shared state, the same current scope,
/// older scopes and values as they were, the resolver back in its frame, and earlier errors kept.
pub open spec fn resolve_frame(r0: Resolver, c0: GatherContext, r1: Resolver, c1: GatherContext) -> bool {
    &&& c1.wf()
    &&& tree_extends(c0.scope_tree, c1.scope_tree)
    &&& pool_extends(c0.value_pool, c1.value_pool)
    &&& c1.errors == c0.errors
    &&& c1.dead_values == c0.dead_values
    &&& c1.value_names == c0.value_names
    &&& same_frame(r0, r1)
    &&& errors_extend(r0, r1)
}

/// Unbinding names one after another leaves none of them bound.
proof fn lemma_unbind_all_unbinds(st: UnbindState, names: Seq<MangledName>)
    ensures
        forall|i: int| 0 <= i < names.len() ==> !(#[trigger] unbind_all(st, names).names.contains_key(names[i]@)),
        forall|k: (u64, Seq<char>, u64, Seq<char>, u64)| #[trigger] unbind_all(st, names).names.contains_key(k)
            ==> st.names.contains_key(k) && unbind_all(st, names).names[k] == st.names[k],
    decreases names.len(),
{
    if names.len() > 0 {
        let prev = unbind_all(st, names.drop_last());
        lemma_unbind_all_unbinds(st, names.drop_last());
        assert forall|i: int| 0 <= i < names.len() implies !(#[trigger] unbind_all(st, names).names.contains_key(names[i]@)) by {
            if i < names.len() - 1 {
                assert(names.drop_last()[i] == names[i]);
                assert(!prev.names.contains_key(names[i]@));
            }
        }
    }
}

/// What resolving the name `name` does, from resolver `r0` and context `c0` to context `c1`,
/// with `vid` the value it gives: `self`, `this` and `it` read the receiver's binding; a variable
/// gives its bound value (and nothing changes), or a new one bound to it; another symbol gives a new value; an unknown
/// name is declared in the current scope and bound to a new value.
pub open spec fn ident_resolved(r0: Resolver, c0: GatherContext, c1: GatherContext, name: Seq<char>, vid: ValueId) -> bool {
    let b0 = c0.bindings.name_to_value@;
    let b1 = c1.bindings.name_to_value@;
    let fresh = vid@ == c0.value_pool.next_id();
    if is_self_name(name) {
        let m = (r0.current_fn_scope_id@, r0.current_fn_name@, 0u64, "self"@, 1u64);
        &&& b1 == b0
        &&& if b0.contains_key(m) { vid == b0[m] && c1 == c0 } else { fresh }
    } else {
        match c0.scope_tree.resolve(name) {
            Some(Symbol::Variable { mangled_name, .. }) => if b0.contains_key(mangled_name@) {
                vid == b0[mangled_name@] && c1 == c0
            } else {
                fresh && b1 == b0.insert(mangled_name@, vid)
            },
            Some(_) => fresh && b1 == b0,
            None => {
                let m = (r0.current_fn_scope_id@, r0.current_fn_name@,
                    r0.current_subscope_counter, name, 1u64);
                &&& fresh
                &&& b1 == b0.insert(m, vid)
                &&& c1.scope_tree.cur().symbols@.contains_key(name)
                &&& c1.scope_tree.cur().local_mangled_names@.last()@ == m
            },
        }
    }
}

/// After `let name = ...` resolved from resolver `r0`, context `c1` binds the name's first
/// version in the resolver's function and sub-scope to a value of the pool, and the current
/// scope declares it as that mutable `let` variable, its newest local name.
pub open spec fn let_bound(r0: Resolver, c1: GatherContext, name: Seq<char>) -> bool {
    let m = (r0.current_fn_scope_id@, r0.current_fn_name@, r0.current_subscope_counter, name, 1u64);
    &&& c1.bindings.name_to_value@.contains_key(m)
    &&& c1.value_pool.holds(c1.bindings.name_to_value@[m])
    &&& c1.scope_tree.cur().symbols@.contains_key(name)
    &&& c1.scope_tree.cur().symbols@[name] matches Symbol::Variable { mangled_name, mutable, storage_class, .. }
        && mangled_name@ == m && mutable && storage_class == StorageClass::Let
    &&& c1.scope_tree.cur().local_mangled_names@.last()@ == m
}

/// What giving the name `target` the value `value` does, from resolver `r0` and context `c0` to
/// `r1` and `c1`: a `const` or `constatic` variable is reported and keeps its binding; another
/// variable gets a new version, bound to `value` in place of the old one and declared as a
/// mutable `let`; a name that denotes no variable is left alone.
pub open spec fn rebound(r0: Resolver, c0: GatherContext, r1: Resolver, c1: GatherContext, target: Seq<char>, value: ValueId) -> bool {
    match c0.scope_tree.resolve(target) {
        Some(Symbol::Variable { mangled_name, storage_class, .. }) => {
            if storage_class == StorageClass::Const || storage_class == StorageClass::Constatic {
                &&& r1.errors@ == r0.errors@.push(SemanticError {
                    message: r1.errors@.last().message,
                    span: None,
                })
                &&& r1.errors@.last().message@ == reassign_text(target, storage_class)
                &&& c1 == c0
            } else {
                let m = mangled_name@;
                let nm = (m.0, r0.current_fn_name@, m.2, target, next_count(m.4));
                &&& r1.errors == r0.errors
                &&& c1.bindings.name_to_value@
                    == c0.bindings.name_to_value@.remove(m).insert(nm, value)
                &&& c1.scope_tree.cur().symbols@[target] matches Symbol::Variable {
                    mangled_name: n2, storage_class: s2, mutable: m2, .. }
                    && n2@ == nm && s2 == StorageClass::Let && m2
                &&& c1.scope_tree.cur().local_mangled_names@ == c0.scope_tree.cur().local_mangled_names@.push(
                    c1.scope_tree.cur().local_mangled_names@.last())
                &&& c1.scope_tree.cur().local_mangled_names@.last()@ == nm
            }
        },
        _ => r1.errors == r0.errors && c1 == c0,
    }
}

/// The resolver `rm`, the context `cm` and the value `v` with which an assignment with `op`
/// and right-hand side `value` rebinds its target, reached from `r0` and `c0`: for `=` the value
/// of the right-hand side; for `<-` and `->` a new copy made after resolving it; for a compound
/// operator a new value, the right-hand side left unresolved.
pub open spec fn assigned(r0: Resolver, c0: GatherContext, op: WindAssignOp, value: WindExpr,
    rm: Resolver, cm: GatherContext, v: ValueId) -> bool {
    match op {
        WindAssignOp::Direct => value_resolved(r0, c0, rm, cm, value, v),
        WindAssignOp::LeftAbs | WindAssignOp::RightAbs => exists|c_mid: GatherContext, src: ValueId|
            #[trigger] value_resolved(r0, c0, rm, c_mid, value, src) && {
                &&& cm == (GatherContext { value_pool: cm.value_pool, ..c_mid })
                &&& v@ == c_mid.value_pool.next_id()
                &&& cm.value_pool.values@ == c_mid.value_pool.values@.push(
                    ValueInfo { id: v, ty: None, kind: ValueKind::Copied, ref_count: 0 })
                &&& cm.value_pool.scalar_cache == c_mid.value_pool.scalar_cache
            },
        _ => {
            &&& rm == r0
            &&& cm == (GatherContext { value_pool: cm.value_pool, ..c0 })
            &&& v@ == c0.value_pool.next_id()
            &&& cm.value_pool.values@ == c0.value_pool.values@.push(
                ValueInfo { id: v, ty: None, kind: ValueKind::Allocated, ref_count: 0 })
            &&& cm.value_pool.scalar_cache == c0.value_pool.scalar_cache
        },
    }
}

/// Resolving a literal with text `text` and type `ty`: only the value pool changes, and the
/// literal takes the shared scalar of its text (a new scalar when the text is not cached yet).
pub open spec fn literal_resolved(r0: Resolver, c0: GatherContext, r1: Resolver, c1: GatherContext,
    text: Seq<char>, ty: Option<WindResolvedType>, vid: ValueId) -> bool {
    &&& r1 == r0
    &&& c1 == (GatherContext { value_pool: c1.value_pool, ..c0 })
    &&& scalar_taken(c0.value_pool, c1.value_pool, text, ty, vid)
}

/// What resolving the expression `e` does, from `r0` and `c0` to `r1` and `c1`, with `vid` the
/// value it stands for: the frame is kept and the scopes of `e` are opened; a literal takes the
/// shared scalar of its text and type; a name gives the value bound to it; a tag gives a new tag
/// value; a field access, a typed expression, a group or an unpacking gives the value of what it
/// holds; any other expression gives a new value.
pub open spec fn value_resolved(r0: Resolver, c0: GatherContext, r1: Resolver, c1: GatherContext, e: WindExpr, vid: ValueId) -> bool {
    &&& scopes_opened(c0.scope_tree, c1.scope_tree, expr_scopes(e))
    &&& resolve_frame(r0, c0, r1, c1)
    &&& c1.value_pool.holds(vid)
    &&& match e {
        WindExpr::IntLiteral(n) => literal_resolved(r0, c0, r1, c1, signed_decimal(n as int), Some(WindResolvedType::Int), vid),
        WindExpr::FloatLiteral(t) => literal_resolved(r0, c0, r1, c1, t@, Some(WindResolvedType::Float), vid),
        WindExpr::StringLiteral(t) => literal_resolved(r0, c0, r1, c1, t@, Some(WindResolvedType::String), vid),
        WindExpr::CharLiteral(t) => literal_resolved(r0, c0, r1, c1, t@, Some(WindResolvedType::Char), vid),
        WindExpr::BoolLiteral(b) => literal_resolved(r0, c0, r1, c1, if b { "true"@ } else { "false"@ },
            Some(WindResolvedType::Bool), vid),
        WindExpr::NoneLiteral => literal_resolved(r0, c0, r1, c1, "None"@, Some(WindResolvedType::NoneType), vid),
        WindExpr::Identifier(name) => r1 == r0 && ident_resolved(r0, c0, c1, name@, vid),
        WindExpr::TagExpr { .. } => newest_value(c1, vid, Some(WindResolvedType::Tag)),
        WindExpr::FieldAccess { .. } | WindExpr::TypeExpr { .. } | WindExpr::Group(_) | WindExpr::Unpack(_) => true,
        _ => newest_value(c1, vid, None),
    }
}

/// Resolving the expression `e` reports nothing: it holds no tag whose body reports.
pub open spec fn silent_expr(e: WindExpr) -> bool
    decreases e,
{
    match e {
        WindExpr::Binary { left, right, .. } => silent_expr(*left) && silent_expr(*right),
        WindExpr::Unary { expr, .. } => silent_expr(*expr),
        WindExpr::Call { callee, args } => silent_expr(*callee) && forall|i: int| 0 <= i < args@.len() ==> silent_expr(#[trigger] args@[i]),
        WindExpr::FieldAccess { object, .. } => silent_expr(*object),
        WindExpr::Index { expr, index } => silent_expr(*expr) && silent_expr(*index),
        WindExpr::ScopeRef { object, .. } => silent_expr(*object),
        WindExpr::TypeExpr { expr, .. } => silent_expr(*expr),
        WindExpr::Group(x) => silent_expr(*x),
        WindExpr::MapLiteral(ps) => forall|i: int| 0 <= i < ps@.len() ==> silent_expr(#[trigger] ps@[i].0) && silent_expr(ps@[i].1),
        WindExpr::ArrayLiteral(es) => forall|i: int| 0 <= i < es@.len() ==> silent_expr(#[trigger] es@[i]),
        WindExpr::IfExpr { condition, then_branch, else_branch } => silent_expr(*condition) && silent_expr(*then_branch)
            && match else_branch {
                Some(x) => silent_expr(*x),
                None => true,
            },
        WindExpr::TagExpr { body, .. } => forall|i: int| 0 <= i < body@.len() ==> silent_stmt(#[trigger] body@[i]),
        WindExpr::Unpack(x) => silent_expr(*x),
        WindExpr::StructLiteral { fields, .. } => forall|i: int| 0 <= i < fields@.len() ==> silent_expr(#[trigger] fields@[i].1),
        _ => true,
    }
}

/// Resolving the statement `s` reports nothing: it holds no assignment and no apply statement,
/// the only statements whose resolution reports.
pub open spec fn silent_stmt(s: WindStmt) -> bool
    decreases s,
{
    match s {
        WindStmt::Let { value, .. } => silent_expr(*value),
        WindStmt::Assignment { .. } => false,
        WindStmt::Apply { .. } => false,
        WindStmt::Expr(e) => silent_expr(*e),
        WindStmt::Block(ss) => forall|i: int| 0 <= i < ss@.len() ==> silent_stmt(#[trigger] ss@[i]),
        WindStmt::If { condition, then_branch, elif_branches, else_branch } => silent_expr(*condition)
            && silent_stmt(*then_branch)
            && (forall|i: int| 0 <= i < elif_branches@.len() ==> silent_expr(#[trigger] elif_branches@[i].0)
                && silent_stmt(elif_branches@[i].1))
            && match else_branch {
                Some(b) => silent_stmt(*b),
                None => true,
            },
        WindStmt::For { init, condition, update, body } => silent_opt(init) && silent_opt(condition)
            && silent_opt(update) && silent_stmt(*body),
        WindStmt::ForIn { iterable, body, .. } => silent_expr(*iterable) && silent_stmt(*body),
        WindStmt::While { condition, body } => silent_expr(*condition) && silent_stmt(*body),
        WindStmt::Return(e) => silent_opt(e),
        WindStmt::FnDef { body, .. } => silent_stmt(*body),
        _ => true,
    }
}

/// Resolving an optional expression reports nothing.
pub open spec fn silent_opt(e: Option<Box<WindExpr>>) -> bool
    decreases e,
{
    match e {
        Some(x) => silent_expr(*x),
        None => true,
    }
}

/// Resolving the statements `ss` reports nothing.
pub open spec fn silent_stmts(ss: Seq<WindStmt>) -> bool {
    forall|i: int| 0 <= i < ss.len() ==> silent_stmt(#[trigger] ss[i])
}

/// Resolving the entries of a map literal reports nothing.
pub open spec fn silent_pairs(ps: Seq<(WindExpr, WindExpr)>) -> bool {
    forall|k: int| 0 <= k < ps.len() ==> silent_expr(#[trigger] ps[k].0) && silent_expr(ps[k].1)
}

/// Resolving the `elif` branches reports nothing.
pub open spec fn silent_elifs(es: Seq<(WindExpr, WindStmt)>) -> bool {
    forall|k: int| 0 <= k < es.len() ==> silent_expr(#[trigger] es[k].0) && silent_stmt(es[k].1)
}

/// The errors that `Group@target -> {..}` reports, from resolver `r0` in context `c0`: one when
/// no scope knows the group, then one when no scope knows the target, each spanning the first
/// occurrence of its name.
pub open spec fn apply_reports(r0: Resolver, c0: GatherContext, group: Seq<char>, target: Seq<char>) -> Seq<ErrorView> {
    (if c0.scope_tree.resolve(group) is None {
        seq![(missing_group_text(group, target), label_span(r0.source, group))]
    } else {
        seq![]
    }) + (if c0.scope_tree.resolve(target) is None {
        seq![(missing_target_text(target, group), label_span(r0.source, target))]
    } else {
        seq![]
    })
}

/// `vid` is the newest value of the context's pool: allocated, of type `ty`, with no reference.
pub open spec fn newest_value(c: GatherContext, vid: ValueId, ty: Option<WindResolvedType>) -> bool {
    &&& c.value_pool.values@.len() == vid@
    &&& c.value_pool.values@.last() == ValueInfo { id: vid, ty, kind: ValueKind::Allocated, ref_count: 0 }
}

/// `t1` holds the scopes of `t0` followed by new scopes, one for each entry of `ks` in order:
/// an entry gives the kind of the scope and its parent, `None` for the scope current in `t0`
/// and `Some(k)` for the new scope at `k` in `ks`.
pub open spec fn scopes_opened(t0: ScopeTree, t1: ScopeTree, ks: Seq<(ScopeKind, Option<int>)>) -> bool {
    &&& t1.scopes@.len() == t0.scopes@.len() + ks.len()
    &&& forall|j: int| t0.scopes@.len() <= j < t1.scopes@.len() ==> {
        let o = ks[j - t0.scopes@.len()];
        &&& (#[trigger] t1.scopes@[j]).kind == o.0
        &&& t1.scopes@[j].parent matches Some(p) && p@ == match o.1 {
            None => t0.current@ as int,
            Some(k) => t0.scopes@.len() + k + 1,
        }
    }
}

/// The scopes opened by one step and then by another, from the same current scope: the second
/// step's own scopes come after the first's.
pub open spec fn join(a: Seq<(ScopeKind, Option<int>)>, b: Seq<(ScopeKind, Option<int>)>) -> Seq<(ScopeKind, Option<int>)> {
    a + b.map_values(|o: (ScopeKind, Option<int>)| (o.0, match o.1 {
        Some(k) => Some(k + a.len()),
        None => None,
    }))
}

/// A new scope of `kind` under the current one, holding the scopes `s` opened inside it.
pub open spec fn nest(kind: ScopeKind, s: Seq<(ScopeKind, Option<int>)>) -> Seq<(ScopeKind, Option<int>)> {
    seq![(kind, None::<int>)] + s.map_values(|o: (ScopeKind, Option<int>)| (o.0, match o.1 {
        Some(k) => Some(k + 1),
        None => Some(0int),
    }))
}

/// The scopes that resolving the expression `e` opens, in the order it opens them: a tag opens
/// a block for its body.
pub open spec fn expr_scopes(e: WindExpr) -> Seq<(ScopeKind, Option<int>)>
    decreases e,
{
    match e {
        WindExpr::Binary { left, right, .. } => join(expr_scopes(*left), expr_scopes(*right)),
        WindExpr::Unary { expr, .. } => expr_scopes(*expr),
        WindExpr::Call { callee, args } => join(expr_scopes(*callee), exprs_scopes(args@)),
        WindExpr::FieldAccess { object, .. } => expr_scopes(*object),
        WindExpr::Index { expr, index } => join(expr_scopes(*expr), expr_scopes(*index)),
        WindExpr::ScopeRef { object, .. } => expr_scopes(*object),
        WindExpr::TypeExpr { expr, .. } => expr_scopes(*expr),
        WindExpr::Group(x) => expr_scopes(*x),
        WindExpr::MapLiteral(ps) => pairs_scopes(ps@),
        WindExpr::ArrayLiteral(es) => exprs_scopes(es@),
        WindExpr::IfExpr { condition, then_branch, else_branch } => join(
            join(expr_scopes(*condition), expr_scopes(*then_branch)),
            opt_scopes(else_branch),
        ),
        WindExpr::TagExpr { body, .. } => nest(ScopeKind::Block, stmts_scopes(body@)),
        WindExpr::Unpack(x) => expr_scopes(*x),
        WindExpr::StructLiteral { fields, .. } => named_scopes(fields@),
        _ => seq![],
    }
}

/// The scopes that resolving an optional expression opens.
pub open spec fn opt_scopes(e: Option<Box<WindExpr>>) -> Seq<(ScopeKind, Option<int>)>
    decreases e,
{
    match e {
        Some(x) => expr_scopes(*x),
        None => seq![],
    }
}

/// The scopes that resolving a list of expressions opens, one after the other.
pub open spec fn exprs_scopes(s: Seq<WindExpr>) -> Seq<(ScopeKind, Option<int>)>
    decreases s,
{
    if s.len() == 0 {
        seq![]
    } else {
        join(exprs_scopes(s.drop_last()), expr_scopes(s.last()))
    }
}

/// The scopes that resolving the entries of a map literal opens, key before value.
pub open spec fn pairs_scopes(s: Seq<(WindExpr, WindExpr)>) -> Seq<(ScopeKind, Option<int>)>
    decreases s,
{
    if s.len() == 0 {
        seq![]
    } else {
        join(pairs_scopes(s.drop_last()), join(expr_scopes(s.last().0), expr_scopes(s.last().1)))
    }
}

/// The scopes that resolving the field values of a struct literal opens.
pub open spec fn named_scopes(s: Seq<(String, WindExpr)>) -> Seq<(ScopeKind, Option<int>)>
    decreases s,
{
    if s.len() == 0 {
        seq![]
    } else {
        join(named_scopes(s.drop_last()), expr_scopes(s.last().1))
    }
}

/// The scopes that resolving the `elif` branches opens, condition before branch.
pub open spec fn elifs_scopes(s: Seq<(WindExpr, WindStmt)>) -> Seq<(ScopeKind, Option<int>)>
    decreases s,
{
    if s.len() == 0 {
        seq![]
    } else {
        join(elifs_scopes(s.drop_last()), join(expr_scopes(s.last().0), stmt_scopes(s.last().1)))
    }
}

/// The scopes that resolving the statements opens, one after the other.
pub open spec fn stmts_scopes(s: Seq<WindStmt>) -> Seq<(ScopeKind, Option<int>)>
    decreases s,
{
    if s.len() == 0 {
        seq![]
    } else {
        join(stmts_scopes(s.drop_last()), stmt_scopes(s.last()))
    }
}

/// The scopes that resolving the statement `s` opens, in the order it opens them: a block opens
/// a block scope; a counting `for` opens one for its body and update; a function opens a
/// function scope for its body.
pub open spec fn stmt_scopes(s: WindStmt) -> Seq<(ScopeKind, Option<int>)>
    decreases s,
{
    match s {
        WindStmt::Let { value, .. } => expr_scopes(*value),
        WindStmt::Assignment { target, op, value } => {
            // Only a name or a field is assigned: an index or another target is resolved and the
            // value is not; a compound operator does not resolve its value either.
            let v = match op {
                WindAssignOp::Direct | WindAssignOp::LeftAbs | WindAssignOp::RightAbs => expr_scopes(*value),
                _ => seq![],
            };
            match *target {
                WindExpr::Identifier(_) => v,
                WindExpr::FieldAccess { object, .. } => join(expr_scopes(*object), v),
                WindExpr::Index { expr, index } => join(expr_scopes(*expr), expr_scopes(*index)),
                _ => expr_scopes(*target),
            }
        },
        WindStmt::Expr(e) => expr_scopes(*e),
        WindStmt::Block(ss) => nest(ScopeKind::Block, stmts_scopes(ss@)),
        WindStmt::If { condition, then_branch, elif_branches, else_branch } => join(
            join(join(expr_scopes(*condition), stmt_scopes(*then_branch)), elifs_scopes(elif_branches@)),
            match else_branch {
                Some(b) => stmt_scopes(*b),
                None => seq![],
            },
        ),
        WindStmt::For { init, condition, update, body } => join(
            join(opt_scopes(init), opt_scopes(condition)),
            nest(ScopeKind::Block, join(stmt_scopes(*body), opt_scopes(update))),
        ),
        WindStmt::ForIn { iterable, body, .. } => join(expr_scopes(*iterable), stmt_scopes(*body)),
        WindStmt::While { condition, body } => join(expr_scopes(*condition), stmt_scopes(*body)),
        WindStmt::Return(e) => opt_scopes(e),
        WindStmt::FnDef { body, .. } => nest(ScopeKind::Function, stmt_scopes(*body)),
        _ => seq![],
    }
}

/// Opening `a` and then `b` from the same current scope opens `join(a, b)`, when the second step
/// keeps the kinds and parents of the scopes that were there.
proof fn lemma_scopes_then(t0: ScopeTree, t1: ScopeTree, t2: ScopeTree, a: Seq<(ScopeKind, Option<int>)>, b: Seq<(ScopeKind, Option<int>)>)
    requires
        scopes_opened(t0, t1, a),
        scopes_opened(t1, t2, b),
        tree_extends(t1, t2),
        t1.current == t0.current,
    ensures
        scopes_opened(t0, t2, join(a, b)),
{
    assert forall|j: int| t0.scopes@.len() <= j < t2.scopes@.len() implies {
        let o = join(a, b)[j - t0.scopes@.len()];
        &&& (#[trigger] t2.scopes@[j]).kind == o.0
        &&& t2.scopes@[j].parent matches Some(p) && p@ == match o.1 {
            None => t0.current@ as int,
            Some(k) => t0.scopes@.len() + k + 1,
        }
    } by {
        if j < t1.scopes@.len() {
            assert(t2.scopes@[j].kind == t1.scopes@[j].kind);
        } else {
            assert(t2.scopes@[j].kind == b[j - t1.scopes@.len()].0);
        }
    }
}

/// A step that keeps the number of scopes opens none.
proof fn lemma_scopes_none(t0: ScopeTree, t1: ScopeTree)
    requires
        t1.scopes@.len() == t0.scopes@.len(),
    ensures
        scopes_opened(t0, t1, seq![]),
{
}

/// Pushing a scope of `kind`, opening `s` inside it, and going back out with the scopes kept,
/// opens `nest(kind, s)`.
proof fn lemma_scopes_nest(t0: ScopeTree, tp: ScopeTree, t1: ScopeTree, t2: ScopeTree, kind: ScopeKind, s: Seq<(ScopeKind, Option<int>)>)
    requires
        scope_pushed(t0, tp, kind),
        scopes_opened(tp, t1, s),
        tree_extends(tp, t1),
        t2.scopes@ == t1.scopes@,
    ensures
        scopes_opened(t0, t2, nest(kind, s)),
{
    assert forall|j: int| t0.scopes@.len() <= j < t2.scopes@.len() implies {
        let o = nest(kind, s)[j - t0.scopes@.len()];
        &&& (#[trigger] t2.scopes@[j]).kind == o.0
        &&& t2.scopes@[j].parent matches Some(p) && p@ == match o.1 {
            None => t0.current@ as int,
            Some(k) => t0.scopes@.len() + k + 1,
        }
    } by {
        assert(t2.scopes@[j] == t1.scopes@[j]);
        if j == t0.scopes@.len() {
            assert(tp.scopes@[j] == tp.scopes@.last());
        } else {
            assert(t1.scopes@[j].kind == s[j - tp.scopes@.len()].0);
        }
    }
}

/// Names a choice of intermediate states, so that the steps of a relation can be matched.
pub open spec fn chosen<A>(a: A) -> bool {
    true
}

/// `c1` is `c0` with a new value `vid` of type `ty` and kind `kind`, without references.
pub open spec fn ctx_allocated(c0: GatherContext, c1: GatherContext, vid: ValueId, ty: Option<WindResolvedType>, kind: ValueKind) -> bool {
    &&& c1 == (GatherContext { value_pool: c1.value_pool, ..c0 })
    &&& vid@ == c0.value_pool.next_id()
    &&& c1.value_pool.values@ == c0.value_pool.values@.push(ValueInfo { id: vid, ty, kind, ref_count: 0 })
    &&& c1.value_pool.scalar_cache == c0.value_pool.scalar_cache
}

/// `c1` is `c0` with `name` bound to `v` as `Bindings::bind` binds it.
pub open spec fn ctx_bound(c0: GatherContext, c1: GatherContext, name: MangledName, v: ValueId) -> bool {
    &&& c1 == (GatherContext { bindings: c1.bindings, value_pool: c1.value_pool, ..c0 })
    &&& bind_effect(c0.bindings, c0.value_pool, c1.bindings, c1.value_pool, name, v)
}

/// `c1` is `c0` with `name` unbound as `Bindings::unbind` unbinds it.
pub open spec fn ctx_unbound(c0: GatherContext, c1: GatherContext, name: NameView) -> bool {
    &&& c1 == (GatherContext { bindings: c1.bindings, value_pool: c1.value_pool, ..c0 })
    &&& unbind_effect(c0.bindings, c0.value_pool, c1.bindings, c1.value_pool, name)
}

/// `c1` is `c0` with the local names of the scope numbered `id` unbound one after the other.
pub open spec fn ctx_scope_unbound(c0: GatherContext, c1: GatherContext, id: ScopeId) -> bool {
    &&& c1 == (GatherContext { bindings: c1.bindings, value_pool: c1.value_pool, ..c0 })
    &&& unbind_all_effect(c0.bindings, c0.value_pool, c1.bindings, c1.value_pool,
        c0.scope_tree.scopes@[id@ - 1].local_mangled_names@)
}

/// `c1` is `c0` with `symbol` put under `name` in the current scope.
pub open spec fn ctx_inserted(c0: GatherContext, c1: GatherContext, name: Seq<char>, symbol: Symbol) -> bool {
    &&& c1 == (GatherContext { scope_tree: c1.scope_tree, ..c0 })
    &&& symbol_inserted(c0.scope_tree, c1.scope_tree, name, symbol)
}

/// `c1` is `c0` with `m` put last among the current scope's local names.
pub open spec fn ctx_named(c0: GatherContext, c1: GatherContext, m: MangledName) -> bool {
    &&& c1 == (GatherContext { scope_tree: c1.scope_tree, ..c0 })
    &&& name_added(c0.scope_tree, c1.scope_tree, m)
}

/// `c1` is `c0` with a new scope of `kind` under the current one, made current.
pub open spec fn ctx_pushed(c0: GatherContext, c1: GatherContext, kind: ScopeKind) -> bool {
    &&& c1 == (GatherContext { scope_tree: c1.scope_tree, ..c0 })
    &&& scope_pushed(c0.scope_tree, c1.scope_tree, kind)
}

/// `c1` is `c0` with the parent of the current scope made current.
pub open spec fn ctx_popped(c0: GatherContext, c1: GatherContext) -> bool {
    &&& c1 == (GatherContext { scope_tree: c1.scope_tree, ..c0 })
    &&& scope_popped(c0.scope_tree, c1.scope_tree)
}

/// `symbol` is the `let` variable `name` with the mangled name `m`, mutable or not, of type
/// `ty` as a type reference.
pub open spec fn is_variable(symbol: Symbol, name: Seq<char>, m: NameView, mutable: bool, ty: Option<WindType>) -> bool {
    symbol matches Symbol::Variable { name: n, mangled_name: mn, mutable: mu, storage_class: sc, ty: t }
        && n@ == name && mn@ == m && mu == mutable && sc == StorageClass::Let && match ty {
            Some(w) => t matches Some(r) && type_ref_of(r, w),
            None => t is None,
        }
}

/// A new value `vid` bound to a new name `m` for `name`, declared as a variable in the current
/// scope: allocate, bind, declare, then record the local name.
pub open spec fn declared_fresh(c0: GatherContext, c1: GatherContext, name: Seq<char>, m: NameView, vid: ValueId,
    mutable: bool, ty: Option<WindType>) -> bool {
    exists|ca: GatherContext, cb: GatherContext, cc: GatherContext, mn: MangledName, sym: Symbol| #![trigger chosen((ca, cb, cc, mn, sym))]
        ctx_allocated(c0, ca, vid, None, ValueKind::Allocated) && ctx_bound(ca, cb, mn, vid)
        && ctx_inserted(cb, cc, name, sym) && ctx_named(cc, c1, mn)
        && mn@ == m && is_variable(sym, name, m, mutable, ty)
}

/// What resolving the name `name` does, from resolver `r0` and context `c0` to context `c1`,
/// with `vid` the value it gives. `self`, `this` and `it` read the receiver's binding, or give a
/// new value. A variable gives its bound value, or a new value bound to it. Another symbol gives
/// a new value. An unknown name is declared in the current scope as a variable bound to a new
/// value.
pub open spec fn ident_rel(r0: Resolver, c0: GatherContext, c1: GatherContext, name: Seq<char>, vid: ValueId) -> bool {
    let b0 = c0.bindings.name_to_value@;
    if is_self_name(name) {
        let m = (r0.current_fn_scope_id@, r0.current_fn_name@, 0u64, "self"@, 1u64);
        if b0.contains_key(m) {
            vid == b0[m] && c1 == c0
        } else {
            ctx_allocated(c0, c1, vid, None, ValueKind::Allocated)
        }
    } else {
        match c0.scope_tree.resolve(name) {
            Some(Symbol::Variable { mangled_name, .. }) => if b0.contains_key(mangled_name@) {
                vid == b0[mangled_name@] && c1 == c0
            } else {
                exists|ca: GatherContext| #![trigger chosen((ca,))] ctx_allocated(c0, ca, vid, None, ValueKind::Allocated)
                    && ctx_bound(ca, c1, mangled_name, vid)
            },
            Some(_) => ctx_allocated(c0, c1, vid, None, ValueKind::Allocated),
            None => declared_fresh(c0, c1, name,
                (r0.current_fn_scope_id@, r0.current_fn_name@, r0.current_subscope_counter, name, 1u64), vid, true, None),
        }
    }
}

/// After a step from `ra`, `ca`, a new value `vid` of type `ty` is allocated: the resolver
/// stays, the context gains the value.
pub open spec fn then_new_value(ra: Resolver, ca: GatherContext, r1: Resolver, c1: GatherContext, vid: ValueId,
    ty: Option<WindResolvedType>) -> bool {
    r1 == ra && ctx_allocated(ca, c1, vid, ty, ValueKind::Allocated)
}

/// What resolving the expression `e` does, from `r0` and `c0` to `r1` and `c1`, with `vid` the
/// value it stands for: each part is resolved in order, and the expression takes the shared
/// scalar of a literal, the value of a name, the value of what a field access, typed
/// expression, group or unpacking holds, or a new value (of type tag for a tag).
pub open spec fn expr_rel(r0: Resolver, c0: GatherContext, r1: Resolver, c1: GatherContext, e: WindExpr, vid: ValueId) -> bool
    decreases e,
{
    match e {
        WindExpr::IntLiteral(n) => literal_resolved(r0, c0, r1, c1, signed_decimal(n as int), Some(WindResolvedType::Int), vid),
        WindExpr::FloatLiteral(t) => literal_resolved(r0, c0, r1, c1, t@, Some(WindResolvedType::Float), vid),
        WindExpr::StringLiteral(t) => literal_resolved(r0, c0, r1, c1, t@, Some(WindResolvedType::String), vid),
        WindExpr::CharLiteral(t) => literal_resolved(r0, c0, r1, c1, t@, Some(WindResolvedType::Char), vid),
        WindExpr::BoolLiteral(b) => literal_resolved(r0, c0, r1, c1, if b { "true"@ } else { "false"@ },
            Some(WindResolvedType::Bool), vid),
        WindExpr::NoneLiteral => literal_resolved(r0, c0, r1, c1, "None"@, Some(WindResolvedType::NoneType), vid),
        WindExpr::Identifier(name) => r1 == r0 && ident_rel(r0, c0, c1, name@, vid),
        WindExpr::Binary { left, right, .. } => exists|ra: Resolver, ca: GatherContext, va: ValueId, rb: Resolver, cb: GatherContext, vb: ValueId| #![trigger chosen((ra, ca, va, rb, cb, vb))]
            expr_rel(r0, c0, ra, ca, *left, va) && expr_rel(ra, ca, rb, cb, *right, vb)
            && then_new_value(rb, cb, r1, c1, vid, None),
        WindExpr::Unary { expr, .. } => exists|ra: Resolver, ca: GatherContext, va: ValueId| #![trigger chosen((ra, ca, va))]
            expr_rel(r0, c0, ra, ca, *expr, va) && then_new_value(ra, ca, r1, c1, vid, None),
        WindExpr::Call { callee, args } => exists|ra: Resolver, ca: GatherContext, va: ValueId, rb: Resolver, cb: GatherContext| #![trigger chosen((ra, ca, va, rb, cb))]
            expr_rel(r0, c0, ra, ca, *callee, va) && exprs_rel(ra, ca, rb, cb, args@)
            && then_new_value(rb, cb, r1, c1, vid, None),
        WindExpr::FieldAccess { object, .. } => expr_rel(r0, c0, r1, c1, *object, vid),
        WindExpr::Index { expr, index } => exists|ra: Resolver, ca: GatherContext, va: ValueId, rb: Resolver, cb: GatherContext, vb: ValueId| #![trigger chosen((ra, ca, va, rb, cb, vb))]
            expr_rel(r0, c0, ra, ca, *expr, va) && expr_rel(ra, ca, rb, cb, *index, vb)
            && then_new_value(rb, cb, r1, c1, vid, None),
        WindExpr::ScopeRef { object, .. } => exists|ra: Resolver, ca: GatherContext, va: ValueId| #![trigger chosen((ra, ca, va))]
            expr_rel(r0, c0, ra, ca, *object, va) && then_new_value(ra, ca, r1, c1, vid, None),
        WindExpr::TypeExpr { expr, .. } => expr_rel(r0, c0, r1, c1, *expr, vid),
        WindExpr::Group(x) => expr_rel(r0, c0, r1, c1, *x, vid),
        WindExpr::MapLiteral(ps) => exists|ra: Resolver, ca: GatherContext| #![trigger chosen((ra, ca))]
            pairs_rel(r0, c0, ra, ca, ps@) && then_new_value(ra, ca, r1, c1, vid, None),
        WindExpr::ArrayLiteral(es) => exists|ra: Resolver, ca: GatherContext| #![trigger chosen((ra, ca))]
            exprs_rel(r0, c0, ra, ca, es@) && then_new_value(ra, ca, r1, c1, vid, None),
        WindExpr::IfExpr { condition, then_branch, else_branch } => exists|ra: Resolver, ca: GatherContext, va: ValueId,
            rb: Resolver, cb: GatherContext, vb: ValueId, rc: Resolver, cc: GatherContext| #![trigger chosen((ra, ca, va, rb, cb, vb, rc, cc))]
            expr_rel(r0, c0, ra, ca, *condition, va) && expr_rel(ra, ca, rb, cb, *then_branch, vb)
            && opt_rel(rb, cb, rc, cc, else_branch) && then_new_value(rc, cc, r1, c1, vid, None),
        WindExpr::TagExpr { body, .. } => {
            // The body is resolved in a block scope of its own, made the function scope with
            // sub-scope 1; then the scope is left and the resolver's scope numbers come back.
            exists|cp: GatherContext, rs: Resolver, cs: GatherContext, ca: GatherContext| #![trigger chosen((cp, rs, cs, ca))]
                ctx_pushed(c0, cp, ScopeKind::Block)
                && stmts_rel(Resolver { current_fn_scope_id: cp.scope_tree.current, current_subscope_counter: 1, ..r0 },
                    cp, rs, cs, body@)
                && ctx_popped(cs, ca)
                && then_new_value(Resolver { current_fn_scope_id: r0.current_fn_scope_id,
                    current_subscope_counter: r0.current_subscope_counter, ..rs }, ca, r1, c1, vid, Some(WindResolvedType::Tag))
        },
        WindExpr::Unpack(x) => expr_rel(r0, c0, r1, c1, *x, vid),
        WindExpr::StructLiteral { fields, .. } => exists|ra: Resolver, ca: GatherContext| #![trigger chosen((ra, ca))]
            named_rel(r0, c0, ra, ca, fields@) && then_new_value(ra, ca, r1, c1, vid, None),
    }
}

/// Resolving an optional expression: its part, or nothing.
pub open spec fn opt_rel(r0: Resolver, c0: GatherContext, r1: Resolver, c1: GatherContext, e: Option<Box<WindExpr>>) -> bool
    decreases e,
{
    match e {
        Some(x) => exists|v: ValueId| #![trigger chosen((v,))] expr_rel(r0, c0, r1, c1, *x, v),
        None => r1 == r0 && c1 == c0,
    }
}

/// Resolving the expressions `s` one after the other.
pub open spec fn exprs_rel(r0: Resolver, c0: GatherContext, r1: Resolver, c1: GatherContext, s: Seq<WindExpr>) -> bool
    decreases s,
{
    if s.len() == 0 {
        r1 == r0 && c1 == c0
    } else {
        exists|rm: Resolver, cm: GatherContext, v: ValueId| #![trigger chosen((rm, cm, v))]
            exprs_rel(r0, c0, rm, cm, s.drop_last()) && expr_rel(rm, cm, r1, c1, s.last(), v)
    }
}

/// Resolving the entries of a map literal one after the other, key before value.
pub open spec fn pairs_rel(r0: Resolver, c0: GatherContext, r1: Resolver, c1: GatherContext, s: Seq<(WindExpr, WindExpr)>) -> bool
    decreases s,
{
    if s.len() == 0 {
        r1 == r0 && c1 == c0
    } else {
        exists|rm: Resolver, cm: GatherContext, rn: Resolver, cn: GatherContext, v: ValueId, w: ValueId| #![trigger chosen((rm, cm, rn, cn, v, w))]
            pairs_rel(r0, c0, rm, cm, s.drop_last()) && expr_rel(rm, cm, rn, cn, s.last().0, v)
            && expr_rel(rn, cn, r1, c1, s.last().1, w)
    }
}

/// Resolving the field values of a struct literal one after the other.
pub open spec fn named_rel(r0: Resolver, c0: GatherContext, r1: Resolver, c1: GatherContext, s: Seq<(String, WindExpr)>) -> bool
    decreases s,
{
    if s.len() == 0 {
        r1 == r0 && c1 == c0
    } else {
        exists|rm: Resolver, cm: GatherContext, v: ValueId| #![trigger chosen((rm, cm, v))]
            named_rel(r0, c0, rm, cm, s.drop_last()) && expr_rel(rm, cm, r1, c1, s.last().1, v)
    }
}

/// Resolving the `elif` branches one after the other, condition before branch.
pub open spec fn elifs_rel(r0: Resolver, c0: GatherContext, r1: Resolver, c1: GatherContext, s: Seq<(WindExpr, WindStmt)>) -> bool
    decreases s,
{
    if s.len() == 0 {
        r1 == r0 && c1 == c0
    } else {
        exists|rm: Resolver, cm: GatherContext, rn: Resolver, cn: GatherContext, v: ValueId| #![trigger chosen((rm, cm, rn, cn, v))]
            elifs_rel(r0, c0, rm, cm, s.drop_last()) && expr_rel(rm, cm, rn, cn, s.last().0, v)
            && stmt_rel(rn, cn, r1, c1, s.last().1)
    }
}

/// Resolving the statements `s` one after the other.
pub open spec fn stmts_rel(r0: Resolver, c0: GatherContext, r1: Resolver, c1: GatherContext, s: Seq<WindStmt>) -> bool
    decreases s,
{
    if s.len() == 0 {
        r1 == r0 && c1 == c0
    } else {
        exists|rm: Resolver, cm: GatherContext| #![trigger chosen((rm, cm))]
            stmts_rel(r0, c0, rm, cm, s.drop_last()) && stmt_rel(rm, cm, r1, c1, s.last())
    }
}

/// Resolving the body of a tag: a block scope is opened and made the function scope, with
/// sub-scope 1; the statements are resolved in it; then the scope is left and the resolver's
/// function scope and sub-scope come back.
pub open spec fn tag_body_rel(r0: Resolver, c0: GatherContext, r1: Resolver, c1: GatherContext, body: Seq<WindStmt>) -> bool {
    exists|cp: GatherContext, rs: Resolver, cs: GatherContext| #![trigger chosen((cp, rs, cs))]
        ctx_pushed(c0, cp, ScopeKind::Block)
        && stmts_rel(Resolver { current_fn_scope_id: cp.scope_tree.current, current_subscope_counter: 1, ..r0 },
            cp, rs, cs, body)
        && ctx_popped(cs, c1)
        && r1 == (Resolver { current_fn_scope_id: r0.current_fn_scope_id, current_subscope_counter: r0.current_subscope_counter, ..rs })
}

/// Resolving the statements `body` in a block scope of their own, with the next sub-scope
/// number: the scope is opened, the statements are resolved, the scope's local names are
/// unbound, the scope is left and the sub-scope number comes back.
pub open spec fn block_body_rel(r0: Resolver, c0: GatherContext, r1: Resolver, c1: GatherContext, body: Seq<WindStmt>) -> bool {
    exists|cp: GatherContext, rs: Resolver, cs: GatherContext, cu: GatherContext| #![trigger chosen((cp, rs, cs, cu))]
        ctx_pushed(c0, cp, ScopeKind::Block)
        && stmts_rel(Resolver { current_subscope_counter: next_count(r0.current_subscope_counter), ..r0 },
            cp, rs, cs, body)
        && ctx_scope_unbound(cs, cu, cp.scope_tree.current)
        && ctx_popped(cu, c1)
        && r1 == (Resolver { current_subscope_counter: r0.current_subscope_counter, ..rs })
}

/// `symbol` is the mutable `let` variable `name`, with mangled name `m`, of the type named
/// `unknown`: what a rebinding declares.
pub open spec fn is_rebound_variable(symbol: Symbol, name: Seq<char>, m: NameView) -> bool {
    symbol matches Symbol::Variable { name: n, mangled_name: sm, mutable: mu, storage_class: sc,
        ty: Some(WindTypeRef::Named(tn)) }
        && n@ == name && sm@ == m && mu && sc == StorageClass::Let && tn@ == "unknown"@
}

/// What giving the name `target` the value `value` does, from `r0` and `c0` to `r1` and `c1`:
/// a `const` or `constatic` variable is reported, with no span, and nothing else changes;
/// another variable loses its binding, and its next version is bound to `value`, recorded among
/// the current scope's local names and declared as a mutable `let` of unknown type; a name that
/// denotes no variable is left alone.
pub open spec fn rebind_rel(r0: Resolver, c0: GatherContext, r1: Resolver, c1: GatherContext, target: Seq<char>, value: ValueId) -> bool {
    match c0.scope_tree.resolve(target) {
        Some(Symbol::Variable { mangled_name, storage_class, .. }) => {
            if storage_class == StorageClass::Const || storage_class == StorageClass::Constatic {
                &&& c1 == c0
                &&& r1 == (Resolver { errors: r1.errors, ..r0 })
                &&& r1.errors@.len() == r0.errors@.len() + 1
                &&& r1.errors@.drop_last() == r0.errors@
                &&& r1.errors@.last().message@ == reassign_text(target, storage_class)
                &&& r1.errors@.last().span is None
            } else {
                let m = mangled_name@;
                let nm = (m.0, r0.current_fn_name@, m.2, target, next_count(m.4));
                &&& r1 == r0
                &&& exists|ca: GatherContext, cb: GatherContext, cc: GatherContext, mn: MangledName, sym: Symbol| #![trigger chosen((ca, cb, cc, mn, sym))]
                    ctx_unbound(c0, ca, m) && ctx_bound(ca, cb, mn, value)
                    && ctx_named(cb, cc, mn) && ctx_inserted(cc, c1, target, sym)
                    && mn@ == nm && is_rebound_variable(sym, target, nm)
            }
        },
        _ => r1 == r0 && c1 == c0,
    }
}

/// Binding the parameters `params` of the function `fname` in the function scope `scope`: each
/// gets a new value, bound under its name in that scope with sub-scope 0, declared as a mutable
/// `let` of its type, and recorded among the scope's local names.
pub open spec fn params_rel(c0: GatherContext, c1: GatherContext, scope: ScopeId, fname: Seq<char>, params: Seq<WindFnParam>) -> bool
    decreases params.len(),
{
    if params.len() == 0 {
        c1 == c0
    } else {
        let p = params.last();
        exists|cm: GatherContext, v: ValueId| #![trigger chosen((cm, v))] params_rel(c0, cm, scope, fname, params.drop_last())
            && declared_fresh(cm, c1, p.name@, (scope@, fname, 0u64, p.name@, 1u64), v, true, p.ty)
    }
}

/// What resolving the statement `s` does, from `r0` and `c0` to `r1` and `c1`, part by part and
/// in order; the errors it adds are those of its parts.
pub open spec fn stmt_rel(r0: Resolver, c0: GatherContext, r1: Resolver, c1: GatherContext, s: WindStmt) -> bool
    decreases s,
{
    match s {
        WindStmt::Let { name, ty, value } => {
            let m = (r0.current_fn_scope_id@, r0.current_fn_name@, r0.current_subscope_counter, name@, 1u64);
            exists|cm: GatherContext, v: ValueId, cb: GatherContext, cc: GatherContext, mn: MangledName, sym: Symbol| #![trigger chosen((cm, v, cb, cc, mn, sym))]
                expr_rel(r0, c0, r1, cm, *value, v) && ctx_inserted(cm, cb, name@, sym)
                && ctx_named(cb, cc, mn) && ctx_bound(cc, c1, mn, v)
                && mn@ == m && is_variable(sym, name@, m, true, ty)
        },
        WindStmt::Assignment { target, op, value } => match *target {
            WindExpr::Identifier(name) => match op {
                WindAssignOp::Direct => exists|rm: Resolver, cm: GatherContext, v: ValueId| #![trigger chosen((rm, cm, v))]
                    expr_rel(r0, c0, rm, cm, *value, v) && rebind_rel(rm, cm, r1, c1, name@, v),
                WindAssignOp::LeftAbs | WindAssignOp::RightAbs => exists|rm: Resolver, cm: GatherContext, src: ValueId,
                    cn: GatherContext, v: ValueId| #![trigger chosen((rm, cm, src, cn, v))]
                    expr_rel(r0, c0, rm, cm, *value, src) && ctx_allocated(cm, cn, v, None, ValueKind::Copied)
                    && rebind_rel(rm, cn, r1, c1, name@, v),
                _ => exists|cn: GatherContext, v: ValueId| #![trigger chosen((cn, v))]
                    ctx_allocated(c0, cn, v, None, ValueKind::Allocated) && rebind_rel(r0, cn, r1, c1, name@, v),
            },
            WindExpr::FieldAccess { object, field } => exists|ra: Resolver, ca: GatherContext, va: ValueId| #![trigger chosen((ra, ca, va))]
                expr_rel(r0, c0, ra, ca, *object, va) && match op {
                    WindAssignOp::Direct => exists|rm: Resolver, cm: GatherContext, v: ValueId| #![trigger chosen((rm, cm, v))]
                        expr_rel(ra, ca, rm, cm, *value, v) && rebind_rel(rm, cm, r1, c1, field@, v),
                    WindAssignOp::LeftAbs | WindAssignOp::RightAbs => exists|rm: Resolver, cm: GatherContext, src: ValueId,
                        cn: GatherContext, v: ValueId| #![trigger chosen((rm, cm, src, cn, v))]
                        expr_rel(ra, ca, rm, cm, *value, src) && ctx_allocated(cm, cn, v, None, ValueKind::Copied)
                        && rebind_rel(rm, cn, r1, c1, field@, v),
                    _ => exists|cn: GatherContext, v: ValueId| #![trigger chosen((cn, v))]
                        ctx_allocated(ca, cn, v, None, ValueKind::Allocated) && rebind_rel(ra, cn, r1, c1, field@, v),
                },
            WindExpr::Index { expr, index } => exists|ra: Resolver, ca: GatherContext, va: ValueId, vb: ValueId| #![trigger chosen((ra, ca, va, vb))]
                expr_rel(r0, c0, ra, ca, *expr, va) && expr_rel(ra, ca, r1, c1, *index, vb),
            _ => exists|v: ValueId| #![trigger chosen((v,))] expr_rel(r0, c0, r1, c1, *target, v),
        },
        WindStmt::Expr(e) => exists|v: ValueId| #![trigger chosen((v,))] expr_rel(r0, c0, r1, c1, *e, v),
        WindStmt::Block(ss) => {
            // A block scope of its own, with the next sub-scope number: the statements are
            // resolved in it, its local names are unbound, and the scope is left.
            exists|cp: GatherContext, rs: Resolver, cs: GatherContext, cu: GatherContext| #![trigger chosen((cp, rs, cs, cu))]
                ctx_pushed(c0, cp, ScopeKind::Block)
                && stmts_rel(Resolver { current_subscope_counter: next_count(r0.current_subscope_counter), ..r0 },
                    cp, rs, cs, ss@)
                && ctx_scope_unbound(cs, cu, cp.scope_tree.current)
                && ctx_popped(cu, c1)
                && r1 == (Resolver { current_subscope_counter: r0.current_subscope_counter, ..rs })
        },
        WindStmt::If { condition, then_branch, elif_branches, else_branch } => exists|ra: Resolver, ca: GatherContext,
            va: ValueId, rb: Resolver, cb: GatherContext, rc: Resolver, cc: GatherContext| #![trigger chosen((ra, ca, va, rb, cb, rc, cc))]
            expr_rel(r0, c0, ra, ca, *condition, va) && stmt_rel(ra, ca, rb, cb, *then_branch)
            && elifs_rel(rb, cb, rc, cc, elif_branches@) && match else_branch {
                Some(b) => stmt_rel(rc, cc, r1, c1, *b),
                None => r1 == rc && c1 == cc,
            },
        WindStmt::For { init, condition, update, body } => exists|ra: Resolver, ca: GatherContext, rb: Resolver,
            cb: GatherContext, cp: GatherContext, rs: Resolver, cs: GatherContext, ru: Resolver, cu: GatherContext,
            cx: GatherContext| #![trigger chosen((ra, ca, rb, cb, cp, rs, cs, ru, cu, cx))]
            opt_rel(r0, c0, ra, ca, init) && opt_rel(ra, ca, rb, cb, condition)
            && ctx_pushed(cb, cp, ScopeKind::Block)
            && stmt_rel(Resolver { current_subscope_counter: next_count(rb.current_subscope_counter), ..rb }, cp, rs, cs, *body)
            && opt_rel(rs, cs, ru, cu, update) && ctx_scope_unbound(cu, cx, cp.scope_tree.current)
            && ctx_popped(cx, c1) && r1 == (Resolver { current_subscope_counter: rb.current_subscope_counter, ..ru }),
        WindStmt::ForIn { var, iterable, body } => exists|ra: Resolver, ca: GatherContext, va: ValueId, cd: GatherContext, v: ValueId| #![trigger chosen((ra, ca, va, cd, v))]
            expr_rel(r0, c0, ra, ca, *iterable, va)
            && declared_fresh(ca, cd, var@, (ra.current_fn_scope_id@, ra.current_fn_name@, ra.current_subscope_counter, var@, 1u64),
                v, false, None)
            && stmt_rel(ra, cd, r1, c1, *body),
        WindStmt::While { condition, body } => exists|ra: Resolver, ca: GatherContext, va: ValueId| #![trigger chosen((ra, ca, va))]
            expr_rel(r0, c0, ra, ca, *condition, va) && stmt_rel(ra, ca, r1, c1, *body),
        WindStmt::Return(e) => opt_rel(r0, c0, r1, c1, e),
        WindStmt::FnDef { name, params, body, .. } => exists|cp: GatherContext, cq: GatherContext, rs: Resolver,
            cs: GatherContext, cu: GatherContext| #![trigger chosen((cp, cq, rs, cs, cu))]
            ctx_pushed(c0, cp, ScopeKind::Function)
            && params_rel(cp, cq, cp.scope_tree.current, name@, params@)
            && stmt_rel(Resolver { current_fn_name: name, current_fn_scope_id: cp.scope_tree.current,
                current_subscope_counter: 1, ..r0 }, cq, rs, cs, *body)
            && ctx_scope_unbound(cs, cu, cp.scope_tree.current)
            && ctx_popped(cu, c1)
            && r1 == (Resolver { current_fn_name: r0.current_fn_name, current_fn_scope_id: r0.current_fn_scope_id,
                current_subscope_counter: r0.current_subscope_counter, ..rs }),
        WindStmt::Apply { group, target, .. } => {
            &&& c1 == c0
            &&& r1 == (Resolver { errors: r1.errors, ..r0 })
            &&& error_views(r1.errors@) == error_views(r0.errors@) + apply_reports(r0, c0, group@, target@)
        },
        _ => r1 == r0 && c1 == c0,
    }
}

/// `r` is a resolver as it starts on a program: no errors, at top level (function scope 1, no
/// function name, sub-scope 0), with `source` as the text that spans point into.
pub open spec fn fresh_resolver(r: Resolver, source: Option<String>) -> bool {
    &&& r.errors@.len() == 0
    &&& r.current_fn_name@.len() == 0
    &&& r.current_fn_scope_id@ == 1
    &&& r.current_subscope_counter == 0
    &&& r.source == source
}

/// `true` and `false` are different literals: resolving `true` and then `false`, when `false`
/// has no shared scalar yet, gives two different values; the second is a new boolean scalar.
pub proof fn lemma_true_false_distinct(r0: Resolver, c0: GatherContext, r1: Resolver, c1: GatherContext,
    r2: Resolver, c2: GatherContext, v1: ValueId, v2: ValueId)
    requires
        c0.value_pool.wf(),
        !c0.value_pool.scalar_cache@.contains_key("false"@),
        expr_rel(r0, c0, r1, c1, WindExpr::BoolLiteral(true), v1),
        expr_rel(r1, c1, r2, c2, WindExpr::BoolLiteral(false), v2),
    ensures
        v1 != v2,
        v2@ == c1.value_pool.values@.len() + 1,
        c2.value_pool.values@.last() == (ValueInfo { id: v2, ty: Some(WindResolvedType::Bool), kind: ValueKind::ScalarConst, ref_count: 0 }),
{
    reveal_strlit("true");
    reveal_strlit("false");
    assert("true"@ != "false"@) by {
        assert("true"@[0] != "false"@[0]);
    }
    assert(!c1.value_pool.scalar_cache@.contains_key("false"@));
    if c0.value_pool.scalar_cache@.contains_key("true"@) {
        assert(c0.value_pool.holds(c0.value_pool.scalar_cache@["true"@]));
    }
}

impl Resolver {
    /// A resolver at top level, with no errors and no source.
    pub fn new() -> (r: Self)
        ensures
            r.errors@.len() == 0,
            r.current_fn_name@.len() == 0,
            r.current_fn_scope_id@ == 1,
            r.current_subscope_counter == 0,
            r.source is None,
    {
        Resolver {
            errors: Vec::new(),
            current_fn_name: String::new(),
            current_fn_scope_id: ScopeId::new(1),
            current_subscope_counter: 0,
            source: None,
        }
    }

    /// The resolver with `source` as the text that spans point into.
    pub fn with_source(self, source: String) -> (r: Self)
        ensures
            r.source == Some(source),
            r.errors == self.errors,
            same_frame(r, Resolver { source: Some(source), ..self }),
    {
        Resolver { source: Some(source), ..self }
    }

    /// The byte span of the first occurrence of `text` in the source.
    fn span_for(&self, text: &str) -> (r: Option<(usize, usize)>)
        ensures
            r == label_span(self.source, text@),
    {
        match &self.source {
            Some(s) => {
                let hay = s.as_str().as_bytes();
                let needle = text.as_bytes();
                let hay_len = hay.len();
                assert(hay@.len() == hay_len);
                match find_bytes(hay, needle, 0) {
                    Some(pos) => {
                        assert(crate::text::occurs_at(hay@, needle@, pos as int));
                        Some((pos, pos + needle.len()))
                    }
                    None => None,
                }
            }
            None => None,
        }
    }

    /// Records an error, spanning the first occurrence of `label` when there is one.
    fn error(&mut self, message: String, label: &str)
        ensures
            final(self).errors@ == old(self).errors@.push(
                SemanticError { message, span: label_span(old(self).source, label@) },
            ),
            same_frame(*old(self), *final(self)),
    {
        let span = self.span_for(label);
        self.errors.push(SemanticError { message, span });
    }

    /// Resolves every top-level item in order, from the top-level frame.
    pub fn resolve(&mut self, ctx: &mut GatherContext, program: &WindProgram)
        requires
            old(ctx).wf(),
        ensures
            stmts_rel(*old(self), *old(ctx), *final(self), *final(ctx), program.items@),
            silent_stmts(program.items@) ==> final(self).errors == old(self).errors,
            scopes_opened(old(ctx).scope_tree, final(ctx).scope_tree, stmts_scopes(program.items@)),
            resolve_frame(*old(self), *old(ctx), *final(self), *final(ctx)),
    {
        self.resolve_stmts(ctx, &program.items);
    }

    fn resolve_stmts(&mut self, ctx: &mut GatherContext, stmts: &Vec<WindStmt>)
        requires
            old(ctx).wf(),
        ensures
            stmts_rel(*old(self), *old(ctx), *final(self), *final(ctx), stmts@),
            silent_stmts(stmts@) ==> final(self).errors == old(self).errors,
            scopes_opened(old(ctx).scope_tree, final(ctx).scope_tree, stmts_scopes(stmts@)),
            resolve_frame(*old(self), *old(ctx), *final(self), *final(ctx)),
        decreases stmts, 0nat,
    {
        let mut i: usize = 0;
        proof {
            assert(stmts@.take(0) =~= Seq::empty());
        }
        while i < stmts.len()
            invariant
                silent_stmts(stmts@) ==> self.errors == old(self).errors,
                i <= stmts.len(),
                resolve_frame(*old(self), *old(ctx), *self, *ctx),
                scopes_opened(old(ctx).scope_tree, ctx.scope_tree, stmts_scopes(stmts@.take(i as int))),
                stmts_rel(*old(self), *old(ctx), *self, *ctx, stmts@.take(i as int)),
            decreases stmts.len() - i,
        {
            let ghost t1 = ctx.scope_tree;
            let ghost rb = *self;
            let ghost cb = *ctx;
            proof {
                assert(decreases_to!(*stmts => stmts@[i as int]));
            }
            self.resolve_stmt(ctx, &stmts[i]);
            proof {
                assert(stmts@.take(i + 1).drop_last() =~= stmts@.take(i as int));
                lemma_scopes_then(old(ctx).scope_tree, t1, ctx.scope_tree, stmts_scopes(stmts@.take(i as int)), stmt_scopes(stmts@[i as int]));
            }
            proof {
                assert(stmts@.take(i + 1).drop_last() =~= stmts@.take(i as int));
                assert(stmts@.take(i + 1).last() == stmts@[i as int]);
                assert(stmts_rel(*old(self), *old(ctx), rb, cb, stmts@.take(i + 1).drop_last()));
                assert(stmt_rel(rb, cb, *self, *ctx, stmts@.take(i + 1).last()));
                assert(chosen((rb, cb)));
                assert(stmts_rel(*old(self), *old(ctx), *self, *ctx, stmts@.take(i + 1)));
            }
            i += 1;
        }
        proof {
            assert(stmts@.take(stmts@.len() as int) =~= stmts@);
        }
    }

    fn resolve_stmt(&mut self, ctx: &mut GatherContext, stmt: &WindStmt)
        requires
            old(ctx).wf(),
        ensures
            stmt_rel(*old(self), *old(ctx), *final(self), *final(ctx), *stmt),
            silent_stmt(*stmt) ==> final(self).errors == old(self).errors,
            scopes_opened(old(ctx).scope_tree, final(ctx).scope_tree, stmt_scopes(*stmt)),
            resolve_frame(*old(self), *old(ctx), *final(self), *final(ctx)),
            stmt is Let ==> let_bound(*old(self), *final(ctx), stmt->Let_name@),
            stmt matches WindStmt::Apply { group, target, .. } ==> *final(ctx) == *old(ctx)
                && same_frame(*old(self), *final(self))
                && error_views(final(self).errors@) == error_views(old(self).errors@)
                    + apply_reports(*old(self), *old(ctx), group@, target@),
            stmt matches WindStmt::Assignment { target, op, value } ==> (**target matches WindExpr::Identifier(name) ==>
                exists|rm: Resolver, cm: GatherContext, v: ValueId| #[trigger] rebound(rm, cm, *final(self), *final(ctx), name@, v)
                    && assigned(*old(self), *old(ctx), *op, **value, rm, cm, v)),
            stmt is Block ==> {
                let block = final(ctx).scope_tree.scopes@[old(ctx).scope_tree.scopes@.len() as int];
                &&& old(ctx).scope_tree.scopes@.len() < final(ctx).scope_tree.scopes@.len()
                &&& forall|i: int| 0 <= i < block.local_mangled_names@.len()
                    ==> !(#[trigger] final(ctx).bindings.name_to_value@.contains_key(block.local_mangled_names@[i]@))
            },
        decreases stmt, 1nat,
    {
        let ghost r0 = *self;
        let ghost c0 = *ctx;
        match stmt {
            WindStmt::Let { .. } => {
                self.resolve_let(ctx, stmt);
            }
            WindStmt::Assignment { .. } => {
                self.resolve_assignment(ctx, stmt);
            }
            WindStmt::Expr(expr) => {
                let v = self.resolve_expr_for_value(ctx, expr);
                proof {
                    assert(chosen((v,)));
                }
            }
            WindStmt::Block(stmts) => {
                self.resolve_block(ctx, stmts);
                proof {
                    assert(*stmt == WindStmt::Block(*stmts));
                }
            }
            WindStmt::If { .. } => {
                self.resolve_if(ctx, stmt);
            }
            WindStmt::For { .. } => {
                self.resolve_for(ctx, stmt);
            }
            WindStmt::ForIn { .. } => {
                self.resolve_for_in(ctx, stmt);
            }
            WindStmt::While { .. } => {
                self.resolve_while(ctx, stmt);
            }
            WindStmt::Return(_) => {
                self.resolve_return(ctx, stmt);
            }
            WindStmt::FnDef { .. } => {
                self.resolve_fn_def(ctx, stmt);
            }
            WindStmt::Apply { group, target, fields: _ } => {
                self.resolve_apply(ctx, group, target);
                proof {
                    assert(*self == (Resolver { errors: self.errors, ..r0 }));
                    assert(stmt_rel(r0, c0, *self, *ctx, *stmt));
                }
            }
            _ => {
                assert(stmt_rel(r0, c0, *self, *ctx, *stmt));
            }
        }
    }

    fn resolve_let(&mut self, ctx: &mut GatherContext, stmt: &WindStmt)
        requires
            old(ctx).wf(),
            stmt is Let,
        ensures
            stmt_rel(*old(self), *old(ctx), *final(self), *final(ctx), *stmt),
            silent_stmt(*stmt) ==> final(self).errors == old(self).errors,
            scopes_opened(old(ctx).scope_tree, final(ctx).scope_tree, stmt_scopes(*stmt)),
            resolve_frame(*old(self), *old(ctx), *final(self), *final(ctx)),
            let_bound(*old(self), *final(ctx), stmt->Let_name@),
        decreases stmt, 0nat,
    {
        if let WindStmt::Let { name, ty, value } = stmt {
            let mangled = MangledName::new(
                self.current_fn_scope_id,
                self.current_fn_name.as_str(),
                self.current_subscope_counter,
                name.as_str(),
                1,
            );
            let value_id = self.resolve_expr_for_value(ctx, value);
            let type_ref = match ty {
                Some(t) => Some(WindTypeRef::from_ast(t)),
                None => None,
            };
            let symbol = Symbol::Variable {
                name: name.clone(),
                mangled_name: mangled.copy(),
                ty: type_ref,
                mutable: true,
                storage_class: StorageClass::Let,
            };
            let ghost cm = *ctx;
            let ghost gsym = symbol;
            ctx.scope_tree.insert_symbol(name.as_str(), symbol);
            let ghost cb = *ctx;
            ctx.scope_tree.add_mangled_name(mangled.copy());
            let ghost cc = *ctx;
            let ghost gm = mangled;
            let _ = ctx.bindings.bind(mangled, value_id, &mut ctx.value_pool);
            proof {
                assert(ctx_inserted(cm, cb, name@, gsym));
                assert(ctx_named(cb, cc, gm));
                assert(ctx_bound(cc, *ctx, gm, value_id));
                assert(is_variable(gsym, name@, gm@, true, *ty));
                assert(chosen((cm, value_id, cb, cc, gm, gsym)));
            }
        }
    }

    fn resolve_assignment(&mut self, ctx: &mut GatherContext, stmt: &WindStmt)
        requires
            old(ctx).wf(),
            stmt is Assignment,
        ensures
            stmt_rel(*old(self), *old(ctx), *final(self), *final(ctx), *stmt),
            scopes_opened(old(ctx).scope_tree, final(ctx).scope_tree, stmt_scopes(*stmt)),
            resolve_frame(*old(self), *old(ctx), *final(self), *final(ctx)),
            *stmt->Assignment_target matches WindExpr::Identifier(name) ==> exists|rm: Resolver, cm: GatherContext, v: ValueId|
                #[trigger] rebound(rm, cm, *final(self), *final(ctx), name@, v)
                && assigned(*old(self), *old(ctx), stmt->Assignment_op, *stmt->Assignment_value, rm, cm, v),
        decreases stmt, 0nat,
    {
        if let WindStmt::Assignment { target, op, value } = stmt {
            let ghost r00 = *self;
            let ghost c00 = *ctx;
            let ghost mut obj_v = ValueId(0);
            let target_name: &String = match &**target {
                WindExpr::Identifier(name) => name,
                WindExpr::FieldAccess { object, field } => {
                    let va = self.resolve_expr_for_value(ctx, object);
                    proof {
                        obj_v = va;
                    }
                    field
                }
                WindExpr::Index { expr, index } => {
                    let va = self.resolve_expr_for_value(ctx, expr);
                    let ghost ra = *self;
                    let ghost ca = *ctx;
                    let vb = self.resolve_expr_for_value(ctx, index);
                    proof {
                        assert(chosen((ra, ca, va, vb)));
                    }
                    return;
                }
                _ => {
                    let v = self.resolve_expr_for_value(ctx, target);
                    proof {
                        assert(chosen((v,)));
                    }
                    return;
                }
            };
            let ghost r0 = *self;
            let ghost c0 = *ctx;
            let ghost mut c_mid = *ctx;
            let ghost mut src = ValueId(0);
            let new_value_id = match op {
                WindAssignOp::LeftAbs | WindAssignOp::RightAbs => {
                    let source_id = self.resolve_expr_for_value(ctx, value);
                    proof {
                        assert(expr_rel(r0, c0, *self, *ctx, **value, source_id));
                    }
                    proof {
                        c_mid = *ctx;
                        src = source_id;
                    }
                    ctx.value_pool.new_copy_of(source_id, None)
                }
                WindAssignOp::SumEq | WindAssignOp::DiffEq | WindAssignOp::ProdEq | WindAssignOp::QuotEq => {
                    ctx.value_pool.new_allocated(None)
                }
                WindAssignOp::Direct => self.resolve_expr_for_value(ctx, value),
            };
            let ghost rm = *self;
            let ghost cm = *ctx;
            self.rebind(ctx, target_name, new_value_id);
            proof {
                match *op {
                    WindAssignOp::Direct => {
                        assert(chosen((rm, cm, new_value_id)));
                    },
                    WindAssignOp::LeftAbs | WindAssignOp::RightAbs => {
                        assert(ctx_allocated(c_mid, cm, new_value_id, None, ValueKind::Copied));
                        assert(chosen((rm, c_mid, src, cm, new_value_id)));
                    },
                    _ => {
                        assert(ctx_allocated(c0, cm, new_value_id, None, ValueKind::Allocated));
                        assert(chosen((cm, new_value_id)));
                    },
                }
                if **target is FieldAccess {
                    assert(chosen((r0, c0, obj_v)));
                }
                assert(rebound(rm, cm, *self, *ctx, target_name@, new_value_id));
                if **target is Identifier {
                    assert(r0 == *old(self) && c0 == *old(ctx));
                    match *op {
                        WindAssignOp::LeftAbs | WindAssignOp::RightAbs => {
                            assert(value_resolved(r0, c0, rm, c_mid, **value, src));
                        },
                        _ => {},
                    }
                    assert(assigned(r0, c0, *op, **value, rm, cm, new_value_id));
                }
            }
        }
    }

    /// Gives the variable `target` a new version bound to `value`, or reports the write when the
    /// variable is a `const` or `constatic`. A name that denotes no variable is left alone.
    fn rebind(&mut self, ctx: &mut GatherContext, target: &String, value: ValueId)
        requires
            old(ctx).wf(),
            old(ctx).value_pool.holds(value),
        ensures
            rebind_rel(*old(self), *old(ctx), *final(self), *final(ctx), target@, value),
            scopes_opened(old(ctx).scope_tree, final(ctx).scope_tree, seq![]),
            resolve_frame(*old(self), *old(ctx), *final(self), *final(ctx)),
            rebound(*old(self), *old(ctx), *final(self), *final(ctx), target@, value),
    {
        let found = match ctx.scope_tree.lookup_symbol(target.as_str()) {
            Some(Symbol::Variable { mangled_name, storage_class, .. }) => Some((mangled_name.copy(), *storage_class)),
            _ => None,
        };
        match found {
            Some((mangled, storage_class)) => {
                match storage_class {
                    StorageClass::Const | StorageClass::Constatic => {
                        let mut msg = string_of("Cannot reassign to ");
                        push_str(&mut msg, target.as_str());
                        push_str(&mut msg, ". ");
                        match storage_class {
                            StorageClass::Const => push_str(&mut msg, "Const"),
                            _ => push_str(&mut msg, "Constatic"),
                        }
                        push_str(&mut msg, " variables are immutable.");
                        proof {
                            assert(msg@ =~= reassign_text(target@, storage_class));
                        }
                        let ghost r0 = *self;
                        self.errors.push(SemanticError::new(msg));
                        proof {
                            assert(self.errors@.drop_last() =~= r0.errors@);
                        }
                        return;
                    }
                    _ => {}
                }
                let version = next_counter(mangled.version);
                let new_mangled = MangledName::new(
                    mangled.scope_id,
                    self.current_fn_name.as_str(),
                    mangled.subscope_id,
                    target.as_str(),
                    version,
                );
                let ghost c0 = *ctx;
                let _ = ctx.bindings.unbind(&mangled, &mut ctx.value_pool);
                let ghost ca = *ctx;
                let _ = ctx.bindings.bind(new_mangled.copy(), value, &mut ctx.value_pool);
                let ghost cb = *ctx;
                let ghost gm = new_mangled;
                ctx.scope_tree.add_mangled_name(new_mangled.copy());
                let ghost cc = *ctx;
                let sym = Symbol::Variable {
                    name: target.clone(),
                    mangled_name: new_mangled,
                    ty: Some(WindTypeRef::Named(string_of("unknown"))),
                    mutable: true,
                    storage_class: StorageClass::Let,
                };
                let ghost gsym = sym;
                ctx.scope_tree.insert_symbol(target.as_str(), sym);
                proof {
                    reveal_strlit("unknown");
                    assert(ctx_unbound(c0, ca, mangled@));
                    assert(ctx_bound(ca, cb, gm, value));
                    assert(ctx_named(cb, cc, gm));
                    assert(ctx_inserted(cc, *ctx, target@, gsym));
                    assert(is_rebound_variable(gsym, target@, gm@));
                    assert(chosen((ca, cb, cc, gm, gsym)));
                }
            }
            None => {}
        }
    }

    fn resolve_exprs(&mut self, ctx: &mut GatherContext, exprs: &Vec<WindExpr>)
        requires
            old(ctx).wf(),
        ensures
            exprs_rel(*old(self), *old(ctx), *final(self), *final(ctx), exprs@),
            (forall|k: int| 0 <= k < exprs@.len() ==> silent_expr(#[trigger] exprs@[k])) ==> final(self).errors == old(self).errors,
            scopes_opened(old(ctx).scope_tree, final(ctx).scope_tree, exprs_scopes(exprs@)),
            resolve_frame(*old(self), *old(ctx), *final(self), *final(ctx)),
        decreases exprs, 0nat,
    {
        let mut i: usize = 0;
        proof {
            assert(exprs@.take(0) =~= Seq::empty());
        }
        while i < exprs.len()
            invariant
                (forall|k: int| 0 <= k < exprs@.len() ==> silent_expr(#[trigger] exprs@[k])) ==> self.errors == old(self).errors,
                i <= exprs.len(),
                resolve_frame(*old(self), *old(ctx), *self, *ctx),
                scopes_opened(old(ctx).scope_tree, ctx.scope_tree, exprs_scopes(exprs@.take(i as int))),
                exprs_rel(*old(self), *old(ctx), *self, *ctx, exprs@.take(i as int)),
            decreases exprs.len() - i,
        {
            let ghost t1 = ctx.scope_tree;
            let ghost rb = *self;
            let ghost cb = *ctx;
            proof {
                assert(decreases_to!(*exprs => exprs@[i as int]));
            }
            let va = self.resolve_expr_for_value(ctx, &exprs[i]);
            proof {
                assert(exprs@.take(i + 1).drop_last() =~= exprs@.take(i as int));
                lemma_scopes_then(old(ctx).scope_tree, t1, ctx.scope_tree, exprs_scopes(exprs@.take(i as int)), expr_scopes(exprs@[i as int]));
            }
            proof {
                assert(exprs@.take(i + 1).drop_last() =~= exprs@.take(i as int));
                assert(exprs@.take(i + 1).last() == exprs@[i as int]);
                assert(exprs_rel(*old(self), *old(ctx), rb, cb, exprs@.take(i + 1).drop_last()));
                assert(expr_rel(rb, cb, *self, *ctx, exprs@.take(i + 1).last(), va));
                assert(chosen((rb, cb, va)));
                assert(exprs_rel(*old(self), *old(ctx), *self, *ctx, exprs@.take(i + 1)));
            }
            i += 1;
        }
        proof {
            assert(exprs@.take(exprs@.len() as int) =~= exprs@);
        }
    }

    fn resolve_pairs(&mut self, ctx: &mut GatherContext, pairs: &Vec<(WindExpr, WindExpr)>)
        requires
            old(ctx).wf(),
        ensures
            pairs_rel(*old(self), *old(ctx), *final(self), *final(ctx), pairs@),
            silent_pairs(pairs@) ==> final(self).errors == old(self).errors,
            scopes_opened(old(ctx).scope_tree, final(ctx).scope_tree, pairs_scopes(pairs@)),
            resolve_frame(*old(self), *old(ctx), *final(self), *final(ctx)),
        decreases pairs, 0nat,
    {
        let mut i: usize = 0;
        proof {
            assert(pairs@.take(0) =~= Seq::empty());
        }
        while i < pairs.len()
            invariant
                silent_pairs(pairs@) ==> self.errors == old(self).errors,
                i <= pairs.len(),
                resolve_frame(*old(self), *old(ctx), *self, *ctx),
                scopes_opened(old(ctx).scope_tree, ctx.scope_tree, pairs_scopes(pairs@.take(i as int))),
                pairs_rel(*old(self), *old(ctx), *self, *ctx, pairs@.take(i as int)),
            decreases pairs.len() - i,
        {
            proof {
                if silent_pairs(pairs@) {
                    assert(silent_expr(pairs@[i as int].0));
                    assert(silent_expr(pairs@[i as int].1));
                }
            }
            let ghost t1 = ctx.scope_tree;
            let ghost rb = *self;
            let ghost cb = *ctx;
            proof {
                assert(decreases_to!(*pairs => pairs@[i as int]));
                assert(decreases_to!(pairs@[i as int] => pairs@[i as int].0));
                assert(decreases_to!(pairs@[i as int] => pairs@[i as int].1));
            }
            let va = self.resolve_expr_for_value(ctx, &pairs[i].0);
            let ghost t2 = ctx.scope_tree;
            let ghost rn = *self;
            let ghost cn = *ctx;
            let vb = self.resolve_expr_for_value(ctx, &pairs[i].1);
            proof {
                lemma_scopes_then(t1, t2, ctx.scope_tree, expr_scopes(pairs@[i as int].0), expr_scopes(pairs@[i as int].1));
                assert(pairs@.take(i + 1).drop_last() =~= pairs@.take(i as int));
                lemma_scopes_then(old(ctx).scope_tree, t1, ctx.scope_tree, pairs_scopes(pairs@.take(i as int)), join(expr_scopes(pairs@[i as int].0), expr_scopes(pairs@[i as int].1)));
            }
            proof {
                assert(pairs@.take(i + 1).drop_last() =~= pairs@.take(i as int));
                assert(pairs@.take(i + 1).last() == pairs@[i as int]);
                assert(pairs_rel(*old(self), *old(ctx), rb, cb, pairs@.take(i + 1).drop_last()));
                assert(expr_rel(rb, cb, rn, cn, pairs@.take(i + 1).last().0, va));
                assert(expr_rel(rn, cn, *self, *ctx, pairs@.take(i + 1).last().1, vb));
                assert(chosen((rb, cb, rn, cn, va, vb)));
                assert(pairs_rel(*old(self), *old(ctx), *self, *ctx, pairs@.take(i + 1)));
            }
            i += 1;
        }
        proof {
            assert(pairs@.take(pairs@.len() as int) =~= pairs@);
        }
    }

    fn resolve_named(&mut self, ctx: &mut GatherContext, fields: &Vec<(String, WindExpr)>)
        requires
            old(ctx).wf(),
        ensures
            named_rel(*old(self), *old(ctx), *final(self), *final(ctx), fields@),
            (forall|k: int| 0 <= k < fields@.len() ==> silent_expr(#[trigger] fields@[k].1)) ==> final(self).errors == old(self).errors,
            scopes_opened(old(ctx).scope_tree, final(ctx).scope_tree, named_scopes(fields@)),
            resolve_frame(*old(self), *old(ctx), *final(self), *final(ctx)),
        decreases fields, 0nat,
    {
        let mut i: usize = 0;
        proof {
            assert(fields@.take(0) =~= Seq::empty());
        }
        while i < fields.len()
            invariant
                (forall|k: int| 0 <= k < fields@.len() ==> silent_expr(#[trigger] fields@[k].1)) ==> self.errors == old(self).errors,
                i <= fields.len(),
                resolve_frame(*old(self), *old(ctx), *self, *ctx),
                scopes_opened(old(ctx).scope_tree, ctx.scope_tree, named_scopes(fields@.take(i as int))),
                named_rel(*old(self), *old(ctx), *self, *ctx, fields@.take(i as int)),
            decreases fields.len() - i,
        {
            let ghost t1 = ctx.scope_tree;
            let ghost rb = *self;
            let ghost cb = *ctx;
            proof {
                assert(decreases_to!(*fields => fields@[i as int]));
                assert(decreases_to!(fields@[i as int] => fields@[i as int].1));
            }
            let va = self.resolve_expr_for_value(ctx, &fields[i].1);
            proof {
                assert(fields@.take(i + 1).drop_last() =~= fields@.take(i as int));
                lemma_scopes_then(old(ctx).scope_tree, t1, ctx.scope_tree, named_scopes(fields@.take(i as int)), expr_scopes(fields@[i as int].1));
            }
            proof {
                assert(fields@.take(i + 1).drop_last() =~= fields@.take(i as int));
                assert(fields@.take(i + 1).last() == fields@[i as int]);
                assert(named_rel(*old(self), *old(ctx), rb, cb, fields@.take(i + 1).drop_last()));
                assert(expr_rel(rb, cb, *self, *ctx, fields@.take(i + 1).last().1, va));
                assert(chosen((rb, cb, va)));
                assert(named_rel(*old(self), *old(ctx), *self, *ctx, fields@.take(i + 1)));
            }
            i += 1;
        }
        proof {
            assert(fields@.take(fields@.len() as int) =~= fields@);
        }
    }

    /// The value that an expression stands for. Literals give the shared scalar of their text;
    /// names give the value bound to them; other expressions give a new value.
    fn resolve_expr_for_value(&mut self, ctx: &mut GatherContext, expr: &WindExpr) -> (vid: ValueId)
        requires
            old(ctx).wf(),
        ensures
            silent_expr(*expr) ==> final(self).errors == old(self).errors,
            value_resolved(*old(self), *old(ctx), *final(self), *final(ctx), *expr, vid),
            expr_rel(*old(self), *old(ctx), *final(self), *final(ctx), *expr, vid),
        decreases expr, 1nat,
    {
        let ghost t0 = ctx.scope_tree;
        let ghost r0 = *self;
        let ghost c0 = *ctx;
        let vid = match expr {
            WindExpr::IntLiteral(n) => {
                let text = i64_to_string(*n);
                ctx.value_pool.scalar(text.as_str(), Some(WindResolvedType::Int))
            }
            WindExpr::FloatLiteral(t) => ctx.value_pool.scalar(t.as_str(), Some(WindResolvedType::Float)),
            WindExpr::StringLiteral(t) => ctx.value_pool.scalar(t.as_str(), Some(WindResolvedType::String)),
            WindExpr::CharLiteral(t) => ctx.value_pool.scalar(t.as_str(), Some(WindResolvedType::Char)),
            WindExpr::BoolLiteral(b) => {
                let text = if *b { "true" } else { "false" };
                ctx.value_pool.scalar(text, Some(WindResolvedType::Bool))
            }
            WindExpr::NoneLiteral => ctx.value_pool.scalar("None", Some(WindResolvedType::NoneType)),
            WindExpr::Identifier(name) => self.resolve_identifier(ctx, name),
            WindExpr::Binary { left, op: _, right } => {
                let va = self.resolve_expr_for_value(ctx, left);
                let ghost t1 = ctx.scope_tree;
                let ghost ra = *self;
                let ghost ca = *ctx;
                let vb = self.resolve_expr_for_value(ctx, right);
                let ghost rb = *self;
                let ghost cb = *ctx;
                proof {
                    lemma_scopes_then(t0, t1, ctx.scope_tree, expr_scopes(**left), expr_scopes(**right));
                }
                let v = ctx.value_pool.new_allocated(None);
                proof {
                    assert(expr_rel(r0, c0, ra, ca, **left, va));
                    assert(expr_rel(ra, ca, rb, cb, **right, vb));
                    assert(chosen((ra, ca, va, rb, cb, vb)));
                    assert(then_new_value(rb, cb, *self, *ctx, v, None));
                }
                v
            }
            WindExpr::Unary { op: _, expr: inner } => {
                let va = self.resolve_expr_for_value(ctx, inner);
                let ghost ra = *self;
                let ghost ca = *ctx;
                let v = ctx.value_pool.new_allocated(None);
                proof {
                    assert(expr_rel(r0, c0, ra, ca, **inner, va));
                    assert(chosen((ra, ca, va)));
                    assert(then_new_value(ra, ca, *self, *ctx, v, None));
                }
                v
            }
            WindExpr::Call { callee, args } => {
                let va = self.resolve_expr_for_value(ctx, callee);
                let ghost t1 = ctx.scope_tree;
                let ghost ra = *self;
                let ghost ca = *ctx;
                self.resolve_exprs(ctx, args);
                let ghost rb = *self;
                let ghost cb = *ctx;
                proof {
                    lemma_scopes_then(t0, t1, ctx.scope_tree, expr_scopes(**callee), exprs_scopes(args@));
                }
                let v = ctx.value_pool.new_allocated(None);
                proof {
                    assert(expr_rel(r0, c0, ra, ca, **callee, va));
                    assert(exprs_rel(ra, ca, rb, cb, args@));
                    assert(chosen((ra, ca, va, rb, cb)));
                    assert(then_new_value(rb, cb, *self, *ctx, v, None));
                }
                v
            }
            WindExpr::FieldAccess { object, field: _ } => self.resolve_expr_for_value(ctx, object),
            WindExpr::Index { expr: target, index } => {
                let va = self.resolve_expr_for_value(ctx, target);
                let ghost t1 = ctx.scope_tree;
                let ghost ra = *self;
                let ghost ca = *ctx;
                let vb = self.resolve_expr_for_value(ctx, index);
                let ghost rb = *self;
                let ghost cb = *ctx;
                proof {
                    lemma_scopes_then(t0, t1, ctx.scope_tree, expr_scopes(**target), expr_scopes(**index));
                }
                let v = ctx.value_pool.new_allocated(None);
                proof {
                    assert(expr_rel(r0, c0, ra, ca, **target, va));
                    assert(expr_rel(ra, ca, rb, cb, **index, vb));
                    assert(chosen((ra, ca, va, rb, cb, vb)));
                    assert(then_new_value(rb, cb, *self, *ctx, v, None));
                }
                v
            }
            WindExpr::ScopeRef { object, member: _ } => {
                let va = self.resolve_expr_for_value(ctx, object);
                let ghost ra = *self;
                let ghost ca = *ctx;
                let v = ctx.value_pool.new_allocated(None);
                proof {
                    assert(expr_rel(r0, c0, ra, ca, **object, va));
                    assert(chosen((ra, ca, va)));
                    assert(then_new_value(ra, ca, *self, *ctx, v, None));
                }
                v
            }
            WindExpr::TypeExpr { expr: inner, ty: _ } => self.resolve_expr_for_value(ctx, inner),
            WindExpr::Group(inner) => self.resolve_expr_for_value(ctx, inner),
            WindExpr::MapLiteral(pairs) => {
                self.resolve_pairs(ctx, pairs);
                let ghost ra = *self;
                let ghost ca = *ctx;
                let v = ctx.value_pool.new_allocated(None);
                proof {
                    assert(pairs_rel(r0, c0, ra, ca, pairs@));
                    assert(chosen((ra, ca)));
                    assert(then_new_value(ra, ca, *self, *ctx, v, None));
                }
                v
            }
            WindExpr::ArrayLiteral(elems) => {
                self.resolve_exprs(ctx, elems);
                let ghost ra = *self;
                let ghost ca = *ctx;
                let v = ctx.value_pool.new_allocated(None);
                proof {
                    assert(exprs_rel(r0, c0, ra, ca, elems@));
                    assert(chosen((ra, ca)));
                    assert(then_new_value(ra, ca, *self, *ctx, v, None));
                }
                v
            }
            WindExpr::IfExpr { condition, then_branch, else_branch } => {
                let va = self.resolve_expr_for_value(ctx, condition);
                let ghost t1 = ctx.scope_tree;
                let ghost ra = *self;
                let ghost ca = *ctx;
                let vb = self.resolve_expr_for_value(ctx, then_branch);
                let ghost t2 = ctx.scope_tree;
                let ghost rb = *self;
                let ghost cb = *ctx;
                proof {
                    lemma_scopes_then(t0, t1, t2, expr_scopes(**condition), expr_scopes(**then_branch));
                }
                if let Some(e) = else_branch {
                    let vc = self.resolve_expr_for_value(ctx, e);
                    proof {
                        lemma_scopes_then(t0, t2, ctx.scope_tree, join(expr_scopes(**condition), expr_scopes(**then_branch)),
                            expr_scopes(**e));
                        assert(opt_scopes(*else_branch) == expr_scopes(**e));
                        assert(expr_rel(rb, cb, *self, *ctx, **e, vc));
                        assert(chosen((vc,)));
                        assert(opt_rel(rb, cb, *self, *ctx, *else_branch));
                    }
                } else {
                    proof {
                        let j0 = join(expr_scopes(**condition), expr_scopes(**then_branch));
                        assert(opt_scopes(*else_branch) == Seq::<(ScopeKind, Option<int>)>::empty());
                        assert(join(j0, Seq::<(ScopeKind, Option<int>)>::empty()) =~= j0);
                        assert(opt_rel(rb, cb, *self, *ctx, *else_branch));
                    }
                }
                let ghost rc = *self;
                let ghost cc = *ctx;
                let v = ctx.value_pool.new_allocated(None);
                proof {
                    assert(expr_rel(r0, c0, ra, ca, **condition, va));
                    assert(expr_rel(ra, ca, rb, cb, **then_branch, vb));
                    assert(opt_rel(rb, cb, rc, cc, *else_branch));
                    assert(chosen((ra, ca, va, rb, cb, vb, rc, cc)));
                    assert(then_new_value(rc, cc, *self, *ctx, v, None));
                }
                v
            }
            WindExpr::TagExpr { name: _, body } => {
                self.resolve_tag_body(ctx, body);
                let ghost ra = *self;
                let ghost ca = *ctx;
                let v = ctx.value_pool.new_allocated(Some(WindResolvedType::Tag));
                proof {
                    assert(tag_body_rel(r0, c0, ra, ca, body@));
                    let (cp, rs, cs) = choose|cp: GatherContext, rs: Resolver, cs: GatherContext|
                        #[trigger] ctx_pushed(c0, cp, ScopeKind::Block)
                        && #[trigger] stmts_rel(Resolver { current_fn_scope_id: cp.scope_tree.current, current_subscope_counter: 1, ..r0 },
                            cp, rs, cs, body@)
                        && ctx_popped(cs, ca)
                        && ra == (Resolver { current_fn_scope_id: r0.current_fn_scope_id,
                            current_subscope_counter: r0.current_subscope_counter, ..rs });
                    assert(ctx_popped(cs, ca));
                    assert(chosen((cp, rs, cs, ca)));
                    assert(then_new_value(Resolver { current_fn_scope_id: r0.current_fn_scope_id,
                        current_subscope_counter: r0.current_subscope_counter, ..rs }, ca, *self, *ctx, v, Some(WindResolvedType::Tag)));
                }
                v
            }
            WindExpr::Unpack(inner) => self.resolve_expr_for_value(ctx, inner),
            WindExpr::StructLiteral { name: _, fields } => {
                self.resolve_named(ctx, fields);
                let ghost ra = *self;
                let ghost ca = *ctx;
                let v = ctx.value_pool.new_allocated(None);
                proof {
                    assert(named_rel(r0, c0, ra, ca, fields@));
                    assert(chosen((ra, ca)));
                    assert(then_new_value(ra, ca, *self, *ctx, v, None));
                }
                v
            }
        };
        proof {
            match *expr {
                WindExpr::IntLiteral(_) | WindExpr::FloatLiteral(_) | WindExpr::StringLiteral(_)
                | WindExpr::CharLiteral(_) | WindExpr::BoolLiteral(_) | WindExpr::NoneLiteral => {
                    assert(ctx.scope_tree == t0);
                    assert(expr_scopes(*expr) =~= Seq::<(ScopeKind, Option<int>)>::empty());
                },
                WindExpr::Identifier(_) => {
                    assert(expr_scopes(*expr) =~= Seq::<(ScopeKind, Option<int>)>::empty());
                },
                _ => {},
            }
        }
        vid
    }

    /// Resolves the condition of a `while` loop, then its body.
    fn resolve_while(&mut self, ctx: &mut GatherContext, stmt: &WindStmt)
        requires
            old(ctx).wf(),
            stmt is While,
        ensures
            stmt_rel(*old(self), *old(ctx), *final(self), *final(ctx), *stmt),
            silent_stmt(*stmt) ==> final(self).errors == old(self).errors,
            scopes_opened(old(ctx).scope_tree, final(ctx).scope_tree, stmt_scopes(*stmt)),
            resolve_frame(*old(self), *old(ctx), *final(self), *final(ctx)),
        decreases stmt, 0nat,
    {
        if let WindStmt::While { condition, body } = stmt {
            let va = self.resolve_expr_for_value(ctx, condition);
            let ghost ra = *self;
            let ghost ca = *ctx;
            self.resolve_stmt(ctx, body);
            proof {
                assert(chosen((ra, ca, va)));
            }
        }
    }

    /// Resolves the returned expression, if there is one.
    fn resolve_return(&mut self, ctx: &mut GatherContext, stmt: &WindStmt)
        requires
            old(ctx).wf(),
            stmt is Return,
        ensures
            stmt_rel(*old(self), *old(ctx), *final(self), *final(ctx), *stmt),
            silent_stmt(*stmt) ==> final(self).errors == old(self).errors,
            scopes_opened(old(ctx).scope_tree, final(ctx).scope_tree, stmt_scopes(*stmt)),
            resolve_frame(*old(self), *old(ctx), *final(self), *final(ctx)),
        decreases stmt, 0nat,
    {
        let ghost r0 = *self;
        let ghost c0 = *ctx;
        if let WindStmt::Return(Some(e)) = stmt {
            let v = self.resolve_expr_for_value(ctx, e);
            assert(chosen((v,)));
            assert(opt_rel(r0, c0, *self, *ctx, Some(*e)));
            assert(opt_scopes(Some(*e)) == expr_scopes(**e));
            assert(silent_opt(Some(*e)) == silent_expr(**e));
        } else {
            assert(opt_scopes(None) == Seq::<(ScopeKind, Option<int>)>::empty());
            assert(opt_rel(r0, c0, *self, *ctx, None::<Box<WindExpr>>));
        }
    }

    /// Resolves the body of a tag in a block scope of its own, numbered as a function scope.
    fn resolve_tag_body(&mut self, ctx: &mut GatherContext, body: &Vec<WindStmt>)
        requires
            old(ctx).wf(),
        ensures
            tag_body_rel(*old(self), *old(ctx), *final(self), *final(ctx), body@),
            silent_stmts(body@) ==> final(self).errors == old(self).errors,
            scopes_opened(old(ctx).scope_tree, final(ctx).scope_tree, nest(ScopeKind::Block, stmts_scopes(body@))),
            resolve_frame(*old(self), *old(ctx), *final(self), *final(ctx)),
        decreases body, 1nat,
    {
        let ghost r0 = *self;
        let ghost c0 = *ctx;
        let scope_id = ctx.scope_tree.push_scope(ScopeKind::Block);
        let ghost cp = *ctx;
        let saved_scope = self.current_fn_scope_id;
        self.current_fn_scope_id = scope_id;
        let saved_sub = self.current_subscope_counter;
        self.current_subscope_counter = 1;
        let ghost ri = *self;
        self.resolve_stmts(ctx, body);
        let ghost rs = *self;
        let ghost cs = *ctx;
        let _ = ctx.scope_tree.pop_scope();
        self.current_fn_scope_id = saved_scope;
        self.current_subscope_counter = saved_sub;
        proof {
            assert(ctx_pushed(c0, cp, ScopeKind::Block));
            assert(ri == Resolver { current_fn_scope_id: cp.scope_tree.current, current_subscope_counter: 1, ..r0 });
            assert(stmts_rel(ri, cp, rs, cs, body@));
            assert(ctx_popped(cs, *ctx));
            assert(chosen((cp, rs, cs)));
        }
    }

    /// The value a name stands for. `self`, `this` and `it` read the receiver's binding; a
    /// variable gives its bound value, or a new one bound to it; an unknown name is declared
    /// in the current scope and bound to a new value.
    fn resolve_identifier(&mut self, ctx: &mut GatherContext, name: &String) -> (vid: ValueId)
        requires
            old(ctx).wf(),
        ensures
            scopes_opened(old(ctx).scope_tree, final(ctx).scope_tree, seq![]),
            resolve_frame(*old(self), *old(ctx), *final(self), *final(ctx)),
            final(ctx).value_pool.holds(vid),
            *final(self) == *old(self),
            ident_resolved(*old(self), *old(ctx), *final(ctx), name@, vid),
            ident_rel(*old(self), *old(ctx), *final(ctx), name@, vid),
    {
        let ghost c0 = *ctx;
        if str_eq(name.as_str(), "self") || str_eq(name.as_str(), "this") || str_eq(name.as_str(), "it") {
            let mangled = MangledName::new(self.current_fn_scope_id, self.current_fn_name.as_str(), 0, "self", 1);
            match ctx.bindings.lookup(&mangled) {
                Some(vid) => {
                    return vid;
                }
                None => {}
            }
            let vid = ctx.value_pool.new_allocated(None);
            proof {
                assert(ctx_allocated(c0, *ctx, vid, None, ValueKind::Allocated));
            }
            return vid;
        }
        let found = match ctx.scope_tree.lookup_symbol(name.as_str()) {
            Some(Symbol::Variable { mangled_name, .. }) => Some(Some(mangled_name.copy())),
            Some(_) => Some(None),
            None => None,
        };
        match found {
            Some(Some(mangled)) => {
                match ctx.bindings.lookup(&mangled) {
                    Some(vid) => vid,
                    None => {
                        let vid = ctx.value_pool.new_allocated(None);
                        let ghost ca = *ctx;
                        let _ = ctx.bindings.bind(mangled, vid, &mut ctx.value_pool);
                        proof {
                            assert(ctx_allocated(c0, ca, vid, None, ValueKind::Allocated));
                            assert(ctx_bound(ca, *ctx, mangled, vid));
                            assert(chosen((ca,)));
                        }
                        vid
                    }
                }
            }
            Some(None) => {
                let vid = ctx.value_pool.new_allocated(None);
                proof {
                    assert(ctx_allocated(c0, *ctx, vid, None, ValueKind::Allocated));
                }
                vid
            }
            None => {
                let mangled = MangledName::new(
                    self.current_fn_scope_id,
                    self.current_fn_name.as_str(),
                    self.current_subscope_counter,
                    name.as_str(),
                    1,
                );
                let vid = ctx.value_pool.new_allocated(None);
                let ghost ca = *ctx;
                let _ = ctx.bindings.bind(mangled.copy(), vid, &mut ctx.value_pool);
                let ghost cb = *ctx;
                let sym = Symbol::Variable {
                    name: name.clone(),
                    mangled_name: mangled.copy(),
                    ty: None,
                    mutable: true,
                    storage_class: StorageClass::Let,
                };
                let ghost gsym = sym;
                ctx.scope_tree.insert_symbol(name.as_str(), sym);
                let ghost cc = *ctx;
                let ghost gm = mangled;
                ctx.scope_tree.add_mangled_name(mangled);
                proof {
                    assert(ctx_allocated(c0, ca, vid, None, ValueKind::Allocated));
                    assert(ctx_bound(ca, cb, gm, vid));
                    assert(ctx_inserted(cb, cc, name@, gsym));
                    assert(ctx_named(cc, *ctx, gm));
                    assert(is_variable(gsym, name@, gm@, true, None));
                    assert(chosen((ca, cb, cc, gm, gsym)));
                }
                vid
            }
        }
    }

    /// Unbinds the names declared in the scope `scope_id`.
    fn unbind_scope(ctx: &mut GatherContext, scope_id: ScopeId)
        requires
            old(ctx).wf(),
            1 <= scope_id@ <= old(ctx).scope_tree.scopes@.len(),
        ensures
            ctx_scope_unbound(*old(ctx), *final(ctx), scope_id),
            final(ctx).wf(),
            final(ctx).scope_tree == old(ctx).scope_tree,
            pool_extends(old(ctx).value_pool, final(ctx).value_pool),
            final(ctx).errors == old(ctx).errors,
            final(ctx).dead_values == old(ctx).dead_values,
            final(ctx).value_names == old(ctx).value_names,
            ({
                let names = old(ctx).scope_tree.scopes@[scope_id@ - 1].local_mangled_names@;
                forall|i: int| 0 <= i < names.len()
                    ==> !(#[trigger] final(ctx).bindings.name_to_value@.contains_key(names[i]@))
            }),
    {
        match ctx.scope_tree.get_scope(scope_id) {
            Some(s) => {
                let ghost names = s.local_mangled_names@;
                let ghost st0 = UnbindState {
                    names: ctx.bindings.name_to_value@,
                    lists: crate::bindings::lists_of(ctx.bindings.value_to_names@),
                    values: ctx.value_pool.values@,
                    dead: seq![],
                };
                let _ = ctx.bindings.unbind_all_in_scope(s.local_mangled_names.as_slice(), &mut ctx.value_pool);
                proof {
                    lemma_unbind_all_unbinds(st0, names);
                    lemma_unbind_all_pool(st0, names);
                }
            }
            None => {}
        }
    }

    fn resolve_block(&mut self, ctx: &mut GatherContext, stmts: &Vec<WindStmt>)
        requires
            old(ctx).wf(),
        ensures
            stmt_rel(*old(self), *old(ctx), *final(self), *final(ctx), WindStmt::Block(*stmts)),
            block_body_rel(*old(self), *old(ctx), *final(self), *final(ctx), stmts@),
            silent_stmts(stmts@) ==> final(self).errors == old(self).errors,
            scopes_opened(old(ctx).scope_tree, final(ctx).scope_tree, nest(ScopeKind::Block, stmts_scopes(stmts@))),
            resolve_frame(*old(self), *old(ctx), *final(self), *final(ctx)),
            ({
                let block = final(ctx).scope_tree.scopes@[old(ctx).scope_tree.scopes@.len() as int];
                &&& old(ctx).scope_tree.scopes@.len() < final(ctx).scope_tree.scopes@.len()
                &&& forall|i: int| 0 <= i < block.local_mangled_names@.len()
                    ==> !(#[trigger] final(ctx).bindings.name_to_value@.contains_key(block.local_mangled_names@[i]@))
            }),
        decreases stmts, 1nat,
    {
        let ghost r0 = *self;
        let ghost c0 = *ctx;
        let scope_id = ctx.scope_tree.push_scope(ScopeKind::Block);
        let ghost cp = *ctx;
        let saved_sub = self.current_subscope_counter;
        self.current_subscope_counter = next_counter(self.current_subscope_counter);
        let ghost ri = *self;
        self.resolve_stmts(ctx, stmts);
        let ghost rs = *self;
        let ghost cs = *ctx;
        Self::unbind_scope(ctx, scope_id);
        let ghost cu = *ctx;
        let _ = ctx.scope_tree.pop_scope();
        self.current_subscope_counter = saved_sub;
        proof {
            assert(ctx_pushed(c0, cp, ScopeKind::Block));
            assert(ri == Resolver { current_subscope_counter: next_count(r0.current_subscope_counter), ..r0 });
            assert(ctx_scope_unbound(cs, cu, cp.scope_tree.current));
            assert(ctx_popped(cu, *ctx));
            assert(chosen((cp, rs, cs, cu)));
        }
    }

    fn resolve_elifs(&mut self, ctx: &mut GatherContext, elifs: &Vec<(WindExpr, WindStmt)>)
        requires
            old(ctx).wf(),
        ensures
            elifs_rel(*old(self), *old(ctx), *final(self), *final(ctx), elifs@),
            silent_elifs(elifs@) ==> final(self).errors == old(self).errors,
            scopes_opened(old(ctx).scope_tree, final(ctx).scope_tree, elifs_scopes(elifs@)),
            resolve_frame(*old(self), *old(ctx), *final(self), *final(ctx)),
        decreases elifs, 0nat,
    {
        let mut i: usize = 0;
        proof {
            assert(elifs@.take(0) =~= Seq::empty());
        }
        while i < elifs.len()
            invariant
                silent_elifs(elifs@) ==> self.errors == old(self).errors,
                i <= elifs.len(),
                resolve_frame(*old(self), *old(ctx), *self, *ctx),
                scopes_opened(old(ctx).scope_tree, ctx.scope_tree, elifs_scopes(elifs@.take(i as int))),
                elifs_rel(*old(self), *old(ctx), *self, *ctx, elifs@.take(i as int)),
            decreases elifs.len() - i,
        {
            proof {
                if silent_elifs(elifs@) {
                    assert(silent_expr(elifs@[i as int].0));
                    assert(silent_stmt(elifs@[i as int].1));
                }
            }
            let ghost t1 = ctx.scope_tree;
            let ghost rb = *self;
            let ghost cb = *ctx;
            proof {
                assert(decreases_to!(*elifs => elifs@[i as int]));
                assert(decreases_to!(elifs@[i as int] => elifs@[i as int].0));
                assert(decreases_to!(elifs@[i as int] => elifs@[i as int].1));
            }
            let va = self.resolve_expr_for_value(ctx, &elifs[i].0);
            let ghost t2 = ctx.scope_tree;
            let ghost rn = *self;
            let ghost cn = *ctx;
            self.resolve_stmt(ctx, &elifs[i].1);
            proof {
                lemma_scopes_then(t1, t2, ctx.scope_tree, expr_scopes(elifs@[i as int].0), stmt_scopes(elifs@[i as int].1));
                assert(elifs@.take(i + 1).drop_last() =~= elifs@.take(i as int));
                lemma_scopes_then(old(ctx).scope_tree, t1, ctx.scope_tree, elifs_scopes(elifs@.take(i as int)), join(expr_scopes(elifs@[i as int].0), stmt_scopes(elifs@[i as int].1)));
            }
            proof {
                assert(elifs@.take(i + 1).drop_last() =~= elifs@.take(i as int));
                assert(elifs@.take(i + 1).last() == elifs@[i as int]);
                assert(elifs_rel(*old(self), *old(ctx), rb, cb, elifs@.take(i + 1).drop_last()));
                assert(expr_rel(rb, cb, rn, cn, elifs@.take(i + 1).last().0, va));
                assert(stmt_rel(rn, cn, *self, *ctx, elifs@.take(i + 1).last().1));
                assert(chosen((rb, cb, rn, cn, va)));
                assert(elifs_rel(*old(self), *old(ctx), *self, *ctx, elifs@.take(i + 1)));
            }
            i += 1;
        }
        proof {
            assert(elifs@.take(elifs@.len() as int) =~= elifs@);
        }
    }

    fn resolve_if(&mut self, ctx: &mut GatherContext, stmt: &WindStmt)
        requires
            old(ctx).wf(),
            stmt is If,
        ensures
            stmt_rel(*old(self), *old(ctx), *final(self), *final(ctx), *stmt),
            silent_stmt(*stmt) ==> final(self).errors == old(self).errors,
            scopes_opened(old(ctx).scope_tree, final(ctx).scope_tree, stmt_scopes(*stmt)),
            resolve_frame(*old(self), *old(ctx), *final(self), *final(ctx)),
        decreases stmt, 0nat,
    {
        if let WindStmt::If { condition, then_branch, elif_branches, else_branch } = stmt {
            proof {
                if silent_stmt(*stmt) {
                    assert(silent_elifs(elif_branches@));
                }
            }
            let va = self.resolve_expr_for_value(ctx, condition);
            let ghost ra = *self;
            let ghost ca = *ctx;
            self.resolve_stmt(ctx, then_branch);
            let ghost rb = *self;
            let ghost cb = *ctx;
            self.resolve_elifs(ctx, elif_branches);
            let ghost rc = *self;
            let ghost cc = *ctx;
            if let Some(e) = else_branch {
                self.resolve_stmt(ctx, e);
            }
            proof {
                assert(chosen((ra, ca, va, rb, cb, rc, cc)));
            }
        }
    }

    fn resolve_for(&mut self, ctx: &mut GatherContext, stmt: &WindStmt)
        requires
            old(ctx).wf(),
            stmt is For,
        ensures
            stmt_rel(*old(self), *old(ctx), *final(self), *final(ctx), *stmt),
            silent_stmt(*stmt) ==> final(self).errors == old(self).errors,
            scopes_opened(old(ctx).scope_tree, final(ctx).scope_tree, stmt_scopes(*stmt)),
            resolve_frame(*old(self), *old(ctx), *final(self), *final(ctx)),
        decreases stmt, 0nat,
    {
        if let WindStmt::For { init, condition, update, body } = stmt {
            self.resolve_opt(ctx, init);
            let ghost ra = *self;
            let ghost ca = *ctx;
            self.resolve_opt(ctx, condition);
            let ghost c1 = *ctx;
            let ghost r1 = *self;
            let scope_id = ctx.scope_tree.push_scope(ScopeKind::Block);
            let saved_sub = self.current_subscope_counter;
            self.current_subscope_counter = next_counter(self.current_subscope_counter);
            let ghost c2 = *ctx;
            let ghost r2 = *self;
            self.resolve_stmt(ctx, body);
            let ghost rs = *self;
            let ghost cs = *ctx;
            self.resolve_opt(ctx, update);
            let ghost c3 = *ctx;
            let ghost r3 = *self;
            assert(resolve_frame(r2, c2, r3, c3));
            Self::unbind_scope(ctx, scope_id);
            let ghost cx = *ctx;
            let _ = ctx.scope_tree.pop_scope();
            self.current_subscope_counter = saved_sub;
            proof {
                assert(ctx_pushed(c1, c2, ScopeKind::Block));
                assert(r2 == Resolver { current_subscope_counter: next_count(r1.current_subscope_counter), ..r1 });
                assert(ctx_scope_unbound(c3, cx, c2.scope_tree.current));
                assert(ctx_popped(cx, *ctx));
                assert(chosen((ra, ca, r1, c1, c2, rs, cs, r3, c3, cx)));
            }
            assert(tree_extends(c1.scope_tree, ctx.scope_tree));
            assert(pool_extends(c1.value_pool, ctx.value_pool));
            assert(same_frame(r1, *self));
            assert(errors_extend(r1, *self));
            assert(resolve_frame(r1, c1, *self, *ctx));
        }
    }

    fn resolve_opt(&mut self, ctx: &mut GatherContext, e: &Option<Box<WindExpr>>)
        requires
            old(ctx).wf(),
        ensures
            opt_rel(*old(self), *old(ctx), *final(self), *final(ctx), *e),
            silent_opt(*e) ==> final(self).errors == old(self).errors,
            scopes_opened(old(ctx).scope_tree, final(ctx).scope_tree, opt_scopes(*e)),
            resolve_frame(*old(self), *old(ctx), *final(self), *final(ctx)),
        decreases e, 0nat,
    {
        if let Some(x) = e {
            let v = self.resolve_expr_for_value(ctx, x);
            assert(chosen((v,)));
        }
    }

    fn resolve_for_in(&mut self, ctx: &mut GatherContext, stmt: &WindStmt)
        requires
            old(ctx).wf(),
            stmt is ForIn,
        ensures
            stmt_rel(*old(self), *old(ctx), *final(self), *final(ctx), *stmt),
            silent_stmt(*stmt) ==> final(self).errors == old(self).errors,
            scopes_opened(old(ctx).scope_tree, final(ctx).scope_tree, stmt_scopes(*stmt)),
            resolve_frame(*old(self), *old(ctx), *final(self), *final(ctx)),
        decreases stmt, 0nat,
    {
        if let WindStmt::ForIn { var, iterable, body } = stmt {
            let va = self.resolve_expr_for_value(ctx, iterable);
            let ghost ra = *self;
            let ghost ca = *ctx;
            let mangled = MangledName::new(
                self.current_fn_scope_id,
                self.current_fn_name.as_str(),
                self.current_subscope_counter,
                var.as_str(),
                1,
            );
            let vid = ctx.value_pool.new_allocated(None);
            let ghost c1 = *ctx;
            let _ = ctx.bindings.bind(mangled.copy(), vid, &mut ctx.value_pool);
            let ghost c2 = *ctx;
            let sym = Symbol::Variable {
                name: var.clone(),
                mangled_name: mangled.copy(),
                ty: None,
                mutable: false,
                storage_class: StorageClass::Let,
            };
            let ghost gsym = sym;
            ctx.scope_tree.insert_symbol(var.as_str(), sym);
            let ghost c3 = *ctx;
            let ghost gm = mangled;
            ctx.scope_tree.add_mangled_name(mangled);
            let ghost cd = *ctx;
            proof {
                assert(ctx_allocated(ca, c1, vid, None, ValueKind::Allocated));
                assert(ctx_bound(c1, c2, gm, vid));
                assert(ctx_inserted(c2, c3, var@, gsym));
                assert(ctx_named(c3, cd, gm));
                assert(is_variable(gsym, var@, gm@, false, None));
                assert(chosen((c1, c2, c3, gm, gsym)));
                assert(declared_fresh(ca, cd, var@, (ra.current_fn_scope_id@, ra.current_fn_name@, ra.current_subscope_counter, var@, 1u64),
                    vid, false, None));
            }
            self.resolve_stmt(ctx, body);
            proof {
                assert(chosen((ra, ca, va, cd, vid)));
            }
        }
    }

    fn resolve_fn_def(&mut self, ctx: &mut GatherContext, stmt: &WindStmt)
        requires
            old(ctx).wf(),
            stmt is FnDef,
        ensures
            stmt_rel(*old(self), *old(ctx), *final(self), *final(ctx), *stmt),
            silent_stmt(*stmt) ==> final(self).errors == old(self).errors,
            scopes_opened(old(ctx).scope_tree, final(ctx).scope_tree, stmt_scopes(*stmt)),
            resolve_frame(*old(self), *old(ctx), *final(self), *final(ctx)),
            ({
                let scope = final(ctx).scope_tree.scopes@[old(ctx).scope_tree.scopes@.len() as int];
                &&& old(ctx).scope_tree.scopes@.len() < final(ctx).scope_tree.scopes@.len()
                &&& scope.kind == ScopeKind::Function
                &&& forall|i: int| 0 <= i < scope.local_mangled_names@.len()
                    ==> !(#[trigger] final(ctx).bindings.name_to_value@.contains_key(scope.local_mangled_names@[i]@))
            }),
        decreases stmt, 0nat,
    {
        if let WindStmt::FnDef { name, params, body, .. } = stmt {
            let saved_fn_name = self.current_fn_name.clone();
            let saved_scope = self.current_fn_scope_id;
            let saved_sub = self.current_subscope_counter;
            self.current_fn_name = name.clone();
            self.current_subscope_counter = 1;
            let ghost r0 = *self;
            let ghost c0 = *old(ctx);
            let scope_id = ctx.scope_tree.push_scope(ScopeKind::Function);
            self.current_fn_scope_id = scope_id;
            let ghost c_pushed = *ctx;
            let mut i: usize = 0;
            proof {
                assert(params@.take(0) =~= Seq::<WindFnParam>::empty());
            }
            while i < params.len()
                invariant
                    params_rel(c_pushed, *ctx, scope_id, name@, params@.take(i as int)),
                    scope_id == c_pushed.scope_tree.current,
                    i <= params.len(),
                    ctx.wf(),
                    tree_extends(c_pushed.scope_tree, ctx.scope_tree),
                    ctx.scope_tree.scopes@.len() == c_pushed.scope_tree.scopes@.len(),
                    pool_extends(c_pushed.value_pool, ctx.value_pool),
                    ctx.errors == c_pushed.errors,
                    ctx.dead_values == c_pushed.dead_values,
                    ctx.value_names == c_pushed.value_names,
                decreases params.len() - i,
            {
                let param = &params[i];
                let ghost cm = *ctx;
                let mangled = MangledName::new(scope_id, name.as_str(), 0, param.name.as_str(), 1);
                let vid = ctx.value_pool.new_allocated(None);
                let ghost c1 = *ctx;
                let _ = ctx.bindings.bind(mangled.copy(), vid, &mut ctx.value_pool);
                let ghost c2 = *ctx;
                let type_ref = match &param.ty {
                    Some(t) => Some(WindTypeRef::from_ast(t)),
                    None => None,
                };
                let sym = Symbol::Variable {
                    name: param.name.clone(),
                    mangled_name: mangled.copy(),
                    ty: type_ref,
                    mutable: true,
                    storage_class: StorageClass::Let,
                };
                let ghost gsym = sym;
                ctx.scope_tree.insert_symbol(param.name.as_str(), sym);
                let ghost c3 = *ctx;
                let ghost gm = mangled;
                ctx.scope_tree.add_mangled_name(mangled);
                proof {
                    assert(ctx_allocated(cm, c1, vid, None, ValueKind::Allocated));
                    assert(ctx_bound(c1, c2, gm, vid));
                    assert(ctx_inserted(c2, c3, param.name@, gsym));
                    assert(ctx_named(c3, *ctx, gm));
                    assert(is_variable(gsym, param.name@, gm@, true, param.ty));
                    assert(chosen((c1, c2, c3, gm, gsym)));
                    let ps = params@.take(i + 1);
                    assert(ps.drop_last() =~= params@.take(i as int));
                    assert(ps.last() == params@[i as int]);
                    assert(declared_fresh(cm, *ctx, ps.last().name@, (scope_id@, name@, 0u64, ps.last().name@, 1u64), vid,
                        true, ps.last().ty));
                    assert(chosen((cm, vid)));
                    assert(params_rel(c_pushed, *ctx, scope_id, name@, ps));
                }
                i += 1;
            }
            proof {
                assert(params@.take(params@.len() as int) =~= params@);
            }
            let ghost cq = *ctx;
            let ghost ri = *self;
            self.resolve_stmt(ctx, body);
            let ghost rs = *self;
            let ghost cs = *ctx;
            Self::unbind_scope(ctx, scope_id);
            let ghost cu = *ctx;
            let _ = ctx.scope_tree.pop_scope();
            self.current_fn_name = saved_fn_name;
            self.current_fn_scope_id = saved_scope;
            self.current_subscope_counter = saved_sub;
            proof {
                assert(ctx_pushed(c0, c_pushed, ScopeKind::Function));
                assert(ri == Resolver { current_fn_name: *name, current_fn_scope_id: c_pushed.scope_tree.current,
                    current_subscope_counter: 1, ..r0 });
                assert(ctx_scope_unbound(cs, cu, c_pushed.scope_tree.current));
                assert(ctx_popped(cu, *ctx));
                assert(chosen((c_pushed, cq, rs, cs, cu)));
            }
        }
    }

    /// Reports an apply whose group or target no scope knows.
    fn resolve_apply(&mut self, ctx: &mut GatherContext, group: &String, target: &String)
        requires
            old(ctx).wf(),
        ensures
            *final(ctx) == *old(ctx),
            same_frame(*old(self), *final(self)),
            final(self).errors@ == old(self).errors@ + (if old(ctx).scope_tree.resolve(group@) is None {
                seq![SemanticError {
                    message: final(self).errors@[old(self).errors@.len() as int].message,
                    span: label_span(old(self).source, group@),
                }]
            } else {
                seq![]
            }) + (if old(ctx).scope_tree.resolve(target@) is None {
                seq![SemanticError {
                    message: final(self).errors@.last().message,
                    span: label_span(old(self).source, target@),
                }]
            } else {
                seq![]
            }),
            old(ctx).scope_tree.resolve(group@) is None
                ==> final(self).errors@[old(self).errors@.len() as int].message@ == missing_group_text(group@, target@),
            old(ctx).scope_tree.resolve(target@) is None
                ==> final(self).errors@.last().message@ == missing_target_text(target@, group@),
            error_views(final(self).errors@) == error_views(old(self).errors@)
                + apply_reports(*old(self), *old(ctx), group@, target@),
    {
        let group_missing = match ctx.scope_tree.lookup_symbol(group.as_str()) {
            Some(_) => false,
            None => true,
        };
        if group_missing {
            let mut msg = string_of("Group '");
            push_str(&mut msg, group.as_str());
            push_str(&mut msg, "' not found (referenced in @");
            push_str(&mut msg, target.as_str());
            push_str(&mut msg, " apply).");
            proof {
                assert(msg@ =~= missing_group_text(group@, target@));
            }
            self.error(msg, group.as_str());
        }
        let target_missing = match ctx.scope_tree.lookup_symbol(target.as_str()) {
            Some(_) => false,
            None => true,
        };
        if target_missing {
            let mut msg = string_of("Target struct '");
            push_str(&mut msg, target.as_str());
            push_str(&mut msg, "' not found for @");
            push_str(&mut msg, group.as_str());
            push_str(&mut msg, ".");
            proof {
                assert(msg@ =~= missing_target_text(target@, group@));
            }
            self.error(msg, target.as_str());
        }
        proof {
            let e0 = old(self).errors@;
            let e1 = self.errors@;
            if group_missing && target_missing {
                assert(e1 =~= e0 + seq![e1[e0.len() as int]] + seq![e1.last()]);
            } else if group_missing {
                assert(e1 =~= e0 + seq![e1[e0.len() as int]] + Seq::<SemanticError>::empty());
            } else if target_missing {
                assert(e1 =~= e0 + Seq::<SemanticError>::empty() + seq![e1.last()]);
            } else {
                assert(e1 =~= e0 + Seq::<SemanticError>::empty() + Seq::<SemanticError>::empty());
            }
        }
    }
}

/// Unbinding names one after another changes no value's kind or type and adds no value.
proof fn lemma_unbind_all_pool(st: UnbindState, names: Seq<MangledName>)
    ensures
        unbind_all(st, names).values.len() == st.values.len(),
        forall|i: int| 0 <= i < st.values.len() ==> (#[trigger] unbind_all(st, names).values[i]).kind == st.values[i].kind
            && unbind_all(st, names).values[i].ty == st.values[i].ty
            && unbind_all(st, names).values[i].id == st.values[i].id,
    decreases names.len(),
{
    if names.len() > 0 {
        lemma_unbind_all_pool(st, names.drop_last());
        let prev = unbind_all(st, names.drop_last());
        assert(unbind_all(st, names) == unbind_step(prev, names.last()));
    }
}

} // verus!
