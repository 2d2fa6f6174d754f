use vstd::prelude::*;
use crate::ast::WindExpr;
use crate::ast::WindFnParam;
use crate::ast::WindFnSignature;
use crate::ast::WindGroupRule;
use crate::ast::WindProgram;
use crate::ast::WindStmt;
use crate::ast::WindStructField;
use crate::ast::WindType;
use crate::ast::WindWhichClause;
use crate::bindings::Bindings;
use crate::ids::ScopeId;
use crate::ids::ValueId;
use crate::ids::WindFnSignatureId;
use crate::scope::Scope;
use crate::scope::ScopeTree;
use crate::sema::FieldInfo;
use crate::sema::GroupRuleInfo;
use crate::sema::GroupRuleKind;
use crate::sema::MangledName;
use crate::sema::ScopeKind;
use crate::sema::SemanticError;
use crate::sema::StorageClass;
use crate::sema::Symbol;
use crate::sema::WindExprRef;
use crate::sema::WindTypeRef;
use crate::sema::WindWhichClauseRef;
use crate::sema::type_ref_of;
use crate::sema::which_ref_of;
use crate::text::push_str;
use crate::text::string_of;
use crate::value_pool::WindValuePool;
use crate::vmap::ViewMap;

verus! {

/// `r` records the optional list of clauses `w`, clause by clause.
pub open spec fn which_refs_of(r: Option<Vec<WindWhichClauseRef>>, w: Option<Vec<WindWhichClause>>) -> bool {
    match (r, w) {
        (None, None) => true,
        (Some(rs), Some(ws)) => rs.len() == ws.len() && forall|i: int| 0 <= i < ws.len() ==> which_ref_of(#[trigger] rs@[i], ws@[i]),
        _ => false,
    }
}

/// `fi` records the struct field `f`.
pub open spec fn field_info_of(fi: FieldInfo, f: WindStructField) -> bool {
    &&& fi.public == f.public
    &&& fi.is_static == f.is_static
    &&& fi.name == f.name
    &&& type_ref_of(fi.ty, f.ty)
    &&& which_refs_of(fi.which, f.which)
    &&& fi.conditions is Some == f.conditions is Some
    &&& fi.default_value is Some == f.default_value is Some
}

/// `r` records the group rule `g`.
pub open spec fn rule_info_of(r: GroupRuleInfo, g: WindGroupRule) -> bool {
    match g {
        WindGroupRule::Simple { field, ty } => r.kind == GroupRuleKind::Simple { param: field } && type_ref_of(r.ty, ty),
        WindGroupRule::SelfField { field, ty } => r.kind == GroupRuleKind::SelfField { field } && type_ref_of(r.ty, ty),
    }
}

/// `r` records the enum variant `v`.
pub open spec fn variant_of(r: (String, Option<WindTypeRef>), v: (String, Option<WindType>)) -> bool {
    &&& r.0 == v.0
    &&& match (r.1, v.1) {
        (None, None) => true,
        (Some(a), Some(b)) => type_ref_of(a, b),
        _ => false,
    }
}

/// The number of function definitions in a list of statements.
pub open spec fn count_fn_defs(s: Seq<WindStmt>) -> nat
    decreases s.len(),
{
    if s.len() == 0 {
        0
    } else {
        count_fn_defs(s.drop_last()) + if s.last() is FnDef { 1nat } else { 0nat }
    }
}

/// The mangled name of a variable declared at top level.
pub open spec fn global_mangled(name: Seq<char>) -> (u64, Seq<char>, u64, Seq<char>, u64) {
    (1u64, "global"@, 1u64, name, 1u64)
}

/// The key under which gathering records an impl of `trait_name` for `target`.
pub open spec fn impl_key(trait_name: Seq<char>, target: Seq<char>) -> Seq<char> {
    "impl_"@ + trait_name + "_for_"@ + target
}

/// The key under which gathering records a top-level item in the current scope, if it records
/// one there.
pub open spec fn gathered_key(stmt: WindStmt) -> Option<Seq<char>> {
    match stmt {
        WindStmt::StructDef { name, .. } => Some(name@),
        WindStmt::EnumDef { name, .. } => Some(name@),
        WindStmt::TypeDef { name, .. } => Some(name@),
        WindStmt::TraitDef { name, .. } => Some(name@),
        WindStmt::ExtraDef { name, target, .. } => Some(
            match name {
                Some(n) => n@,
                None => target@,
            },
        ),
        WindStmt::ImplDef { trait_name, target, .. } => Some(impl_key(trait_name@, target@)),
        WindStmt::GroupDef { name, .. } => Some(name@),
        WindStmt::ConstDef { name, .. } => Some(name@),
        WindStmt::ConstaticDef { name, .. } => Some(name@),
        WindStmt::ExplainDef { name, .. } => Some(name@),
        WindStmt::Expr(e) => match *e {
            WindExpr::TagExpr { name, .. } => Some(name@),
            _ => None,
        },
        _ => None,
    }
}

/// The variable that a top-level `const`, `constatic` or `explain` of `name: ty` records.
pub open spec fn var_symbol_of(sym: Symbol, name: String, ty: WindType, storage: StorageClass) -> bool {
    match sym {
        Symbol::Variable { name: n, mangled_name, ty: t, mutable, storage_class } => {
            &&& n == name
            &&& mangled_name@ == global_mangled(name@)
            &&& match t {
                Some(r) => type_ref_of(r, ty),
                None => false,
            }
            &&& mutable == (storage == StorageClass::Explain)
            &&& storage_class == storage
        }
        _ => false,
    }
}

/// `sym` is what gathering records for the top-level item `stmt`.
pub open spec fn gathered_symbol(sym: Symbol, stmt: WindStmt) -> bool {
    match stmt {
        WindStmt::StructDef { public, name, fields } => match sym {
            Symbol::Struct { name: n, public: p, fields: fs } => n == name && p == public && fs.len() == fields.len()
                && forall|i: int| 0 <= i < fields.len() ==> field_info_of(#[trigger] fs@[i], fields@[i]),
            _ => false,
        },
        WindStmt::EnumDef { public, name, variants } => match sym {
            Symbol::Enum { name: n, public: p, variants: vs } => n == name && p == public && vs.len() == variants.len()
                && forall|i: int| 0 <= i < variants.len() ==> variant_of(#[trigger] vs@[i], variants@[i]),
            _ => false,
        },
        WindStmt::TypeDef { public, name, base_type, conditions } => match sym {
            Symbol::TypeAlias { name: n, public: p, base_type: b, conditions: cs } => n == name && p == public
                && type_ref_of(b, base_type) && cs.len() == conditions.len(),
            _ => false,
        },
        WindStmt::TraitDef { public, name, functions } => match sym {
            Symbol::Trait { name: n, public: p, methods } => n == name && p == public && methods.len() == functions.len()
                && forall|i: int| 0 <= i < methods.len() ==> (#[trigger] methods@[i])@ == 1,
            _ => false,
        },
        WindStmt::ExtraDef { name, target, functions, .. } => match sym {
            Symbol::Extra { name: n, target_struct, functions: fs } => n == name && target_struct == target
                && fs.len() == count_fn_defs(functions@) && forall|i: int| 0 <= i < fs.len() ==> (#[trigger] fs@[i])@ == 1,
            _ => false,
        },
        WindStmt::ImplDef { trait_name, target, functions, .. } => match sym {
            Symbol::Impl { trait_name: t, target_struct, functions: fs } => t == trait_name && target_struct == target
                && fs.len() == count_fn_defs(functions@) && forall|i: int| 0 <= i < fs.len() ==> (#[trigger] fs@[i])@ == 1,
            _ => false,
        },
        WindStmt::GroupDef { public, name, target, rules, .. } => match sym {
            Symbol::Group { name: n, public: p, target_struct, rules: rs } => n == name && p == public && target_struct == target
                && rs.len() == rules.len() && forall|i: int| 0 <= i < rules.len() ==> rule_info_of(#[trigger] rs@[i], rules@[i]),
            _ => false,
        },
        WindStmt::ConstDef { name, ty, .. } => var_symbol_of(sym, name, ty, StorageClass::Const),
        WindStmt::ConstaticDef { name, ty, .. } => var_symbol_of(sym, name, ty, StorageClass::Constatic),
        WindStmt::ExplainDef { name, ty, .. } => var_symbol_of(sym, name, ty, StorageClass::Explain),
        WindStmt::Expr(e) => match *e {
            WindExpr::TagExpr { name, .. } => match sym {
                Symbol::Variable { name: n, mangled_name, ty, mutable, storage_class } => n == name
                    && mangled_name@ == global_mangled(name@) && mutable == false && storage_class == StorageClass::Let
                    && match ty {
                        Some(WindTypeRef::Named(t)) => t@ == "tag"@,
                        _ => false,
                    },
                _ => false,
            },
            _ => false,
        },
        _ => false,
    }
}

/// The items that gathering also records a mangled name for: variables and tags.
pub open spec fn declares_global_name(stmt: WindStmt) -> bool {
    ||| stmt is ConstDef
    ||| stmt is ConstaticDef
    ||| stmt is ExplainDef
    ||| (stmt matches WindStmt::Expr(e) && *e is TagExpr)
}

/// The scope that gathering opens for a function definition: it holds only the function's own
/// symbol.
pub open spec fn gathered_fn_scope(s: Scope, id: int, parent: ScopeId, stmt: WindStmt) -> bool {
    match stmt {
        WindStmt::FnDef { public, name, which, .. } => {
            &&& s.id@ == id
            &&& s.kind == ScopeKind::Function
            &&& s.parent == Some(parent)
            &&& s.local_mangled_names@.len() == 0
            &&& s.symbols.wf()
            &&& s.symbols@.dom() == set![name@]
            &&& match s.symbols@[name@] {
                Symbol::Function { name: n, public: p, signature, which: w, scope_id } => n == name && p == public
                    && signature@ == 1 && which_refs_of(w, which) && scope_id@ == id,
                _ => false,
            }
        }
        _ => false,
    }
}

/// What gathering one top-level item does to the scope tree.
pub open spec fn gather_step(t0: ScopeTree, t1: ScopeTree, stmt: WindStmt) -> bool {
    &&& t1.wf()
    &&& t1.current == t0.current
    &&& if stmt is FnDef {
        &&& t1.scopes@.drop_last() == t0.scopes@
        &&& t1.scopes@.len() == t0.scopes@.len() + 1
        &&& gathered_fn_scope(t1.scopes@.last(), t1.scopes@.len() as int, t0.current, stmt)
    } else if let Some(k) = gathered_key(stmt) {
        &&& t1.scopes@.len() == t0.scopes@.len()
        &&& forall|i: int| 0 <= i < t0.scopes@.len() && i != t0.current@ - 1 ==> #[trigger] t1.scopes@[i] == t0.scopes@[i]
        &&& t1.cur().id == t0.cur().id
        &&& t1.cur().kind == t0.cur().kind
        &&& t1.cur().parent == t0.cur().parent
        &&& t1.cur().symbols@.dom() == t0.cur().symbols@.dom().insert(k)
        &&& forall|j: Seq<char>| j != k && #[trigger] t0.cur().symbols@.contains_key(j) ==> t1.cur().symbols@[j] == t0.cur().symbols@[j]
        &&& gathered_symbol(t1.cur().symbols@[k], stmt)
        &&& t1.cur().local_mangled_names@.len() == t0.cur().local_mangled_names@.len()
            + if declares_global_name(stmt) { 1int } else { 0int }
        &&& forall|i: int| 0 <= i < t0.cur().local_mangled_names@.len()
            ==> #[trigger] t1.cur().local_mangled_names@[i] == t0.cur().local_mangled_names@[i]
        &&& declares_global_name(stmt) ==> t1.cur().local_mangled_names@.last()@ == global_mangled(k)
    } else {
        t1 == t0
    }
}

/// The state that all passes share: scopes, values and bindings.
#[derive(Debug)]
pub struct GatherContext {
    pub scope_tree: ScopeTree,
    pub value_pool: WindValuePool,
    pub bindings: Bindings,
    pub errors: Vec<SemanticError>,
    pub dead_values: Vec<(MangledName, ValueId)>,
    pub value_names: ViewMap<ValueId, String>,
}

fn which_refs(which: &Option<Vec<WindWhichClause>>) -> (r: Option<Vec<WindWhichClauseRef>>)
    ensures
        which_refs_of(r, *which),
{
    match which {
        Some(w) => {
            let mut v: Vec<WindWhichClauseRef> = Vec::new();
            let mut i: usize = 0;
            while i < w.len()
                invariant
                    i <= w.len(),
                    v.len() == i,
                    forall|j: int| 0 <= j < i ==> which_ref_of(#[trigger] v@[j], w@[j]),
                decreases w.len() - i,
            {
                v.push(WindWhichClauseRef::from_ast(&w[i]));
                i += 1;
            }
            Some(v)
        }
        None => None,
    }
}

fn fn_ids_for(functions: &Vec<WindStmt>) -> (r: Vec<WindFnSignatureId>)
    ensures
        r.len() == count_fn_defs(functions@),
        forall|i: int| 0 <= i < r.len() ==> (#[trigger] r@[i])@ == 1,
{
    let mut ids: Vec<WindFnSignatureId> = Vec::new();
    let mut i: usize = 0;
    while i < functions.len()
        invariant
            i <= functions.len(),
            ids.len() == count_fn_defs(functions@.take(i as int)),
            forall|j: int| 0 <= j < ids.len() ==> (#[trigger] ids@[j])@ == 1,
        decreases functions.len() - i,
    {
        proof {
            assert(functions@.take(i + 1).drop_last() =~= functions@.take(i as int));
        }
        if let WindStmt::FnDef { .. } = &functions[i] {
            ids.push(WindFnSignatureId::new(1));
        }
        i += 1;
    }
    assert(functions@.take(functions.len() as int) =~= functions@);
    ids
}

fn param_entries(params: &Vec<WindFnParam>) -> (r: Vec<(String, WindTypeRef)>)
    ensures
        r.len() == params.len(),
{
    let mut v: Vec<(String, WindTypeRef)> = Vec::new();
    let mut i: usize = 0;
    while i < params.len()
        invariant
            i <= params.len(),
            v.len() == i,
        decreases params.len() - i,
    {
        let p = &params[i];
        let ty = match &p.ty {
            Some(t) => WindTypeRef::from_ast(t),
            None => WindTypeRef::Named(string_of("void")),
        };
        v.push((p.name.clone(), ty));
        i += 1;
    }
    v
}

/// What gathering the top-level items `items` does, from `c0` to `c1`: only the scope tree
/// changes, one item after the other as `gather_step` says.
pub open spec fn gathered(c0: GatherContext, c1: GatherContext, items: Seq<WindStmt>) -> bool {
    &&& c1.wf()
    &&& c1 == (GatherContext { scope_tree: c1.scope_tree, ..c0 })
    &&& exists|trace: Seq<ScopeTree>| {
        &&& trace.len() == items.len() + 1
        &&& trace[0] == c0.scope_tree
        &&& trace.last() == c1.scope_tree
        &&& forall|i: int| 0 <= i < items.len() ==> gather_step(#[trigger] trace[i], trace[i + 1], items[i])
    }
}

impl GatherContext {
    /// The shared structures are well formed.
    pub open spec fn wf(&self) -> bool {
        &&& self.scope_tree.wf()
        &&& self.value_pool.wf()
        &&& self.bindings.wf()
        &&& self.value_names.wf()
        &&& forall|k: (u64, Seq<char>, u64, Seq<char>, u64)| #[trigger] self.bindings.name_to_value@.contains_key(k)
            ==> self.value_pool.holds(self.bindings.name_to_value@[k])
    }

    /// Fresh state: the global scope alone, no values, no bindings, no errors.
    pub open spec fn fresh(&self) -> bool {
        &&& self.wf()
        &&& self.scope_tree.scopes@.len() == 1
        &&& self.scope_tree.current@ == 1
        &&& self.scope_tree.scopes@[0].id@ == 1
        &&& self.scope_tree.scopes@[0].kind == ScopeKind::Global
        &&& self.scope_tree.scopes@[0].parent is None
        &&& self.scope_tree.scopes@[0].symbols@ == Map::<Seq<char>, Symbol>::empty()
        &&& self.scope_tree.scopes@[0].local_mangled_names@.len() == 0
        &&& self.value_pool.values@.len() == 0
        &&& self.value_pool.scalar_cache@ == Map::<Seq<char>, ValueId>::empty()
        &&& self.bindings.name_to_value@ == Map::<(u64, Seq<char>, u64, Seq<char>, u64), ValueId>::empty()
        &&& self.bindings.value_to_names@ == Map::<u64, Vec<MangledName>>::empty()
        &&& self.errors@.len() == 0
        &&& self.dead_values@.len() == 0
        &&& self.value_names@ == Map::<u64, String>::empty()
    }

    /// Fresh state: the global scope alone, no values, no bindings, no errors.
    pub fn new() -> (r: Self)
        ensures
            r.fresh(),
    {
        GatherContext {
            scope_tree: ScopeTree::new(),
            value_pool: WindValuePool::new(),
            bindings: Bindings::new(),
            errors: Vec::new(),
            dead_values: Vec::new(),
            value_names: ViewMap::new(),
        }
    }

    /// Records the symbols of every top-level item, in order; each item changes the scope tree as
    /// `gather_step` says. Values, bindings and errors are left as they are.
    pub fn gather(&mut self, program: &WindProgram)
        requires
            old(self).wf(),
        ensures
            final(self).wf(),
            final(self).value_pool == old(self).value_pool,
            final(self).bindings == old(self).bindings,
            final(self).errors == old(self).errors,
            final(self).dead_values == old(self).dead_values,
            final(self).value_names == old(self).value_names,
            exists|trace: Seq<ScopeTree>| {
                &&& trace.len() == program.items.len() + 1
                &&& trace[0] == old(self).scope_tree
                &&& trace.last() == final(self).scope_tree
                &&& forall|i: int| 0 <= i < program.items.len() ==> gather_step(#[trigger] trace[i], trace[i + 1], program.items@[i])
            },
            gathered(*old(self), *final(self), program.items@),
    {
        let ghost trace: Seq<ScopeTree> = seq![self.scope_tree];
        let mut i: usize = 0;
        while i < program.items.len()
            invariant
                i <= program.items.len(),
                self.wf(),
                self.value_pool == old(self).value_pool,
                self.bindings == old(self).bindings,
                self.errors == old(self).errors,
                self.dead_values == old(self).dead_values,
                self.value_names == old(self).value_names,
                trace.len() == i + 1,
                trace[0] == old(self).scope_tree,
                trace.last() == self.scope_tree,
                forall|j: int| 0 <= j < i ==> gather_step(#[trigger] trace[j], trace[j + 1], program.items@[j]),
            decreases program.items.len() - i,
        {
            self.gather_top_level(&program.items[i]);
            proof {
                trace = trace.push(self.scope_tree);
            }
            i += 1;
        }
    }

    fn gather_top_level(&mut self, stmt: &WindStmt)
        requires
            old(self).wf(),
        ensures
            final(self).wf(),
            gather_step(old(self).scope_tree, final(self).scope_tree, *stmt),
            final(self).value_pool == old(self).value_pool,
            final(self).bindings == old(self).bindings,
            final(self).errors == old(self).errors,
            final(self).dead_values == old(self).dead_values,
            final(self).value_names == old(self).value_names,
    {
        match stmt {
            WindStmt::FnDef { .. } => self.gather_fn_def(stmt),
            WindStmt::StructDef { public, name, fields } => self.gather_struct_def(*public, name, fields),
            WindStmt::EnumDef { public, name, variants } => self.gather_enum_def(*public, name, variants),
            WindStmt::TypeDef { public, name, base_type, conditions } => {
                self.gather_type_def(*public, name, base_type, conditions)
            }
            WindStmt::TraitDef { public, name, functions } => self.gather_trait_def(*public, name, functions),
            WindStmt::ExtraDef { public, name: extra_name, target, functions } => {
                self.gather_extra_def(*public, extra_name, target, functions)
            }
            WindStmt::ImplDef { public, trait_name, target, functions } => {
                self.gather_impl_def(*public, trait_name, target, functions)
            }
            WindStmt::GroupDef { .. } => self.gather_group_def(stmt),
            WindStmt::ConstDef { .. } => self.gather_var_def(stmt),
            WindStmt::ConstaticDef { .. } => self.gather_var_def(stmt),
            WindStmt::ExplainDef { .. } => self.gather_var_def(stmt),
            WindStmt::Apply { .. } => {}
            WindStmt::Expr(expr) => {
                if let WindExpr::TagExpr { .. } = &**expr {
                    self.gather_tag_expr(stmt);
                }
            }
            _ => {}
        }
    }

    /// Puts `symbol` under `key` in the current scope, as gathering does for every item but
    /// functions.
    fn record(&mut self, key: &str, symbol: Symbol, Ghost(stmt): Ghost<WindStmt>)
        requires
            old(self).wf(),
            !(stmt is FnDef),
            gathered_key(stmt) == Some(key@),
            gathered_symbol(symbol, stmt),
            !declares_global_name(stmt),
        ensures
            final(self).wf(),
            gather_step(old(self).scope_tree, final(self).scope_tree, stmt),
            final(self).value_pool == old(self).value_pool,
            final(self).bindings == old(self).bindings,
            final(self).errors == old(self).errors,
            final(self).dead_values == old(self).dead_values,
            final(self).value_names == old(self).value_names,
    {
        self.scope_tree.insert_symbol(key, symbol);
    }

    fn gather_fn_def(&mut self, stmt: &WindStmt)
        requires
            old(self).wf(),
            stmt is FnDef,
        ensures
            final(self).wf(),
            gather_step(old(self).scope_tree, final(self).scope_tree, *stmt),
            final(self).value_pool == old(self).value_pool,
            final(self).bindings == old(self).bindings,
            final(self).errors == old(self).errors,
            final(self).dead_values == old(self).dead_values,
            final(self).value_names == old(self).value_names,
    {
        if let WindStmt::FnDef { public, name, params, return_type, which, body: _ } = stmt {
            let signature = FnSignatureInfo_of(*public, name, params, return_type, which);
            let scope_id = self.scope_tree.push_scope(ScopeKind::Function);
            let symbol = Symbol::Function {
                name: name.clone(),
                public: *public,
                signature: signature.0,
                which: signature.1,
                scope_id,
            };
            self.scope_tree.insert_symbol(name.as_str(), symbol);
            self.scope_tree.pop_scope();
            proof {
                let t = self.scope_tree;
                assert(t.scopes@.drop_last() =~= old(self).scope_tree.scopes@);
                assert(t.scopes@.last().symbols@.dom() =~= set![name@]);
            }
        }
    }

    fn gather_struct_def(&mut self, public: bool, name: &String, fields: &Vec<WindStructField>)
        requires
            old(self).wf(),
        ensures
            final(self).wf(),
            gather_step(old(self).scope_tree, final(self).scope_tree, WindStmt::StructDef { public, name: *name, fields: *fields }),
            final(self).value_pool == old(self).value_pool,
            final(self).bindings == old(self).bindings,
            final(self).errors == old(self).errors,
            final(self).dead_values == old(self).dead_values,
            final(self).value_names == old(self).value_names,
    {
        let mut infos: Vec<FieldInfo> = Vec::new();
        let mut i: usize = 0;
        while i < fields.len()
            invariant
                i <= fields.len(),
                infos.len() == i,
                forall|j: int| 0 <= j < i ==> field_info_of(#[trigger] infos@[j], fields@[j]),
            decreases fields.len() - i,
        {
            let f = &fields[i];
            let info = FieldInfo {
                public: f.public,
                is_static: f.is_static,
                name: f.name.clone(),
                ty: WindTypeRef::from_ast(&f.ty),
                which: which_refs(&f.which),
                conditions: match &f.conditions {
                    Some(_) => Some(Box::new(WindExprRef)),
                    None => None,
                },
                default_value: match &f.default_value {
                    Some(_) => Some(Box::new(WindExprRef)),
                    None => None,
                },
            };
            infos.push(info);
            i += 1;
        }
        let symbol = Symbol::Struct { name: name.clone(), public, fields: infos };
        self.record(name.as_str(), symbol, Ghost(WindStmt::StructDef { public, name: *name, fields: *fields }));
    }

    fn gather_enum_def(&mut self, public: bool, name: &String, variants: &Vec<(String, Option<WindType>)>)
        requires
            old(self).wf(),
        ensures
            final(self).wf(),
            gather_step(old(self).scope_tree, final(self).scope_tree, WindStmt::EnumDef { public, name: *name, variants: *variants }),
            final(self).value_pool == old(self).value_pool,
            final(self).bindings == old(self).bindings,
            final(self).errors == old(self).errors,
            final(self).dead_values == old(self).dead_values,
            final(self).value_names == old(self).value_names,
    {
        let mut list: Vec<(String, Option<WindTypeRef>)> = Vec::new();
        let mut i: usize = 0;
        while i < variants.len()
            invariant
                i <= variants.len(),
                list.len() == i,
                forall|j: int| 0 <= j < i ==> variant_of(#[trigger] list@[j], variants@[j]),
            decreases variants.len() - i,
        {
            let v = &variants[i];
            let ty = match &v.1 {
                Some(t) => Some(WindTypeRef::from_ast(t)),
                None => None,
            };
            list.push((v.0.clone(), ty));
            i += 1;
        }
        let symbol = Symbol::Enum { name: name.clone(), public, variants: list };
        self.record(name.as_str(), symbol, Ghost(WindStmt::EnumDef { public, name: *name, variants: *variants }));
    }

    fn gather_type_def(&mut self, public: bool, name: &String, base_type: &WindType, conditions: &Vec<WindExpr>)
        requires
            old(self).wf(),
        ensures
            final(self).wf(),
            gather_step(old(self).scope_tree, final(self).scope_tree, WindStmt::TypeDef {
                public, name: *name, base_type: *base_type, conditions: *conditions,
            }),
            final(self).value_pool == old(self).value_pool,
            final(self).bindings == old(self).bindings,
            final(self).errors == old(self).errors,
            final(self).dead_values == old(self).dead_values,
            final(self).value_names == old(self).value_names,
    {
        let mut conds: Vec<WindExprRef> = Vec::new();
        let mut i: usize = 0;
        while i < conditions.len()
            invariant
                i <= conditions.len(),
                conds.len() == i,
            decreases conditions.len() - i,
        {
            conds.push(WindExprRef);
            i += 1;
        }
        let symbol = Symbol::TypeAlias { name: name.clone(), public, base_type: WindTypeRef::from_ast(base_type), conditions: conds };
        self.record(name.as_str(), symbol, Ghost(WindStmt::TypeDef {
            public, name: *name, base_type: *base_type, conditions: *conditions,
        }));
    }

    fn gather_trait_def(&mut self, public: bool, name: &String, functions: &Vec<WindFnSignature>)
        requires
            old(self).wf(),
        ensures
            final(self).wf(),
            gather_step(old(self).scope_tree, final(self).scope_tree, WindStmt::TraitDef { public, name: *name, functions: *functions }),
            final(self).value_pool == old(self).value_pool,
            final(self).bindings == old(self).bindings,
            final(self).errors == old(self).errors,
            final(self).dead_values == old(self).dead_values,
            final(self).value_names == old(self).value_names,
    {
        let mut method_ids: Vec<WindFnSignatureId> = Vec::new();
        let mut i: usize = 0;
        while i < functions.len()
            invariant
                i <= functions.len(),
                method_ids.len() == i,
                forall|j: int| 0 <= j < i ==> (#[trigger] method_ids@[j])@ == 1,
            decreases functions.len() - i,
        {
            let sig = &functions[i];
            let info = FnSignatureInfo_of(sig.public, &sig.name, &sig.params, &sig.return_type, &sig.which);
            method_ids.push(info.0);
            i += 1;
        }
        let symbol = Symbol::Trait { name: name.clone(), public, methods: method_ids };
        self.record(name.as_str(), symbol, Ghost(WindStmt::TraitDef { public, name: *name, functions: *functions }));
    }

    fn gather_extra_def(&mut self, public: bool, extra_name: &Option<String>, target: &String, functions: &Vec<WindStmt>)
        requires
            old(self).wf(),
        ensures
            final(self).wf(),
            gather_step(old(self).scope_tree, final(self).scope_tree, WindStmt::ExtraDef {
                public, name: *extra_name, target: *target, functions: *functions,
            }),
            final(self).value_pool == old(self).value_pool,
            final(self).bindings == old(self).bindings,
            final(self).errors == old(self).errors,
            final(self).dead_values == old(self).dead_values,
            final(self).value_names == old(self).value_names,
    {
        let fn_ids = fn_ids_for(functions);
        let name_copy = match extra_name {
            Some(n) => Some(n.clone()),
            None => None,
        };
        let symbol = Symbol::Extra { name: name_copy, target_struct: target.clone(), functions: fn_ids };
        let key: &str = match extra_name {
            Some(n) => n.as_str(),
            None => target.as_str(),
        };
        self.record(key, symbol, Ghost(WindStmt::ExtraDef { public, name: *extra_name, target: *target, functions: *functions }));
    }

    fn gather_impl_def(&mut self, public: bool, trait_name: &String, target: &String, functions: &Vec<WindStmt>)
        requires
            old(self).wf(),
        ensures
            final(self).wf(),
            gather_step(old(self).scope_tree, final(self).scope_tree, WindStmt::ImplDef {
                public, trait_name: *trait_name, target: *target, functions: *functions,
            }),
            final(self).value_pool == old(self).value_pool,
            final(self).bindings == old(self).bindings,
            final(self).errors == old(self).errors,
            final(self).dead_values == old(self).dead_values,
            final(self).value_names == old(self).value_names,
    {
        let fn_ids = fn_ids_for(functions);
        let symbol = Symbol::Impl { trait_name: trait_name.clone(), target_struct: target.clone(), functions: fn_ids };
        let mut key = string_of("impl_");
        push_str(&mut key, trait_name.as_str());
        push_str(&mut key, "_for_");
        push_str(&mut key, target.as_str());
        self.record(key.as_str(), symbol, Ghost(WindStmt::ImplDef {
            public, trait_name: *trait_name, target: *target, functions: *functions,
        }));
    }

    fn gather_group_def(&mut self, stmt: &WindStmt)
        requires
            old(self).wf(),
            stmt is GroupDef,
        ensures
            final(self).wf(),
            gather_step(old(self).scope_tree, final(self).scope_tree, *stmt),
            final(self).value_pool == old(self).value_pool,
            final(self).bindings == old(self).bindings,
            final(self).errors == old(self).errors,
            final(self).dead_values == old(self).dead_values,
            final(self).value_names == old(self).value_names,
    {
        if let WindStmt::GroupDef { public, name, target, params: _, rules } = stmt {
            let mut infos: Vec<GroupRuleInfo> = Vec::new();
            let mut i: usize = 0;
            while i < rules.len()
                invariant
                    i <= rules.len(),
                    infos.len() == i,
                    forall|j: int| 0 <= j < i ==> rule_info_of(#[trigger] infos@[j], rules@[j]),
                decreases rules.len() - i,
            {
                let info = match &rules[i] {
                    WindGroupRule::Simple { field, ty } => GroupRuleInfo {
                        kind: GroupRuleKind::Simple { param: field.clone() },
                        ty: WindTypeRef::from_ast(ty),
                    },
                    WindGroupRule::SelfField { field, ty } => GroupRuleInfo {
                        kind: GroupRuleKind::SelfField { field: field.clone() },
                        ty: WindTypeRef::from_ast(ty),
                    },
                };
                infos.push(info);
                i += 1;
            }
            let target_copy = match target {
                Some(t) => Some(t.clone()),
                None => None,
            };
            let symbol = Symbol::Group { name: name.clone(), public: *public, target_struct: target_copy, rules: infos };
            self.record(name.as_str(), symbol, Ghost(*stmt));
        }
    }

    fn gather_var_def(&mut self, stmt: &WindStmt)
        requires
            old(self).wf(),
            declares_global_name(*stmt),
            !(stmt is Expr),
        ensures
            final(self).wf(),
            gather_step(old(self).scope_tree, final(self).scope_tree, *stmt),
            final(self).value_pool == old(self).value_pool,
            final(self).bindings == old(self).bindings,
            final(self).errors == old(self).errors,
            final(self).dead_values == old(self).dead_values,
            final(self).value_names == old(self).value_names,
    {
        let (name, symbol) = match stmt {
            WindStmt::ConstDef { name, ty, value: _ } => (name, Self::global_variable(name, Some(WindTypeRef::from_ast(ty)), StorageClass::Const)),
            WindStmt::ConstaticDef { name, ty, value: _ } => (name, Self::global_variable(name, Some(WindTypeRef::from_ast(ty)), StorageClass::Constatic)),
            WindStmt::ExplainDef { name, ty, value: _ } => (name, Self::global_variable(name, Some(WindTypeRef::from_ast(ty)), StorageClass::Explain)),
            _ => { return; }
        };
        let mangled = MangledName::new(ScopeId::new(1), "global", 1, name.as_str(), 1);
        self.scope_tree.insert_symbol(name.as_str(), symbol);
        self.scope_tree.add_mangled_name(mangled);
    }

    /// Declares the name of a top-level tag as a global variable of type `tag`.
    fn gather_tag_expr(&mut self, stmt: &WindStmt)
        requires
            old(self).wf(),
            declares_global_name(*stmt),
            stmt is Expr,
        ensures
            final(self).wf(),
            gather_step(old(self).scope_tree, final(self).scope_tree, *stmt),
            final(self).value_pool == old(self).value_pool,
            final(self).bindings == old(self).bindings,
            final(self).errors == old(self).errors,
            final(self).dead_values == old(self).dead_values,
            final(self).value_names == old(self).value_names,
    {
        if let WindStmt::Expr(e) = stmt {
            if let WindExpr::TagExpr { name, body: _ } = &**e {
                let symbol = Self::global_variable(name, Some(WindTypeRef::Named(string_of("tag"))), StorageClass::Let);
                let mangled = MangledName::new(ScopeId::new(1), "global", 1, name.as_str(), 1);
                self.scope_tree.insert_symbol(name.as_str(), symbol);
                self.scope_tree.add_mangled_name(mangled);
            }
        }
    }

    /// A variable of the global scope.
    fn global_variable(name: &String, ty: Option<WindTypeRef>, storage: StorageClass) -> (r: Symbol)
        ensures
            r == (Symbol::Variable {
                name: *name,
                mangled_name: r->Variable_mangled_name,
                ty,
                mutable: storage == StorageClass::Explain,
                storage_class: storage,
            }),
            r->Variable_mangled_name@ == global_mangled(name@),
    {
        let mangled = MangledName::new(ScopeId::new(1), "global", 1, name.as_str(), 1);
        let mutable = match storage {
            StorageClass::Explain => true,
            _ => false,
        };
        Symbol::Variable { name: name.clone(), mangled_name: mangled, ty, mutable, storage_class: storage }
    }

    /// The name of the kind of a statement.
    pub fn stmt_kind_name(&self, stmt: &WindStmt) -> (r: &'static str)
        ensures
            r@ == stmt_kind_text(*stmt),
    {
        match stmt {
            WindStmt::Let { .. } => "Let",
            WindStmt::Assignment { .. } => "Assignment",
            WindStmt::Expr(_) => "Expression",
            WindStmt::Block(_) => "Block",
            WindStmt::If { .. } => "If",
            WindStmt::For { .. } => "For",
            WindStmt::ForIn { .. } => "ForIn",
            WindStmt::While { .. } => "While",
            WindStmt::Return(_) => "Return",
            WindStmt::FnDef { .. } => "FnDef",
            WindStmt::StructDef { .. } => "StructDef",
            WindStmt::EnumDef { .. } => "EnumDef",
            WindStmt::TypeDef { .. } => "TypeDef",
            WindStmt::ExtraDef { .. } => "ExtraDef",
            WindStmt::ImplDef { .. } => "ImplDef",
            WindStmt::TraitDef { .. } => "TraitDef",
            WindStmt::GroupDef { .. } => "GroupDef",
            WindStmt::ConstDef { .. } => "ConstDef",
            WindStmt::ConstaticDef { .. } => "ConstaticDef",
            WindStmt::Apply { .. } => "Apply",
            WindStmt::ExplainDef { .. } => "ExplainDef",
        }
    }
}

/// The name of the kind of a statement.
pub open spec fn stmt_kind_text(stmt: WindStmt) -> Seq<char> {
    match stmt {
        WindStmt::Let { .. } => "Let"@,
        WindStmt::Assignment { .. } => "Assignment"@,
        WindStmt::Expr(_) => "Expression"@,
        WindStmt::Block(_) => "Block"@,
        WindStmt::If { .. } => "If"@,
        WindStmt::For { .. } => "For"@,
        WindStmt::ForIn { .. } => "ForIn"@,
        WindStmt::While { .. } => "While"@,
        WindStmt::Return(_) => "Return"@,
        WindStmt::FnDef { .. } => "FnDef"@,
        WindStmt::StructDef { .. } => "StructDef"@,
        WindStmt::EnumDef { .. } => "EnumDef"@,
        WindStmt::TypeDef { .. } => "TypeDef"@,
        WindStmt::ExtraDef { .. } => "ExtraDef"@,
        WindStmt::ImplDef { .. } => "ImplDef"@,
        WindStmt::TraitDef { .. } => "TraitDef"@,
        WindStmt::GroupDef { .. } => "GroupDef"@,
        WindStmt::ConstDef { .. } => "ConstDef"@,
        WindStmt::ConstaticDef { .. } => "ConstaticDef"@,
        WindStmt::Apply { .. } => "Apply"@,
        WindStmt::ExplainDef { .. } => "ExplainDef"@,
    }
}

/// The signature record that gathering builds for a function; it keeps the id, always 1, and
/// the recorded `which` clauses.
#[allow(non_snake_case)]
fn FnSignatureInfo_of(
    public: bool,
    name: &String,
    params: &Vec<WindFnParam>,
    return_type: &Option<WindType>,
    which: &Option<Vec<WindWhichClause>>,
) -> (r: (WindFnSignatureId, Option<Vec<WindWhichClauseRef>>))
    ensures
        r.0@ == 1,
        which_refs_of(r.1, *which),
{
    let info = crate::sema::FnSignatureInfo {
        id: WindFnSignatureId::new(1),
        public,
        name: name.clone(),
        params: param_entries(params),
        return_type: match return_type {
            Some(t) => Some(WindTypeRef::from_ast(t)),
            None => None,
        },
        which: which_refs(which),
    };
    (info.id, info.which)
}

} // verus!
