use vstd::prelude::*;
use crate::ast::WindType;
use crate::ast::WindWhichClause;
use crate::ids::ScopeId;
use crate::ids::ValueId;
use crate::ids::WindFnSignatureId;
use crate::text::decimal;
use crate::text::push_str;
use crate::text::string_of;
use crate::text::str_eq;
use crate::text::u64_to_string;

verus! {

/// The unique name of one version of a variable: the scope and function it lives in,
/// its sub-scope counter, its source name and its version.
#[derive(Debug, Clone)]
pub struct MangledName {
    pub scope_id: ScopeId,
    pub fn_name: String,
    pub subscope_id: u64,
    pub var_name: String,
    pub version: u64,
}

impl View for MangledName {
    type V = (u64, Seq<char>, u64, Seq<char>, u64);

    open spec fn view(&self) -> (u64, Seq<char>, u64, Seq<char>, u64) {
        (self.scope_id@, self.fn_name@, self.subscope_id, self.var_name@, self.version)
    }
}

/// The printed form of a mangled name: `1_global_<var>` in the global scope,
/// `<scope>_<fn>_<subscope>_<var>:<version>` elsewhere.
pub open spec fn mangled_text(m: (u64, Seq<char>, u64, Seq<char>, u64)) -> Seq<char> {
    if m.0 == 1 {
        "1_global_"@ + m.3
    } else {
        decimal(m.0 as nat) + seq!['_'] + m.1 + seq!['_'] + decimal(m.2 as nat) + seq!['_'] + m.3
            + seq![':'] + decimal(m.4 as nat)
    }
}

impl MangledName {
    /// Builds a mangled name from its parts.
    pub fn new(scope_id: ScopeId, fn_name: &str, subscope_id: u64, var_name: &str, version: u64) -> (r: Self)
        ensures
            r@ == (scope_id@, fn_name@, subscope_id, var_name@, version),
    {
        MangledName {
            scope_id,
            fn_name: string_of(fn_name),
            subscope_id,
            var_name: string_of(var_name),
            version,
        }
    }

    /// The printed form of the name.
    pub fn display(&self) -> (r: String)
        ensures
            r@ == mangled_text(self@),
    {
        if self.scope_id.get() == 1 {
            let mut r = string_of("1_global_");
            push_str(&mut r, self.var_name.as_str());
            r
        } else {
            let mut r = u64_to_string(self.scope_id.get());
            push_str(&mut r, "_");
            push_str(&mut r, self.fn_name.as_str());
            push_str(&mut r, "_");
            let sub = u64_to_string(self.subscope_id);
            push_str(&mut r, sub.as_str());
            push_str(&mut r, "_");
            push_str(&mut r, self.var_name.as_str());
            push_str(&mut r, ":");
            let ver = u64_to_string(self.version);
            push_str(&mut r, ver.as_str());
            proof {
                reveal_strlit("_");
                reveal_strlit(":");
                assert(r@ =~= mangled_text(self@));
            }
            r
        }
    }

    /// A copy of the name, equal to it.
    pub fn copy(&self) -> (r: Self)
        ensures
            r == *self,
    {
        MangledName {
            scope_id: self.scope_id,
            fn_name: self.fn_name.clone(),
            subscope_id: self.subscope_id,
            var_name: self.var_name.clone(),
            version: self.version,
        }
    }

    /// Whether two names have the same parts.
    pub fn same_as(&self, other: &Self) -> (r: bool)
        ensures
            r == (self@ == other@),
    {
        self.scope_id.get() == other.scope_id.get() && self.subscope_id == other.subscope_id
            && self.version == other.version && self.fn_name == other.fn_name
            && self.var_name == other.var_name
    }
}

/// How a value came to be.
#[derive(Debug, Clone, Copy, PartialEq, Eq, Structural)]
pub enum ValueKind {
    ScalarConst,
    Allocated,
    Copied,
    Reference { target: ValueId },
    Returned { source: ValueId },
}

/// A type as the analysis resolves it.
#[derive(Debug)]
pub enum WindResolvedType {
    Int,
    Float,
    String,
    Char,
    Bool,
    NoneType,
    Byte,
    Tuple(Vec<WindResolvedType>),
    Vec(Box<WindResolvedType>),
    MapType(Box<WindResolvedType>, Box<WindResolvedType>),
    SetType(Box<WindResolvedType>),
    Struct(String),
    Enum(String),
    Tag,
    Function { params: Vec<WindResolvedType>, ret: Box<WindResolvedType> },
    SelfType(String),
    Unknown,
    Error,
}

/// A value of the value pool.
#[derive(Debug)]
pub struct ValueInfo {
    pub id: ValueId,
    pub ty: Option<WindResolvedType>,
    pub kind: ValueKind,
    pub ref_count: usize,
}

/// The built-in type that a name denotes.
pub open spec fn builtin_of(name: Seq<char>) -> Option<WindResolvedType> {
    if name == "int"@ {
        Some(WindResolvedType::Int)
    } else if name == "float"@ {
        Some(WindResolvedType::Float)
    } else if name == "string"@ {
        Some(WindResolvedType::String)
    } else if name == "char"@ {
        Some(WindResolvedType::Char)
    } else if name == "bool"@ {
        Some(WindResolvedType::Bool)
    } else if name == "None"@ {
        Some(WindResolvedType::NoneType)
    } else if name == "byte"@ {
        Some(WindResolvedType::Byte)
    } else if name == "tag"@ {
        Some(WindResolvedType::Tag)
    } else {
        None
    }
}

/// The printed name of a resolved type.
pub open spec fn resolved_text(t: WindResolvedType) -> Seq<char>
    decreases t,
{
    match t {
        WindResolvedType::Int => "int"@,
        WindResolvedType::Float => "float"@,
        WindResolvedType::String => "string"@,
        WindResolvedType::Char => "char"@,
        WindResolvedType::Bool => "bool"@,
        WindResolvedType::NoneType => "None"@,
        WindResolvedType::Byte => "byte"@,
        WindResolvedType::Tuple(elems) => seq!['('] + resolved_list_text(elems@) + seq![')'],
        WindResolvedType::Vec(elem) => "vec<"@ + resolved_text(*elem) + seq!['>'],
        WindResolvedType::MapType(k, v) => "map<"@ + resolved_text(*k) + ", "@ + resolved_text(*v) + seq!['>'],
        WindResolvedType::SetType(elem) => "set<"@ + resolved_text(*elem) + seq!['>'],
        WindResolvedType::Struct(name) => name@,
        WindResolvedType::Enum(name) => name@,
        WindResolvedType::Tag => "tag"@,
        WindResolvedType::Function { params, ret } => "fn("@ + resolved_list_text(params@) + ") -> "@
            + resolved_text(*ret),
        WindResolvedType::SelfType(s) => s@,
        WindResolvedType::Unknown => "<unknown>"@,
        WindResolvedType::Error => "<error>"@,
    }
}

/// The printed names of a list of resolved types, joined with ", ".
pub open spec fn resolved_list_text(ts: Seq<WindResolvedType>) -> Seq<char>
    decreases ts,
{
    if ts.len() == 0 {
        seq![]
    } else if ts.len() == 1 {
        resolved_text(ts[0])
    } else {
        resolved_list_text(ts.drop_last()) + ", "@ + resolved_text(ts.last())
    }
}

/// The built-in scalar types and `tag`.
pub open spec fn is_builtin_type(t: WindResolvedType) -> bool {
    t is Int || t is Float || t is String || t is Char || t is Bool || t is NoneType || t is Byte || t is Tag
}

/// The container types: vectors, maps and sets.
pub open spec fn is_container_type(t: WindResolvedType) -> bool {
    t is Vec || t is MapType || t is SetType
}

/// The types whose values are copied: the built-in scalars but strings and tags.
pub open spec fn is_value_type_of(t: WindResolvedType) -> bool {
    t is Int || t is Float || t is Char || t is Bool || t is NoneType || t is Byte
}

/// A name denotes a built-in type exactly when it is that type's printed name: printing a
/// built-in type and reading the name back gives the same type, and a name that reads as a
/// built-in type is the printed name of that type.
pub proof fn lemma_builtin_name_round_trip(t: WindResolvedType, name: Seq<char>)
    ensures
        is_builtin_type(t) ==> builtin_of(resolved_text(t)) == Some(t),
        builtin_of(name) == Some(t) ==> is_builtin_type(t) && resolved_text(t) == name,
{
    reveal_strlit("int");
    reveal_strlit("float");
    reveal_strlit("string");
    reveal_strlit("char");
    reveal_strlit("bool");
    reveal_strlit("None");
    reveal_strlit("byte");
    reveal_strlit("tag");
    let names: Seq<Seq<char>> = seq!["int"@, "float"@, "string"@, "char"@, "bool"@, "None"@, "byte"@, "tag"@];
    assert forall|i: int, j: int| 0 <= i < j < 8 implies names[i] != names[j] by {
        if names[i].len() == names[j].len() {
            assert(names[i][0] != names[j][0] || names[i][1] != names[j][1]);
        }
    }
    assert(names[0] == "int"@ && names[1] == "float"@ && names[2] == "string"@ && names[3] == "char"@);
    assert(names[4] == "bool"@ && names[5] == "None"@ && names[6] == "byte"@ && names[7] == "tag"@);
}

impl WindResolvedType {
    /// The built-in type named `name`, if `name` names one.
    pub fn from_builtin_name(name: &str) -> (r: Option<Self>)
        ensures
            r == builtin_of(name@),
    {
        if str_eq(name, "int") {
            Some(WindResolvedType::Int)
        } else if str_eq(name, "float") {
            Some(WindResolvedType::Float)
        } else if str_eq(name, "string") {
            Some(WindResolvedType::String)
        } else if str_eq(name, "char") {
            Some(WindResolvedType::Char)
        } else if str_eq(name, "bool") {
            Some(WindResolvedType::Bool)
        } else if str_eq(name, "None") {
            Some(WindResolvedType::NoneType)
        } else if str_eq(name, "byte") {
            Some(WindResolvedType::Byte)
        } else if str_eq(name, "tag") {
            Some(WindResolvedType::Tag)
        } else {
            None
        }
    }

    /// The printed name of the type.
    pub fn display_name(&self) -> (r: String)
        ensures
            r@ == resolved_text(*self),
        decreases self,
    {
        match self {
            WindResolvedType::Int => string_of("int"),
            WindResolvedType::Float => string_of("float"),
            WindResolvedType::String => string_of("string"),
            WindResolvedType::Char => string_of("char"),
            WindResolvedType::Bool => string_of("bool"),
            WindResolvedType::NoneType => string_of("None"),
            WindResolvedType::Byte => string_of("byte"),
            WindResolvedType::Tuple(elems) => {
                let inner = Self::join_names(elems);
                let mut r = string_of("(");
                push_str(&mut r, inner.as_str());
                push_str(&mut r, ")");
                proof {
                    reveal_strlit("(");
                    reveal_strlit(")");
                }
                assert(r@ =~= resolved_text(*self));
                r
            }
            WindResolvedType::Vec(elem) => {
                let inner = elem.display_name();
                let mut r = string_of("vec<");
                push_str(&mut r, inner.as_str());
                push_str(&mut r, ">");
                proof {
                    reveal_strlit(">");
                }
                assert(r@ =~= resolved_text(*self));
                r
            }
            WindResolvedType::MapType(k, v) => {
                let ks = k.display_name();
                let vs = v.display_name();
                let mut r = string_of("map<");
                push_str(&mut r, ks.as_str());
                push_str(&mut r, ", ");
                push_str(&mut r, vs.as_str());
                push_str(&mut r, ">");
                proof {
                    reveal_strlit(">");
                }
                assert(r@ =~= resolved_text(*self));
                r
            }
            WindResolvedType::SetType(elem) => {
                let inner = elem.display_name();
                let mut r = string_of("set<");
                push_str(&mut r, inner.as_str());
                push_str(&mut r, ">");
                proof {
                    reveal_strlit(">");
                }
                assert(r@ =~= resolved_text(*self));
                r
            }
            WindResolvedType::Struct(name) => string_of(name.as_str()),
            WindResolvedType::Enum(name) => string_of(name.as_str()),
            WindResolvedType::Tag => string_of("tag"),
            WindResolvedType::Function { params, ret } => {
                let inner = Self::join_names(params);
                let rs = ret.display_name();
                let mut r = string_of("fn(");
                push_str(&mut r, inner.as_str());
                push_str(&mut r, ") -> ");
                push_str(&mut r, rs.as_str());
                assert(r@ =~= resolved_text(*self));
                r
            }
            WindResolvedType::SelfType(s) => string_of(s.as_str()),
            WindResolvedType::Unknown => string_of("<unknown>"),
            WindResolvedType::Error => string_of("<error>"),
        }
    }

    fn join_names(ts: &Vec<WindResolvedType>) -> (r: String)
        ensures
            r@ == resolved_list_text(ts@),
        decreases ts,
    {
        let mut res = String::new();
        let mut i: usize = 0;
        #[verifier::loop_isolation(false)]
        while i < ts.len()
            invariant
                i <= ts.len(),
                res@ == resolved_list_text(ts@.take(i as int)),
            decreases ts.len() - i,
        {
            proof {
                assert(decreases_to!(*ts => ts@[i as int]));
            }
            let s = ts[i].display_name();
            if i > 0 {
                push_str(&mut res, ", ");
            }
            push_str(&mut res, s.as_str());
            proof {
                let t1 = ts@.take(i + 1);
                assert(t1.drop_last() =~= ts@.take(i as int));
                assert(t1.last() == ts@[i as int]);
                if i == 0 {
                    assert(ts@.take(0) =~= Seq::<WindResolvedType>::empty());
                    assert(res@ =~= resolved_text(t1[0]));
                }
            }
            i += 1;
        }
        assert(ts@.take(ts.len() as int) =~= ts@);
        res
    }

    /// Whether the type is one of the built-in scalars or `tag`.
    pub fn is_builtin(&self) -> (r: bool)
        ensures
            r == is_builtin_type(*self),
    {
        match self {
            WindResolvedType::Int | WindResolvedType::Float | WindResolvedType::String
            | WindResolvedType::Char | WindResolvedType::Bool | WindResolvedType::NoneType
            | WindResolvedType::Byte | WindResolvedType::Tag => true,
            _ => false,
        }
    }

    /// Whether the type is a vector, a map or a set.
    pub fn is_container(&self) -> (r: bool)
        ensures
            r == is_container_type(*self),
    {
        match self {
            WindResolvedType::Vec(_) | WindResolvedType::MapType(_, _) | WindResolvedType::SetType(_) => true,
            _ => false,
        }
    }

    /// Whether values of the type are plain scalars.
    pub fn is_value_type(&self) -> (r: bool)
        ensures
            r == is_value_type_of(*self),
    {
        match self {
            WindResolvedType::Int | WindResolvedType::Float | WindResolvedType::Char
            | WindResolvedType::Bool | WindResolvedType::NoneType | WindResolvedType::Byte => true,
            _ => false,
        }
    }
}

/// A type as a symbol records it.
#[derive(Debug)]
pub enum WindTypeRef {
    Named(String),
    Generic { base: String, args: Vec<WindTypeRef> },
    Fn { params: Vec<WindTypeRef>, ret: Box<WindTypeRef> },
    SelfType,
}

/// `r` records the written type `t`: same shape, same names.
pub open spec fn type_ref_of(r: WindTypeRef, t: WindType) -> bool
    decreases t,
{
    match (r, t) {
        (WindTypeRef::Named(a), WindType::Named(b)) => a == b,
        (WindTypeRef::Generic { base: a, args: ra }, WindType::Generic { base: b, args: ta }) => a == b
            && ra.len() == ta.len() && forall|i: int| 0 <= i < ta.len() ==> type_ref_of(#[trigger] ra@[i], ta@[i]),
        (WindTypeRef::Fn { params: ra, ret: r1 }, WindType::Fn { params: ta, ret: t1 }) => ra.len() == ta.len()
            && (forall|i: int| 0 <= i < ta.len() ==> type_ref_of(#[trigger] ra@[i], ta@[i])) && type_ref_of(*r1, *t1),
        (WindTypeRef::SelfType, WindType::SelfType) => true,
        _ => false,
    }
}

/// The printed form of a recorded type.
pub open spec fn type_ref_text(t: WindTypeRef) -> Seq<char>
    decreases t,
{
    match t {
        WindTypeRef::Named(s) => s@,
        WindTypeRef::Generic { base, args } => base@ + seq!['<'] + type_refs_text(args@) + seq!['>'],
        WindTypeRef::Fn { params, ret } => "fn("@ + type_refs_text(params@) + ") -> "@ + type_ref_text(*ret),
        WindTypeRef::SelfType => "Self"@,
    }
}

/// The printed forms of a list of recorded types, joined with ", ".
pub open spec fn type_refs_text(ts: Seq<WindTypeRef>) -> Seq<char>
    decreases ts,
{
    if ts.len() == 0 {
        seq![]
    } else if ts.len() == 1 {
        type_ref_text(ts[0])
    } else {
        type_refs_text(ts.drop_last()) + ", "@ + type_ref_text(ts.last())
    }
}

/// A type recorded from the source prints exactly as the written type reads.
pub proof fn lemma_type_ref_text(r: WindTypeRef, t: WindType)
    requires
        type_ref_of(r, t),
    ensures
        type_ref_text(r) == crate::ast::type_text(t),
    decreases t,
{
    match (r, t) {
        (WindTypeRef::Generic { base: _, args: ra }, WindType::Generic { base: _, args: ta }) => {
            lemma_type_refs_text(ra@, ta@);
        },
        (WindTypeRef::Fn { params: ra, ret: r1 }, WindType::Fn { params: ta, ret: t1 }) => {
            lemma_type_refs_text(ra@, ta@);
            lemma_type_ref_text(*r1, *t1);
        },
        _ => {},
    }
}

/// Lists of recorded types print as the lists of written types they record.
pub proof fn lemma_type_refs_text(rs: Seq<WindTypeRef>, ts: Seq<WindType>)
    requires
        rs.len() == ts.len(),
        forall|i: int| 0 <= i < ts.len() ==> type_ref_of(#[trigger] rs[i], ts[i]),
    ensures
        type_refs_text(rs) == crate::ast::types_text(ts),
    decreases ts,
{
    if ts.len() == 1 {
        lemma_type_ref_text(rs[0], ts[0]);
    } else if ts.len() > 1 {
        lemma_type_refs_text(rs.drop_last(), ts.drop_last());
        lemma_type_ref_text(rs.last(), ts.last());
    }
}

impl WindTypeRef {
    /// Records a written type.
    pub fn from_ast(ty: &WindType) -> (r: Self)
        ensures
            type_ref_of(r, *ty),
        decreases ty,
    {
        match ty {
            WindType::Named(n) => WindTypeRef::Named(n.clone()),
            WindType::Generic { base, args } => {
                let v = Self::from_ast_list(args);
                WindTypeRef::Generic { base: base.clone(), args: v }
            }
            WindType::Fn { params, ret } => {
                let v = Self::from_ast_list(params);
                WindTypeRef::Fn { params: v, ret: Box::new(Self::from_ast(ret)) }
            }
            WindType::SelfType => WindTypeRef::SelfType,
        }
    }

    fn from_ast_list(ts: &Vec<WindType>) -> (r: Vec<WindTypeRef>)
        ensures
            r.len() == ts.len(),
            forall|i: int| 0 <= i < ts.len() ==> type_ref_of(#[trigger] r@[i], ts@[i]),
        decreases ts,
    {
        let mut v: Vec<WindTypeRef> = Vec::new();
        let mut i: usize = 0;
        #[verifier::loop_isolation(false)]
        while i < ts.len()
            invariant
                i <= ts.len(),
                v.len() == i,
                forall|j: int| 0 <= j < i ==> type_ref_of(#[trigger] v@[j], ts@[j]),
            decreases ts.len() - i,
        {
            proof {
                assert(decreases_to!(*ts => ts@[i as int]));
            }
            let x = Self::from_ast(&ts[i]);
            v.push(x);
            i += 1;
        }
        v
    }

    /// The printed form of the type: `base<a, b>`, `fn(a) -> r`, `Self` or the name.
    pub fn display_name(&self) -> (r: String)
        ensures
            r@ == type_ref_text(*self),
        decreases self,
    {
        match self {
            WindTypeRef::Named(n) => string_of(n.as_str()),
            WindTypeRef::Generic { base, args } => {
                let inner = Self::join_names(args);
                let mut r = string_of(base.as_str());
                push_str(&mut r, "<");
                push_str(&mut r, inner.as_str());
                push_str(&mut r, ">");
                proof {
                    reveal_strlit("<");
                    reveal_strlit(">");
                }
                assert(r@ =~= type_ref_text(*self));
                r
            }
            WindTypeRef::Fn { params, ret } => {
                let inner = Self::join_names(params);
                let rs = ret.display_name();
                let mut r = string_of("fn(");
                push_str(&mut r, inner.as_str());
                push_str(&mut r, ") -> ");
                push_str(&mut r, rs.as_str());
                assert(r@ =~= type_ref_text(*self));
                r
            }
            WindTypeRef::SelfType => string_of("Self"),
        }
    }

    fn join_names(ts: &Vec<WindTypeRef>) -> (r: String)
        ensures
            r@ == type_refs_text(ts@),
        decreases ts,
    {
        let mut res = String::new();
        let mut i: usize = 0;
        #[verifier::loop_isolation(false)]
        while i < ts.len()
            invariant
                i <= ts.len(),
                res@ == type_refs_text(ts@.take(i as int)),
            decreases ts.len() - i,
        {
            proof {
                assert(decreases_to!(*ts => ts@[i as int]));
            }
            let s = ts[i].display_name();
            if i > 0 {
                push_str(&mut res, ", ");
            }
            push_str(&mut res, s.as_str());
            proof {
                let t1 = ts@.take(i + 1);
                assert(t1.drop_last() =~= ts@.take(i as int));
                assert(t1.last() == ts@[i as int]);
                if i == 0 {
                    assert(ts@.take(0) =~= Seq::<WindTypeRef>::empty());
                    assert(res@ =~= type_ref_text(t1[0]));
                }
            }
            i += 1;
        }
        assert(ts@.take(ts.len() as int) =~= ts@);
        res
    }
}

/// A condition that a symbol records only by its presence.
#[derive(Debug, Clone, Copy, PartialEq, Eq, Structural)]
pub struct WindExprRef;

/// A `which` clause as a symbol records it.
#[derive(Debug)]
pub struct WindWhichClauseRef {
    pub method: String,
    pub after: Vec<String>,
}

/// `r` records the clause `c`.
pub open spec fn which_ref_of(r: WindWhichClauseRef, c: WindWhichClause) -> bool {
    r.method == c.method && r.after@ == c.after@
}

impl WindWhichClauseRef {
    /// Records a clause.
    pub fn from_ast(clause: &WindWhichClause) -> (r: Self)
        ensures
            which_ref_of(r, *clause),
    {
        WindWhichClauseRef { method: clause.method.clone(), after: crate::text::clone_strings(&clause.after) }
    }
}

/// Where a variable is stored.
#[derive(Debug, Clone, Copy, PartialEq, Eq, Structural)]
pub enum StorageClass {
    Let,
    Const,
    Constatic,
    Explain,
}

/// A struct field as a symbol records it.
#[derive(Debug)]
pub struct FieldInfo {
    pub public: bool,
    pub is_static: bool,
    pub name: String,
    pub ty: WindTypeRef,
    pub which: Option<Vec<WindWhichClauseRef>>,
    pub conditions: Option<Box<WindExprRef>>,
    pub default_value: Option<Box<WindExprRef>>,
}

/// A function signature as the analysis records it.
#[derive(Debug)]
pub struct FnSignatureInfo {
    pub id: WindFnSignatureId,
    pub public: bool,
    pub name: String,
    pub params: Vec<(String, WindTypeRef)>,
    pub return_type: Option<WindTypeRef>,
    pub which: Option<Vec<WindWhichClauseRef>>,
}

/// What a group rule binds.
#[derive(Debug)]
pub enum GroupRuleKind {
    Simple { param: String },
    SelfField { field: String },
}

/// A rule of a group as a symbol records it.
#[derive(Debug)]
pub struct GroupRuleInfo {
    pub kind: GroupRuleKind,
    pub ty: WindTypeRef,
}

/// An entry of a scope's symbol table.
#[derive(Debug)]
pub enum Symbol {
    Variable {
        name: String,
        mangled_name: MangledName,
        ty: Option<WindTypeRef>,
        mutable: bool,
        storage_class: StorageClass,
    },
    Function {
        name: String,
        public: bool,
        signature: WindFnSignatureId,
        which: Option<Vec<WindWhichClauseRef>>,
        scope_id: ScopeId,
    },
    Struct { name: String, public: bool, fields: Vec<FieldInfo> },
    Trait { name: String, public: bool, methods: Vec<WindFnSignatureId> },
    Enum { name: String, public: bool, variants: Vec<(String, Option<WindTypeRef>)> },
    TypeAlias { name: String, public: bool, base_type: WindTypeRef, conditions: Vec<WindExprRef> },
    Extra { name: Option<String>, target_struct: String, functions: Vec<WindFnSignatureId> },
    Impl { trait_name: String, target_struct: String, functions: Vec<WindFnSignatureId> },
    Group { name: String, public: bool, target_struct: Option<String>, rules: Vec<GroupRuleInfo> },
}

/// The name a symbol goes by: `<anonymous>` for an unnamed extra, the trait's name for an impl.
pub open spec fn symbol_name(s: Symbol) -> Seq<char> {
    match s {
        Symbol::Variable { name, .. } => name@,
        Symbol::Function { name, .. } => name@,
        Symbol::Struct { name, .. } => name@,
        Symbol::Trait { name, .. } => name@,
        Symbol::Enum { name, .. } => name@,
        Symbol::TypeAlias { name, .. } => name@,
        Symbol::Extra { name, .. } => match name {
            Some(n) => n@,
            None => "<anonymous>"@,
        },
        Symbol::Impl { trait_name, .. } => trait_name@,
        Symbol::Group { name, .. } => name@,
    }
}

impl Symbol {
    /// The name the symbol goes by.
    pub fn name(&self) -> (r: &str)
        ensures
            r@ == symbol_name(*self),
    {
        match self {
            Symbol::Variable { name, .. } => name.as_str(),
            Symbol::Function { name, .. } => name.as_str(),
            Symbol::Struct { name, .. } => name.as_str(),
            Symbol::Trait { name, .. } => name.as_str(),
            Symbol::Enum { name, .. } => name.as_str(),
            Symbol::TypeAlias { name, .. } => name.as_str(),
            Symbol::Extra { name, .. } => match name {
                Some(n) => n.as_str(),
                None => "<anonymous>",
            },
            Symbol::Impl { trait_name, .. } => trait_name.as_str(),
            Symbol::Group { name, .. } => name.as_str(),
        }
    }
}

/// The kind of a scope.
#[derive(Debug, Clone, Copy, PartialEq, Eq, Structural)]
pub enum ScopeKind {
    Global,
    Function,
    Block,
}

/// When a value lives and when it is dropped.
#[derive(Debug)]
pub struct LiveRange {
    pub value: ValueId,
    pub description: String,
    pub born_at: usize,
    pub last_use: usize,
    pub drop_at: Option<usize>,
    pub dropped_by_scope_exit: bool,
}

/// A point at which a value is dropped.
#[derive(Debug)]
pub struct DropPoint {
    pub value: ValueId,
    pub description: String,
    pub at_position: usize,
}

/// An error found by the analysis, with the byte span it concerns when known.
#[derive(Debug)]
pub struct SemanticError {
    pub message: String,
    pub span: Option<(usize, usize)>,
}

impl SemanticError {
    /// An error without a span.
    pub fn new(message: String) -> (r: Self)
        ensures
            r.message == message,
            r.span is None,
    {
        SemanticError { message, span: None }
    }

    /// An error over the bytes `start..end`.
    pub fn with_span(message: String, start: usize, end: usize) -> (r: Self)
        ensures
            r.message == message,
            r.span == Some((start, end)),
    {
        SemanticError { message, span: Some((start, end)) }
    }
}

} // verus!
