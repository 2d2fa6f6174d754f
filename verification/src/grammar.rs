use vstd::prelude::*;
use crate::ast::WindAssignOp;
use crate::ast::WindBinaryOp;
use crate::ast::WindExpr;
use crate::ast::WindFnParam;
use crate::ast::WindFnSignature;
use crate::ast::WindGroupRule;
use crate::ast::WindStmt;
use crate::ast::WindStructField;
use crate::ast::WindType;
use crate::ast::WindUnaryOp;
use crate::ast::WindWhichClause;
use crate::ast::binary_op_of;
use crate::parse::op_level;
use crate::parse::tk;
use crate::parse::Toks;
use crate::tokens::Token;

verus! {

/// A written type as the grammar builds it.
pub enum TypeV {
    Named(Seq<char>),
    Generic { base: Seq<char>, args: Seq<TypeV> },
    Fn { params: Seq<TypeV>, ret: Box<TypeV> },
    SelfType,
}

/// An expression as the grammar builds it.
pub enum ExprV {
    IntLiteral(i64),
    FloatLiteral(Seq<char>),
    StringLiteral(Seq<char>),
    CharLiteral(Seq<char>),
    BoolLiteral(bool),
    NoneLiteral,
    Identifier(Seq<char>),
    Binary { left: Box<ExprV>, op: WindBinaryOp, right: Box<ExprV> },
    Unary { op: WindUnaryOp, expr: Box<ExprV> },
    Call { callee: Box<ExprV>, args: Seq<ExprV> },
    FieldAccess { object: Box<ExprV>, field: Seq<char> },
    Index { expr: Box<ExprV>, index: Box<ExprV> },
    ScopeRef { object: Box<ExprV>, member: Seq<char> },
    TypeExpr { expr: Box<ExprV>, ty: TypeV },
    Group(Box<ExprV>),
    MapLiteral(Seq<(ExprV, ExprV)>),
    ArrayLiteral(Seq<ExprV>),
    IfExpr { condition: Box<ExprV>, then_branch: Box<ExprV>, else_branch: Option<Box<ExprV>> },
    TagExpr { name: Seq<char>, body: Seq<StmtV> },
    Unpack(Box<ExprV>),
    StructLiteral { name: Seq<char>, fields: Seq<(Seq<char>, ExprV)> },
}

/// A parameter as the grammar builds it.
pub struct ParamV {
    pub name: Seq<char>,
    pub ty: Option<TypeV>,
}

/// A `which` clause as the grammar builds it.
pub struct WhichV {
    pub method: Seq<char>,
    pub after: Seq<Seq<char>>,
}

/// A trait signature as the grammar builds it.
pub struct SigV {
    pub public: bool,
    pub name: Seq<char>,
    pub params: Seq<ParamV>,
    pub return_type: Option<TypeV>,
    pub which: Option<Seq<WhichV>>,
}

/// A struct field as the grammar builds it.
pub struct FieldV {
    pub public: bool,
    pub is_static: bool,
    pub name: Seq<char>,
    pub ty: TypeV,
    pub which: Option<Seq<WhichV>>,
    pub conditions: Option<ExprV>,
    pub default_value: Option<ExprV>,
}

/// A group rule as the grammar builds it.
pub enum RuleV {
    Simple { field: Seq<char>, ty: TypeV },
    SelfField { field: Seq<char>, ty: TypeV },
}

/// A statement as the grammar builds it.
pub enum StmtV {
    Let { name: Seq<char>, ty: Option<TypeV>, value: ExprV },
    Assignment { target: ExprV, op: WindAssignOp, value: ExprV },
    Expr(ExprV),
    Block(Seq<StmtV>),
    If { condition: ExprV, then_branch: Box<StmtV>, elif_branches: Seq<(ExprV, StmtV)>, else_branch: Option<Box<StmtV>> },
    For { init: Option<ExprV>, condition: Option<ExprV>, update: Option<ExprV>, body: Box<StmtV> },
    ForIn { var: Seq<char>, iterable: ExprV, body: Box<StmtV> },
    While { condition: ExprV, body: Box<StmtV> },
    Return(Option<ExprV>),
    FnDef {
        public: bool,
        name: Seq<char>,
        params: Seq<ParamV>,
        return_type: Option<TypeV>,
        which: Option<Seq<WhichV>>,
        body: Box<StmtV>,
    },
    StructDef { public: bool, name: Seq<char>, fields: Seq<FieldV> },
    EnumDef { public: bool, name: Seq<char>, variants: Seq<(Seq<char>, Option<TypeV>)> },
    TypeDef { public: bool, name: Seq<char>, base_type: TypeV, conditions: Seq<ExprV> },
    ExtraDef { public: bool, name: Option<Seq<char>>, target: Seq<char>, functions: Seq<StmtV> },
    ImplDef { public: bool, trait_name: Seq<char>, target: Seq<char>, functions: Seq<StmtV> },
    TraitDef { public: bool, name: Seq<char>, functions: Seq<SigV> },
    GroupDef { public: bool, name: Seq<char>, target: Option<Seq<char>>, params: Option<Seq<ParamV>>, rules: Seq<RuleV> },
    ConstDef { name: Seq<char>, ty: TypeV, value: ExprV },
    ConstaticDef { name: Seq<char>, ty: TypeV, value: ExprV },
    ExplainDef { name: Seq<char>, ty: TypeV, value: ExprV },
    Apply { group: Seq<char>, target: Seq<char>, fields: Seq<Seq<char>> },
}

/// The view of a written type.
pub open spec fn type_v(t: WindType) -> TypeV
    decreases t,
{
    match t {
        WindType::Named(n) => TypeV::Named(n@),
        WindType::Generic { base, args } => TypeV::Generic { base: base@, args: types_v(args@) },
        WindType::Fn { params, ret } => TypeV::Fn { params: types_v(params@), ret: Box::new(type_v(*ret)) },
        WindType::SelfType => TypeV::SelfType,
    }
}

/// The views of a list of written types.
pub open spec fn types_v(ts: Seq<WindType>) -> Seq<TypeV>
    decreases ts,
{
    if ts.len() == 0 {
        seq![]
    } else {
        types_v(ts.drop_last()).push(type_v(ts.last()))
    }
}

/// The view of an optional type.
pub open spec fn opt_type_v(t: Option<WindType>) -> Option<TypeV> {
    match t {
        Some(x) => Some(type_v(x)),
        None => None,
    }
}

/// The texts of a list of strings.
pub open spec fn strings_v(s: Seq<String>) -> Seq<Seq<char>>
    decreases s.len(),
{
    if s.len() == 0 {
        seq![]
    } else {
        strings_v(s.drop_last()).push(s.last()@)
    }
}

/// The view of a parameter.
pub open spec fn param_v(p: WindFnParam) -> ParamV {
    ParamV { name: p.name@, ty: opt_type_v(p.ty) }
}

/// The views of a list of parameters.
pub open spec fn params_v(s: Seq<WindFnParam>) -> Seq<ParamV>
    decreases s.len(),
{
    if s.len() == 0 {
        seq![]
    } else {
        params_v(s.drop_last()).push(param_v(s.last()))
    }
}

/// The view of a `which` clause.
pub open spec fn which_v(w: WindWhichClause) -> WhichV {
    WhichV { method: w.method@, after: strings_v(w.after@) }
}

/// The views of a list of `which` clauses.
pub open spec fn whiches_v(s: Seq<WindWhichClause>) -> Seq<WhichV>
    decreases s.len(),
{
    if s.len() == 0 {
        seq![]
    } else {
        whiches_v(s.drop_last()).push(which_v(s.last()))
    }
}

/// The view of optional `which` clauses.
pub open spec fn opt_which_v(w: Option<Vec<WindWhichClause>>) -> Option<Seq<WhichV>> {
    match w {
        Some(v) => Some(whiches_v(v@)),
        None => None,
    }
}

/// The view of a trait signature.
pub open spec fn sig_v(s: WindFnSignature) -> SigV {
    SigV {
        public: s.public,
        name: s.name@,
        params: params_v(s.params@),
        return_type: opt_type_v(s.return_type),
        which: opt_which_v(s.which),
    }
}

/// The views of a list of trait signatures.
pub open spec fn sigs_v(s: Seq<WindFnSignature>) -> Seq<SigV>
    decreases s.len(),
{
    if s.len() == 0 {
        seq![]
    } else {
        sigs_v(s.drop_last()).push(sig_v(s.last()))
    }
}

/// The view of a group rule.
pub open spec fn rule_v(r: WindGroupRule) -> RuleV {
    match r {
        WindGroupRule::Simple { field, ty } => RuleV::Simple { field: field@, ty: type_v(ty) },
        WindGroupRule::SelfField { field, ty } => RuleV::SelfField { field: field@, ty: type_v(ty) },
    }
}

/// The views of a list of group rules.
pub open spec fn rules_v(s: Seq<WindGroupRule>) -> Seq<RuleV>
    decreases s.len(),
{
    if s.len() == 0 {
        seq![]
    } else {
        rules_v(s.drop_last()).push(rule_v(s.last()))
    }
}

/// The views of a list of enum variants.
pub open spec fn variants_v(s: Seq<(String, Option<WindType>)>) -> Seq<(Seq<char>, Option<TypeV>)>
    decreases s.len(),
{
    if s.len() == 0 {
        seq![]
    } else {
        variants_v(s.drop_last()).push((s.last().0@, opt_type_v(s.last().1)))
    }
}

/// The view of an expression.
pub open spec fn expr_v(e: WindExpr) -> ExprV
    decreases e,
{
    match e {
        WindExpr::IntLiteral(n) => ExprV::IntLiteral(n),
        WindExpr::FloatLiteral(s) => ExprV::FloatLiteral(s@),
        WindExpr::StringLiteral(s) => ExprV::StringLiteral(s@),
        WindExpr::CharLiteral(s) => ExprV::CharLiteral(s@),
        WindExpr::BoolLiteral(b) => ExprV::BoolLiteral(b),
        WindExpr::NoneLiteral => ExprV::NoneLiteral,
        WindExpr::Identifier(s) => ExprV::Identifier(s@),
        WindExpr::Binary { left, op, right } => ExprV::Binary {
            left: Box::new(expr_v(*left)),
            op,
            right: Box::new(expr_v(*right)),
        },
        WindExpr::Unary { op, expr } => ExprV::Unary { op, expr: Box::new(expr_v(*expr)) },
        WindExpr::Call { callee, args } => ExprV::Call { callee: Box::new(expr_v(*callee)), args: exprs_v(args@) },
        WindExpr::FieldAccess { object, field } => ExprV::FieldAccess { object: Box::new(expr_v(*object)), field: field@ },
        WindExpr::Index { expr, index } => ExprV::Index { expr: Box::new(expr_v(*expr)), index: Box::new(expr_v(*index)) },
        WindExpr::ScopeRef { object, member } => ExprV::ScopeRef { object: Box::new(expr_v(*object)), member: member@ },
        WindExpr::TypeExpr { expr, ty } => ExprV::TypeExpr { expr: Box::new(expr_v(*expr)), ty: type_v(ty) },
        WindExpr::Group(x) => ExprV::Group(Box::new(expr_v(*x))),
        WindExpr::MapLiteral(ps) => ExprV::MapLiteral(pairs_v(ps@)),
        WindExpr::ArrayLiteral(es) => ExprV::ArrayLiteral(exprs_v(es@)),
        WindExpr::IfExpr { condition, then_branch, else_branch } => ExprV::IfExpr {
            condition: Box::new(expr_v(*condition)),
            then_branch: Box::new(expr_v(*then_branch)),
            else_branch: match else_branch {
                Some(x) => Some(Box::new(expr_v(*x))),
                None => None,
            },
        },
        WindExpr::TagExpr { name, body } => ExprV::TagExpr { name: name@, body: stmts_v(body@) },
        WindExpr::Unpack(x) => ExprV::Unpack(Box::new(expr_v(*x))),
        WindExpr::StructLiteral { name, fields } => ExprV::StructLiteral { name: name@, fields: named_v(fields@) },
    }
}

/// The views of a list of expressions.
pub open spec fn exprs_v(s: Seq<WindExpr>) -> Seq<ExprV>
    decreases s,
{
    if s.len() == 0 {
        seq![]
    } else {
        exprs_v(s.drop_last()).push(expr_v(s.last()))
    }
}

/// The views of the entries of a map literal.
pub open spec fn pairs_v(s: Seq<(WindExpr, WindExpr)>) -> Seq<(ExprV, ExprV)>
    decreases s,
{
    if s.len() == 0 {
        seq![]
    } else {
        pairs_v(s.drop_last()).push((expr_v(s.last().0), expr_v(s.last().1)))
    }
}

/// The views of the fields of a struct literal.
pub open spec fn named_v(s: Seq<(String, WindExpr)>) -> Seq<(Seq<char>, ExprV)>
    decreases s,
{
    if s.len() == 0 {
        seq![]
    } else {
        named_v(s.drop_last()).push((s.last().0@, expr_v(s.last().1)))
    }
}

/// The view of an optional boxed expression.
pub open spec fn opt_box_v(e: Option<Box<WindExpr>>) -> Option<ExprV>
    decreases e,
{
    match e {
        Some(x) => Some(expr_v(*x)),
        None => None,
    }
}

/// The view of a struct field.
pub open spec fn sfield_v(f: WindStructField) -> FieldV
    decreases f,
{
    FieldV {
        public: f.public,
        is_static: f.is_static,
        name: f.name@,
        ty: type_v(f.ty),
        which: opt_which_v(f.which),
        conditions: match f.conditions {
            Some(c) => Some(expr_v(c)),
            None => None,
        },
        default_value: opt_box_v(f.default_value),
    }
}

/// The views of a list of struct fields.
pub open spec fn sfields_v(s: Seq<WindStructField>) -> Seq<FieldV>
    decreases s,
{
    if s.len() == 0 {
        seq![]
    } else {
        sfields_v(s.drop_last()).push(sfield_v(s.last()))
    }
}

/// The view of a statement.
pub open spec fn stmt_v(s: WindStmt) -> StmtV
    decreases s,
{
    match s {
        WindStmt::Let { name, ty, value } => StmtV::Let { name: name@, ty: opt_type_v(ty), value: expr_v(*value) },
        WindStmt::Assignment { target, op, value } => StmtV::Assignment { target: expr_v(*target), op, value: expr_v(*value) },
        WindStmt::Expr(e) => StmtV::Expr(expr_v(*e)),
        WindStmt::Block(ss) => StmtV::Block(stmts_v(ss@)),
        WindStmt::If { condition, then_branch, elif_branches, else_branch } => StmtV::If {
            condition: expr_v(*condition),
            then_branch: Box::new(stmt_v(*then_branch)),
            elif_branches: elifs_v(elif_branches@),
            else_branch: match else_branch {
                Some(b) => Some(Box::new(stmt_v(*b))),
                None => None,
            },
        },
        WindStmt::For { init, condition, update, body } => StmtV::For {
            init: opt_box_v(init),
            condition: opt_box_v(condition),
            update: opt_box_v(update),
            body: Box::new(stmt_v(*body)),
        },
        WindStmt::ForIn { var, iterable, body } => StmtV::ForIn { var: var@, iterable: expr_v(*iterable), body: Box::new(stmt_v(*body)) },
        WindStmt::While { condition, body } => StmtV::While { condition: expr_v(*condition), body: Box::new(stmt_v(*body)) },
        WindStmt::Return(e) => StmtV::Return(opt_box_v(e)),
        WindStmt::FnDef { public, name, params, return_type, which, body } => StmtV::FnDef {
            public,
            name: name@,
            params: params_v(params@),
            return_type: opt_type_v(return_type),
            which: opt_which_v(which),
            body: Box::new(stmt_v(*body)),
        },
        WindStmt::StructDef { public, name, fields } => StmtV::StructDef { public, name: name@, fields: sfields_v(fields@) },
        WindStmt::EnumDef { public, name, variants } => StmtV::EnumDef { public, name: name@, variants: variants_v(variants@) },
        WindStmt::TypeDef { public, name, base_type, conditions } => StmtV::TypeDef {
            public,
            name: name@,
            base_type: type_v(base_type),
            conditions: exprs_v(conditions@),
        },
        WindStmt::ExtraDef { public, name, target, functions } => StmtV::ExtraDef {
            public,
            name: match name {
                Some(n) => Some(n@),
                None => None,
            },
            target: target@,
            functions: stmts_v(functions@),
        },
        WindStmt::ImplDef { public, trait_name, target, functions } => StmtV::ImplDef {
            public,
            trait_name: trait_name@,
            target: target@,
            functions: stmts_v(functions@),
        },
        WindStmt::TraitDef { public, name, functions } => StmtV::TraitDef { public, name: name@, functions: sigs_v(functions@) },
        WindStmt::GroupDef { public, name, target, params, rules } => StmtV::GroupDef {
            public,
            name: name@,
            target: match target {
                Some(t) => Some(t@),
                None => None,
            },
            params: match params {
                Some(ps) => Some(params_v(ps@)),
                None => None,
            },
            rules: rules_v(rules@),
        },
        WindStmt::ConstDef { name, ty, value } => StmtV::ConstDef { name: name@, ty: type_v(ty), value: expr_v(*value) },
        WindStmt::ConstaticDef { name, ty, value } => StmtV::ConstaticDef { name: name@, ty: type_v(ty), value: expr_v(*value) },
        WindStmt::ExplainDef { name, ty, value } => StmtV::ExplainDef { name: name@, ty: type_v(ty), value: expr_v(*value) },
        WindStmt::Apply { group, target, fields } => StmtV::Apply { group: group@, target: target@, fields: strings_v(fields@) },
    }
}

/// The views of a list of statements.
pub open spec fn stmts_v(s: Seq<WindStmt>) -> Seq<StmtV>
    decreases s,
{
    if s.len() == 0 {
        seq![]
    } else {
        stmts_v(s.drop_last()).push(stmt_v(s.last()))
    }
}

/// The views of the `elif` branches of an `if`.
pub open spec fn elifs_v(s: Seq<(WindExpr, WindStmt)>) -> Seq<(ExprV, StmtV)>
    decreases s,
{
    if s.len() == 0 {
        seq![]
    } else {
        elifs_v(s.drop_last()).push((expr_v(s.last().0), stmt_v(s.last().1)))
    }
}

/// The name at position `k`, if the token there is a name.
pub open spec fn name_at(ts: Toks, k: int) -> Option<Seq<char>> {
    if 0 <= k < ts.len() {
        match ts[k].0 {
            Token::Identifier(s) => Some(s@),
            _ => None,
        }
    } else {
        None
    }
}

/// Position `b` lies after `a`, within the tokens.
pub open spec fn fwd(ts: Toks, a: int, b: int) -> bool {
    a < b <= ts.len()
}

/// The type that starts at `p`, with the position after it: `self`, `None`, or a name with,
/// when `<`, types and `>` follow, those types as arguments.
pub open spec fn peg_type(ts: Toks, p: int) -> Option<(TypeV, int)>
    decreases ts.len() - p, 0nat,
{
    if p < 0 || p >= ts.len() {
        None
    } else if tk(ts, p, Token::SelfKw) {
        Some((TypeV::SelfType, p + 1))
    } else if tk(ts, p, Token::NoneKw) {
        Some((TypeV::Named("None"@), p + 1))
    } else {
        match name_at(ts, p) {
            Some(base) => if tk(ts, p + 1, Token::Less) {
                let (args, q) = peg_type_list(ts, p + 2);
                if tk(ts, q, Token::Greater) {
                    Some((TypeV::Generic { base, args }, q + 1))
                } else {
                    Some((TypeV::Named(base), p + 1))
                }
            } else {
                Some((TypeV::Named(base), p + 1))
            },
            None => None,
        }
    }
}

/// Types separated by commas, as many as parse from `p`.
pub open spec fn peg_type_list(ts: Toks, p: int) -> (Seq<TypeV>, int)
    decreases ts.len() - p, 1nat,
{
    if p < 0 || p > ts.len() {
        (seq![], p)
    } else {
        match peg_type(ts, p) {
            None => (seq![], p),
            Some((t, q)) => if fwd(ts, p, q) {
                peg_type_more(ts, seq![t], q)
            } else {
                (seq![t], q)
            },
        }
    }
}

/// After the types `acc`, ending at `q`: more types, each after a comma.
pub open spec fn peg_type_more(ts: Toks, acc: Seq<TypeV>, q: int) -> (Seq<TypeV>, int)
    decreases ts.len() - q, 1nat,
{
    if tk(ts, q, Token::Comma) {
        match peg_type(ts, q + 1) {
            Some((t, q2)) => if fwd(ts, q, q2) {
                peg_type_more(ts, acc.push(t), q2)
            } else {
                (acc.push(t), q2)
            },
            None => (acc, q),
        }
    } else {
        (acc, q)
    }
}

/// The expression that starts at `p`: `&&` and `||` over the operands below.
pub open spec fn peg_expr(ts: Toks, p: int) -> Option<(ExprV, int)>
    decreases ts.len() - p, 6nat,
{
    if p < 0 || p > ts.len() {
        None
    } else {
        peg_l4(ts, p, 0)
    }
}

/// An atom: a literal, a parenthesized expression, an `if` expression, a map, array or struct
/// literal, a receiver keyword or a name, the first of these that parses at `p`.
pub open spec fn peg_atom(ts: Toks, p: int) -> Option<(ExprV, int)>
    decreases ts.len() - p, 1nat,
{
    if p < 0 || p >= ts.len() {
        None
    } else {
        match ts[p].0 {
            Token::FloatLiteral(s) => Some((ExprV::FloatLiteral(s@), p + 1)),
            Token::IntLiteral(n) => Some((ExprV::IntLiteral(n), p + 1)),
            Token::StringLiteral(s) => Some((ExprV::StringLiteral(s@), p + 1)),
            Token::CharLiteral(s) => Some((ExprV::CharLiteral(s@), p + 1)),
            Token::TrueKw => Some((ExprV::BoolLiteral(true), p + 1)),
            Token::FalseKw => Some((ExprV::BoolLiteral(false), p + 1)),
            Token::NoneKw => Some((ExprV::NoneLiteral, p + 1)),
            _ => {
                let group = if tk(ts, p, Token::OpenParen) {
                    match peg_expr(ts, p + 1) {
                        Some((x, q)) => if tk(ts, q, Token::CloseParen) {
                            Some((ExprV::Group(Box::new(x)), q + 1))
                        } else {
                            None
                        },
                        None => None,
                    }
                } else {
                    None
                };
                let if_expr = if tk(ts, p, Token::If) { peg_if_expr(ts, p) } else { None };
                let map = if tk(ts, p, Token::OpenBrace) {
                    let (ps, q) = peg_pairs_t(ts, p + 1);
                    if tk(ts, q, Token::CloseBrace) { Some((ExprV::MapLiteral(ps), q + 1)) } else { None }
                } else {
                    None
                };
                let array = if tk(ts, p, Token::OpenBracket) {
                    let (es, q) = peg_exprs_t(ts, p + 1);
                    if tk(ts, q, Token::CloseBracket) { Some((ExprV::ArrayLiteral(es), q + 1)) } else { None }
                } else {
                    None
                };
                let structure = match name_at(ts, p) {
                    Some(name) => if tk(ts, p + 1, Token::OpenBrace) {
                        let (fs, q) = peg_fields_t(ts, p + 2);
                        if tk(ts, q, Token::CloseBrace) {
                            Some((ExprV::StructLiteral { name, fields: fs }, q + 1))
                        } else {
                            None
                        }
                    } else {
                        None
                    },
                    None => None,
                };
                if group is Some {
                    group
                } else if if_expr is Some {
                    if_expr
                } else if map is Some {
                    map
                } else if array is Some {
                    array
                } else if structure is Some {
                    structure
                } else if tk(ts, p, Token::SelfKw) {
                    Some((ExprV::Identifier("self"@), p + 1))
                } else if tk(ts, p, Token::ThisKw) {
                    Some((ExprV::Identifier("this"@), p + 1))
                } else if tk(ts, p, Token::ItKw) {
                    Some((ExprV::Identifier("it"@), p + 1))
                } else {
                    match name_at(ts, p) {
                        Some(n) => Some((ExprV::Identifier(n), p + 1)),
                        None => None,
                    }
                }
            },
        }
    }
}

/// `if` condition `{` value `}`, with an optional `else { value }`, from `p`.
pub open spec fn peg_if_expr(ts: Toks, p: int) -> Option<(ExprV, int)>
    decreases ts.len() - p, 0nat,
{
    if p < 0 || p >= ts.len() {
        None
    } else {
        match peg_expr(ts, p + 1) {
            None => None,
            Some((c, k)) => if !(fwd(ts, p, k) && tk(ts, k, Token::OpenBrace)) {
                None
            } else {
                match peg_expr(ts, k + 1) {
                    None => None,
                    Some((t, m)) => if !(fwd(ts, k, m) && tk(ts, m, Token::CloseBrace)) {
                        None
                    } else {
                        let els = if tk(ts, m + 1, Token::Else) && tk(ts, m + 2, Token::OpenBrace) {
                            match peg_expr(ts, m + 3) {
                                Some((x, q)) => if tk(ts, q, Token::CloseBrace) { Some((x, q)) } else { None },
                                None => None,
                            }
                        } else {
                            None
                        };
                        match els {
                            Some((x, q)) => Some((ExprV::IfExpr {
                                condition: Box::new(c),
                                then_branch: Box::new(t),
                                else_branch: Some(Box::new(x)),
                            }, q + 1)),
                            None => Some((ExprV::IfExpr {
                                condition: Box::new(c),
                                then_branch: Box::new(t),
                                else_branch: None,
                            }, m + 1)),
                        }
                    },
                }
            },
        }
    }
}

/// Expressions separated by commas from `p`, with one comma allowed after the last.
pub open spec fn peg_exprs_t(ts: Toks, p: int) -> (Seq<ExprV>, int)
    decreases ts.len() - p, 8nat,
{
    if p < 0 || p > ts.len() {
        (seq![], p)
    } else {
        match peg_expr(ts, p) {
            None => (seq![], p),
            Some((e, q)) => if fwd(ts, p, q) { peg_exprs_more(ts, seq![e], q) } else { (seq![e], q) },
        }
    }
}

/// After the expressions `acc`, ending at `q`: more, each after a comma; a comma with no
/// expression after it ends the list.
pub open spec fn peg_exprs_more(ts: Toks, acc: Seq<ExprV>, q: int) -> (Seq<ExprV>, int)
    decreases ts.len() - q, 8nat,
{
    if tk(ts, q, Token::Comma) {
        match peg_expr(ts, q + 1) {
            Some((e, q2)) => if fwd(ts, q, q2) { peg_exprs_more(ts, acc.push(e), q2) } else { (acc.push(e), q2) },
            None => (acc, q + 1),
        }
    } else {
        (acc, q)
    }
}

/// An entry of a map literal from `p`: key `:` value.
pub open spec fn peg_pair(ts: Toks, p: int) -> Option<((ExprV, ExprV), int)>
    decreases ts.len() - p, 7nat,
{
    if p < 0 || p > ts.len() {
        None
    } else {
        match peg_expr(ts, p) {
            None => None,
            Some((k, m)) => if fwd(ts, p, m) && tk(ts, m, Token::Colon) {
                match peg_expr(ts, m + 1) {
                    Some((v, q)) => Some(((k, v), q)),
                    None => None,
                }
            } else {
                None
            },
        }
    }
}

/// Map entries separated by commas from `p`, with one comma allowed after the last.
pub open spec fn peg_pairs_t(ts: Toks, p: int) -> (Seq<(ExprV, ExprV)>, int)
    decreases ts.len() - p, 8nat,
{
    if p < 0 || p > ts.len() {
        (seq![], p)
    } else {
        match peg_pair(ts, p) {
            None => (seq![], p),
            Some((e, q)) => if fwd(ts, p, q) { peg_pairs_more(ts, seq![e], q) } else { (seq![e], q) },
        }
    }
}

/// After the entries `acc`, ending at `q`: more, each after a comma.
pub open spec fn peg_pairs_more(ts: Toks, acc: Seq<(ExprV, ExprV)>, q: int) -> (Seq<(ExprV, ExprV)>, int)
    decreases ts.len() - q, 8nat,
{
    if tk(ts, q, Token::Comma) {
        match peg_pair(ts, q + 1) {
            Some((e, q2)) => if fwd(ts, q, q2) { peg_pairs_more(ts, acc.push(e), q2) } else { (acc.push(e), q2) },
            None => (acc, q + 1),
        }
    } else {
        (acc, q)
    }
}

/// A field of a struct literal from `p`: name `:` value, or else a value, named after it when
/// it is a name.
pub open spec fn peg_field(ts: Toks, p: int) -> Option<((Seq<char>, ExprV), int)>
    decreases ts.len() - p, 7nat,
{
    if p < 0 || p > ts.len() {
        None
    } else {
        let named = match name_at(ts, p) {
            Some(name) => if tk(ts, p + 1, Token::Colon) {
                match peg_expr(ts, p + 2) {
                    Some((v, q)) => Some(((name, v), q)),
                    None => None,
                }
            } else {
                None
            },
            None => None,
        };
        if named is Some {
            named
        } else {
            match peg_expr(ts, p) {
                Some((e, q)) => Some(((match e {
                    ExprV::Identifier(n) => n,
                    _ => Seq::<char>::empty(),
                }, e), q)),
                None => None,
            }
        }
    }
}

/// Struct literal fields separated by commas from `p`, with one comma allowed after the last.
pub open spec fn peg_fields_t(ts: Toks, p: int) -> (Seq<(Seq<char>, ExprV)>, int)
    decreases ts.len() - p, 8nat,
{
    if p < 0 || p > ts.len() {
        (seq![], p)
    } else {
        match peg_field(ts, p) {
            None => (seq![], p),
            Some((f, q)) => if fwd(ts, p, q) { peg_fields_more(ts, seq![f], q) } else { (seq![f], q) },
        }
    }
}

/// After the fields `acc`, ending at `q`: more, each after a comma.
pub open spec fn peg_fields_more(ts: Toks, acc: Seq<(Seq<char>, ExprV)>, q: int) -> (Seq<(Seq<char>, ExprV)>, int)
    decreases ts.len() - q, 8nat,
{
    if tk(ts, q, Token::Comma) {
        match peg_field(ts, q + 1) {
            Some((f, q2)) => if fwd(ts, q, q2) { peg_fields_more(ts, acc.push(f), q2) } else { (acc.push(f), q2) },
            None => (acc, q + 1),
        }
    } else {
        (acc, q)
    }
}

/// An atom from `p` followed by calls, field accesses, scope references, indexes and the
/// multiplying and adding operators whose doubled level reaches `min`, left to right.
pub open spec fn peg_l1(ts: Toks, p: int, min: int) -> Option<(ExprV, int)>
    decreases ts.len() - p, 2nat,
{
    if p < 0 || p > ts.len() {
        None
    } else {
        match peg_atom(ts, p) {
            None => None,
            Some((a, q)) => if fwd(ts, p, q) { Some(peg_l1_more(ts, a, q, min)) } else { Some((a, q)) },
        }
    }
}

/// One step of `peg_l1` after `lhs`, which ends at `q`: the first of a call, a field access, a
/// scope reference, an index and a binary operation that parses, then the steps after it.
pub open spec fn peg_l1_step(ts: Toks, lhs: ExprV, q: int, min: int) -> Option<(ExprV, int)>
    decreases ts.len() - q, 1nat,
{
    if q < 0 || q >= ts.len() {
        None
    } else {
        let call = if tk(ts, q, Token::OpenParen) {
            let (args, q2) = peg_exprs_t(ts, q + 1);
            if tk(ts, q2, Token::CloseParen) { Some((ExprV::Call { callee: Box::new(lhs), args }, q2 + 1)) } else { None }
        } else {
            None
        };
        let field = if tk(ts, q, Token::Dot) {
            match name_at(ts, q + 1) {
                Some(f) => Some((ExprV::FieldAccess { object: Box::new(lhs), field: f }, q + 2)),
                None => None,
            }
        } else {
            None
        };
        let member = if tk(ts, q, Token::DoubleColon) {
            match name_at(ts, q + 1) {
                Some(m) => Some((ExprV::ScopeRef { object: Box::new(lhs), member: m }, q + 2)),
                None => None,
            }
        } else {
            None
        };
        let index = if tk(ts, q, Token::OpenBracket) {
            match peg_expr(ts, q + 1) {
                Some((i, q2)) => if tk(ts, q2, Token::CloseBracket) {
                    Some((ExprV::Index { expr: Box::new(lhs), index: Box::new(i) }, q2 + 1))
                } else {
                    None
                },
                None => None,
            }
        } else {
            None
        };
        let binary = match binary_op_of(ts[q].0) {
            Some(op) => if op_level(op) >= 9 && 2 * op_level(op) >= min {
                match peg_l1(ts, q + 1, 2 * op_level(op) + 1) {
                    Some((rhs, q2)) => Some((ExprV::Binary { left: Box::new(lhs), op, right: Box::new(rhs) }, q2)),
                    None => None,
                }
            } else {
                None
            },
            None => None,
        };
        if call is Some {
            call
        } else if field is Some {
            field
        } else if member is Some {
            member
        } else if index is Some {
            index
        } else {
            binary
        }
    }
}

/// The steps of `peg_l1` after `lhs`, which ends at `q`, as long as one parses.
pub open spec fn peg_l1_more(ts: Toks, lhs: ExprV, q: int, min: int) -> (ExprV, int)
    decreases ts.len() - q, 2nat,
{
    match peg_l1_step(ts, lhs, q, min) {
        Some((x, q2)) => if fwd(ts, q, q2) { peg_l1_more(ts, x, q2, min) } else { (x, q2) },
        None => (lhs, q),
    }
}

/// `-` and `!` in front of an operand of `peg_l1`, from `p`.
pub open spec fn peg_l2(ts: Toks, p: int) -> Option<(ExprV, int)>
    decreases ts.len() - p, 3nat,
{
    if p < 0 || p > ts.len() {
        None
    } else {
        let neg = if tk(ts, p, Token::Minus) {
            match peg_l2(ts, p + 1) {
                Some((x, q)) => Some((ExprV::Unary { op: WindUnaryOp::Neg, expr: Box::new(x) }, q)),
                None => None,
            }
        } else {
            None
        };
        let not = if tk(ts, p, Token::Bang) {
            match peg_l2(ts, p + 1) {
                Some((x, q)) => Some((ExprV::Unary { op: WindUnaryOp::Not, expr: Box::new(x) }, q)),
                None => None,
            }
        } else {
            None
        };
        if neg is Some {
            neg
        } else if not is Some {
            not
        } else {
            peg_l1(ts, p, 0)
        }
    }
}

/// Operands of `peg_l2` from `p`, combined by the shift, comparison, equality and bit operators
/// whose doubled level reaches `min`, left to right.
pub open spec fn peg_l3(ts: Toks, p: int, min: int) -> Option<(ExprV, int)>
    decreases ts.len() - p, 4nat,
{
    if p < 0 || p > ts.len() {
        None
    } else {
        match peg_l2(ts, p) {
            None => None,
            Some((a, q)) => if fwd(ts, p, q) { Some(peg_l3_more(ts, a, q, min)) } else { Some((a, q)) },
        }
    }
}

/// The operations of `peg_l3` after `lhs`, which ends at `q`, as long as one parses.
pub open spec fn peg_l3_more(ts: Toks, lhs: ExprV, q: int, min: int) -> (ExprV, int)
    decreases ts.len() - q, 4nat,
{
    if q < 0 || q >= ts.len() {
        (lhs, q)
    } else {
        match binary_op_of(ts[q].0) {
            Some(op) => if 3 <= op_level(op) <= 8 && 2 * op_level(op) >= min {
                match peg_l3(ts, q + 1, 2 * op_level(op) + 1) {
                    Some((rhs, q2)) => {
                        let x = ExprV::Binary { left: Box::new(lhs), op, right: Box::new(rhs) };
                        if fwd(ts, q, q2) { peg_l3_more(ts, x, q2, min) } else { (x, q2) }
                    },
                    None => (lhs, q),
                }
            } else {
                (lhs, q)
            },
            None => (lhs, q),
        }
    }
}

/// Operands of `peg_l3` from `p`, combined by `&&` and `||` when their doubled level reaches
/// `min`, left to right.
pub open spec fn peg_l4(ts: Toks, p: int, min: int) -> Option<(ExprV, int)>
    decreases ts.len() - p, 5nat,
{
    if p < 0 || p > ts.len() {
        None
    } else {
        match peg_l3(ts, p, 0) {
            None => None,
            Some((a, q)) => if fwd(ts, p, q) { Some(peg_l4_more(ts, a, q, min)) } else { Some((a, q)) },
        }
    }
}

/// The operations of `peg_l4` after `lhs`, which ends at `q`, as long as one parses.
pub open spec fn peg_l4_more(ts: Toks, lhs: ExprV, q: int, min: int) -> (ExprV, int)
    decreases ts.len() - q, 5nat,
{
    if q < 0 || q >= ts.len() {
        (lhs, q)
    } else {
        match binary_op_of(ts[q].0) {
            Some(op) => if op_level(op) <= 2 && 2 * op_level(op) >= min {
                match peg_l4(ts, q + 1, 2 * op_level(op) + 1) {
                    Some((rhs, q2)) => {
                        let x = ExprV::Binary { left: Box::new(lhs), op, right: Box::new(rhs) };
                        if fwd(ts, q, q2) { peg_l4_more(ts, x, q2, min) } else { (x, q2) }
                    },
                    None => (lhs, q),
                }
            } else {
                (lhs, q)
            },
            None => (lhs, q),
        }
    }
}

/// An expression from `p`, with `: type` after it when a type follows the colon.
pub open spec fn peg_et(ts: Toks, p: int) -> Option<(ExprV, int)> {
    match peg_expr(ts, p) {
        None => None,
        Some((e, q)) => if tk(ts, q, Token::Colon) {
            match peg_type(ts, q + 1) {
                Some((t, q2)) => Some((ExprV::TypeExpr { expr: Box::new(e), ty: t }, q2)),
                None => Some((e, q)),
            }
        } else {
            Some((e, q))
        },
    }
}

/// What a parser of types returned, as the grammar sees it.
pub open spec fn type_res(r: Option<(WindType, usize)>) -> Option<(TypeV, int)> {
    match r {
        Some((t, q)) => Some((type_v(t), q as int)),
        None => None,
    }
}

/// What a parser of expressions returned, as the grammar sees it.
pub open spec fn expr_res(r: Option<(WindExpr, usize)>) -> Option<(ExprV, int)> {
    match r {
        Some((e, q)) => Some((expr_v(e), q as int)),
        None => None,
    }
}

/// `exprs_v` of a list with one more item is `exprs_v` of the list with the item's view after it.
pub proof fn lemma_exprs_v_push(s: Seq<WindExpr>, x: WindExpr)
    ensures
        exprs_v(s.push(x)) == exprs_v(s).push(expr_v(x)),
        exprs_v(Seq::<WindExpr>::empty()).len() == 0,
{
    assert(s.push(x).drop_last() =~= s);
}

/// `pairs_v` of a list with one more item is `pairs_v` of the list with the item's view after it.
pub proof fn lemma_pairs_v_push(s: Seq<(WindExpr, WindExpr)>, x: (WindExpr, WindExpr))
    ensures
        pairs_v(s.push(x)) == pairs_v(s).push((expr_v(x.0), expr_v(x.1))),
        pairs_v(Seq::<(WindExpr, WindExpr)>::empty()).len() == 0,
{
    assert(s.push(x).drop_last() =~= s);
}

/// `named_v` of a list with one more item is `named_v` of the list with the item's view after it.
pub proof fn lemma_named_v_push(s: Seq<(String, WindExpr)>, x: (String, WindExpr))
    ensures
        named_v(s.push(x)) == named_v(s).push((x.0@, expr_v(x.1))),
        named_v(Seq::<(String, WindExpr)>::empty()).len() == 0,
{
    assert(s.push(x).drop_last() =~= s);
}

/// `stmts_v` of a list with one more item is `stmts_v` of the list with the item's view after it.
pub proof fn lemma_stmts_v_push(s: Seq<WindStmt>, x: WindStmt)
    ensures
        stmts_v(s.push(x)) == stmts_v(s).push(stmt_v(x)),
        stmts_v(Seq::<WindStmt>::empty()).len() == 0,
{
    assert(s.push(x).drop_last() =~= s);
}

/// `elifs_v` of a list with one more item is `elifs_v` of the list with the item's view after it.
pub proof fn lemma_elifs_v_push(s: Seq<(WindExpr, WindStmt)>, x: (WindExpr, WindStmt))
    ensures
        elifs_v(s.push(x)) == elifs_v(s).push((expr_v(x.0), stmt_v(x.1))),
        elifs_v(Seq::<(WindExpr, WindStmt)>::empty()).len() == 0,
{
    assert(s.push(x).drop_last() =~= s);
}

/// `params_v` of a list with one more item is `params_v` of the list with the item's view after it.
pub proof fn lemma_params_v_push(s: Seq<WindFnParam>, x: WindFnParam)
    ensures
        params_v(s.push(x)) == params_v(s).push(param_v(x)),
        params_v(Seq::<WindFnParam>::empty()).len() == 0,
{
    assert(s.push(x).drop_last() =~= s);
}

/// `strings_v` of a list with one more item is `strings_v` of the list with the item's view after it.
pub proof fn lemma_strings_v_push(s: Seq<String>, x: String)
    ensures
        strings_v(s.push(x)) == strings_v(s).push(x@),
        strings_v(Seq::<String>::empty()).len() == 0,
{
    assert(s.push(x).drop_last() =~= s);
}

/// `sigs_v` of a list with one more item is `sigs_v` of the list with the item's view after it.
pub proof fn lemma_sigs_v_push(s: Seq<WindFnSignature>, x: WindFnSignature)
    ensures
        sigs_v(s.push(x)) == sigs_v(s).push(sig_v(x)),
        sigs_v(Seq::<WindFnSignature>::empty()).len() == 0,
{
    assert(s.push(x).drop_last() =~= s);
}

/// `rules_v` of a list with one more item is `rules_v` of the list with the item's view after it.
pub proof fn lemma_rules_v_push(s: Seq<WindGroupRule>, x: WindGroupRule)
    ensures
        rules_v(s.push(x)) == rules_v(s).push(rule_v(x)),
        rules_v(Seq::<WindGroupRule>::empty()).len() == 0,
{
    assert(s.push(x).drop_last() =~= s);
}

/// `variants_v` of a list with one more item is `variants_v` of the list with the item's view after it.
pub proof fn lemma_variants_v_push(s: Seq<(String, Option<WindType>)>, x: (String, Option<WindType>))
    ensures
        variants_v(s.push(x)) == variants_v(s).push((x.0@, opt_type_v(x.1))),
        variants_v(Seq::<(String, Option<WindType>)>::empty()).len() == 0,
{
    assert(s.push(x).drop_last() =~= s);
}

/// `sfields_v` of a list with one more item is `sfields_v` of the list with the item's view after it.
pub proof fn lemma_sfields_v_push(s: Seq<WindStructField>, x: WindStructField)
    ensures
        sfields_v(s.push(x)) == sfields_v(s).push(sfield_v(x)),
        sfields_v(Seq::<WindStructField>::empty()).len() == 0,
{
    assert(s.push(x).drop_last() =~= s);
}

/// `whiches_v` of a list with one more item is `whiches_v` of the list with the item's view after it.
pub proof fn lemma_whiches_v_push(s: Seq<WindWhichClause>, x: WindWhichClause)
    ensures
        whiches_v(s.push(x)) == whiches_v(s).push(which_v(x)),
        whiches_v(Seq::<WindWhichClause>::empty()).len() == 0,
{
    assert(s.push(x).drop_last() =~= s);
}


/// What a parser of map entries returned, as the grammar sees it.
pub open spec fn pair_res(r: Option<((WindExpr, WindExpr), usize)>) -> Option<((ExprV, ExprV), int)> {
    match r {
        Some((x, q)) => Some(((expr_v(x.0), expr_v(x.1)), q as int)),
        None => None,
    }
}

/// What a parser of struct literal fields returned, as the grammar sees it.
pub open spec fn field_res(r: Option<((String, WindExpr), usize)>) -> Option<((Seq<char>, ExprV), int)> {
    match r {
        Some((x, q)) => Some(((x.0@, expr_v(x.1)), q as int)),
        None => None,
    }
}

/// `pub` or `public` at `p`, and the position after it.
pub open spec fn peg_vis(ts: Toks, p: int) -> (bool, int) {
    if tk(ts, p, Token::Pub) || tk(ts, p, Token::Public) { (true, p + 1) } else { (false, p) }
}

/// `: type` at `p` when it parses, else nothing.
pub open spec fn peg_annot(ts: Toks, p: int) -> (Option<TypeV>, int) {
    if tk(ts, p, Token::Colon) {
        match peg_type(ts, p + 1) {
            Some((t, q)) => (Some(t), q),
            None => (None, p),
        }
    } else {
        (None, p)
    }
}

/// `-> type` at `p` when it parses, else nothing.
pub open spec fn peg_ret(ts: Toks, p: int) -> (Option<TypeV>, int) {
    if tk(ts, p, Token::Arrow) {
        match peg_type(ts, p + 1) {
            Some((t, q)) => (Some(t), q),
            None => (None, p),
        }
    } else {
        (None, p)
    }
}

/// A parameter at `p`: a receiver keyword, or a name with an optional type.
pub open spec fn peg_param(ts: Toks, p: int) -> Option<(ParamV, int)> {
    if tk(ts, p, Token::SelfKw) {
        Some((ParamV { name: "self"@, ty: None }, p + 1))
    } else if tk(ts, p, Token::ThisKw) {
        Some((ParamV { name: "this"@, ty: None }, p + 1))
    } else if tk(ts, p, Token::ItKw) {
        Some((ParamV { name: "it"@, ty: None }, p + 1))
    } else {
        match name_at(ts, p) {
            Some(n) => {
                let (ty, q) = peg_annot(ts, p + 1);
                Some((ParamV { name: n, ty }, q))
            },
            None => None,
        }
    }
}

/// Parameters separated by commas from `p`; with `trailing`, a comma with no parameter after it
/// ends the list and is taken.
pub open spec fn peg_params(ts: Toks, p: int, trailing: bool) -> (Seq<ParamV>, int) {
    match peg_param(ts, p) {
        None => (seq![], p),
        Some((x, q)) => if fwd(ts, p, q) { peg_params_more(ts, seq![x], q, trailing) } else { (seq![x], q) },
    }
}

/// After the parameters `acc`, ending at `q`: more, each after a comma.
pub open spec fn peg_params_more(ts: Toks, acc: Seq<ParamV>, q: int, trailing: bool) -> (Seq<ParamV>, int)
    decreases ts.len() - q,
{
    if tk(ts, q, Token::Comma) {
        match peg_param(ts, q + 1) {
            Some((x, q2)) => if fwd(ts, q, q2) { peg_params_more(ts, acc.push(x), q2, trailing) } else { (acc.push(x), q2) },
            None => (acc, if trailing { q + 1 } else { q }),
        }
    } else {
        (acc, q)
    }
}

/// A method reference at `p`: `::name`, kept with its colons, or a name.
pub open spec fn peg_method(ts: Toks, p: int) -> Option<(Seq<char>, int)> {
    if tk(ts, p, Token::DoubleColon) && name_at(ts, p + 1) is Some {
        Some(("::"@ + name_at(ts, p + 1)->0, p + 2))
    } else {
        match name_at(ts, p) {
            Some(id) => Some((id, p + 1)),
            None => None,
        }
    }
}

/// Method references separated by commas from `p`.
pub open spec fn peg_methods(ts: Toks, p: int) -> (Seq<Seq<char>>, int) {
    match peg_method(ts, p) {
        None => (seq![], p),
        Some((x, q)) => if fwd(ts, p, q) { peg_methods_more(ts, seq![x], q) } else { (seq![x], q) },
    }
}

/// After the method references `acc`, ending at `q`: more, each after a comma.
pub open spec fn peg_methods_more(ts: Toks, acc: Seq<Seq<char>>, q: int) -> (Seq<Seq<char>>, int)
    decreases ts.len() - q,
{
    if tk(ts, q, Token::Comma) {
        match peg_method(ts, q + 1) {
            Some((x, q2)) => if fwd(ts, q, q2) { peg_methods_more(ts, acc.push(x), q2) } else { (acc.push(x), q2) },
            None => (acc, q),
        }
    } else {
        (acc, q)
    }
}

/// `, which` and method references at `p`, as one clause with an empty method, else nothing.
pub open spec fn peg_which_opt(ts: Toks, p: int) -> (Option<Seq<WhichV>>, int) {
    if tk(ts, p, Token::Comma) && tk(ts, p + 1, Token::Which) {
        let (after, q) = peg_methods(ts, p + 2);
        (Some(seq![WhichV { method: Seq::empty(), after }]), q)
    } else {
        (None, p)
    }
}

/// Names separated by commas from `p`.
pub open spec fn peg_idents(ts: Toks, p: int) -> (Seq<Seq<char>>, int) {
    match name_at(ts, p) {
        None => (seq![], p),
        Some(x) => peg_idents_more(ts, seq![x], p + 1),
    }
}

/// After the names `acc`, ending at `q`: more, each after a comma.
pub open spec fn peg_idents_more(ts: Toks, acc: Seq<Seq<char>>, q: int) -> (Seq<Seq<char>>, int)
    decreases ts.len() - q,
{
    if tk(ts, q, Token::Comma) {
        match name_at(ts, q + 1) {
            Some(x) => peg_idents_more(ts, acc.push(x), q + 2),
            None => (acc, q),
        }
    } else {
        (acc, q)
    }
}

/// An enum variant at `p`: a name and an optional type.
pub open spec fn peg_variant(ts: Toks, p: int) -> Option<((Seq<char>, Option<TypeV>), int)> {
    match name_at(ts, p) {
        Some(n) => {
            let (ty, q) = peg_annot(ts, p + 1);
            Some(((n, ty), q))
        },
        None => None,
    }
}

/// Variants separated by commas from `p`, with one comma allowed after the last.
pub open spec fn peg_variants(ts: Toks, p: int) -> (Seq<(Seq<char>, Option<TypeV>)>, int) {
    match peg_variant(ts, p) {
        None => (seq![], p),
        Some((x, q)) => if fwd(ts, p, q) { peg_variants_more(ts, seq![x], q) } else { (seq![x], q) },
    }
}

/// After the variants `acc`, ending at `q`: more, each after a comma.
pub open spec fn peg_variants_more(ts: Toks, acc: Seq<(Seq<char>, Option<TypeV>)>, q: int) -> (Seq<(Seq<char>, Option<TypeV>)>, int)
    decreases ts.len() - q,
{
    if tk(ts, q, Token::Comma) {
        match peg_variant(ts, q + 1) {
            Some((x, q2)) => if fwd(ts, q, q2) { peg_variants_more(ts, acc.push(x), q2) } else { (acc.push(x), q2) },
            None => (acc, q + 1),
        }
    } else {
        (acc, q)
    }
}

/// A group rule at `p`: `self.field -> type;`, else `name -> type;`.
pub open spec fn peg_rule(ts: Toks, p: int) -> Option<(RuleV, int)> {
    let self_rule = if tk(ts, p, Token::SelfKw) && tk(ts, p + 1, Token::Dot) {
        match name_at(ts, p + 2) {
            Some(f) => if tk(ts, p + 3, Token::Arrow) {
                match peg_type(ts, p + 4) {
                    Some((ty, m)) => if tk(ts, m, Token::Semicolon) { Some((RuleV::SelfField { field: f, ty }, m + 1)) } else { None },
                    None => None,
                }
            } else {
                None
            },
            None => None,
        }
    } else {
        None
    };
    if self_rule is Some {
        self_rule
    } else {
        match name_at(ts, p) {
            Some(f) => if tk(ts, p + 1, Token::Arrow) {
                match peg_type(ts, p + 2) {
                    Some((ty, m)) => if tk(ts, m, Token::Semicolon) { Some((RuleV::Simple { field: f, ty }, m + 1)) } else { None },
                    None => None,
                }
            } else {
                None
            },
            None => None,
        }
    }
}

/// Group rules from `q` on, after the rules `acc`, as many as parse.
pub open spec fn peg_rules_more(ts: Toks, acc: Seq<RuleV>, q: int) -> (Seq<RuleV>, int)
    decreases ts.len() - q,
{
    match peg_rule(ts, q) {
        Some((x, q2)) => if fwd(ts, q, q2) { peg_rules_more(ts, acc.push(x), q2) } else { (acc.push(x), q2) },
        None => (acc, q),
    }
}

/// A trait signature at `p`: visibility, `fn`, name, parameters, optional return type, `;`.
pub open spec fn peg_sig(ts: Toks, p: int) -> Option<(SigV, int)> {
    let (public, k) = peg_vis(ts, p);
    if !tk(ts, k, Token::Fn) {
        None
    } else {
        match name_at(ts, k + 1) {
            None => None,
            Some(name) => if !tk(ts, k + 2, Token::OpenParen) {
                None
            } else {
                let (params, m) = peg_params(ts, k + 3, true);
                if !tk(ts, m, Token::CloseParen) {
                    None
                } else {
                    let (return_type, q) = peg_ret(ts, m + 1);
                    if !tk(ts, q, Token::Semicolon) {
                        None
                    } else {
                        Some((SigV { public, name, params, return_type, which: None }, q + 1))
                    }
                }
            },
        }
    }
}

/// Trait signatures from `q` on, after the signatures `acc`, as many as parse.
pub open spec fn peg_sigs_more(ts: Toks, acc: Seq<SigV>, q: int) -> (Seq<SigV>, int)
    decreases ts.len() - q,
{
    match peg_sig(ts, q) {
        Some((x, q2)) => if fwd(ts, q, q2) { peg_sigs_more(ts, acc.push(x), q2) } else { (acc.push(x), q2) },
        None => (acc, q),
    }
}

/// Expressions with optional types, separated by semicolons from `p`, with one semicolon
/// allowed after the last.
pub open spec fn peg_semi_exprs(ts: Toks, p: int) -> (Seq<ExprV>, int) {
    match peg_et(ts, p) {
        None => (seq![], p),
        Some((x, q)) => if fwd(ts, p, q) { peg_semi_more(ts, seq![x], q) } else { (seq![x], q) },
    }
}

/// After the expressions `acc`, ending at `q`: more, each after a semicolon.
pub open spec fn peg_semi_more(ts: Toks, acc: Seq<ExprV>, q: int) -> (Seq<ExprV>, int)
    decreases ts.len() - q,
{
    if tk(ts, q, Token::Semicolon) {
        match peg_et(ts, q + 1) {
            Some((x, q2)) => if fwd(ts, q, q2) { peg_semi_more(ts, acc.push(x), q2) } else { (acc.push(x), q2) },
            None => (acc, q + 1),
        }
    } else {
        (acc, q)
    }
}

/// The conditions of a struct field at `p`: `where` or `->`, then a braced list, of which the
/// first is kept; nothing when no such list parses.
pub open spec fn peg_conds(ts: Toks, p: int) -> (Option<ExprV>, int) {
    if (tk(ts, p, Token::Where) || tk(ts, p, Token::Arrow)) && tk(ts, p + 1, Token::OpenBrace) {
        let (es, q) = peg_semi_exprs(ts, p + 2);
        if tk(ts, q, Token::CloseBrace) {
            (if es.len() > 0 { Some(es[0]) } else { None }, q + 1)
        } else {
            (None, p)
        }
    } else {
        (None, p)
    }
}

/// A struct field at `p`: visibility, name, `:` type, conditions, an optional `= value`, `;`.
pub open spec fn peg_sfield(ts: Toks, p: int) -> Option<(FieldV, int)> {
    let (public, k) = peg_vis(ts, p);
    match name_at(ts, k) {
        None => None,
        Some(name) => if !tk(ts, k + 1, Token::Colon) {
            None
        } else {
            match peg_type(ts, k + 2) {
                None => None,
                Some((ty, m)) => {
                    let (conditions, q) = peg_conds(ts, m);
                    let (default_value, r) = if tk(ts, q, Token::Equal) {
                        match peg_et(ts, q + 1) {
                            Some((v, r)) => (Some(v), r),
                            None => (None, q),
                        }
                    } else {
                        (None, q)
                    };
                    if tk(ts, r, Token::Semicolon) {
                        Some((FieldV { public, is_static: false, name, ty, which: None, conditions, default_value }, r + 1))
                    } else {
                        None
                    }
                },
            }
        },
    }
}

/// Struct fields from `q` on, after the fields `acc`, as many as parse.
pub open spec fn peg_sfields_more(ts: Toks, acc: Seq<FieldV>, q: int) -> (Seq<FieldV>, int)
    decreases ts.len() - q,
{
    match peg_sfield(ts, q) {
        Some((x, q2)) => if fwd(ts, q, q2) { peg_sfields_more(ts, acc.push(x), q2) } else { (acc.push(x), q2) },
        None => (acc, q),
    }
}

/// The expressions of the expression statements among `ss`, in order.
pub open spec fn expr_stmts_v(ss: Seq<StmtV>) -> Seq<ExprV>
    decreases ss.len(),
{
    if ss.len() == 0 {
        seq![]
    } else {
        (match ss[0] {
            StmtV::Expr(e) => seq![e],
            _ => Seq::<ExprV>::empty(),
        }) + expr_stmts_v(ss.drop_first())
    }
}

/// `a` when it holds a result, else `b`.
pub open spec fn or_else<A>(a: Option<A>, b: Option<A>) -> Option<A> {
    if a is Some { a } else { b }
}

/// A block at `p`: `{`, statements, `}`.
pub open spec fn peg_block(ts: Toks, p: int) -> Option<(StmtV, int)>
    decreases ts.len() - p, 0nat,
{
    if p < 0 || p >= ts.len() || !tk(ts, p, Token::OpenBrace) {
        None
    } else {
        let (ss, q) = peg_stmts(ts, p + 1);
        if tk(ts, q, Token::CloseBrace) { Some((StmtV::Block(ss), q + 1)) } else { None }
    }
}

/// Statements from `p` on, as many as parse.
pub open spec fn peg_stmts(ts: Toks, p: int) -> (Seq<StmtV>, int)
    decreases ts.len() - p, 6nat,
{
    if p < 0 || p > ts.len() {
        (seq![], p)
    } else {
        peg_stmts_more(ts, seq![], p)
    }
}

/// Statements from `q` on, after the statements `acc`, as many as parse.
pub open spec fn peg_stmts_more(ts: Toks, acc: Seq<StmtV>, q: int) -> (Seq<StmtV>, int)
    decreases ts.len() - q, 5nat,
{
    if q < 0 || q > ts.len() {
        (acc, q)
    } else {
        match peg_stmt(ts, q) {
            Some((x, q2)) => if fwd(ts, q, q2) { peg_stmts_more(ts, acc.push(x), q2) } else { (acc.push(x), q2) },
            None => (acc, q),
        }
    }
}

/// Function definitions from `p` on, as many as parse.
pub open spec fn peg_fn_defs(ts: Toks, p: int) -> (Seq<StmtV>, int)
    decreases ts.len() - p, 3nat,
{
    if p < 0 || p > ts.len() {
        (seq![], p)
    } else {
        peg_fn_defs_more(ts, seq![], p)
    }
}

/// Function definitions from `q` on, after the definitions `acc`, as many as parse.
pub open spec fn peg_fn_defs_more(ts: Toks, acc: Seq<StmtV>, q: int) -> (Seq<StmtV>, int)
    decreases ts.len() - q, 2nat,
{
    if q < 0 || q > ts.len() {
        (acc, q)
    } else {
        match peg_fn_def(ts, q) {
            Some((x, q2)) => if fwd(ts, q, q2) { peg_fn_defs_more(ts, acc.push(x), q2) } else { (acc.push(x), q2) },
            None => (acc, q),
        }
    }
}

/// A function definition at `p`: visibility, `fn`, name, parameters, an optional return type,
/// an optional `which` clause and a block.
pub open spec fn peg_fn_def(ts: Toks, p: int) -> Option<(StmtV, int)>
    decreases ts.len() - p, 1nat,
{
    let (public, k) = peg_vis(ts, p);
    if !tk(ts, k, Token::Fn) {
        None
    } else {
        match name_at(ts, k + 1) {
            None => None,
            Some(name) => if !tk(ts, k + 2, Token::OpenParen) {
                None
            } else {
                let (params, m) = peg_params(ts, k + 3, true);
                if !tk(ts, m, Token::CloseParen) {
                    None
                } else {
                    let (return_type, q) = peg_ret(ts, m + 1);
                    let (which, r) = peg_which_opt(ts, q);
                    if !(p <= r <= ts.len()) {
                        None
                    } else {
                        match peg_block(ts, r) {
                            Some((body, j)) => Some((StmtV::FnDef { public, name, params, return_type, which, body: Box::new(body) }, j)),
                            None => None,
                        }
                    }
                }
            },
        }
    }
}

/// A struct definition at `p`.
pub open spec fn peg_struct_def(ts: Toks, p: int) -> Option<(StmtV, int)> {
    let (public, k) = peg_vis(ts, p);
    if !tk(ts, k, Token::Struct) {
        None
    } else {
        match name_at(ts, k + 1) {
            None => None,
            Some(name) => if !tk(ts, k + 2, Token::OpenBrace) {
                None
            } else {
                let (fields, m) = peg_sfields_more(ts, seq![], k + 3);
                if tk(ts, m, Token::CloseBrace) { Some((StmtV::StructDef { public, name, fields }, m + 1)) } else { None }
            },
        }
    }
}

/// An enum definition at `p`.
pub open spec fn peg_enum_def(ts: Toks, p: int) -> Option<(StmtV, int)> {
    let (public, k) = peg_vis(ts, p);
    if !tk(ts, k, Token::Enum) {
        None
    } else {
        match name_at(ts, k + 1) {
            None => None,
            Some(name) => if !tk(ts, k + 2, Token::OpenBrace) {
                None
            } else {
                let (variants, m) = peg_variants(ts, k + 3);
                if tk(ts, m, Token::CloseBrace) { Some((StmtV::EnumDef { public, name, variants }, m + 1)) } else { None }
            },
        }
    }
}

/// A type definition at `p`, with the expression statements of a `where` block that follows,
/// when one parses.
pub open spec fn peg_type_def(ts: Toks, p: int) -> Option<(StmtV, int)>
    decreases ts.len() - p, 3nat,
{
    let (public, k) = peg_vis(ts, p);
    if !tk(ts, k, Token::Type) {
        None
    } else {
        match name_at(ts, k + 1) {
            None => None,
            Some(name) => if !tk(ts, k + 2, Token::Equal) {
                None
            } else {
                match peg_type(ts, k + 3) {
                    None => None,
                    Some((base_type, m)) => {
                        let plain = Some((StmtV::TypeDef { public, name, base_type, conditions: seq![] }, m));
                        if p <= m && tk(ts, m, Token::Where) && tk(ts, m + 1, Token::OpenBrace) {
                            let (ss, q) = peg_stmts(ts, m + 2);
                            if tk(ts, q, Token::CloseBrace) {
                                Some((StmtV::TypeDef { public, name, base_type, conditions: expr_stmts_v(ss) }, q + 1))
                            } else {
                                plain
                            }
                        } else {
                            plain
                        }
                    },
                }
            },
        }
    }
}

/// A trait definition at `p`.
pub open spec fn peg_trait_def(ts: Toks, p: int) -> Option<(StmtV, int)> {
    let (public, k) = peg_vis(ts, p);
    if !tk(ts, k, Token::Trait) {
        None
    } else {
        match name_at(ts, k + 1) {
            None => None,
            Some(name) => if !tk(ts, k + 2, Token::OpenBrace) {
                None
            } else {
                let (functions, m) = peg_sigs_more(ts, seq![], k + 3);
                if tk(ts, m, Token::CloseBrace) { Some((StmtV::TraitDef { public, name, functions }, m + 1)) } else { None }
            },
        }
    }
}

/// An `extra` block at `p`: a target, named when `name :` comes first, and function
/// definitions.
pub open spec fn peg_extra_def(ts: Toks, p: int) -> Option<(StmtV, int)>
    decreases ts.len() - p, 3nat,
{
    if p < 0 || !tk(ts, p, Token::Extra) {
        None
    } else {
        match name_at(ts, p + 1) {
            None => None,
            Some(first) => {
                let second = if tk(ts, p + 2, Token::Colon) { name_at(ts, p + 3) } else { None };
                let (name, target, next) = match second {
                    Some(t) => (Some(first), t, p + 4),
                    None => (None, first, p + 2),
                };
                if !tk(ts, next, Token::OpenBrace) {
                    None
                } else {
                    let (functions, q) = peg_fn_defs(ts, next + 1);
                    if tk(ts, q, Token::CloseBrace) {
                        Some((StmtV::ExtraDef { public: false, name, target, functions }, q + 1))
                    } else {
                        None
                    }
                }
            },
        }
    }
}

/// An `impl` block at `p`: a trait, `for`, a target and function definitions.
pub open spec fn peg_impl_def(ts: Toks, p: int) -> Option<(StmtV, int)>
    decreases ts.len() - p, 3nat,
{
    if p < 0 || !tk(ts, p, Token::Impl) || !tk(ts, p + 2, Token::For) || !tk(ts, p + 4, Token::OpenBrace) {
        None
    } else {
        match (name_at(ts, p + 1), name_at(ts, p + 3)) {
            (Some(trait_name), Some(target)) => {
                let (functions, q) = peg_fn_defs(ts, p + 5);
                if tk(ts, q, Token::CloseBrace) {
                    Some((StmtV::ImplDef { public: false, trait_name, target, functions }, q + 1))
                } else {
                    None
                }
            },
            _ => None,
        }
    }
}

/// A group at `p`: a name with an optional `: target` or, else, parameters in parentheses,
/// and rules in braces.
pub open spec fn peg_group_def(ts: Toks, p: int) -> Option<(StmtV, int)> {
    if !tk(ts, p, Token::Group) {
        None
    } else {
        match name_at(ts, p + 1) {
            None => None,
            Some(name) => {
                let target = if tk(ts, p + 2, Token::Colon) { name_at(ts, p + 3) } else { None };
                let (params, k) = if target is Some {
                    (None, p + 4)
                } else if tk(ts, p + 2, Token::OpenParen) {
                    let (ps, m) = peg_params(ts, p + 3, false);
                    if tk(ts, m, Token::CloseParen) { (Some(ps), m + 1) } else { (None, p + 2) }
                } else {
                    (None, p + 2)
                };
                if !tk(ts, k, Token::OpenBrace) {
                    None
                } else {
                    let (rules, q) = peg_rules_more(ts, seq![], k + 1);
                    if tk(ts, q, Token::CloseBrace) {
                        Some((StmtV::GroupDef { public: false, name, target, params, rules }, q + 1))
                    } else {
                        None
                    }
                }
            },
        }
    }
}

/// `group @ target -> { names }` at `p`, with an optional semicolon.
pub open spec fn peg_apply(ts: Toks, p: int) -> Option<(StmtV, int)> {
    match (name_at(ts, p), name_at(ts, p + 2)) {
        (Some(group), Some(target)) => if tk(ts, p + 1, Token::At) && tk(ts, p + 3, Token::Arrow) && tk(ts, p + 4, Token::OpenBrace) {
            let (fields, k) = peg_idents(ts, p + 5);
            if tk(ts, k, Token::CloseBrace) {
                Some((StmtV::Apply { group, target, fields }, if tk(ts, k + 1, Token::Semicolon) { k + 2 } else { k + 1 }))
            } else {
                None
            }
        } else {
            None
        },
        _ => None,
    }
}

/// `tag name = { statements };` at `p`, which declares the tag as a variable holding it.
pub open spec fn peg_tag_def(ts: Toks, p: int) -> Option<(StmtV, int)>
    decreases ts.len() - p, 3nat,
{
    if p < 0 || !tk(ts, p, Token::Tag) || !tk(ts, p + 2, Token::Equal) || !tk(ts, p + 3, Token::OpenBrace) {
        None
    } else {
        match name_at(ts, p + 1) {
            None => None,
            Some(name) => {
                let (body, q) = peg_stmts(ts, p + 4);
                if tk(ts, q, Token::CloseBrace) && tk(ts, q + 1, Token::Semicolon) {
                    Some((StmtV::Let { name, ty: None, value: ExprV::TagExpr { name, body } }, q + 2))
                } else {
                    None
                }
            },
        }
    }
}

/// `const` (or `constatic` when `is_const` fails) at `p`, a name, `:` type, `=` value and `;`.
pub open spec fn peg_const_def(ts: Toks, p: int, is_const: bool) -> Option<(StmtV, int)> {
    if !tk(ts, p, if is_const { Token::Const } else { Token::Constatic }) || !tk(ts, p + 2, Token::Colon) {
        None
    } else {
        match (name_at(ts, p + 1), peg_type(ts, p + 3)) {
            (Some(name), Some((ty, k))) => if !tk(ts, k, Token::Equal) {
                None
            } else {
                match peg_et(ts, k + 1) {
                    Some((value, m)) => if tk(ts, m, Token::Semicolon) {
                        Some((if is_const {
                            StmtV::ConstDef { name, ty, value }
                        } else {
                            StmtV::ConstaticDef { name, ty, value }
                        }, m + 1))
                    } else {
                        None
                    },
                    None => None,
                }
            },
            _ => None,
        }
    }
}

/// `elif` branches from `p` on, as many as parse.
pub open spec fn peg_elifs(ts: Toks, p: int) -> (Seq<(ExprV, StmtV)>, int)
    decreases ts.len() - p, 2nat,
{
    if p < 0 || p > ts.len() {
        (seq![], p)
    } else {
        peg_elifs_more(ts, seq![], p)
    }
}

/// `elif` branches from `q` on, after the branches `acc`: `elif`, a condition and a block each.
pub open spec fn peg_elifs_more(ts: Toks, acc: Seq<(ExprV, StmtV)>, q: int) -> (Seq<(ExprV, StmtV)>, int)
    decreases ts.len() - q, 1nat,
{
    if q < 0 || !tk(ts, q, Token::Elif) {
        (acc, q)
    } else {
        match peg_expr(ts, q + 1) {
            Some((c, k)) => if fwd(ts, q, k) {
                match peg_block(ts, k) {
                    Some((b, j)) => if fwd(ts, q, j) { peg_elifs_more(ts, acc.push((c, b)), j) } else { (acc.push((c, b)), j) },
                    None => (acc, q),
                }
            } else {
                (acc, q)
            },
            None => (acc, q),
        }
    }
}

/// `if` condition block, `elif` branches and an optional `else` block, at `p`.
pub open spec fn peg_if_stmt(ts: Toks, p: int) -> Option<(StmtV, int)>
    decreases ts.len() - p, 3nat,
{
    if p < 0 || !tk(ts, p, Token::If) {
        None
    } else {
        match peg_expr(ts, p + 1) {
            None => None,
            Some((c, k)) => if !fwd(ts, p, k) {
                None
            } else {
                match peg_block(ts, k) {
                    None => None,
                    Some((tb, m)) => if !fwd(ts, p, m) {
                        None
                    } else {
                        let (el, q) = peg_elifs(ts, m);
                        let els = if p <= q && tk(ts, q, Token::Else) { peg_block(ts, q + 1) } else { None };
                        match els {
                            Some((b, j)) => Some((StmtV::If {
                                condition: c,
                                then_branch: Box::new(tb),
                                elif_branches: el,
                                else_branch: Some(Box::new(b)),
                            }, j)),
                            None => Some((StmtV::If { condition: c, then_branch: Box::new(tb), elif_branches: el, else_branch: None }, q)),
                        }
                    },
                }
            },
        }
    }
}

/// An optional expression at `p`.
pub open spec fn peg_opt_expr(ts: Toks, p: int) -> (Option<ExprV>, int) {
    match peg_expr(ts, p) {
        Some((e, q)) => (Some(e), q),
        None => (None, p),
    }
}

/// The head of a counting `for` at `p`: `for`, `(`, a name, an optional type and an optional
/// `= value`, up to the first `;`. It gives the first expression (without a value, the name with
/// its type) and where the `;` stands.
pub open spec fn peg_for_head(ts: Toks, p: int) -> Option<(ExprV, int)> {
    if p < 0 || !(tk(ts, p, Token::For) && tk(ts, p + 1, Token::OpenParen)) {
        None
    } else {
        match name_at(ts, p + 2) {
            None => None,
            Some(name) => {
                let (ty, k1) = peg_annot(ts, p + 3);
                let (init, k2) = if tk(ts, k1, Token::Equal) {
                    match peg_et(ts, k1 + 1) {
                        Some((x, q)) => (Some(x), q),
                        None => (None, k1),
                    }
                } else {
                    (None, k1)
                };
                if !tk(ts, k2, Token::Semicolon) {
                    None
                } else {
                    let first = match init {
                        Some(x) => x,
                        None => match ty {
                            Some(t) => ExprV::TypeExpr { expr: Box::new(ExprV::Identifier(name)), ty: t },
                            None => ExprV::Identifier(name),
                        },
                    };
                    Some((first, k2))
                }
            },
        }
    }
}

/// What follows the head of a counting `for`, from `p` (just past its first `;`): an optional
/// condition, `;`, an optional update, `)` and a block.
pub open spec fn peg_for_rest(ts: Toks, p: int) -> Option<(Option<ExprV>, Option<ExprV>, StmtV, int)>
    decreases ts.len() - p, 2nat,
{
    let (condition, k3) = peg_opt_expr(ts, p);
    if !tk(ts, k3, Token::Semicolon) {
        None
    } else {
        let (update, k4) = peg_opt_expr(ts, k3 + 1);
        if !(tk(ts, k4, Token::CloseParen) && p <= k4) {
            None
        } else {
            match peg_block(ts, k4 + 1) {
                None => None,
                Some((body, j)) => Some((condition, update, body, j)),
            }
        }
    }
}

/// `for (name [: type] [= value]; [condition]; [update]) block` at `p`.
#[verifier::opaque]
pub open spec fn peg_counting_for(ts: Toks, p: int) -> Option<(StmtV, int)>
    decreases ts.len() - p, 3nat,
{
    match peg_for_head(ts, p) {
        None => None,
        Some((first, k2)) => if !(p <= k2 < ts.len()) {
            None
        } else {
            match peg_for_rest(ts, k2 + 1) {
                None => None,
                Some((condition, update, body, j)) =>
                    Some((StmtV::For { init: Some(first), condition, update, body: Box::new(body) }, j)),
            }
        },
    }
}

/// A counting `for` is its head followed by what follows the head.
pub proof fn lemma_counting_for_parts(ts: Toks, p: int)
    ensures
        peg_counting_for(ts, p) == match peg_for_head(ts, p) {
            None => None,
            Some((first, k2)) => if !(p <= k2 < ts.len()) {
                None
            } else {
                match peg_for_rest(ts, k2 + 1) {
                    None => None,
                    Some((condition, update, body, j)) =>
                        Some((StmtV::For { init: Some(first), condition, update, body: Box::new(body) }, j)),
                }
            },
        },
{
    reveal(peg_counting_for);
}

/// `for (name: iterable) block` at `p`.
pub open spec fn peg_for_in(ts: Toks, p: int) -> Option<(StmtV, int)>
    decreases ts.len() - p, 3nat,
{
    if p < 0 || !(tk(ts, p, Token::For) && tk(ts, p + 1, Token::OpenParen) && tk(ts, p + 3, Token::Colon)) {
        None
    } else {
        match (name_at(ts, p + 2), peg_expr(ts, p + 4)) {
            (Some(var), Some((iterable, k))) => if tk(ts, k, Token::CloseParen) && p <= k {
                match peg_block(ts, k + 1) {
                    Some((body, j)) => Some((StmtV::ForIn { var, iterable, body: Box::new(body) }, j)),
                    None => None,
                }
            } else {
                None
            },
            _ => None,
        }
    }
}

/// `while` condition block at `p`.
pub open spec fn peg_while(ts: Toks, p: int) -> Option<(StmtV, int)>
    decreases ts.len() - p, 3nat,
{
    if p < 0 || !tk(ts, p, Token::While) {
        None
    } else {
        match peg_expr(ts, p + 1) {
            Some((condition, k)) => if fwd(ts, p, k) {
                match peg_block(ts, k) {
                    Some((body, j)) => Some((StmtV::While { condition, body: Box::new(body) }, j)),
                    None => None,
                }
            } else {
                None
            },
            None => None,
        }
    }
}

/// The position after an optional semicolon at `m`.
pub open spec fn peg_opt_semi(ts: Toks, m: int) -> int {
    if tk(ts, m, Token::Semicolon) { m + 1 } else { m }
}

/// `return`, an optional value and an optional semicolon, at `p`.
pub open spec fn peg_return(ts: Toks, p: int) -> Option<(StmtV, int)> {
    if !tk(ts, p, Token::Return) {
        None
    } else {
        match peg_et(ts, p + 1) {
            Some((x, q)) => Some((StmtV::Return(Some(x)), peg_opt_semi(ts, q))),
            None => Some((StmtV::Return(None), peg_opt_semi(ts, p + 1))),
        }
    }
}

/// A name, an optional type, `=` a value and an optional semicolon, at `p`.
pub open spec fn peg_let(ts: Toks, p: int) -> Option<(StmtV, int)> {
    match name_at(ts, p) {
        None => None,
        Some(name) => {
            let (ty, k) = peg_annot(ts, p + 1);
            if !tk(ts, k, Token::Equal) {
                None
            } else {
                match peg_et(ts, k + 1) {
                    Some((value, m)) => Some((StmtV::Let { name, ty, value }, peg_opt_semi(ts, m))),
                    None => None,
                }
            }
        },
    }
}

/// The assignment operator at `k`, if any.
pub open spec fn assign_op_of(ts: Toks, k: int) -> Option<WindAssignOp> {
    if tk(ts, k, Token::LeftAssign) {
        Some(WindAssignOp::LeftAbs)
    } else if tk(ts, k, Token::RightAssign) {
        Some(WindAssignOp::RightAbs)
    } else if tk(ts, k, Token::Equal) {
        Some(WindAssignOp::Direct)
    } else {
        None
    }
}

/// A target, an assignment operator, a value and an optional semicolon, at `p`.
pub open spec fn peg_assign(ts: Toks, p: int) -> Option<(StmtV, int)> {
    match peg_expr(ts, p) {
        None => None,
        Some((target, k)) => match assign_op_of(ts, k) {
            None => None,
            Some(op) => match peg_et(ts, k + 1) {
                Some((value, m)) => Some((StmtV::Assignment { target, op, value }, peg_opt_semi(ts, m))),
                None => None,
            },
        },
    }
}

/// An expression with an optional type, as a statement, with an optional semicolon, at `p`.
pub open spec fn peg_expr_stmt(ts: Toks, p: int) -> Option<(StmtV, int)> {
    match peg_et(ts, p) {
        Some((e, m)) => Some((StmtV::Expr(e), peg_opt_semi(ts, m))),
        None => None,
    }
}

/// The statement at `p`: the first of the statement forms that parses there, in the order
/// functions, structs, enums, types, traits, extras, impls, groups, applies, tags, constants,
/// `if`, `for`, `while`, `return`, variables, assignments and expressions.
#[verifier::opaque]
pub open spec fn peg_stmt(ts: Toks, p: int) -> Option<(StmtV, int)>
    decreases ts.len() - p, 4nat,
{
    if p < 0 || p > ts.len() {
        None
    } else {
        or_else(peg_fn_def(ts, p), or_else(peg_struct_def(ts, p), or_else(peg_enum_def(ts, p),
        or_else(peg_type_def(ts, p), or_else(peg_trait_def(ts, p), or_else(peg_extra_def(ts, p),
        or_else(peg_impl_def(ts, p), or_else(peg_group_def(ts, p), or_else(peg_apply(ts, p),
        or_else(peg_tag_def(ts, p), or_else(peg_const_def(ts, p, true), or_else(peg_const_def(ts, p, false),
        or_else(peg_if_stmt(ts, p), or_else(peg_counting_for(ts, p), or_else(peg_for_in(ts, p),
        or_else(peg_while(ts, p), or_else(peg_return(ts, p), or_else(peg_let(ts, p),
        or_else(peg_assign(ts, p), peg_expr_stmt(ts, p))))))))))))))))))))
    }
}

/// What a parser of parameters returned, as the grammar sees it.
pub open spec fn param_res(r: Option<(WindFnParam, usize)>) -> Option<(ParamV, int)> {
    match r {
        Some((x, q)) => Some((param_v(x), q as int)),
        None => None,
    }
}

/// What a parser of names returned, as the grammar sees it.
pub open spec fn str_res(r: Option<(String, usize)>) -> Option<(Seq<char>, int)> {
    match r {
        Some((x, q)) => Some((x@, q as int)),
        None => None,
    }
}

/// What a parser of enum variants returned, as the grammar sees it.
pub open spec fn variant_res(r: Option<((String, Option<WindType>), usize)>) -> Option<((Seq<char>, Option<TypeV>), int)> {
    match r {
        Some((x, q)) => Some(((x.0@, opt_type_v(x.1)), q as int)),
        None => None,
    }
}

/// What a parser of group rules returned, as the grammar sees it.
pub open spec fn rule_res(r: Option<(WindGroupRule, usize)>) -> Option<(RuleV, int)> {
    match r {
        Some((x, q)) => Some((rule_v(x), q as int)),
        None => None,
    }
}

/// What a parser of trait signatures returned, as the grammar sees it.
pub open spec fn sig_res(r: Option<(WindFnSignature, usize)>) -> Option<(SigV, int)> {
    match r {
        Some((x, q)) => Some((sig_v(x), q as int)),
        None => None,
    }
}

/// What a parser of struct fields returned, as the grammar sees it.
pub open spec fn sfield_res(r: Option<(WindStructField, usize)>) -> Option<(FieldV, int)> {
    match r {
        Some((x, q)) => Some((sfield_v(x), q as int)),
        None => None,
    }
}

/// What a parser of statements returned, as the grammar sees it.
pub open spec fn stmt_res(r: Option<(WindStmt, usize)>) -> Option<(StmtV, int)> {
    match r {
        Some((x, q)) => Some((stmt_v(x), q as int)),
        None => None,
    }
}

/// The view of an optional expression.
pub open spec fn opt_expr_v(e: Option<WindExpr>) -> Option<ExprV> {
    match e {
        Some(x) => Some(expr_v(x)),
        None => None,
    }
}

/// `exprs_v` maps each expression to its view, in place.
pub proof fn lemma_exprs_v_index(s: Seq<WindExpr>)
    ensures
        exprs_v(s).len() == s.len(),
        forall|i: int| 0 <= i < s.len() ==> #[trigger] exprs_v(s)[i] == expr_v(s[i]),
    decreases s.len(),
{
    if s.len() > 0 {
        lemma_exprs_v_index(s.drop_last());
    }
}

/// `stmts_v` maps each statement to its view, in place.
pub proof fn lemma_stmts_v_index(s: Seq<WindStmt>)
    ensures
        stmts_v(s).len() == s.len(),
        forall|i: int| 0 <= i < s.len() ==> #[trigger] stmts_v(s)[i] == stmt_v(s[i]),
    decreases s.len(),
{
    if s.len() > 0 {
        lemma_stmts_v_index(s.drop_last());
    }
}

/// The views of the expressions of expression statements are the expressions of the views of
/// the statements.
pub proof fn lemma_expr_stmts_v(ss: Seq<WindStmt>)
    ensures
        exprs_v(crate::parse::expr_stmts_of(ss)) == expr_stmts_v(stmts_v(ss)),
    decreases ss.len(),
{
    lemma_stmts_v_index(ss);
    if ss.len() > 0 {
        lemma_expr_stmts_v(ss.drop_first());
        lemma_stmts_v_index(ss.drop_first());
        assert(stmts_v(ss).drop_first() =~= stmts_v(ss.drop_first()));
        let head = match ss[0] {
            WindStmt::Expr(e) => seq![*e],
            _ => Seq::<WindExpr>::empty(),
        };
        assert(crate::parse::expr_stmts_of(ss) == head + crate::parse::expr_stmts_of(ss.drop_first()));
        lemma_exprs_v_index(head);
        lemma_exprs_v_index(crate::parse::expr_stmts_of(ss.drop_first()));
        lemma_exprs_v_index(head + crate::parse::expr_stmts_of(ss.drop_first()));
        assert(exprs_v(head + crate::parse::expr_stmts_of(ss.drop_first()))
            =~= exprs_v(head) + exprs_v(crate::parse::expr_stmts_of(ss.drop_first())));
        assert(exprs_v(head) =~= (match stmts_v(ss)[0] {
            StmtV::Expr(e) => seq![e],
            _ => Seq::<ExprV>::empty(),
        }));
    }
}


/// A name that no `{` follows is an atom on its own.
proof fn lemma_name_atom(ts: Toks, p: int, n: String)
    requires
        0 <= p < ts.len(),
        ts[p].0 == Token::Identifier(n),
        !tk(ts, p + 1, Token::OpenBrace),
    ensures
        peg_atom(ts, p) == Some((ExprV::Identifier(n@), p + 1)),
{
    assert(name_at(ts, p) == Some(n@));
}

/// An operand ends where the tokens end.
proof fn lemma_operand_at_end(ts: Toks, x: ExprV, min: int)
    ensures
        peg_l1_more(ts, x, ts.len() as int, min) == (x, ts.len() as int),
        peg_l3_more(ts, x, ts.len() as int, min) == (x, ts.len() as int),
        peg_l4_more(ts, x, ts.len() as int, min) == (x, ts.len() as int),
{
    assert(peg_l1_step(ts, x, ts.len() as int, min) is None);
}

/// An operand of `peg_l1` that spans the whole input is the whole expression.
proof fn lemma_operand_is_expr(ts: Toks, x: ExprV)
    requires
        ts.len() > 0,
        !tk(ts, 0, Token::Minus),
        !tk(ts, 0, Token::Bang),
        peg_l1(ts, 0, 0) == Some((x, ts.len() as int)),
    ensures
        peg_expr(ts, 0) == Some((x, ts.len() as int)),
{
    lemma_operand_at_end(ts, x, 0);
    assert(peg_l2(ts, 0) == Some((x, ts.len() as int)));
    assert(peg_l3(ts, 0, 0) == Some((x, ts.len() as int)));
    assert(peg_l4(ts, 0, 0) == Some((x, ts.len() as int)));
}

/// Multiplying operators (`*`, `/`, `//`, `%`) bind tighter than adding ones (`+`, `-`), on
/// either side: `a + b / c` is `a + (b / c)`, and `a / b + c` is `(a / b) + c`.
pub proof fn lemma_product_binds_tighter(ts: Toks, a: String, b: String, c: String, add: Token, mul: Token)
    requires
        binary_op_of(add) matches Some(op) && (op == WindBinaryOp::Add || op == WindBinaryOp::Sub),
        binary_op_of(mul) matches Some(op) && (op == WindBinaryOp::Mul || op == WindBinaryOp::Div
            || op == WindBinaryOp::IntDiv || op == WindBinaryOp::Mod),
        ts.len() == 5,
        ts[0].0 == Token::Identifier(a),
        ts[2].0 == Token::Identifier(b),
        ts[4].0 == Token::Identifier(c),
        (ts[1].0 == add && ts[3].0 == mul) || (ts[1].0 == mul && ts[3].0 == add),
    ensures
        ts[1].0 == add ==> peg_expr(ts, 0) == Some((ExprV::Binary {
            left: Box::new(ExprV::Identifier(a@)),
            op: binary_op_of(add).unwrap(),
            right: Box::new(ExprV::Binary {
                left: Box::new(ExprV::Identifier(b@)),
                op: binary_op_of(mul).unwrap(),
                right: Box::new(ExprV::Identifier(c@)),
            }),
        }, 5int)),
        ts[1].0 == mul ==> peg_expr(ts, 0) == Some((ExprV::Binary {
            left: Box::new(ExprV::Binary {
                left: Box::new(ExprV::Identifier(a@)),
                op: binary_op_of(mul).unwrap(),
                right: Box::new(ExprV::Identifier(b@)),
            }),
            op: binary_op_of(add).unwrap(),
            right: Box::new(ExprV::Identifier(c@)),
        }, 5int)),
{
    let pa = binary_op_of(add).unwrap();
    let pm = binary_op_of(mul).unwrap();
    assert(op_level(pa) == 9 && op_level(pm) == 10);
    assert(add != mul);
    lemma_name_atom(ts, 0, a);
    lemma_name_atom(ts, 2, b);
    lemma_name_atom(ts, 4, c);
    let ia = ExprV::Identifier(a@);
    let ib = ExprV::Identifier(b@);
    let ic = ExprV::Identifier(c@);
    // the last operand
    lemma_operand_at_end(ts, ic, 2 * op_level(pa) + 1);
    lemma_operand_at_end(ts, ic, 2 * op_level(pm) + 1);
    assert(peg_l1(ts, 4, 2 * op_level(pa) + 1) == Some((ic, 5int)));
    assert(peg_l1(ts, 4, 2 * op_level(pm) + 1) == Some((ic, 5int)));
    if ts[1].0 == add {
        let r = ExprV::Binary { left: Box::new(ib), op: pm, right: Box::new(ic) };
        let x = ExprV::Binary { left: Box::new(ia), op: pa, right: Box::new(r) };
        assert(peg_l1_step(ts, ib, 3, 2 * op_level(pa) + 1) == Some((r, 5int)));
        lemma_operand_at_end(ts, r, 2 * op_level(pa) + 1);
        assert(peg_l1_more(ts, ib, 3, 2 * op_level(pa) + 1) == (r, 5int));
        assert(peg_l1(ts, 2, 2 * op_level(pa) + 1) == Some((r, 5int)));
        assert(peg_l1_step(ts, ia, 1, 0) == Some((x, 5int)));
        lemma_operand_at_end(ts, x, 0);
        assert(peg_l1_more(ts, ia, 1, 0) == (x, 5int));
        assert(peg_l1(ts, 0, 0) == Some((x, 5int)));
        lemma_operand_is_expr(ts, x);
    } else {
        let l = ExprV::Binary { left: Box::new(ia), op: pm, right: Box::new(ib) };
        let x = ExprV::Binary { left: Box::new(l), op: pa, right: Box::new(ic) };
        assert(peg_l1_step(ts, ib, 3, 2 * op_level(pm) + 1) is None);
        assert(peg_l1_more(ts, ib, 3, 2 * op_level(pm) + 1) == (ib, 3int));
        assert(peg_l1(ts, 2, 2 * op_level(pm) + 1) == Some((ib, 3int)));
        assert(peg_l1_step(ts, ia, 1, 0) == Some((l, 3int)));
        assert(peg_l1_step(ts, l, 3, 0) == Some((x, 5int)));
        lemma_operand_at_end(ts, x, 0);
        assert(peg_l1_more(ts, l, 3, 0) == (x, 5int));
        assert(peg_l1_more(ts, ia, 1, 0) == (x, 5int));
        assert(peg_l1(ts, 0, 0) == Some((x, 5int)));
        lemma_operand_is_expr(ts, x);
    }
}

} // verus!
