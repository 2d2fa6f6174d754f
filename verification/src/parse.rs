use vstd::prelude::*;
use crate::ast::binary_op_of;
use crate::ast::WindAssignOp;
use crate::ast::WindBinaryOp;
use crate::ast::WindExpr;
use crate::ast::WindFnParam;
use crate::ast::WindFnSignature;
use crate::ast::WindGroupRule;
use crate::ast::WindParseError;
use crate::ast::WindProgram;
use crate::ast::WindStmt;
use crate::ast::WindStructField;
use crate::ast::WindType;
use crate::ast::WindUnaryOp;
use crate::ast::WindWhichClause;
use crate::tokens::Token;
use crate::tokens::WindSpannedToken;
use crate::text::string_of;
use crate::text::i64_to_string;
use crate::text::push_str;
use crate::grammar::ExprV;
use crate::grammar::StmtV;
use crate::grammar::TypeV;
use crate::grammar::elifs_v;
use crate::grammar::expr_res;
use crate::grammar::expr_stmts_v;
use crate::grammar::expr_v;
use crate::grammar::exprs_v;
use crate::grammar::field_res;
use crate::grammar::lemma_counting_for_parts;
use crate::grammar::lemma_elifs_v_push;
use crate::grammar::lemma_expr_stmts_v;
use crate::grammar::lemma_exprs_v_index;
use crate::grammar::lemma_exprs_v_push;
use crate::grammar::lemma_named_v_push;
use crate::grammar::lemma_pairs_v_push;
use crate::grammar::lemma_params_v_push;
use crate::grammar::lemma_rules_v_push;
use crate::grammar::lemma_sfields_v_push;
use crate::grammar::lemma_sigs_v_push;
use crate::grammar::lemma_stmts_v_push;
use crate::grammar::lemma_strings_v_push;
use crate::grammar::lemma_variants_v_push;
use crate::grammar::lemma_whiches_v_push;
use crate::grammar::name_at;
use crate::grammar::named_v;
use crate::grammar::opt_box_v;
use crate::grammar::opt_expr_v;
use crate::grammar::opt_type_v;
use crate::grammar::opt_which_v;
use crate::grammar::pair_res;
use crate::grammar::pairs_v;
use crate::grammar::param_res;
use crate::grammar::params_v;
use crate::grammar::peg_annot;
use crate::grammar::peg_apply;
use crate::grammar::peg_assign;
use crate::grammar::peg_atom;
use crate::grammar::peg_block;
use crate::grammar::peg_conds;
use crate::grammar::peg_const_def;
use crate::grammar::peg_counting_for;
use crate::grammar::peg_elifs;
use crate::grammar::peg_elifs_more;
use crate::grammar::peg_enum_def;
use crate::grammar::peg_et;
use crate::grammar::peg_expr;
use crate::grammar::peg_expr_stmt;
use crate::grammar::peg_exprs_more;
use crate::grammar::peg_exprs_t;
use crate::grammar::peg_extra_def;
use crate::grammar::peg_field;
use crate::grammar::peg_fields_more;
use crate::grammar::peg_fields_t;
use crate::grammar::peg_fn_def;
use crate::grammar::peg_fn_defs;
use crate::grammar::peg_fn_defs_more;
use crate::grammar::peg_for_head;
use crate::grammar::peg_for_in;
use crate::grammar::peg_for_rest;
use crate::grammar::peg_group_def;
use crate::grammar::peg_idents;
use crate::grammar::peg_idents_more;
use crate::grammar::peg_if_expr;
use crate::grammar::peg_if_stmt;
use crate::grammar::peg_impl_def;
use crate::grammar::peg_l1;
use crate::grammar::peg_l1_more;
use crate::grammar::peg_l1_step;
use crate::grammar::peg_l2;
use crate::grammar::peg_l3;
use crate::grammar::peg_l3_more;
use crate::grammar::peg_l4;
use crate::grammar::peg_l4_more;
use crate::grammar::peg_let;
use crate::grammar::peg_method;
use crate::grammar::peg_methods;
use crate::grammar::peg_methods_more;
use crate::grammar::peg_opt_expr;
use crate::grammar::peg_opt_semi;
use crate::grammar::peg_pair;
use crate::grammar::peg_pairs_more;
use crate::grammar::peg_pairs_t;
use crate::grammar::peg_param;
use crate::grammar::peg_params;
use crate::grammar::peg_params_more;
use crate::grammar::peg_ret;
use crate::grammar::peg_return;
use crate::grammar::peg_rule;
use crate::grammar::peg_rules_more;
use crate::grammar::peg_semi_exprs;
use crate::grammar::peg_semi_more;
use crate::grammar::peg_sfield;
use crate::grammar::peg_sfields_more;
use crate::grammar::peg_sig;
use crate::grammar::peg_sigs_more;
use crate::grammar::peg_stmt;
use crate::grammar::peg_stmts;
use crate::grammar::peg_stmts_more;
use crate::grammar::peg_struct_def;
use crate::grammar::peg_tag_def;
use crate::grammar::peg_trait_def;
use crate::grammar::peg_type;
use crate::grammar::peg_type_def;
use crate::grammar::peg_type_list;
use crate::grammar::peg_type_more;
use crate::grammar::peg_variant;
use crate::grammar::peg_variants;
use crate::grammar::peg_variants_more;
use crate::grammar::peg_vis;
use crate::grammar::peg_which_opt;
use crate::grammar::peg_while;
use crate::grammar::rule_res;
use crate::grammar::rules_v;
use crate::grammar::sfield_res;
use crate::grammar::sfields_v;
use crate::grammar::sig_res;
use crate::grammar::sigs_v;
use crate::grammar::stmt_res;
use crate::grammar::stmt_v;
use crate::grammar::stmts_v;
use crate::grammar::str_res;
use crate::grammar::strings_v;
use crate::grammar::type_res;
use crate::grammar::type_v;
use crate::grammar::types_v;
use crate::grammar::variant_res;
use crate::grammar::variants_v;

verus! {

/// The tokens a parser reads, with their spans.
pub type Toks = Seq<WindSpannedToken>;

/// The token at position `k` is `t`.
pub open spec fn tk(ts: Toks, k: int, t: Token) -> bool {
    0 <= k < ts.len() && ts[k].0 == t
}

/// `k` is a position of the tokens, or their end.
pub open spec fn boundary(ts: Toks, k: int) -> bool {
    0 <= k <= ts.len()
}

/// The token at position `k` is the name `name`.
pub open spec fn ident_at(ts: Toks, k: int, name: String) -> bool {
    0 <= k < ts.len() && (ts[k].0 matches Token::Identifier(s) && s@ == name@)
}

/// From `k` to `j` there is nothing, or one semicolon.
pub open spec fn opt_semi(ts: Toks, k: int, j: int) -> bool {
    j == k || (j == k + 1 && tk(ts, k, Token::Semicolon))
}

/// From `i` to `j` there is `pub` or `public` when `public` holds, nothing otherwise.
pub open spec fn vis(ts: Toks, i: int, j: int, public: bool) -> bool {
    if public {
        j == i + 1 && (tk(ts, i, Token::Pub) || tk(ts, i, Token::Public))
    } else {
        j == i
    }
}

/// The name an expression takes from a receiver keyword.
pub open spec fn self_name_at(ts: Toks, k: int, name: Seq<char>) -> bool {
    (name == "self"@ && tk(ts, k, Token::SelfKw)) || (name == "this"@ && tk(ts, k, Token::ThisKw))
        || (name == "it"@ && tk(ts, k, Token::ItKw))
}

/// The tokens from `i` to `j` spell the type `t`: a name, `None`, `self`, or a name with
/// arguments between `<` and `>`.
pub open spec fn d_type(ts: Toks, i: int, j: int, t: WindType) -> bool
    decreases j - i, 0int,
{
    0 <= i < j <= ts.len() && match t {
        WindType::SelfType => j == i + 1 && tk(ts, i, Token::SelfKw),
        WindType::Named(n) => j == i + 1 && (ident_at(ts, i, n) || (n@ == "None"@ && tk(ts, i, Token::NoneKw))),
        WindType::Generic { base, args } => ident_at(ts, i, base) && tk(ts, i + 1, Token::Less) && i + 2 <= j - 1
            && d_types(ts, i + 2, j - 1, args@) && tk(ts, j - 1, Token::Greater),
        WindType::Fn { .. } => false,
    }
}

/// The tokens from `i` to `j` spell the types `args`, separated by commas.
pub open spec fn d_types(ts: Toks, i: int, j: int, args: Seq<WindType>) -> bool
    decreases j - i, 1int,
{
    0 <= i <= j <= ts.len() && if args.len() == 0 {
        i == j
    } else if args.len() == 1 {
        d_type(ts, i, j, args[0])
    } else {
        exists|k: int| i < k < j && d_types(ts, i, k, args.drop_last()) && #[trigger] tk(ts, k, Token::Comma)
            && d_type(ts, k + 1, j, args.last())
    }
}

/// From `i` to `j` there is nothing when `ty` is `None`, else `:` and the type.
pub open spec fn annot(ts: Toks, i: int, j: int, ty: Option<WindType>) -> bool {
    match ty {
        None => j == i,
        Some(t) => tk(ts, i, Token::Colon) && d_type(ts, i + 1, j, t),
    }
}

/// From `i` to `j` there is nothing when `ty` is `None`, else `->` and the type.
pub open spec fn ret_annot(ts: Toks, i: int, j: int, ty: Option<WindType>) -> bool {
    match ty {
        None => j == i,
        Some(t) => tk(ts, i, Token::Arrow) && d_type(ts, i + 1, j, t),
    }
}

/// The tokens from `i` to `j` spell the expression `e`, as the expression grammar builds it.
pub open spec fn d_expr(ts: Toks, i: int, j: int, e: WindExpr) -> bool
    decreases j - i, 0int,
{
    0 <= i < j <= ts.len() && match e {
        WindExpr::IntLiteral(n) => j == i + 1 && tk(ts, i, Token::IntLiteral(n)),
        WindExpr::FloatLiteral(s) => j == i + 1 && (ts[i].0 matches Token::FloatLiteral(x) && x@ == s@),
        WindExpr::StringLiteral(s) => j == i + 1 && (ts[i].0 matches Token::StringLiteral(x) && x@ == s@),
        WindExpr::CharLiteral(s) => j == i + 1 && (ts[i].0 matches Token::CharLiteral(x) && x@ == s@),
        WindExpr::BoolLiteral(b) => j == i + 1 && tk(ts, i, if b { Token::TrueKw } else { Token::FalseKw }),
        WindExpr::NoneLiteral => j == i + 1 && tk(ts, i, Token::NoneKw),
        WindExpr::Identifier(n) => j == i + 1 && (ident_at(ts, i, n) || self_name_at(ts, i, n@)),
        WindExpr::Group(x) => tk(ts, i, Token::OpenParen) && i + 1 < j - 1 && d_expr(ts, i + 1, j - 1, *x)
            && tk(ts, j - 1, Token::CloseParen),
        WindExpr::IfExpr { condition, then_branch, else_branch } => tk(ts, i, Token::If) && exists|k: int|
            i + 1 < k < j && d_expr(ts, i + 1, k, *condition) && #[trigger] tk(ts, k, Token::OpenBrace) && exists|m: int|
                k + 1 < m < j && d_expr(ts, k + 1, m, *then_branch) && #[trigger] tk(ts, m, Token::CloseBrace) && match else_branch {
                    None => j == m + 1,
                    Some(x) => tk(ts, m + 1, Token::Else) && tk(ts, m + 2, Token::OpenBrace) && m + 3 < j - 1
                        && d_expr(ts, m + 3, j - 1, *x) && tk(ts, j - 1, Token::CloseBrace),
                },
        WindExpr::MapLiteral(pairs) => tk(ts, i, Token::OpenBrace) && i + 1 <= j - 1 && d_pairs_t(ts, i + 1, j - 1, pairs@)
            && tk(ts, j - 1, Token::CloseBrace),
        WindExpr::ArrayLiteral(es) => tk(ts, i, Token::OpenBracket) && i + 1 <= j - 1 && d_exprs_t(ts, i + 1, j - 1, es@)
            && tk(ts, j - 1, Token::CloseBracket),
        WindExpr::StructLiteral { name, fields } => ident_at(ts, i, name) && tk(ts, i + 1, Token::OpenBrace)
            && i + 2 <= j - 1 && d_fields_t(ts, i + 2, j - 1, fields@) && tk(ts, j - 1, Token::CloseBrace),
        WindExpr::Call { callee, args } => tk(ts, j - 1, Token::CloseParen) && exists|k: int|
            i < k < j - 1 && d_expr(ts, i, k, *callee) && #[trigger] tk(ts, k, Token::OpenParen) && d_exprs_t(ts, k + 1, j - 1, args@),
        WindExpr::FieldAccess { object, field } => i < j - 2 && d_expr(ts, i, j - 2, *object) && tk(ts, j - 2, Token::Dot)
            && ident_at(ts, j - 1, field),
        WindExpr::ScopeRef { object, member } => i < j - 2 && d_expr(ts, i, j - 2, *object)
            && tk(ts, j - 2, Token::DoubleColon) && ident_at(ts, j - 1, member),
        WindExpr::Index { expr, index } => tk(ts, j - 1, Token::CloseBracket) && exists|k: int|
            i < k < j - 2 && d_expr(ts, i, k, *expr) && #[trigger] tk(ts, k, Token::OpenBracket) && d_expr(ts, k + 1, j - 1, *index),
        WindExpr::Binary { left, op, right } => exists|k: int|
            i < k < j - 1 && d_expr(ts, i, k, *left) && #[trigger] binary_op_of(ts[k].0) == Some(op) && d_expr(ts, k + 1, j, *right),
        WindExpr::Unary { op, expr } => ((op == WindUnaryOp::Neg && tk(ts, i, Token::Minus))
            || (op == WindUnaryOp::Not && tk(ts, i, Token::Bang))) && i + 1 < j && d_expr(ts, i + 1, j, *expr),
        WindExpr::TypeExpr { expr, ty } => exists|k: int|
            i < k < j - 1 && d_expr(ts, i, k, *expr) && #[trigger] tk(ts, k, Token::Colon) && d_type(ts, k + 1, j, ty),
        WindExpr::TagExpr { .. } => false,
        WindExpr::Unpack(_) => false,
    }
}

/// The tokens from `i` to `j` spell the expressions `es`, separated by commas.
pub open spec fn d_exprs(ts: Toks, i: int, j: int, es: Seq<WindExpr>) -> bool
    decreases j - i, 2int,
{
    0 <= i <= j <= ts.len() && if es.len() == 0 {
        i == j
    } else if es.len() == 1 {
        d_expr(ts, i, j, es[0])
    } else {
        exists|k: int| i < k < j && d_exprs(ts, i, k, es.drop_last()) && #[trigger] tk(ts, k, Token::Comma)
            && d_expr(ts, k + 1, j, es.last())
    }
}

/// `d_exprs`, with one comma allowed after the last expression.
pub open spec fn d_exprs_t(ts: Toks, i: int, j: int, es: Seq<WindExpr>) -> bool
    decreases j - i, 3int,
{
    0 <= i <= j <= ts.len() && (d_exprs(ts, i, j, es) || (es.len() > 0 && i < j && tk(ts, j - 1, Token::Comma)
        && d_exprs(ts, i, j - 1, es)))
}

/// The tokens from `i` to `j` spell the entry `p` of a map literal: key, `:`, value.
pub open spec fn d_pair(ts: Toks, i: int, j: int, p: (WindExpr, WindExpr)) -> bool
    decreases j - i, 1int,
{
    0 <= i <= j <= ts.len() && exists|k: int| i < k < j - 1 && d_expr(ts, i, k, p.0) && #[trigger] tk(ts, k, Token::Colon)
        && d_expr(ts, k + 1, j, p.1)
}

/// The tokens from `i` to `j` spell the entries `ps`, separated by commas.
pub open spec fn d_pairs(ts: Toks, i: int, j: int, ps: Seq<(WindExpr, WindExpr)>) -> bool
    decreases j - i, 2int,
{
    0 <= i <= j <= ts.len() && if ps.len() == 0 {
        i == j
    } else if ps.len() == 1 {
        d_pair(ts, i, j, ps[0])
    } else {
        exists|k: int| i < k < j && d_pairs(ts, i, k, ps.drop_last()) && #[trigger] tk(ts, k, Token::Comma)
            && d_pair(ts, k + 1, j, ps.last())
    }
}

/// `d_pairs`, with one comma allowed after the last entry.
pub open spec fn d_pairs_t(ts: Toks, i: int, j: int, ps: Seq<(WindExpr, WindExpr)>) -> bool
    decreases j - i, 3int,
{
    0 <= i <= j <= ts.len() && (d_pairs(ts, i, j, ps) || (ps.len() > 0 && i < j && tk(ts, j - 1, Token::Comma)
        && d_pairs(ts, i, j - 1, ps)))
}

/// The tokens from `i` to `j` spell the field `f` of a struct literal: a name, `:` and a value;
/// or a value alone, which names the field when it is a name and leaves it unnamed otherwise.
pub open spec fn d_field(ts: Toks, i: int, j: int, f: (String, WindExpr)) -> bool
    decreases j - i, 1int,
{
    0 <= i <= j <= ts.len() && ((ident_at(ts, i, f.0) && tk(ts, i + 1, Token::Colon) && i + 2 < j
        && d_expr(ts, i + 2, j, f.1)) || (d_expr(ts, i, j, f.1) && match f.1 {
        WindExpr::Identifier(n) => f.0@ == n@,
        _ => f.0@ == Seq::<char>::empty(),
    }))
}

/// The tokens from `i` to `j` spell the fields `fs`, separated by commas.
pub open spec fn d_fields(ts: Toks, i: int, j: int, fs: Seq<(String, WindExpr)>) -> bool
    decreases j - i, 2int,
{
    0 <= i <= j <= ts.len() && if fs.len() == 0 {
        i == j
    } else if fs.len() == 1 {
        d_field(ts, i, j, fs[0])
    } else {
        exists|k: int| i < k < j && d_fields(ts, i, k, fs.drop_last()) && #[trigger] tk(ts, k, Token::Comma)
            && d_field(ts, k + 1, j, fs.last())
    }
}

/// `d_fields`, with one comma allowed after the last field.
pub open spec fn d_fields_t(ts: Toks, i: int, j: int, fs: Seq<(String, WindExpr)>) -> bool
    decreases j - i, 3int,
{
    0 <= i <= j <= ts.len() && (d_fields(ts, i, j, fs) || (fs.len() > 0 && i < j && tk(ts, j - 1, Token::Comma)
        && d_fields(ts, i, j - 1, fs)))
}

/// From `i` to `j` there is nothing when `e` is `None`, else the expression.
pub open spec fn opt_expr(ts: Toks, i: int, j: int, e: Option<Box<WindExpr>>) -> bool {
    match e {
        None => j == i,
        Some(x) => d_expr(ts, i, j, *x),
    }
}

/// The tokens from `i` to `j` spell the parameter `p`: a receiver keyword alone, or a name with an
/// optional type.
pub open spec fn d_param(ts: Toks, i: int, j: int, p: WindFnParam) -> bool {
    (j == i + 1 && p.ty is None && self_name_at(ts, i, p.name@)) || (ident_at(ts, i, p.name) && annot(ts, i + 1, j, p.ty))
}

/// The tokens from `i` to `j` spell the parameters `ps`, separated by commas.
pub open spec fn d_params(ts: Toks, i: int, j: int, ps: Seq<WindFnParam>) -> bool
    decreases ps.len(),
{
    0 <= i <= j <= ts.len() && if ps.len() == 0 {
        i == j
    } else if ps.len() == 1 {
        d_param(ts, i, j, ps[0])
    } else {
        exists|k: int| i < k < j && d_params(ts, i, k, ps.drop_last()) && #[trigger] tk(ts, k, Token::Comma)
            && d_param(ts, k + 1, j, ps.last())
    }
}

/// `d_params`, with one comma allowed after the last parameter when `trailing` holds.
pub open spec fn d_params_t(ts: Toks, i: int, j: int, ps: Seq<WindFnParam>, trailing: bool) -> bool {
    d_params(ts, i, j, ps) || (trailing && ps.len() > 0 && i < j && tk(ts, j - 1, Token::Comma) && d_params(ts, i, j - 1, ps))
}

/// The tokens from `i` to `j` spell a method reference: `::name`, kept with its colons, or a name.
pub open spec fn d_method(ts: Toks, i: int, j: int, m: String) -> bool {
    (j == i + 2 && tk(ts, i, Token::DoubleColon) && 0 <= i + 1 < ts.len()
        && (ts[i + 1].0 matches Token::Identifier(s) && m@ == "::"@ + s@)) || (j == i + 1 && ident_at(ts, i, m))
}

/// The tokens from `i` to `j` spell the method references `ms`, separated by commas.
pub open spec fn d_methods(ts: Toks, i: int, j: int, ms: Seq<String>) -> bool
    decreases ms.len(),
{
    0 <= i <= j <= ts.len() && if ms.len() == 0 {
        i == j
    } else if ms.len() == 1 {
        d_method(ts, i, j, ms[0])
    } else {
        exists|k: int| i < k < j && d_methods(ts, i, k, ms.drop_last()) && #[trigger] tk(ts, k, Token::Comma)
            && d_method(ts, k + 1, j, ms.last())
    }
}

/// From `i` to `j` there is nothing when `which` is `None`, else `, which` and the method
/// references, recorded as one clause with an empty method.
pub open spec fn which_opt(ts: Toks, i: int, j: int, which: Option<Vec<WindWhichClause>>) -> bool {
    match which {
        None => j == i,
        Some(ws) => ws.len() == 1 && tk(ts, i, Token::Comma) && tk(ts, i + 1, Token::Which)
            && ws@[0].method@ == Seq::<char>::empty() && d_methods(ts, i + 2, j, ws@[0].after@),
    }
}

/// The names `ns`, separated by commas.
pub open spec fn d_idents(ts: Toks, i: int, j: int, ns: Seq<String>) -> bool
    decreases ns.len(),
{
    0 <= i <= j <= ts.len() && if ns.len() == 0 {
        i == j
    } else if ns.len() == 1 {
        j == i + 1 && ident_at(ts, i, ns[0])
    } else {
        exists|k: int| i < k < j && d_idents(ts, i, k, ns.drop_last()) && #[trigger] tk(ts, k, Token::Comma)
            && j == k + 2 && ident_at(ts, k + 1, ns.last())
    }
}

/// The tokens from `i` to `j` spell the variant `v` of an enum: a name and an optional type.
pub open spec fn d_variant(ts: Toks, i: int, j: int, v: (String, Option<WindType>)) -> bool {
    ident_at(ts, i, v.0) && annot(ts, i + 1, j, v.1)
}

/// The variants `vs`, separated by commas, with one comma allowed after the last.
pub open spec fn d_variants(ts: Toks, i: int, j: int, vs: Seq<(String, Option<WindType>)>) -> bool
    decreases vs.len(),
{
    0 <= i <= j <= ts.len() && if vs.len() == 0 {
        i == j
    } else if vs.len() == 1 {
        d_variant(ts, i, j, vs[0])
    } else {
        exists|k: int| i < k < j && d_variants(ts, i, k, vs.drop_last()) && #[trigger] tk(ts, k, Token::Comma)
            && d_variant(ts, k + 1, j, vs.last())
    }
}

/// The tokens from `i` to `j` spell the rule `r` of a group: `self.field -> type;` or
/// `name -> type;`.
pub open spec fn d_rule(ts: Toks, i: int, j: int, r: WindGroupRule) -> bool {
    match r {
        WindGroupRule::SelfField { field, ty } => tk(ts, i, Token::SelfKw) && tk(ts, i + 1, Token::Dot)
            && ident_at(ts, i + 2, field) && tk(ts, i + 3, Token::Arrow) && d_type(ts, i + 4, j - 1, ty)
            && tk(ts, j - 1, Token::Semicolon),
        WindGroupRule::Simple { field, ty } => ident_at(ts, i, field) && tk(ts, i + 1, Token::Arrow)
            && d_type(ts, i + 2, j - 1, ty) && tk(ts, j - 1, Token::Semicolon),
    }
}

/// The rules `rs`, one after the other.
pub open spec fn d_rules(ts: Toks, i: int, j: int, rs: Seq<WindGroupRule>) -> bool
    decreases rs.len(),
{
    0 <= i <= j <= ts.len() && if rs.len() == 0 {
        i == j
    } else {
        exists|k: int| i <= k < j && #[trigger] boundary(ts, k) && d_rules(ts, i, k, rs.drop_last()) && d_rule(ts, k, j, rs.last())
    }
}

/// The signatures of a trait, one after the other: visibility, `fn`, name, parameters, an
/// optional return type and `;`.
pub open spec fn d_sig(ts: Toks, i: int, j: int, s: WindFnSignature) -> bool {
    &&& s.which is None
    &&& exists|k: int| vis(ts, i, k, s.public) && #[trigger] tk(ts, k, Token::Fn) && ident_at(ts, k + 1, s.name)
        && tk(ts, k + 2, Token::OpenParen) && exists|m: int| d_params_t(ts, k + 3, m, s.params@, true)
        && #[trigger] tk(ts, m, Token::CloseParen) && ret_annot(ts, m + 1, j - 1, s.return_type) && tk(ts, j - 1, Token::Semicolon)
}

/// The signatures `ss`, one after the other.
pub open spec fn d_sigs(ts: Toks, i: int, j: int, ss: Seq<WindFnSignature>) -> bool
    decreases ss.len(),
{
    0 <= i <= j <= ts.len() && if ss.len() == 0 {
        i == j
    } else {
        exists|k: int| i <= k < j && #[trigger] boundary(ts, k) && d_sigs(ts, i, k, ss.drop_last()) && d_sig(ts, k, j, ss.last())
    }
}

/// The expressions `es`, separated by semicolons, with one semicolon allowed after the last.
pub open spec fn d_semi_exprs(ts: Toks, i: int, j: int, es: Seq<WindExpr>) -> bool
    decreases es.len(),
{
    0 <= i <= j <= ts.len() && if es.len() == 0 {
        i == j
    } else if es.len() == 1 {
        d_expr(ts, i, j, es[0])
    } else {
        exists|k: int| i < k < j && d_semi_exprs(ts, i, k, es.drop_last()) && #[trigger] tk(ts, k, Token::Semicolon)
            && d_expr(ts, k + 1, j, es.last())
    }
}

/// From `i` to `j` there are the conditions of a field: nothing, or `where` or `->` and a
/// braced list of expressions, of which the field keeps the first.
pub open spec fn d_conds(ts: Toks, i: int, j: int, c: Option<WindExpr>) -> bool {
    (c is None && j == i) || ((tk(ts, i, Token::Where) || tk(ts, i, Token::Arrow)) && tk(ts, i + 1, Token::OpenBrace)
        && tk(ts, j - 1, Token::CloseBrace) && exists|es: Seq<WindExpr>|
        #![trigger d_semi_exprs(ts, i + 2, j - 1, es)]
        #![trigger d_semi_exprs(ts, i + 2, j - 2, es)]
        {
        &&& (d_semi_exprs(ts, i + 2, j - 1, es) || (es.len() > 0 && tk(ts, j - 2, Token::Semicolon)
            && d_semi_exprs(ts, i + 2, j - 2, es)))
        &&& if es.len() == 0 { c is None } else { c == Some(es[0]) }
    })
}

/// The tokens from `i` to `j` spell the struct field `f`: visibility, name, `:`, type, optional
/// conditions, an optional default after `=`, and `;`.
pub open spec fn d_sfield(ts: Toks, i: int, j: int, f: WindStructField) -> bool {
    &&& !f.is_static
    &&& f.which is None
    &&& tk(ts, j - 1, Token::Semicolon)
    &&& exists|k: int| #[trigger] boundary(ts, k) && vis(ts, i, k, f.public) && ident_at(ts, k, f.name) && tk(ts, k + 1, Token::Colon)
        && exists|m: int| #[trigger] d_type(ts, k + 2, m, f.ty) && exists|q: int| #[trigger] boundary(ts, q) && d_conds(ts, m, q, f.conditions)
        && match f.default_value {
            None => q == j - 1,
            Some(v) => tk(ts, q, Token::Equal) && d_expr(ts, q + 1, j - 1, *v),
        }
}

/// The struct fields `fs`, one after the other.
pub open spec fn d_sfields(ts: Toks, i: int, j: int, fs: Seq<WindStructField>) -> bool
    decreases fs.len(),
{
    0 <= i <= j <= ts.len() && if fs.len() == 0 {
        i == j
    } else {
        exists|k: int| i <= k < j && #[trigger] boundary(ts, k) && d_sfields(ts, i, k, fs.drop_last()) && d_sfield(ts, k, j, fs.last())
    }
}

/// The expressions of the statements `ss` that are expression statements, in order.
pub open spec fn expr_stmts_of(ss: Seq<WindStmt>) -> Seq<WindExpr>
    decreases ss.len(),
{
    if ss.len() == 0 {
        seq![]
    } else {
        (match ss[0] {
            WindStmt::Expr(e) => seq![*e],
            _ => seq![],
        }) + expr_stmts_of(ss.drop_first())
    }
}

/// The assignment operator that a token stands for.
pub open spec fn assign_op_at(ts: Toks, k: int, op: WindAssignOp) -> bool {
    (op == WindAssignOp::LeftAbs && tk(ts, k, Token::LeftAssign)) || (op == WindAssignOp::RightAbs && tk(ts, k, Token::RightAssign))
        || (op == WindAssignOp::Direct && tk(ts, k, Token::Equal))
}

/// The initial expression of a counting loop that has no `= value`: the loop variable, with its
/// type when it has one.
pub open spec fn loop_var_expr(name: String, ty: Option<WindType>) -> WindExpr {
    match ty {
        None => WindExpr::Identifier(name),
        Some(t) => WindExpr::TypeExpr { expr: Box::new(WindExpr::Identifier(name)), ty: t },
    }
}

/// The tokens from `i` to `j` spell the statement `s`, as the statement grammar builds it.
pub open spec fn d_stmt(ts: Toks, i: int, j: int, s: WindStmt) -> bool
    decreases j - i, 0int,
{
    0 <= i < j <= ts.len() && match s {
        WindStmt::Block(stmts) => tk(ts, i, Token::OpenBrace) && i + 1 <= j - 1 && d_stmts(ts, i + 1, j - 1, stmts@)
            && tk(ts, j - 1, Token::CloseBrace),
        WindStmt::Let { name, ty, value } => (ident_at(ts, i, name) && exists|k: int| #[trigger] annot(ts, i + 1, k, ty)
            && tk(ts, k, Token::Equal) && exists|m: int| #[trigger] d_expr(ts, k + 1, m, *value) && opt_semi(ts, m, j))
            || (ty is None && tk(ts, i, Token::Tag) && ident_at(ts, i + 1, name) && tk(ts, i + 2, Token::Equal)
                && tk(ts, i + 3, Token::OpenBrace) && tk(ts, j - 2, Token::CloseBrace) && tk(ts, j - 1, Token::Semicolon)
                && i + 4 <= j - 2 && (*value matches WindExpr::TagExpr { name: n2, body } && n2@ == name@
                    && d_stmts(ts, i + 4, j - 2, body@))),
        WindStmt::Assignment { target, op, value } => exists|k: int| #[trigger] d_expr(ts, i, k, *target)
            && assign_op_at(ts, k, op) && exists|m: int| #[trigger] d_expr(ts, k + 1, m, *value) && opt_semi(ts, m, j),
        WindStmt::Expr(e) => exists|m: int| #[trigger] d_expr(ts, i, m, *e) && opt_semi(ts, m, j),
        WindStmt::If { condition, then_branch, elif_branches, else_branch } => tk(ts, i, Token::If) && exists|k: int|
            #[trigger] d_expr(ts, i + 1, k, *condition) && i < k && exists|m: int| k < m <= j && #[trigger] boundary(ts, m) && d_stmt(ts, k, m, *then_branch)
            && *then_branch is Block && exists|q: int| m <= q <= j && #[trigger] boundary(ts, q) && d_elifs(ts, m, q, elif_branches@) && match else_branch {
                None => j == q,
                Some(b) => tk(ts, q, Token::Else) && q + 1 < j && d_stmt(ts, q + 1, j, *b) && *b is Block,
            },
        WindStmt::For { init, condition, update, body } => tk(ts, i, Token::For) && tk(ts, i + 1, Token::OpenParen)
            && 0 <= i + 2 < ts.len() && (ts[i + 2].0 matches Token::Identifier(name) && exists|k1: int, ty: Option<WindType>|
                #[trigger] annot(ts, i + 3, k1, ty) && exists|k2: int| #[trigger] tk(ts, k2, Token::Semicolon) && (match init {
                    Some(x) => (tk(ts, k1, Token::Equal) && d_expr(ts, k1 + 1, k2, *x)) || (k2 == k1 && *x == loop_var_expr(name, ty)),
                    None => false,
                }) && exists|k3: int| #[trigger] opt_expr(ts, k2 + 1, k3, condition) && tk(ts, k3, Token::Semicolon)
                && exists|k4: int| #[trigger] opt_expr(ts, k3 + 1, k4, update) && tk(ts, k4, Token::CloseParen)
                && i < k4 && k4 + 1 < j && d_stmt(ts, k4 + 1, j, *body) && *body is Block),
        WindStmt::ForIn { var, iterable, body } => tk(ts, i, Token::For) && tk(ts, i + 1, Token::OpenParen)
            && ident_at(ts, i + 2, var) && tk(ts, i + 3, Token::Colon) && exists|k: int| #[trigger] d_expr(ts, i + 4, k, *iterable)
            && tk(ts, k, Token::CloseParen) && i < k && k + 1 < j && d_stmt(ts, k + 1, j, *body) && *body is Block,
        WindStmt::While { condition, body } => tk(ts, i, Token::While) && exists|k: int| #[trigger] d_expr(ts, i + 1, k, *condition)
            && i < k < j && d_stmt(ts, k, j, *body) && *body is Block,
        WindStmt::Return(e) => tk(ts, i, Token::Return) && exists|m: int| #[trigger] opt_expr(ts, i + 1, m, e) && opt_semi(ts, m, j),
        WindStmt::FnDef { public, name, params, return_type, which, body } => exists|k: int| vis(ts, i, k, public)
            && #[trigger] tk(ts, k, Token::Fn) && ident_at(ts, k + 1, name) && tk(ts, k + 2, Token::OpenParen)
            && exists|m: int| d_params_t(ts, k + 3, m, params@, true) && #[trigger] tk(ts, m, Token::CloseParen)
            && exists|q: int| #[trigger] boundary(ts, q) && ret_annot(ts, m + 1, q, return_type) && exists|r: int| #[trigger] boundary(ts, r) && which_opt(ts, q, r, which)
            && i < r < j && d_stmt(ts, r, j, *body) && *body is Block,
        WindStmt::StructDef { public, name, fields } => exists|k: int| vis(ts, i, k, public) && #[trigger] tk(ts, k, Token::Struct)
            && ident_at(ts, k + 1, name) && tk(ts, k + 2, Token::OpenBrace) && d_sfields(ts, k + 3, j - 1, fields@)
            && tk(ts, j - 1, Token::CloseBrace),
        WindStmt::EnumDef { public, name, variants } => exists|k: int| vis(ts, i, k, public) && #[trigger] tk(ts, k, Token::Enum)
            && ident_at(ts, k + 1, name) && tk(ts, k + 2, Token::OpenBrace) && tk(ts, j - 1, Token::CloseBrace)
            && (d_variants(ts, k + 3, j - 1, variants@) || (variants.len() > 0 && tk(ts, j - 2, Token::Comma)
                && d_variants(ts, k + 3, j - 2, variants@))),
        WindStmt::TypeDef { public, name, base_type, conditions } => exists|k: int| vis(ts, i, k, public)
            && #[trigger] tk(ts, k, Token::Type) && ident_at(ts, k + 1, name) && tk(ts, k + 2, Token::Equal)
            && exists|m: int| #[trigger] d_type(ts, k + 3, m, base_type) && ((j == m && conditions.len() == 0)
                || (tk(ts, m, Token::Where) && tk(ts, m + 1, Token::OpenBrace) && tk(ts, j - 1, Token::CloseBrace)
                    && i < m + 2 <= j - 1 && exists|ss: Seq<WindStmt>| d_stmts(ts, m + 2, j - 1, ss)
                    && conditions@ == #[trigger] expr_stmts_of(ss))),
        WindStmt::TraitDef { public, name, functions } => exists|k: int| vis(ts, i, k, public) && #[trigger] tk(ts, k, Token::Trait)
            && ident_at(ts, k + 1, name) && tk(ts, k + 2, Token::OpenBrace) && d_sigs(ts, k + 3, j - 1, functions@)
            && tk(ts, j - 1, Token::CloseBrace),
        WindStmt::ExtraDef { public, name, target, functions } => !public && tk(ts, i, Token::Extra) && match name {
            Some(n) => ident_at(ts, i + 1, n) && tk(ts, i + 2, Token::Colon) && ident_at(ts, i + 3, target)
                && tk(ts, i + 4, Token::OpenBrace) && i + 5 <= j - 1 && d_stmts(ts, i + 5, j - 1, functions@),
            None => ident_at(ts, i + 1, target) && tk(ts, i + 2, Token::OpenBrace) && i + 3 <= j - 1
                && d_stmts(ts, i + 3, j - 1, functions@),
        } && tk(ts, j - 1, Token::CloseBrace) && forall|f: int| 0 <= f < functions.len() ==> (#[trigger] functions@[f]) is FnDef,
        WindStmt::ImplDef { public, trait_name, target, functions } => !public && tk(ts, i, Token::Impl)
            && ident_at(ts, i + 1, trait_name) && tk(ts, i + 2, Token::For) && ident_at(ts, i + 3, target)
            && tk(ts, i + 4, Token::OpenBrace) && i + 5 <= j - 1 && d_stmts(ts, i + 5, j - 1, functions@)
            && tk(ts, j - 1, Token::CloseBrace) && forall|f: int| 0 <= f < functions.len() ==> (#[trigger] functions@[f]) is FnDef,
        WindStmt::GroupDef { public, name, target, params, rules } => !public && tk(ts, i, Token::Group)
            && ident_at(ts, i + 1, name) && exists|k: int| #[trigger] tk(ts, k, Token::OpenBrace) && (match (target, params) {
                (None, None) => k == i + 2,
                (Some(t), None) => k == i + 4 && tk(ts, i + 2, Token::Colon) && ident_at(ts, i + 3, t),
                (None, Some(ps)) => tk(ts, i + 2, Token::OpenParen) && d_params(ts, i + 3, k - 1, ps@) && tk(ts, k - 1, Token::CloseParen),
                _ => false,
            }) && d_rules(ts, k + 1, j - 1, rules@) && tk(ts, j - 1, Token::CloseBrace),
        WindStmt::ConstDef { name, ty, value } => tk(ts, i, Token::Const) && ident_at(ts, i + 1, name)
            && tk(ts, i + 2, Token::Colon) && exists|k: int| #[trigger] d_type(ts, i + 3, k, ty) && tk(ts, k, Token::Equal)
            && d_expr(ts, k + 1, j - 1, *value) && tk(ts, j - 1, Token::Semicolon),
        WindStmt::ConstaticDef { name, ty, value } => tk(ts, i, Token::Constatic) && ident_at(ts, i + 1, name)
            && tk(ts, i + 2, Token::Colon) && exists|k: int| #[trigger] d_type(ts, i + 3, k, ty) && tk(ts, k, Token::Equal)
            && d_expr(ts, k + 1, j - 1, *value) && tk(ts, j - 1, Token::Semicolon),
        WindStmt::ExplainDef { .. } => false,
        WindStmt::Apply { group, target, fields } => ident_at(ts, i, group) && tk(ts, i + 1, Token::At)
            && ident_at(ts, i + 2, target) && tk(ts, i + 3, Token::Arrow) && tk(ts, i + 4, Token::OpenBrace)
            && exists|k: int| d_idents(ts, i + 5, k, fields@) && #[trigger] tk(ts, k, Token::CloseBrace) && opt_semi(ts, k + 1, j),
    }
}

/// The statements `ss`, one after the other.
pub open spec fn d_stmts(ts: Toks, i: int, j: int, ss: Seq<WindStmt>) -> bool
    decreases j - i, 1int,
{
    0 <= i <= j <= ts.len() && if ss.len() == 0 {
        i == j
    } else {
        exists|k: int| i <= k < j && #[trigger] boundary(ts, k) && d_stmts(ts, i, k, ss.drop_last()) && d_stmt(ts, k, j, ss.last())
    }
}

/// The `elif` branches `es`, one after the other: `elif`, a condition and a block each.
pub open spec fn d_elifs(ts: Toks, i: int, j: int, es: Seq<(WindExpr, WindStmt)>) -> bool
    decreases j - i, 1int,
{
    0 <= i <= j <= ts.len() && if es.len() == 0 {
        i == j
    } else {
        exists|k: int| i <= k < j && d_elifs(ts, i, k, es.drop_last()) && #[trigger] tk(ts, k, Token::Elif)
            && exists|m: int| k + 1 < m < j && #[trigger] d_expr(ts, k + 1, m, es.last().0) && d_stmt(ts, m, j, es.last().1)
            && es.last().1 is Block
    }
}


/// Whether `a` is the token `b`, which carries no text or value.
fn fixed_eq(a: &Token, b: &Token) -> (r: bool)
    requires
        crate::tokens::fixed_text(*b) is Some,
    ensures
        r == (*a == *b),
{
    match (a, b) {
        (Token::Fn, Token::Fn) => true,
        (Token::Struct, Token::Struct) => true,
        (Token::Enum, Token::Enum) => true,
        (Token::Extra, Token::Extra) => true,
        (Token::Impl, Token::Impl) => true,
        (Token::Trait, Token::Trait) => true,
        (Token::Const, Token::Const) => true,
        (Token::Constatic, Token::Constatic) => true,
        (Token::Which, Token::Which) => true,
        (Token::Where, Token::Where) => true,
        (Token::Type, Token::Type) => true,
        (Token::Group, Token::Group) => true,
        (Token::In, Token::In) => true,
        (Token::Pub, Token::Pub) => true,
        (Token::Public, Token::Public) => true,
        (Token::Return, Token::Return) => true,
        (Token::For, Token::For) => true,
        (Token::While, Token::While) => true,
        (Token::If, Token::If) => true,
        (Token::Elif, Token::Elif) => true,
        (Token::Else, Token::Else) => true,
        (Token::To, Token::To) => true,
        (Token::Tag, Token::Tag) => true,
        (Token::SelfKw, Token::SelfKw) => true,
        (Token::ThisKw, Token::ThisKw) => true,
        (Token::ItKw, Token::ItKw) => true,
        (Token::TrueKw, Token::TrueKw) => true,
        (Token::FalseKw, Token::FalseKw) => true,
        (Token::NoneKw, Token::NoneKw) => true,
        (Token::LessEqual, Token::LessEqual) => true,
        (Token::GreaterEqual, Token::GreaterEqual) => true,
        (Token::NotEqual, Token::NotEqual) => true,
        (Token::NotLess, Token::NotLess) => true,
        (Token::NotGreater, Token::NotGreater) => true,
        (Token::EqualEqual, Token::EqualEqual) => true,
        (Token::LeftAssign, Token::LeftAssign) => true,
        (Token::RightAssign, Token::RightAssign) => true,
        (Token::DoubleSlash, Token::DoubleSlash) => true,
        (Token::LeftShift, Token::LeftShift) => true,
        (Token::RightShift, Token::RightShift) => true,
        (Token::DoubleColon, Token::DoubleColon) => true,
        (Token::Arrow, Token::Arrow) => true,
        (Token::AndAnd, Token::AndAnd) => true,
        (Token::OrOr, Token::OrOr) => true,
        (Token::Dot, Token::Dot) => true,
        (Token::Comma, Token::Comma) => true,
        (Token::Semicolon, Token::Semicolon) => true,
        (Token::Colon, Token::Colon) => true,
        (Token::OpenParen, Token::OpenParen) => true,
        (Token::CloseParen, Token::CloseParen) => true,
        (Token::OpenBracket, Token::OpenBracket) => true,
        (Token::CloseBracket, Token::CloseBracket) => true,
        (Token::OpenBrace, Token::OpenBrace) => true,
        (Token::CloseBrace, Token::CloseBrace) => true,
        (Token::At, Token::At) => true,
        (Token::Bang, Token::Bang) => true,
        (Token::Minus, Token::Minus) => true,
        (Token::Slash, Token::Slash) => true,
        (Token::Percent, Token::Percent) => true,
        (Token::Star, Token::Star) => true,
        (Token::Plus, Token::Plus) => true,
        (Token::Amp, Token::Amp) => true,
        (Token::Pipe, Token::Pipe) => true,
        (Token::Caret, Token::Caret) => true,
        (Token::Equal, Token::Equal) => true,
        (Token::Less, Token::Less) => true,
        (Token::Greater, Token::Greater) => true,
        _ => false,
    }
}

/// The parser of the language: it reads tokens and builds the program.
pub struct WindParser;

/// A borrowed list of tokens with their spans.
pub type WindTokenSlice<'a> = &'a [WindSpannedToken];

/// Whether the token at `p` is `t`, a token without text or value.
fn at(ts: &[WindSpannedToken], p: usize, t: &Token) -> (r: bool)
    requires
        crate::tokens::fixed_text(*t) is Some,
    ensures
        r == tk(ts@, p as int, *t),
{
    if p < ts.len() {
        fixed_eq(&ts[p].0, t)
    } else {
        false
    }
}

/// The name at `p`, if the token there is a name.
fn ident(ts: &[WindSpannedToken], p: usize) -> (r: Option<String>)
    ensures
        match r {
            Some(n) => ident_at(ts@, p as int, n) && ts@[p as int].0 == Token::Identifier(n)
                && name_at(ts@, p as int) == Some(n@),
            None => !(p < ts@.len() && ts@[p as int].0 is Identifier) && name_at(ts@, p as int) is None,
        },
{
    if p < ts.len() {
        match &ts[p].0 {
            Token::Identifier(s) => Some(s.clone()),
            _ => None,
        }
    } else {
        None
    }
}

/// Multiplication, division, integer division and remainder bind alike, and tighter than
/// addition and subtraction, which bind tighter than shifts; comparisons bind tighter than
/// equality, which binds tighter than the bitwise operators, then `and`, then `or`.
pub proof fn lemma_operator_precedence()
    ensures
        op_level(WindBinaryOp::Div) == op_level(WindBinaryOp::Mul),
        op_level(WindBinaryOp::IntDiv) == op_level(WindBinaryOp::Mul),
        op_level(WindBinaryOp::Mod) == op_level(WindBinaryOp::Mul),
        op_level(WindBinaryOp::Sub) == op_level(WindBinaryOp::Add),
        op_level(WindBinaryOp::Mul) > op_level(WindBinaryOp::Add),
        op_level(WindBinaryOp::Add) > op_level(WindBinaryOp::Shl),
        op_level(WindBinaryOp::Shl) == op_level(WindBinaryOp::Shr),
        op_level(WindBinaryOp::Shl) > op_level(WindBinaryOp::Lt),
        op_level(WindBinaryOp::Lt) > op_level(WindBinaryOp::Eq),
        op_level(WindBinaryOp::Eq) > op_level(WindBinaryOp::BitAnd),
        op_level(WindBinaryOp::BitAnd) > op_level(WindBinaryOp::BitXor),
        op_level(WindBinaryOp::BitXor) > op_level(WindBinaryOp::BitOr),
        op_level(WindBinaryOp::BitOr) > op_level(WindBinaryOp::And),
        op_level(WindBinaryOp::And) > op_level(WindBinaryOp::Or),
{
}

/// The binding level of an infix operator: higher binds tighter.
pub open spec fn op_level(op: WindBinaryOp) -> u8 {
    match op {
        WindBinaryOp::Mul | WindBinaryOp::Div | WindBinaryOp::IntDiv | WindBinaryOp::Mod => 10,
        WindBinaryOp::Add | WindBinaryOp::Sub => 9,
        WindBinaryOp::Shl | WindBinaryOp::Shr => 8,
        WindBinaryOp::Lt | WindBinaryOp::Gt | WindBinaryOp::Le | WindBinaryOp::Ge | WindBinaryOp::NotLt
        | WindBinaryOp::NotGt | WindBinaryOp::In => 7,
        WindBinaryOp::Eq | WindBinaryOp::Neq | WindBinaryOp::AddrEq => 6,
        WindBinaryOp::BitAnd => 5,
        WindBinaryOp::BitXor => 4,
        WindBinaryOp::BitOr => 3,
        WindBinaryOp::And => 2,
        WindBinaryOp::Or => 1,
    }
}

fn level_of(op: &WindBinaryOp) -> (r: u8)
    ensures
        r == op_level(*op),
{
    match op {
        WindBinaryOp::Mul | WindBinaryOp::Div | WindBinaryOp::IntDiv | WindBinaryOp::Mod => 10,
        WindBinaryOp::Add | WindBinaryOp::Sub => 9,
        WindBinaryOp::Shl | WindBinaryOp::Shr => 8,
        WindBinaryOp::Lt | WindBinaryOp::Gt | WindBinaryOp::Le | WindBinaryOp::Ge | WindBinaryOp::NotLt
        | WindBinaryOp::NotGt | WindBinaryOp::In => 7,
        WindBinaryOp::Eq | WindBinaryOp::Neq | WindBinaryOp::AddrEq => 6,
        WindBinaryOp::BitAnd => 5,
        WindBinaryOp::BitXor => 4,
        WindBinaryOp::BitOr => 3,
        WindBinaryOp::And => 2,
        WindBinaryOp::Or => 1,
    }
}

/// A type: `self`, `None`, or a name with optional arguments in angle brackets.
fn parse_type(ts: &[WindSpannedToken], p: usize) -> (r: Option<(WindType, usize)>)
    requires
        p <= ts.len(),
    ensures
        match r {
            Some(x) => p < x.1 <= ts.len() && d_type(ts@, p as int, x.1 as int, x.0),
            None => true,
        },
        type_res(r) == peg_type(ts@, p as int),
    decreases ts.len() - p, 0nat,
{
    if at(ts, p, &Token::SelfKw) {
        return Some((WindType::SelfType, p + 1));
    }
    if at(ts, p, &Token::NoneKw) {
        let n = string_of("None");
        return Some((WindType::Named(n), p + 1));
    }
    match ident(ts, p) {
        Some(base) => {
            if at(ts, p + 1, &Token::Less) {
                let (args, q) = parse_type_list(ts, p + 2);
                if at(ts, q, &Token::Greater) {
                    let ghost ga = args@;
                    let t = WindType::Generic { base, args };
                    proof {
                        assert(d_types(ts@, p + 2, q as int, ga));
                    }
                    return Some((t, q + 1));
                }
                assert(!tk(ts@, q as int, Token::Greater));
            }
            Some((WindType::Named(base), p + 1))
        }
        None => None,
    }
}

/// Types separated by commas, as many as there are.
fn parse_type_list(ts: &[WindSpannedToken], p: usize) -> (r: (Vec<WindType>, usize))
    requires
        p <= ts.len(),
    ensures
        p <= r.1 <= ts.len(),
        d_types(ts@, p as int, r.1 as int, r.0@),
        (types_v(r.0@), r.1 as int) == peg_type_list(ts@, p as int),
    decreases ts.len() - p, 1nat,
{
    let mut v: Vec<WindType> = Vec::new();
    match parse_type(ts, p) {
        None => {
            assert(types_v(v@) =~= Seq::<TypeV>::empty());
            return (v, p);
        }
        Some((t, q0)) => {
            let ghost gt = t;
            v.push(t);
            let mut q = q0;
            assert(v@.len() == 1);
            assert(v@.drop_last() =~= Seq::<WindType>::empty());
            assert(types_v(Seq::<WindType>::empty()) =~= Seq::<TypeV>::empty());
            assert(types_v(v@) =~= seq![type_v(gt)]);
            while at(ts, q, &Token::Comma)
                invariant
                    p < q <= ts.len(),
                    v@.len() >= 1,
                    d_types(ts@, p as int, q as int, v@),
                    peg_type_list(ts@, p as int) == peg_type_more(ts@, types_v(v@), q as int),
                ensures
                    p < q <= ts.len(),
                    d_types(ts@, p as int, q as int, v@),
                    peg_type_more(ts@, types_v(v@), q as int) == (types_v(v@), q as int),
                    peg_type_list(ts@, p as int) == peg_type_more(ts@, types_v(v@), q as int),
                decreases ts.len() - q,
            {
                match parse_type(ts, q + 1) {
                    Some((t2, q2)) => {
                        let ghost before = v@;
                        let ghost gt2 = t2;
                        v.push(t2);
                        proof {
                            assert(v@.drop_last() =~= before);
                            assert(types_v(v@) == types_v(before).push(type_v(gt2)));
                            assert(d_types(ts@, p as int, q as int, v@.drop_last()));
                            assert(tk(ts@, q as int, Token::Comma));
                            assert(d_type(ts@, q + 1, q2 as int, v@.last()));
                            assert(v@.len() > 1);
                            assert(exists|k: int| p < k < q2 && #[trigger] d_types(ts@, p as int, k, v@.drop_last())
                                && tk(ts@, k, Token::Comma) && d_type(ts@, k + 1, q2 as int, v@.last()));
                            assert(0 <= p <= q2 <= ts@.len());
                            assert(d_types(ts@, p as int, q2 as int, v@));
                        }
                        q = q2;
                    }
                    None => {
                        break;
                    }
                }
            }
            (v, q)
        }
    }
}

/// An atom: a literal, a parenthesized expression, an `if` expression, a map, array or struct
/// literal, a receiver keyword or a name, tried in that order.
#[verifier::rlimit(40)]
fn parse_atom(ts: &[WindSpannedToken], p: usize) -> (r: Option<(WindExpr, usize)>)
    requires
        p <= ts.len(),
    ensures
        match r {
            Some(x) => p < x.1 <= ts.len() && d_expr(ts@, p as int, x.1 as int, x.0),
            None => true,
        },
        expr_res(r) == peg_atom(ts@, p as int),
    decreases ts.len() - p, 1nat,
{
    if p >= ts.len() {
        return None;
    }
    match &ts[p].0 {
        Token::FloatLiteral(s) => {
            return Some((WindExpr::FloatLiteral(s.clone()), p + 1));
        }
        Token::IntLiteral(n) => {
            return Some((WindExpr::IntLiteral(*n), p + 1));
        }
        Token::StringLiteral(s) => {
            return Some((WindExpr::StringLiteral(s.clone()), p + 1));
        }
        Token::CharLiteral(s) => {
            return Some((WindExpr::CharLiteral(s.clone()), p + 1));
        }
        Token::TrueKw => {
            return Some((WindExpr::BoolLiteral(true), p + 1));
        }
        Token::FalseKw => {
            return Some((WindExpr::BoolLiteral(false), p + 1));
        }
        Token::NoneKw => {
            return Some((WindExpr::NoneLiteral, p + 1));
        }
        _ => {}
    }
    if at(ts, p, &Token::OpenParen) {
        match parse_expr(ts, p + 1) {
            Some((x, q)) => {
                if at(ts, q, &Token::CloseParen) {
                    return Some((WindExpr::Group(Box::new(x)), q + 1));
                }
            }
            None => {}
        }
    }
    if at(ts, p, &Token::If) {
        match parse_if_expr(ts, p) {
            Some(r) => {
                return Some(r);
            }
            None => {}
        }
    }
    if at(ts, p, &Token::OpenBrace) {
        let (pairs, q) = parse_pairs_t(ts, p + 1);
        if at(ts, q, &Token::CloseBrace) {
            return Some((WindExpr::MapLiteral(pairs), q + 1));
        }
    }
    if at(ts, p, &Token::OpenBracket) {
        let (es, q) = parse_exprs_t(ts, p + 1);
        if at(ts, q, &Token::CloseBracket) {
            return Some((WindExpr::ArrayLiteral(es), q + 1));
        }
    }
    match ident(ts, p) {
        Some(name) => {
            if at(ts, p + 1, &Token::OpenBrace) {
                let (fields, q) = parse_fields_t(ts, p + 2);
                if at(ts, q, &Token::CloseBrace) {
                    return Some((WindExpr::StructLiteral { name, fields }, q + 1));
                }
            }
        }
        None => {}
    }
    match &ts[p].0 {
        Token::SelfKw => {
            return Some((WindExpr::Identifier(string_of("self")), p + 1));
        }
        Token::ThisKw => {
            return Some((WindExpr::Identifier(string_of("this")), p + 1));
        }
        Token::ItKw => {
            return Some((WindExpr::Identifier(string_of("it")), p + 1));
        }
        _ => {}
    }
    match ident(ts, p) {
        Some(n) => Some((WindExpr::Identifier(n), p + 1)),
        None => None,
    }
}

/// `if` condition `{` value `}`, with an optional `else { value }`.
fn parse_if_expr(ts: &[WindSpannedToken], p: usize) -> (r: Option<(WindExpr, usize)>)
    requires
        p < ts.len(),
        tk(ts@, p as int, Token::If),
    ensures
        match r {
            Some(x) => p < x.1 <= ts.len() && d_expr(ts@, p as int, x.1 as int, x.0),
            None => true,
        },
        expr_res(r) == peg_if_expr(ts@, p as int),
    decreases ts.len() - p, 0nat,
{
    let (cond, k) = match parse_expr(ts, p + 1) {
        Some(x) => x,
        None => {
            return None;
        }
    };
    if !at(ts, k, &Token::OpenBrace) {
        return None;
    }
    let (then, m) = match parse_expr(ts, k + 1) {
        Some(x) => x,
        None => {
            return None;
        }
    };
    if !at(ts, m, &Token::CloseBrace) {
        return None;
    }
    let ghost gc = cond;
    let ghost gt = then;
    if at(ts, m + 1, &Token::Else) && at(ts, m + 2, &Token::OpenBrace) {
        match parse_expr(ts, m + 3) {
            Some((x, q)) => {
                if at(ts, q, &Token::CloseBrace) {
                    let e = WindExpr::IfExpr {
                        condition: Box::new(cond),
                        then_branch: Box::new(then),
                        else_branch: Some(Box::new(x)),
                    };
                    proof {
                        assert(d_expr(ts@, p + 1, k as int, gc));
                        assert(d_expr(ts@, k + 1, m as int, gt));
                    }
                    return Some((e, q + 1));
                }
            }
            None => {}
        }
    }
    let e = WindExpr::IfExpr { condition: Box::new(cond), then_branch: Box::new(then), else_branch: None };
    proof {
        assert(d_expr(ts@, p + 1, k as int, gc));
        assert(d_expr(ts@, k + 1, m as int, gt));
    }
    Some((e, m + 1))
}

/// Expressions separated by commas, with one comma allowed after the last.
fn parse_exprs_t(ts: &[WindSpannedToken], p: usize) -> (r: (Vec<WindExpr>, usize))
    requires
        p <= ts.len(),
    ensures
        p <= r.1 <= ts.len(),
        d_exprs_t(ts@, p as int, r.1 as int, r.0@),
        (exprs_v(r.0@), r.1 as int) == peg_exprs_t(ts@, p as int),
    decreases ts.len() - p, 8nat,
{
    let mut v: Vec<WindExpr> = Vec::new();
    match parse_expr(ts, p) {
        None => {
            assert(v@ =~= Seq::<WindExpr>::empty());
            assert(exprs_v(v@) =~= Seq::empty());
            return (v, p);
        }
        Some((e, q0)) => {
            let ghost ge = e;
            v.push(e);
            let mut q = q0;
            proof {
                lemma_exprs_v_push(Seq::<WindExpr>::empty(), ge);
                assert(v@ =~= Seq::<WindExpr>::empty().push(ge));
            }
            while at(ts, q, &Token::Comma)
                invariant
                    p < q <= ts.len(),
                    v@.len() >= 1,
                    d_exprs(ts@, p as int, q as int, v@),
                    peg_exprs_t(ts@, p as int) == peg_exprs_more(ts@, exprs_v(v@), q as int),
                ensures
                    p < q <= ts.len(),
                    d_exprs_t(ts@, p as int, q as int, v@),
                    (exprs_v(v@), q as int) == peg_exprs_t(ts@, p as int),
                decreases ts.len() - q,
            {
                match parse_expr(ts, q + 1) {
                    Some((e2, q2)) => {
                        let ghost before = v@;
                        let ghost g2 = e2;
                        v.push(e2);
                        proof {
                            lemma_exprs_v_push(before, g2);
                            assert(v@ =~= before.push(g2));
                            assert(v@.drop_last() =~= before);
                            assert(d_exprs(ts@, p as int, q as int, v@.drop_last()));
                        }
                        q = q2;
                    }
                    None => {
                        q = q + 1;
                        return (v, q);
                    }
                }
            }
            (v, q)
        }
    }
}

/// An entry of a map literal: key `:` value.
fn parse_pair(ts: &[WindSpannedToken], p: usize) -> (r: Option<((WindExpr, WindExpr), usize)>)
    requires
        p <= ts.len(),
    ensures
        match r {
            Some(x) => p < x.1 <= ts.len() && d_pair(ts@, p as int, x.1 as int, x.0),
            None => true,
        },
        pair_res(r) == peg_pair(ts@, p as int),
    decreases ts.len() - p, 7nat,
{
    let (key, k) = match parse_expr(ts, p) {
        Some(x) => x,
        None => {
            return None;
        }
    };
    if !at(ts, k, &Token::Colon) {
        return None;
    }
    match parse_expr(ts, k + 1) {
        Some((value, q)) => {
            proof {
                assert(d_expr(ts@, p as int, k as int, key));
            }
            Some(((key, value), q))
        }
        None => None,
    }
}

/// Map entries separated by commas, with one comma allowed after the last.
fn parse_pairs_t(ts: &[WindSpannedToken], p: usize) -> (r: (Vec<(WindExpr, WindExpr)>, usize))
    requires
        p <= ts.len(),
    ensures
        p <= r.1 <= ts.len(),
        d_pairs_t(ts@, p as int, r.1 as int, r.0@),
        (pairs_v(r.0@), r.1 as int) == peg_pairs_t(ts@, p as int),
    decreases ts.len() - p, 8nat,
{
    let mut v: Vec<(WindExpr, WindExpr)> = Vec::new();
    match parse_pair(ts, p) {
        None => {
            assert(v@ =~= Seq::<(WindExpr, WindExpr)>::empty());
            assert(pairs_v(v@) =~= Seq::empty());
            return (v, p);
        }
        Some((e, q0)) => {
            let ghost ge = e;
            v.push(e);
            let mut q = q0;
            proof {
                lemma_pairs_v_push(Seq::<(WindExpr, WindExpr)>::empty(), ge);
                assert(v@ =~= Seq::<(WindExpr, WindExpr)>::empty().push(ge));
            }
            while at(ts, q, &Token::Comma)
                invariant
                    p < q <= ts.len(),
                    v@.len() >= 1,
                    d_pairs(ts@, p as int, q as int, v@),
                    peg_pairs_t(ts@, p as int) == peg_pairs_more(ts@, pairs_v(v@), q as int),
                ensures
                    p < q <= ts.len(),
                    d_pairs_t(ts@, p as int, q as int, v@),
                    (pairs_v(v@), q as int) == peg_pairs_t(ts@, p as int),
                decreases ts.len() - q,
            {
                match parse_pair(ts, q + 1) {
                    Some((e2, q2)) => {
                        let ghost before = v@;
                        let ghost g2 = e2;
                        v.push(e2);
                        proof {
                            lemma_pairs_v_push(before, g2);
                            assert(v@ =~= before.push(g2));
                            assert(v@.drop_last() =~= before);
                            assert(d_pairs(ts@, p as int, q as int, v@.drop_last()));
                        }
                        q = q2;
                    }
                    None => {
                        q = q + 1;
                        return (v, q);
                    }
                }
            }
            (v, q)
        }
    }
}

/// A field of a struct literal: name `:` value, or a value alone.
fn parse_field(ts: &[WindSpannedToken], p: usize) -> (r: Option<((String, WindExpr), usize)>)
    requires
        p <= ts.len(),
    ensures
        match r {
            Some(x) => p < x.1 <= ts.len() && d_field(ts@, p as int, x.1 as int, x.0),
            None => true,
        },
        field_res(r) == peg_field(ts@, p as int),
    decreases ts.len() - p, 7nat,
{
    match ident(ts, p) {
        Some(name) => {
            if at(ts, p + 1, &Token::Colon) {
                match parse_expr(ts, p + 2) {
                    Some((value, q)) => {
                        return Some(((name, value), q));
                    }
                    None => {}
                }
            }
        }
        None => {}
    }
    match parse_expr(ts, p) {
        Some((e, q)) => {
            let name = match &e {
                WindExpr::Identifier(n) => n.clone(),
                _ => String::new(),
            };
            Some(((name, e), q))
        }
        None => None,
    }
}

/// Struct literal fields separated by commas, with one comma allowed after the last.
fn parse_fields_t(ts: &[WindSpannedToken], p: usize) -> (r: (Vec<(String, WindExpr)>, usize))
    requires
        p <= ts.len(),
    ensures
        p <= r.1 <= ts.len(),
        d_fields_t(ts@, p as int, r.1 as int, r.0@),
        (named_v(r.0@), r.1 as int) == peg_fields_t(ts@, p as int),
    decreases ts.len() - p, 8nat,
{
    let mut v: Vec<(String, WindExpr)> = Vec::new();
    match parse_field(ts, p) {
        None => {
            assert(v@ =~= Seq::<(String, WindExpr)>::empty());
            assert(named_v(v@) =~= Seq::empty());
            return (v, p);
        }
        Some((e, q0)) => {
            let ghost ge = e;
            v.push(e);
            let mut q = q0;
            proof {
                lemma_named_v_push(Seq::<(String, WindExpr)>::empty(), ge);
                assert(v@ =~= Seq::<(String, WindExpr)>::empty().push(ge));
            }
            while at(ts, q, &Token::Comma)
                invariant
                    p < q <= ts.len(),
                    v@.len() >= 1,
                    d_fields(ts@, p as int, q as int, v@),
                    peg_fields_t(ts@, p as int) == peg_fields_more(ts@, named_v(v@), q as int),
                ensures
                    p < q <= ts.len(),
                    d_fields_t(ts@, p as int, q as int, v@),
                    (named_v(v@), q as int) == peg_fields_t(ts@, p as int),
                decreases ts.len() - q,
            {
                match parse_field(ts, q + 1) {
                    Some((e2, q2)) => {
                        let ghost before = v@;
                        let ghost g2 = e2;
                        v.push(e2);
                        proof {
                            lemma_named_v_push(before, g2);
                            assert(v@ =~= before.push(g2));
                            assert(v@.drop_last() =~= before);
                            assert(d_fields(ts@, p as int, q as int, v@.drop_last()));
                        }
                        q = q2;
                    }
                    None => {
                        q = q + 1;
                        return (v, q);
                    }
                }
            }
            (v, q)
        }
    }
}

/// Atoms followed by calls, field accesses, scope references and indexes, combined by the
/// multiplying and adding operators, left to right, with operators below `min` left alone.
fn parse_l1(ts: &[WindSpannedToken], p: usize, min: u8) -> (r: Option<(WindExpr, usize)>)
    requires
        p <= ts.len(),
    ensures
        match r {
            Some(x) => p < x.1 <= ts.len() && d_expr(ts@, p as int, x.1 as int, x.0),
            None => true,
        },
        expr_res(r) == peg_l1(ts@, p as int, min as int),
    decreases ts.len() - p, 2nat,
{
    let (mut lhs, mut q) = match parse_atom(ts, p) {
        Some(x) => x,
        None => {
            return None;
        }
    };
    loop
        invariant
            p < q <= ts.len(),
            d_expr(ts@, p as int, q as int, lhs),
            peg_l1(ts@, p as int, min as int) == Some(peg_l1_more(ts@, expr_v(lhs), q as int, min as int)),
        ensures
            p < q <= ts.len(),
            d_expr(ts@, p as int, q as int, lhs),
            peg_l1(ts@, p as int, min as int) == Some((expr_v(lhs), q as int)),
        decreases ts.len() - q,
    {
        let ghost old_lhs = lhs;
        let ghost q0 = q;
        if at(ts, q, &Token::OpenParen) {
            let (args, q2) = parse_exprs_t(ts, q + 1);
            if at(ts, q2, &Token::CloseParen) {
                lhs = WindExpr::Call { callee: Box::new(lhs), args };
                proof {
                    assert(d_expr(ts@, p as int, q as int, old_lhs));
                }
                q = q2 + 1;
                proof {
                    assert(peg_l1_step(ts@, expr_v(old_lhs), q0 as int, min as int) == Some((expr_v(lhs), q as int)));
                }
                continue;
            }
        }
        if at(ts, q, &Token::Dot) {
            match ident(ts, q + 1) {
                Some(field) => {
                    lhs = WindExpr::FieldAccess { object: Box::new(lhs), field };
                    q = q + 2;
                    proof {
                        assert(peg_l1_step(ts@, expr_v(old_lhs), q0 as int, min as int) == Some((expr_v(lhs), q as int)));
                    }
                    continue;
                }
                None => {}
            }
        }
        if at(ts, q, &Token::DoubleColon) {
            match ident(ts, q + 1) {
                Some(member) => {
                    lhs = WindExpr::ScopeRef { object: Box::new(lhs), member };
                    q = q + 2;
                    proof {
                        assert(peg_l1_step(ts@, expr_v(old_lhs), q0 as int, min as int) == Some((expr_v(lhs), q as int)));
                    }
                    continue;
                }
                None => {}
            }
        }
        if at(ts, q, &Token::OpenBracket) {
            match parse_expr(ts, q + 1) {
                Some((idx, q2)) => {
                    if at(ts, q2, &Token::CloseBracket) {
                        lhs = WindExpr::Index { expr: Box::new(lhs), index: Box::new(idx) };
                        proof {
                            assert(d_expr(ts@, p as int, q as int, old_lhs));
                        }
                        q = q2 + 1;
                        proof {
                            assert(peg_l1_step(ts@, expr_v(old_lhs), q0 as int, min as int) == Some((expr_v(lhs), q as int)));
                        }
                        continue;
                    }
                }
                None => {}
            }
        }
        if q < ts.len() {
            match WindBinaryOp::from_token(&ts[q].0) {
                Some(op) => {
                    let level = level_of(&op);
                    if level >= 9 && 2 * level >= min {
                        match parse_l1(ts, q + 1, 2 * level + 1) {
                            Some((rhs, q2)) => {
                                lhs = WindExpr::Binary { left: Box::new(lhs), op, right: Box::new(rhs) };
                                proof {
                                    assert(d_expr(ts@, p as int, q as int, old_lhs));
                                }
                                q = q2;
                                proof {
                                    assert(peg_l1_step(ts@, expr_v(old_lhs), q0 as int, min as int) == Some((expr_v(lhs), q as int)));
                                }
                                continue;
                            }
                            None => {}
                        }
                    }
                }
                None => {}
            }
        }
        proof {
            assert(peg_l1_step(ts@, expr_v(lhs), q as int, min as int) is None);
        }
        break;
    }
    Some((lhs, q))
}

/// `-` and `!` in front of an operand of the multiplying level.
fn parse_l2(ts: &[WindSpannedToken], p: usize) -> (r: Option<(WindExpr, usize)>)
    requires
        p <= ts.len(),
    ensures
        match r {
            Some(x) => p < x.1 <= ts.len() && d_expr(ts@, p as int, x.1 as int, x.0),
            None => true,
        },
        expr_res(r) == peg_l2(ts@, p as int),
    decreases ts.len() - p, 3nat,
{
    if at(ts, p, &Token::Minus) {
        match parse_l2(ts, p + 1) {
            Some((x, q)) => {
                return Some((WindExpr::Unary { op: WindUnaryOp::Neg, expr: Box::new(x) }, q));
            }
            None => {}
        }
    }
    if at(ts, p, &Token::Bang) {
        match parse_l2(ts, p + 1) {
            Some((x, q)) => {
                return Some((WindExpr::Unary { op: WindUnaryOp::Not, expr: Box::new(x) }, q));
            }
            None => {}
        }
    }
    parse_l1(ts, p, 0)
}

/// Shifts, comparisons, equality and the bit operators over prefixed operands, left to right.
fn parse_l3(ts: &[WindSpannedToken], p: usize, min: u8) -> (r: Option<(WindExpr, usize)>)
    requires
        p <= ts.len(),
    ensures
        match r {
            Some(x) => p < x.1 <= ts.len() && d_expr(ts@, p as int, x.1 as int, x.0),
            None => true,
        },
        expr_res(r) == peg_l3(ts@, p as int, min as int),
    decreases ts.len() - p, 4nat,
{
    let (mut lhs, mut q) = match parse_l2(ts, p) {
        Some(x) => x,
        None => {
            return None;
        }
    };
    loop
        invariant
            p < q <= ts.len(),
            d_expr(ts@, p as int, q as int, lhs),
            peg_l3(ts@, p as int, min as int) == Some(peg_l3_more(ts@, expr_v(lhs), q as int, min as int)),
        ensures
            p < q <= ts.len(),
            d_expr(ts@, p as int, q as int, lhs),
            peg_l3(ts@, p as int, min as int) == Some((expr_v(lhs), q as int)),
        decreases ts.len() - q,
    {
        let ghost old_lhs = lhs;
        if q < ts.len() {
            match WindBinaryOp::from_token(&ts[q].0) {
                Some(op) => {
                    let level = level_of(&op);
                    if 3 <= level && level <= 8 && 2 * level >= min {
                        match parse_l3(ts, q + 1, 2 * level + 1) {
                            Some((rhs, q2)) => {
                                lhs = WindExpr::Binary { left: Box::new(lhs), op, right: Box::new(rhs) };
                                proof {
                                    assert(d_expr(ts@, p as int, q as int, old_lhs));
                                }
                                q = q2;
                                continue;
                            }
                            None => {}
                        }
                    }
                }
                None => {}
            }
        }
        break;
    }
    Some((lhs, q))
}

/// `&&` and `||` over the operands below, left to right.
fn parse_l4(ts: &[WindSpannedToken], p: usize, min: u8) -> (r: Option<(WindExpr, usize)>)
    requires
        p <= ts.len(),
    ensures
        match r {
            Some(x) => p < x.1 <= ts.len() && d_expr(ts@, p as int, x.1 as int, x.0),
            None => true,
        },
        expr_res(r) == peg_l4(ts@, p as int, min as int),
    decreases ts.len() - p, 5nat,
{
    let (mut lhs, mut q) = match parse_l3(ts, p, 0) {
        Some(x) => x,
        None => {
            return None;
        }
    };
    loop
        invariant
            p < q <= ts.len(),
            d_expr(ts@, p as int, q as int, lhs),
            peg_l4(ts@, p as int, min as int) == Some(peg_l4_more(ts@, expr_v(lhs), q as int, min as int)),
        ensures
            p < q <= ts.len(),
            d_expr(ts@, p as int, q as int, lhs),
            peg_l4(ts@, p as int, min as int) == Some((expr_v(lhs), q as int)),
        decreases ts.len() - q,
    {
        let ghost old_lhs = lhs;
        if q < ts.len() {
            match WindBinaryOp::from_token(&ts[q].0) {
                Some(op) => {
                    let level = level_of(&op);
                    if level <= 2 && 2 * level >= min {
                        match parse_l4(ts, q + 1, 2 * level + 1) {
                            Some((rhs, q2)) => {
                                lhs = WindExpr::Binary { left: Box::new(lhs), op, right: Box::new(rhs) };
                                proof {
                                    assert(d_expr(ts@, p as int, q as int, old_lhs));
                                }
                                q = q2;
                                continue;
                            }
                            None => {}
                        }
                    }
                }
                None => {}
            }
        }
        break;
    }
    Some((lhs, q))
}

/// An expression.
fn parse_expr(ts: &[WindSpannedToken], p: usize) -> (r: Option<(WindExpr, usize)>)
    requires
        p <= ts.len(),
    ensures
        match r {
            Some(x) => p < x.1 <= ts.len() && d_expr(ts@, p as int, x.1 as int, x.0),
            None => true,
        },
        expr_res(r) == peg_expr(ts@, p as int),
    decreases ts.len() - p, 6nat,
{
    parse_l4(ts, p, 0)
}

/// An expression with an optional `: type` after it.
fn parse_et(ts: &[WindSpannedToken], p: usize) -> (r: Option<(WindExpr, usize)>)
    requires
        p <= ts.len(),
    ensures
        match r {
            Some(x) => p < x.1 <= ts.len() && d_expr(ts@, p as int, x.1 as int, x.0),
            None => true,
        },
        expr_res(r) == peg_et(ts@, p as int),
{
    let (e, q) = match parse_expr(ts, p) {
        Some(x) => x,
        None => {
            return None;
        }
    };
    if at(ts, q, &Token::Colon) {
        match parse_type(ts, q + 1) {
            Some((t, q2)) => {
                let ghost ge = e;
                let x = WindExpr::TypeExpr { expr: Box::new(e), ty: t };
                proof {
                    assert(d_expr(ts@, p as int, q as int, ge));
                }
                return Some((x, q2));
            }
            None => {}
        }
    }
    Some((e, q))
}

} // verus!

verus! {

/// `pub` or `public`, or nothing.
fn visibility(ts: &[WindSpannedToken], p: usize) -> (r: (bool, usize))
    requires
        p <= ts.len(),
    ensures
        vis(ts@, p as int, r.1 as int, r.0),
        p <= r.1 <= ts.len(),
        (r.0, r.1 as int) == peg_vis(ts@, p as int),
{
    if at(ts, p, &Token::Pub) || at(ts, p, &Token::Public) {
        (true, p + 1)
    } else {
        (false, p)
    }
}

/// An optional `: type`.
fn parse_annot(ts: &[WindSpannedToken], p: usize) -> (r: (Option<WindType>, usize))
    requires
        p <= ts.len(),
    ensures
        annot(ts@, p as int, r.1 as int, r.0),
        p <= r.1 <= ts.len(),
        (opt_type_v(r.0), r.1 as int) == peg_annot(ts@, p as int),
{
    if at(ts, p, &Token::Colon) {
        match parse_type(ts, p + 1) {
            Some((t, q)) => {
                return (Some(t), q);
            }
            None => {}
        }
    }
    (None, p)
}

/// An optional `-> type`.
fn parse_ret(ts: &[WindSpannedToken], p: usize) -> (r: (Option<WindType>, usize))
    requires
        p <= ts.len(),
    ensures
        ret_annot(ts@, p as int, r.1 as int, r.0),
        p <= r.1 <= ts.len(),
        (opt_type_v(r.0), r.1 as int) == peg_ret(ts@, p as int),
{
    if at(ts, p, &Token::Arrow) {
        match parse_type(ts, p + 1) {
            Some((t, q)) => {
                return (Some(t), q);
            }
            None => {}
        }
    }
    (None, p)
}

/// A parameter: a receiver keyword, or a name with an optional type.
fn parse_param(ts: &[WindSpannedToken], p: usize) -> (r: Option<(WindFnParam, usize)>)
    requires
        p <= ts.len(),
    ensures
        match r {
            Some(x) => p < x.1 <= ts.len() && d_param(ts@, p as int, x.1 as int, x.0),
            None => true,
        },
        param_res(r) == peg_param(ts@, p as int),
{
    if p >= ts.len() {
        return None;
    }
    match &ts[p].0 {
        Token::SelfKw => {
            return Some((WindFnParam { name: string_of("self"), ty: None }, p + 1));
        }
        Token::ThisKw => {
            return Some((WindFnParam { name: string_of("this"), ty: None }, p + 1));
        }
        Token::ItKw => {
            return Some((WindFnParam { name: string_of("it"), ty: None }, p + 1));
        }
        _ => {}
    }
    match ident(ts, p) {
        Some(name) => {
            let (ty, q) = parse_annot(ts, p + 1);
            Some((WindFnParam { name, ty }, q))
        }
        None => None,
    }
}

/// Parameters separated by commas; with `trailing`, one comma is allowed after the last.
fn parse_params(ts: &[WindSpannedToken], p: usize, trailing: bool) -> (r: (Vec<WindFnParam>, usize))
    requires
        p <= ts.len(),
    ensures
        p <= r.1 <= ts.len(),
        (params_v(r.0@), r.1 as int) == peg_params(ts@, p as int, trailing),
        d_params_t(ts@, p as int, r.1 as int, r.0@, trailing),
{
    let mut v: Vec<WindFnParam> = Vec::new();
    match parse_param(ts, p) {
        None => {
            assert(v@ =~= Seq::<WindFnParam>::empty());
            assert(params_v(v@) =~= Seq::empty());
            return (v, p);
        }
        Some((x, q0)) => {
            let ghost gfirst = x;
            v.push(x);
            proof {
                lemma_params_v_push(Seq::<WindFnParam>::empty(), gfirst);
                assert(v@ =~= Seq::<WindFnParam>::empty().push(gfirst));
            }
            let mut q = q0;
            while at(ts, q, &Token::Comma)
                invariant
                    p < q <= ts.len(),
                    v@.len() >= 1,
                    d_params(ts@, p as int, q as int, v@),
                    peg_params(ts@, p as int, trailing) == peg_params_more(ts@, params_v(v@), q as int, trailing),
                ensures
                    p < q <= ts.len(),
                    d_params(ts@, p as int, q as int, v@),
                    (params_v(v@), q as int) == peg_params(ts@, p as int, trailing),
                decreases ts.len() - q,
            {
                match parse_param(ts, q + 1) {
                    Some((x2, q2)) => {
                        let ghost before = v@;
                        let ghost gx = x2;
                        v.push(x2);
                        proof {
                            lemma_params_v_push(before, gx);
                            assert(v@ =~= before.push(gx));
                            assert(v@.drop_last() =~= before);
                        }
                        q = q2;
                    }
                    None => {
                        if trailing {
                            q = q + 1;
                        }
                        return (v, q);
                    }
                }
            }
            (v, q)
        }
    }
}

/// A method reference: `::name`, kept with its colons, or a name.
fn parse_method(ts: &[WindSpannedToken], p: usize) -> (r: Option<(String, usize)>)
    requires
        p <= ts.len(),
    ensures
        match r {
            Some(x) => p < x.1 <= ts.len() && d_method(ts@, p as int, x.1 as int, x.0),
            None => true,
        },
        str_res(r) == peg_method(ts@, p as int),
{
    if at(ts, p, &Token::DoubleColon) {
        match ident(ts, p + 1) {
            Some(id) => {
                let mut m = string_of("::");
                push_str(&mut m, id.as_str());
                return Some((m, p + 2));
            }
            None => {}
        }
    }
    match ident(ts, p) {
        Some(id) => Some((id, p + 1)),
        None => None,
    }
}

/// Method references separated by commas.
fn parse_methods(ts: &[WindSpannedToken], p: usize) -> (r: (Vec<String>, usize))
    requires
        p <= ts.len(),
    ensures
        p <= r.1 <= ts.len(),
        (strings_v(r.0@), r.1 as int) == peg_methods(ts@, p as int),
        d_methods(ts@, p as int, r.1 as int, r.0@),
{
    let mut v: Vec<String> = Vec::new();
    match parse_method(ts, p) {
        None => {
            assert(v@ =~= Seq::<String>::empty());
            assert(strings_v(v@) =~= Seq::empty());
            return (v, p);
        }
        Some((x, q0)) => {
            let ghost gfirst = x;
            v.push(x);
            proof {
                lemma_strings_v_push(Seq::<String>::empty(), gfirst);
                assert(v@ =~= Seq::<String>::empty().push(gfirst));
            }
            let mut q = q0;
            while at(ts, q, &Token::Comma)
                invariant
                    p < q <= ts.len(),
                    v@.len() >= 1,
                    d_methods(ts@, p as int, q as int, v@),
                    peg_methods(ts@, p as int) == peg_methods_more(ts@, strings_v(v@), q as int),
                ensures
                    p < q <= ts.len(),
                    d_methods(ts@, p as int, q as int, v@),
                    (strings_v(v@), q as int) == peg_methods(ts@, p as int),
                decreases ts.len() - q,
            {
                match parse_method(ts, q + 1) {
                    Some((x2, q2)) => {
                        let ghost before = v@;
                        let ghost gx = x2;
                        v.push(x2);
                        proof {
                            lemma_strings_v_push(before, gx);
                            assert(v@ =~= before.push(gx));
                            assert(v@.drop_last() =~= before);
                        }
                        q = q2;
                    }
                    None => {
                        return (v, q);
                    }
                }
            }
            (v, q)
        }
    }
}

/// An optional `, which` clause.
fn parse_which_opt(ts: &[WindSpannedToken], p: usize) -> (r: (Option<Vec<WindWhichClause>>, usize))
    requires
        p <= ts.len(),
    ensures
        which_opt(ts@, p as int, r.1 as int, r.0),
        p <= r.1 <= ts.len(),
        (opt_which_v(r.0), r.1 as int) == peg_which_opt(ts@, p as int),
{
    if at(ts, p, &Token::Comma) && at(ts, p + 1, &Token::Which) {
        let (after, q) = parse_methods(ts, p + 2);
        let mut clauses: Vec<WindWhichClause> = Vec::new();
        let clause = WindWhichClause { method: String::new(), after };
        let ghost gc = clause;
        clauses.push(clause);
        proof {
            lemma_whiches_v_push(Seq::<WindWhichClause>::empty(), gc);
            assert(clauses@ =~= Seq::<WindWhichClause>::empty().push(gc));
            assert(gc.method@ =~= Seq::<char>::empty());
        }
        return (Some(clauses), q);
    }
    (None, p)
}

/// Names separated by commas.
fn parse_idents(ts: &[WindSpannedToken], p: usize) -> (r: (Vec<String>, usize))
    requires
        p <= ts.len(),
    ensures
        p <= r.1 <= ts.len(),
        (strings_v(r.0@), r.1 as int) == peg_idents(ts@, p as int),
        d_idents(ts@, p as int, r.1 as int, r.0@),
{
    let mut v: Vec<String> = Vec::new();
    match ident(ts, p) {
        None => {
            assert(v@ =~= Seq::<String>::empty());
            assert(strings_v(v@) =~= Seq::empty());
            return (v, p);
        }
        Some(x) => {
            let ghost gfirst = x;
            v.push(x);
            proof {
                lemma_strings_v_push(Seq::<String>::empty(), gfirst);
                assert(v@ =~= Seq::<String>::empty().push(gfirst));
            }
            let mut q = p + 1;
            while at(ts, q, &Token::Comma)
                invariant
                    p < q <= ts.len(),
                    v@.len() >= 1,
                    d_idents(ts@, p as int, q as int, v@),
                    peg_idents(ts@, p as int) == peg_idents_more(ts@, strings_v(v@), q as int),
                ensures
                    p < q <= ts.len(),
                    d_idents(ts@, p as int, q as int, v@),
                    (strings_v(v@), q as int) == peg_idents(ts@, p as int),
                decreases ts.len() - q,
            {
                match ident(ts, q + 1) {
                    Some(x2) => {
                        let ghost before = v@;
                        let ghost gx = x2;
                        v.push(x2);
                        proof {
                            lemma_strings_v_push(before, gx);
                            assert(v@ =~= before.push(gx));
                            assert(v@.drop_last() =~= before);
                        }
                        q = q + 2;
                    }
                    None => {
                        return (v, q);
                    }
                }
            }
            (v, q)
        }
    }
}

/// A variant of an enum: a name and an optional type.
fn parse_variant(ts: &[WindSpannedToken], p: usize) -> (r: Option<((String, Option<WindType>), usize)>)
    requires
        p <= ts.len(),
    ensures
        match r {
            Some(x) => p < x.1 <= ts.len() && d_variant(ts@, p as int, x.1 as int, x.0),
            None => true,
        },
        variant_res(r) == peg_variant(ts@, p as int),
{
    match ident(ts, p) {
        Some(name) => {
            let (ty, q) = parse_annot(ts, p + 1);
            Some(((name, ty), q))
        }
        None => None,
    }
}

/// Variants separated by commas, with one comma allowed after the last.
fn parse_variants(ts: &[WindSpannedToken], p: usize) -> (r: (Vec<(String, Option<WindType>)>, usize))
    requires
        p <= ts.len(),
    ensures
        p <= r.1 <= ts.len(),
        (variants_v(r.0@), r.1 as int) == peg_variants(ts@, p as int),
        d_variants(ts@, p as int, r.1 as int, r.0@) || (r.0@.len() > 0 && p < r.1 && tk(ts@, r.1 - 1, Token::Comma)
            && d_variants(ts@, p as int, r.1 - 1, r.0@)),
{
    let mut v: Vec<(String, Option<WindType>)> = Vec::new();
    match parse_variant(ts, p) {
        None => {
            assert(v@ =~= Seq::<(String, Option<WindType>)>::empty());
            assert(variants_v(v@) =~= Seq::empty());
            return (v, p);
        }
        Some((x, q0)) => {
            let ghost gfirst = x;
            v.push(x);
            proof {
                lemma_variants_v_push(Seq::<(String, Option<WindType>)>::empty(), gfirst);
                assert(v@ =~= Seq::<(String, Option<WindType>)>::empty().push(gfirst));
            }
            let mut q = q0;
            while at(ts, q, &Token::Comma)
                invariant
                    p < q <= ts.len(),
                    v@.len() >= 1,
                    d_variants(ts@, p as int, q as int, v@),
                    peg_variants(ts@, p as int) == peg_variants_more(ts@, variants_v(v@), q as int),
                ensures
                    p < q <= ts.len(),
                    d_variants(ts@, p as int, q as int, v@),
                    (variants_v(v@), q as int) == peg_variants(ts@, p as int),
                decreases ts.len() - q,
            {
                match parse_variant(ts, q + 1) {
                    Some((x2, q2)) => {
                        let ghost before = v@;
                        let ghost gx = x2;
                        v.push(x2);
                        proof {
                            lemma_variants_v_push(before, gx);
                            assert(v@ =~= before.push(gx));
                            assert(v@.drop_last() =~= before);
                        }
                        q = q2;
                    }
                    None => {
                        return (v, q + 1);
                    }
                }
            }
            (v, q)
        }
    }
}

/// A rule of a group: `self.field -> type;` or `name -> type;`.
fn parse_rule(ts: &[WindSpannedToken], p: usize) -> (r: Option<(WindGroupRule, usize)>)
    requires
        p <= ts.len(),
    ensures
        match r {
            Some(x) => p < x.1 <= ts.len() && d_rule(ts@, p as int, x.1 as int, x.0),
            None => true,
        },
        rule_res(r) == peg_rule(ts@, p as int),
{
    if at(ts, p, &Token::SelfKw) && at(ts, p + 1, &Token::Dot) {
        match ident(ts, p + 2) {
            Some(field) => {
                if at(ts, p + 3, &Token::Arrow) {
                    match parse_type(ts, p + 4) {
                        Some((ty, m)) => {
                            if at(ts, m, &Token::Semicolon) {
                                return Some((WindGroupRule::SelfField { field, ty }, m + 1));
                            }
                        }
                        None => {}
                    }
                }
            }
            None => {}
        }
    }
    match ident(ts, p) {
        Some(field) => {
            if at(ts, p + 1, &Token::Arrow) {
                match parse_type(ts, p + 2) {
                    Some((ty, m)) => {
                        if at(ts, m, &Token::Semicolon) {
                            return Some((WindGroupRule::Simple { field, ty }, m + 1));
                        }
                    }
                    None => {}
                }
            }
            None
        }
        None => None,
    }
}

/// Group rules, one after the other.
fn parse_rules(ts: &[WindSpannedToken], p: usize) -> (r: (Vec<WindGroupRule>, usize))
    requires
        p <= ts.len(),
    ensures
        p <= r.1 <= ts.len(),
        (rules_v(r.0@), r.1 as int) == peg_rules_more(ts@, seq![], p as int),
        d_rules(ts@, p as int, r.1 as int, r.0@),
{
    let mut v: Vec<WindGroupRule> = Vec::new();
    let mut q = p;
    assert(rules_v(v@) =~= Seq::empty());
    loop
        invariant
            p <= q <= ts.len(),
            d_rules(ts@, p as int, q as int, v@),
            peg_rules_more(ts@, seq![], p as int) == peg_rules_more(ts@, rules_v(v@), q as int),
        ensures
            p <= q <= ts.len(),
            d_rules(ts@, p as int, q as int, v@),
            (rules_v(v@), q as int) == peg_rules_more(ts@, seq![], p as int),
        decreases ts.len() - q,
    {
        match parse_rule(ts, q) {
            Some((x, q2)) => {
                let ghost before = v@;
                let ghost gx = x;
                v.push(x);
                proof {
                    lemma_rules_v_push(before, gx);
                    assert(v@ =~= before.push(gx));
                    assert(v@.drop_last() =~= before);
                    assert(boundary(ts@, q as int));
                }
                q = q2;
            }
            None => {
                break;
            }
        }
    }
    (v, q)
}

/// A signature of a trait.
fn parse_sig(ts: &[WindSpannedToken], p: usize) -> (r: Option<(WindFnSignature, usize)>)
    requires
        p <= ts.len(),
    ensures
        match r {
            Some(x) => p < x.1 <= ts.len() && d_sig(ts@, p as int, x.1 as int, x.0),
            None => true,
        },
        sig_res(r) == peg_sig(ts@, p as int),
{
    let (public, k) = visibility(ts, p);
    if !at(ts, k, &Token::Fn) {
        return None;
    }
    let name = match ident(ts, k + 1) {
        Some(n) => n,
        None => {
            return None;
        }
    };
    if !at(ts, k + 2, &Token::OpenParen) {
        return None;
    }
    let (params, m) = parse_params(ts, k + 3, true);
    if !at(ts, m, &Token::CloseParen) {
        return None;
    }
    let (return_type, q) = parse_ret(ts, m + 1);
    if !at(ts, q, &Token::Semicolon) {
        return None;
    }
    Some((WindFnSignature { public, name, params, return_type, which: None }, q + 1))
}

/// Signatures, one after the other.
fn parse_sigs(ts: &[WindSpannedToken], p: usize) -> (r: (Vec<WindFnSignature>, usize))
    requires
        p <= ts.len(),
    ensures
        p <= r.1 <= ts.len(),
        (sigs_v(r.0@), r.1 as int) == peg_sigs_more(ts@, seq![], p as int),
        d_sigs(ts@, p as int, r.1 as int, r.0@),
{
    let mut v: Vec<WindFnSignature> = Vec::new();
    let mut q = p;
    assert(sigs_v(v@) =~= Seq::empty());
    loop
        invariant
            p <= q <= ts.len(),
            d_sigs(ts@, p as int, q as int, v@),
            peg_sigs_more(ts@, seq![], p as int) == peg_sigs_more(ts@, sigs_v(v@), q as int),
        ensures
            p <= q <= ts.len(),
            d_sigs(ts@, p as int, q as int, v@),
            (sigs_v(v@), q as int) == peg_sigs_more(ts@, seq![], p as int),
        decreases ts.len() - q,
    {
        match parse_sig(ts, q) {
            Some((x, q2)) => {
                let ghost before = v@;
                let ghost gx = x;
                v.push(x);
                proof {
                    lemma_sigs_v_push(before, gx);
                    assert(v@ =~= before.push(gx));
                    assert(v@.drop_last() =~= before);
                    assert(boundary(ts@, q as int));
                }
                q = q2;
            }
            None => {
                break;
            }
        }
    }
    (v, q)
}

/// Expressions, with optional types, separated by semicolons, with one semicolon allowed after
/// the last.
fn parse_semi_exprs(ts: &[WindSpannedToken], p: usize) -> (r: (Vec<WindExpr>, usize))
    requires
        p <= ts.len(),
    ensures
        p <= r.1 <= ts.len(),
        (exprs_v(r.0@), r.1 as int) == peg_semi_exprs(ts@, p as int),
        d_semi_exprs(ts@, p as int, r.1 as int, r.0@) || (r.0@.len() > 0 && p < r.1
            && tk(ts@, r.1 - 1, Token::Semicolon) && d_semi_exprs(ts@, p as int, r.1 - 1, r.0@)),
{
    let mut v: Vec<WindExpr> = Vec::new();
    match parse_et(ts, p) {
        None => {
            assert(v@ =~= Seq::<WindExpr>::empty());
            assert(exprs_v(v@) =~= Seq::empty());
            return (v, p);
        }
        Some((x, q0)) => {
            let ghost gfirst = x;
            v.push(x);
            proof {
                lemma_exprs_v_push(Seq::<WindExpr>::empty(), gfirst);
                assert(v@ =~= Seq::<WindExpr>::empty().push(gfirst));
            }
            let mut q = q0;
            while at(ts, q, &Token::Semicolon)
                invariant
                    p < q <= ts.len(),
                    v@.len() >= 1,
                    d_semi_exprs(ts@, p as int, q as int, v@),
                    peg_semi_exprs(ts@, p as int) == peg_semi_more(ts@, exprs_v(v@), q as int),
                ensures
                    p < q <= ts.len(),
                    d_semi_exprs(ts@, p as int, q as int, v@),
                    (exprs_v(v@), q as int) == peg_semi_exprs(ts@, p as int),
                decreases ts.len() - q,
            {
                match parse_et(ts, q + 1) {
                    Some((x2, q2)) => {
                        let ghost before = v@;
                        let ghost gx = x2;
                        v.push(x2);
                        proof {
                            lemma_exprs_v_push(before, gx);
                            assert(v@ =~= before.push(gx));
                            assert(v@.drop_last() =~= before);
                        }
                        q = q2;
                    }
                    None => {
                        return (v, q + 1);
                    }
                }
            }
            (v, q)
        }
    }
}

/// The optional conditions of a struct field: `where` or `->` and a braced list, of which the
/// first is kept.
fn parse_conds(ts: &[WindSpannedToken], p: usize) -> (r: (Option<WindExpr>, usize))
    requires
        p <= ts.len(),
    ensures
        p <= r.1 <= ts.len(),
        d_conds(ts@, p as int, r.1 as int, r.0),
        (opt_expr_v(r.0), r.1 as int) == peg_conds(ts@, p as int),
{
    if (at(ts, p, &Token::Where) || at(ts, p, &Token::Arrow)) && at(ts, p + 1, &Token::OpenBrace) {
        let (es, q) = parse_semi_exprs(ts, p + 2);
        if at(ts, q, &Token::CloseBrace) {
            let ghost ges = es@;
            let mut es = es;
            proof {
                lemma_exprs_v_index(ges);
            }
            let first = if es.len() > 0 {
                Some(es.remove(0))
            } else {
                None
            };
            proof {
                assert(d_semi_exprs(ts@, p + 2, q as int, ges) || (ges.len() > 0 && tk(ts@, q - 1, Token::Semicolon)
                    && d_semi_exprs(ts@, p + 2, q - 1, ges)));
                assert(d_semi_exprs(ts@, p + 2, (q + 1) - 1, ges) || (ges.len() > 0 && tk(ts@, (q + 1) - 2, Token::Semicolon)
                    && d_semi_exprs(ts@, p + 2, (q + 1) - 2, ges)));
            }
            return (first, q + 1);
        }
    }
    (None, p)
}

/// A field of a struct definition.
#[verifier::rlimit(60)]
fn parse_sfield(ts: &[WindSpannedToken], p: usize) -> (r: Option<(WindStructField, usize)>)
    requires
        p <= ts.len(),
    ensures
        match r {
            Some(x) => p < x.1 <= ts.len() && d_sfield(ts@, p as int, x.1 as int, x.0),
            None => true,
        },
        sfield_res(r) == peg_sfield(ts@, p as int),
{
    let (public, k) = visibility(ts, p);
    let name = match ident(ts, k) {
        Some(n) => n,
        None => {
            return None;
        }
    };
    if !at(ts, k + 1, &Token::Colon) {
        return None;
    }
    let (ty, m) = match parse_type(ts, k + 2) {
        Some(x) => x,
        None => {
            return None;
        }
    };
    let (conditions, q) = parse_conds(ts, m);
    let (default_value, r) = if at(ts, q, &Token::Equal) {
        match parse_et(ts, q + 1) {
            Some((v, r)) => (Some(Box::new(v)), r),
            None => (None, q),
        }
    } else {
        (None, q)
    };
    if !at(ts, r, &Token::Semicolon) {
        return None;
    }
    let ghost gt = ty;
    let ghost gc = conditions;
    let f = WindStructField { public, is_static: false, name, ty, which: None, conditions, default_value };
    proof {
        assert(boundary(ts@, k as int));
        assert(d_type(ts@, k + 2, m as int, gt));
        assert(boundary(ts@, q as int));
        assert(d_conds(ts@, m as int, q as int, gc));
    }
    Some((f, r + 1))
}

/// Struct fields, one after the other.
fn parse_sfields(ts: &[WindSpannedToken], p: usize) -> (r: (Vec<WindStructField>, usize))
    requires
        p <= ts.len(),
    ensures
        p <= r.1 <= ts.len(),
        (sfields_v(r.0@), r.1 as int) == peg_sfields_more(ts@, seq![], p as int),
        d_sfields(ts@, p as int, r.1 as int, r.0@),
{
    let mut v: Vec<WindStructField> = Vec::new();
    let mut q = p;
    assert(sfields_v(v@) =~= Seq::empty());
    loop
        invariant
            p <= q <= ts.len(),
            d_sfields(ts@, p as int, q as int, v@),
            peg_sfields_more(ts@, seq![], p as int) == peg_sfields_more(ts@, sfields_v(v@), q as int),
        ensures
            p <= q <= ts.len(),
            d_sfields(ts@, p as int, q as int, v@),
            (sfields_v(v@), q as int) == peg_sfields_more(ts@, seq![], p as int),
        decreases ts.len() - q,
    {
        match parse_sfield(ts, q) {
            Some((x, q2)) => {
                let ghost before = v@;
                let ghost gx = x;
                v.push(x);
                proof {
                    lemma_sfields_v_push(before, gx);
                    assert(v@ =~= before.push(gx));
                    assert(v@.drop_last() =~= before);
                    assert(boundary(ts@, q as int));
                }
                q = q2;
            }
            None => {
                break;
            }
        }
    }
    (v, q)
}

/// The expressions of expression statements, in order.
fn expr_stmts(ss: Vec<WindStmt>) -> (r: Vec<WindExpr>)
    ensures
        r@ == expr_stmts_of(ss@),
        exprs_v(r@) == expr_stmts_v(stmts_v(ss@)),
{
    proof {
        lemma_expr_stmts_v(ss@);
    }
    let ghost all = ss@;
    let mut rest = ss;
    let mut out: Vec<WindExpr> = Vec::new();
    while rest.len() > 0
        invariant
            expr_stmts_of(all) == out@ + expr_stmts_of(rest@),
        decreases rest.len(),
    {
        let ghost before = rest@;
        let s = rest.remove(0);
        proof {
            assert(rest@ =~= before.drop_first());
        }
        match s {
            WindStmt::Expr(e) => {
                out.push(*e);
                proof {
                    assert(out@ + expr_stmts_of(rest@) =~= (out@.drop_last() + seq![out@.last()]) + expr_stmts_of(rest@));
                }
            }
            _ => {
                assert(out@ + expr_stmts_of(rest@) =~= out@ + (Seq::<WindExpr>::empty() + expr_stmts_of(rest@)));
            }
        }
    }
    assert(out@ + expr_stmts_of(rest@) =~= out@);
    out
}

} // verus!

verus! {

/// `{` statements `}`.
#[verifier::rlimit(100)]
#[verifier::spinoff_prover]
fn parse_block(ts: &[WindSpannedToken], p: usize) -> (r: Option<(WindStmt, usize)>)
    requires
        p <= ts.len(),
    ensures
        match r {
            Some(x) => p < x.1 <= ts.len() && d_stmt(ts@, p as int, x.1 as int, x.0) && x.0 is Block,
            None => true,
        },
        stmt_res(r) == peg_block(ts@, p as int),
    decreases ts.len() - p, 0nat,
{
    if !at(ts, p, &Token::OpenBrace) {
        return None;
    }
    let (ss, q) = parse_stmts(ts, p + 1);
    if !at(ts, q, &Token::CloseBrace) {
        return None;
    }
    Some((WindStmt::Block(ss), q + 1))
}

/// Statements, one after the other, as many as parse.
#[verifier::rlimit(100)]
#[verifier::spinoff_prover]
fn parse_stmts(ts: &[WindSpannedToken], p: usize) -> (r: (Vec<WindStmt>, usize))
    requires
        p <= ts.len(),
    ensures
        p <= r.1 <= ts.len(),
        (stmts_v(r.0@), r.1 as int) == peg_stmts(ts@, p as int),
        d_stmts(ts@, p as int, r.1 as int, r.0@),
    decreases ts.len() - p, 3nat,
{
    let mut v: Vec<WindStmt> = Vec::new();
    let mut q = p;
    assert(stmts_v(v@) =~= Seq::empty());
    loop
        invariant
            p <= q <= ts.len(),
            d_stmts(ts@, p as int, q as int, v@),
            peg_stmts(ts@, p as int) == peg_stmts_more(ts@, stmts_v(v@), q as int),
        ensures
            p <= q <= ts.len(),
            d_stmts(ts@, p as int, q as int, v@),
            (stmts_v(v@), q as int) == peg_stmts(ts@, p as int),
        decreases ts.len() - q,
    {
        match parse_stmt(ts, q) {
            Some((x, q2)) => {
                let ghost before = v@;
                let ghost gx = x;
                v.push(x);
                proof {
                    lemma_stmts_v_push(before, gx);
                    assert(v@ =~= before.push(gx));
                    assert(v@.drop_last() =~= before);
                    assert(boundary(ts@, q as int));
                }
                q = q2;
            }
            None => {
                break;
            }
        }
    }
    (v, q)
}

/// Function definitions, one after the other.
#[verifier::rlimit(100)]
#[verifier::spinoff_prover]
fn parse_fn_defs(ts: &[WindSpannedToken], p: usize) -> (r: (Vec<WindStmt>, usize))
    requires
        p <= ts.len(),
    ensures
        p <= r.1 <= ts.len(),
        (stmts_v(r.0@), r.1 as int) == peg_fn_defs(ts@, p as int),
        d_stmts(ts@, p as int, r.1 as int, r.0@),
        forall|f: int| 0 <= f < r.0@.len() ==> (#[trigger] r.0@[f]) is FnDef,
    decreases ts.len() - p, 2nat,
{
    let mut v: Vec<WindStmt> = Vec::new();
    let mut q = p;
    assert(stmts_v(v@) =~= Seq::empty());
    loop
        invariant
            p <= q <= ts.len(),
            d_stmts(ts@, p as int, q as int, v@),
            forall|f: int| 0 <= f < v@.len() ==> (#[trigger] v@[f]) is FnDef,
            peg_fn_defs(ts@, p as int) == peg_fn_defs_more(ts@, stmts_v(v@), q as int),
        ensures
            p <= q <= ts.len(),
            d_stmts(ts@, p as int, q as int, v@),
            forall|f: int| 0 <= f < v@.len() ==> (#[trigger] v@[f]) is FnDef,
            (stmts_v(v@), q as int) == peg_fn_defs(ts@, p as int),
        decreases ts.len() - q,
    {
        match parse_fn_def(ts, q) {
            Some((x, q2)) => {
                let ghost before = v@;
                let ghost gx = x;
                v.push(x);
                proof {
                    lemma_stmts_v_push(before, gx);
                    assert(v@ =~= before.push(gx));
                    assert(v@.drop_last() =~= before);
                    assert(boundary(ts@, q as int));
                }
                q = q2;
            }
            None => {
                break;
            }
        }
    }
    (v, q)
}

/// A function definition.
fn parse_fn_def(ts: &[WindSpannedToken], p: usize) -> (r: Option<(WindStmt, usize)>)
    requires
        p <= ts.len(),
    ensures
        match r {
            Some(x) => p < x.1 <= ts.len() && d_stmt(ts@, p as int, x.1 as int, x.0) && x.0 is FnDef,
            None => true,
        },
        stmt_res(r) == peg_fn_def(ts@, p as int),
    decreases ts.len() - p, 1nat,
{
    let (public, k) = visibility(ts, p);
    if !at(ts, k, &Token::Fn) {
        return None;
    }
    let name = match ident(ts, k + 1) {
        Some(n) => n,
        None => {
            return None;
        }
    };
    if !at(ts, k + 2, &Token::OpenParen) {
        return None;
    }
    let (params, m) = parse_params(ts, k + 3, true);
    if !at(ts, m, &Token::CloseParen) {
        return None;
    }
    let (return_type, q) = parse_ret(ts, m + 1);
    let (which, r) = parse_which_opt(ts, q);
    let (body, j) = match parse_block(ts, r) {
        Some(x) => x,
        None => {
            return None;
        }
    };
    proof {
        assert(boundary(ts@, q as int));
        assert(boundary(ts@, r as int));
    }
    Some((WindStmt::FnDef { public, name, params, return_type, which, body: Box::new(body) }, j))
}

/// A struct definition.
fn parse_struct_def(ts: &[WindSpannedToken], p: usize) -> (r: Option<(WindStmt, usize)>)
    requires
        p <= ts.len(),
    ensures
        match r {
            Some(x) => p < x.1 <= ts.len() && d_stmt(ts@, p as int, x.1 as int, x.0),
            None => true,
        },
        stmt_res(r) == peg_struct_def(ts@, p as int),
{
    let (public, k) = visibility(ts, p);
    if !at(ts, k, &Token::Struct) {
        return None;
    }
    let name = match ident(ts, k + 1) {
        Some(n) => n,
        None => {
            return None;
        }
    };
    if !at(ts, k + 2, &Token::OpenBrace) {
        return None;
    }
    let (fields, m) = parse_sfields(ts, k + 3);
    if !at(ts, m, &Token::CloseBrace) {
        return None;
    }
    proof {
        assert(vis(ts@, p as int, k as int, public));
        assert(tk(ts@, k as int, Token::Struct));
        assert(ident_at(ts@, k + 1, name));
        assert(tk(ts@, k + 2, Token::OpenBrace));
        assert(d_sfields(ts@, k + 3, m as int, fields@));
        assert(d_sfields(ts@, k + 3, (m + 1) - 1, fields@));
        assert(tk(ts@, (m + 1) - 1, Token::CloseBrace));
        assert(exists|k0: int| #[trigger] vis(ts@, p as int, k0, public) && tk(ts@, k0, Token::Struct)
            && ident_at(ts@, k0 + 1, name) && tk(ts@, k0 + 2, Token::OpenBrace) && d_sfields(ts@, k0 + 3, (m + 1) - 1, fields@)
            && tk(ts@, (m + 1) - 1, Token::CloseBrace));
    }
    let res = WindStmt::StructDef { public, name, fields };
    proof {
        assert(d_stmt(ts@, p as int, m + 1, res));
    }
    Some((res, m + 1))
}

/// An enum definition.
fn parse_enum_def(ts: &[WindSpannedToken], p: usize) -> (r: Option<(WindStmt, usize)>)
    requires
        p <= ts.len(),
    ensures
        match r {
            Some(x) => p < x.1 <= ts.len() && d_stmt(ts@, p as int, x.1 as int, x.0),
            None => true,
        },
        stmt_res(r) == peg_enum_def(ts@, p as int),
{
    let (public, k) = visibility(ts, p);
    if !at(ts, k, &Token::Enum) {
        return None;
    }
    let name = match ident(ts, k + 1) {
        Some(n) => n,
        None => {
            return None;
        }
    };
    if !at(ts, k + 2, &Token::OpenBrace) {
        return None;
    }
    let (variants, m) = parse_variants(ts, k + 3);
    if !at(ts, m, &Token::CloseBrace) {
        return None;
    }
    Some((WindStmt::EnumDef { public, name, variants }, m + 1))
}

/// A type definition, with an optional `where` block whose expression statements are kept.
#[verifier::rlimit(100)]
#[verifier::spinoff_prover]
fn parse_type_def(ts: &[WindSpannedToken], p: usize) -> (r: Option<(WindStmt, usize)>)
    requires
        p <= ts.len(),
    ensures
        match r {
            Some(x) => p < x.1 <= ts.len() && d_stmt(ts@, p as int, x.1 as int, x.0),
            None => true,
        },
        stmt_res(r) == peg_type_def(ts@, p as int),
    decreases ts.len() - p, 1nat,
{
    let (public, k) = visibility(ts, p);
    if !at(ts, k, &Token::Type) {
        return None;
    }
    let name = match ident(ts, k + 1) {
        Some(n) => n,
        None => {
            return None;
        }
    };
    if !at(ts, k + 2, &Token::Equal) {
        return None;
    }
    let (base_type, m) = match parse_type(ts, k + 3) {
        Some(x) => x,
        None => {
            return None;
        }
    };
    let ghost gb = base_type;
    if at(ts, m, &Token::Where) && at(ts, m + 1, &Token::OpenBrace) {
        let (ss, q) = parse_stmts(ts, m + 2);
        if at(ts, q, &Token::CloseBrace) {
            let ghost gss = ss@;
            let conditions = expr_stmts(ss);
            proof {
                assert(d_type(ts@, k + 3, m as int, gb));
                assert(conditions@ == expr_stmts_of(gss));
                assert(peg_stmts(ts@, m + 2) == (stmts_v(gss), q as int));
                assert(exprs_v(conditions@) == expr_stmts_v(stmts_v(gss)));
            }
            let res = WindStmt::TypeDef { public, name, base_type, conditions };
            proof {
                assert(stmt_v(res) == StmtV::TypeDef { public, name: name@, base_type: type_v(gb),
                    conditions: expr_stmts_v(stmts_v(gss)) });
            }
            return Some((res, q + 1));
        }
    }
    proof {
        assert(d_type(ts@, k + 3, m as int, gb));
    }
    let res = WindStmt::TypeDef { public, name, base_type, conditions: Vec::new() };
    proof {
        assert(exprs_v(Seq::<WindExpr>::empty()) =~= Seq::<ExprV>::empty());
        assert(stmt_v(res) == StmtV::TypeDef { public, name: name@, base_type: type_v(gb), conditions: seq![] });
    }
    Some((res, m))
}

/// A trait definition.
fn parse_trait_def(ts: &[WindSpannedToken], p: usize) -> (r: Option<(WindStmt, usize)>)
    requires
        p <= ts.len(),
    ensures
        match r {
            Some(x) => p < x.1 <= ts.len() && d_stmt(ts@, p as int, x.1 as int, x.0),
            None => true,
        },
        stmt_res(r) == peg_trait_def(ts@, p as int),
{
    let (public, k) = visibility(ts, p);
    if !at(ts, k, &Token::Trait) {
        return None;
    }
    let name = match ident(ts, k + 1) {
        Some(n) => n,
        None => {
            return None;
        }
    };
    if !at(ts, k + 2, &Token::OpenBrace) {
        return None;
    }
    let (functions, m) = parse_sigs(ts, k + 3);
    if !at(ts, m, &Token::CloseBrace) {
        return None;
    }
    Some((WindStmt::TraitDef { public, name, functions }, m + 1))
}

/// An `extra` block: a target, optionally named, and function definitions.
#[verifier::rlimit(100)]
#[verifier::spinoff_prover]
fn parse_extra_def(ts: &[WindSpannedToken], p: usize) -> (r: Option<(WindStmt, usize)>)
    requires
        p <= ts.len(),
    ensures
        match r {
            Some(x) => p < x.1 <= ts.len() && d_stmt(ts@, p as int, x.1 as int, x.0),
            None => true,
        },
        stmt_res(r) == peg_extra_def(ts@, p as int),
    decreases ts.len() - p, 1nat,
{
    if !at(ts, p, &Token::Extra) {
        return None;
    }
    let first = match ident(ts, p + 1) {
        Some(n) => n,
        None => {
            return None;
        }
    };
    let second = if at(ts, p + 2, &Token::Colon) {
        ident(ts, p + 3)
    } else {
        None
    };
    let (name, target, next) = match second {
        Some(t) => (Some(first), t, p + 4),
        None => (None, first, p + 2),
    };
    if !at(ts, next, &Token::OpenBrace) {
        return None;
    }
    let (functions, q) = parse_fn_defs(ts, next + 1);
    if !at(ts, q, &Token::CloseBrace) {
        return None;
    }
    Some((WindStmt::ExtraDef { public: false, name, target, functions }, q + 1))
}

/// An `impl` block: a trait, a target and function definitions.
#[verifier::rlimit(100)]
#[verifier::spinoff_prover]
fn parse_impl_def(ts: &[WindSpannedToken], p: usize) -> (r: Option<(WindStmt, usize)>)
    requires
        p <= ts.len(),
    ensures
        match r {
            Some(x) => p < x.1 <= ts.len() && d_stmt(ts@, p as int, x.1 as int, x.0),
            None => true,
        },
        stmt_res(r) == peg_impl_def(ts@, p as int),
    decreases ts.len() - p, 1nat,
{
    if !at(ts, p, &Token::Impl) {
        return None;
    }
    let trait_name = match ident(ts, p + 1) {
        Some(n) => n,
        None => {
            return None;
        }
    };
    if !at(ts, p + 2, &Token::For) {
        return None;
    }
    let target = match ident(ts, p + 3) {
        Some(n) => n,
        None => {
            return None;
        }
    };
    if !at(ts, p + 4, &Token::OpenBrace) {
        return None;
    }
    let (functions, q) = parse_fn_defs(ts, p + 5);
    if !at(ts, q, &Token::CloseBrace) {
        return None;
    }
    Some((WindStmt::ImplDef { public: false, trait_name, target, functions }, q + 1))
}

/// A group: a name with an optional target or parameters, and rules.
fn parse_group_def(ts: &[WindSpannedToken], p: usize) -> (r: Option<(WindStmt, usize)>)
    requires
        p <= ts.len(),
    ensures
        match r {
            Some(x) => p < x.1 <= ts.len() && d_stmt(ts@, p as int, x.1 as int, x.0),
            None => true,
        },
        stmt_res(r) == peg_group_def(ts@, p as int),
{
    if !at(ts, p, &Token::Group) {
        return None;
    }
    let name = match ident(ts, p + 1) {
        Some(n) => n,
        None => {
            return None;
        }
    };
    let mut target: Option<String> = None;
    let mut params: Option<Vec<WindFnParam>> = None;
    let mut k = p + 2;
    if at(ts, p + 2, &Token::Colon) {
        match ident(ts, p + 3) {
            Some(t) => {
                target = Some(t);
                k = p + 4;
            }
            None => {}
        }
    }
    if target.is_none() && at(ts, p + 2, &Token::OpenParen) {
        let (ps, m) = parse_params(ts, p + 3, false);
        if at(ts, m, &Token::CloseParen) {
            params = Some(ps);
            k = m + 1;
        }
    }
    if !at(ts, k, &Token::OpenBrace) {
        return None;
    }
    let (rules, q) = parse_rules(ts, k + 1);
    if !at(ts, q, &Token::CloseBrace) {
        return None;
    }
    Some((WindStmt::GroupDef { public: false, name, target, params, rules }, q + 1))
}

/// `group @ target -> { fields }`, with an optional semicolon.
fn parse_apply(ts: &[WindSpannedToken], p: usize) -> (r: Option<(WindStmt, usize)>)
    requires
        p <= ts.len(),
    ensures
        match r {
            Some(x) => p < x.1 <= ts.len() && d_stmt(ts@, p as int, x.1 as int, x.0),
            None => true,
        },
        stmt_res(r) == peg_apply(ts@, p as int),
{
    let group = match ident(ts, p) {
        Some(n) => n,
        None => {
            return None;
        }
    };
    if !at(ts, p + 1, &Token::At) {
        return None;
    }
    let target = match ident(ts, p + 2) {
        Some(n) => n,
        None => {
            return None;
        }
    };
    if !(at(ts, p + 3, &Token::Arrow) && at(ts, p + 4, &Token::OpenBrace)) {
        return None;
    }
    let (fields, k) = parse_idents(ts, p + 5);
    if !at(ts, k, &Token::CloseBrace) {
        return None;
    }
    let j = if at(ts, k + 1, &Token::Semicolon) { k + 2 } else { k + 1 };
    Some((WindStmt::Apply { group, target, fields }, j))
}

/// `tag name = { statements };`, which declares the tag as a variable holding it.
#[verifier::rlimit(100)]
#[verifier::spinoff_prover]
fn parse_tag_def(ts: &[WindSpannedToken], p: usize) -> (r: Option<(WindStmt, usize)>)
    requires
        p <= ts.len(),
    ensures
        match r {
            Some(x) => p < x.1 <= ts.len() && d_stmt(ts@, p as int, x.1 as int, x.0),
            None => true,
        },
        stmt_res(r) == peg_tag_def(ts@, p as int),
    decreases ts.len() - p, 1nat,
{
    if !at(ts, p, &Token::Tag) {
        return None;
    }
    let name = match ident(ts, p + 1) {
        Some(n) => n,
        None => {
            return None;
        }
    };
    if !(at(ts, p + 2, &Token::Equal) && at(ts, p + 3, &Token::OpenBrace)) {
        return None;
    }
    let (body, q) = parse_stmts(ts, p + 4);
    if !(at(ts, q, &Token::CloseBrace) && at(ts, q + 1, &Token::Semicolon)) {
        return None;
    }
    let ghost gb = body@;
    let value = WindExpr::TagExpr { name: name.clone(), body };
    let res = WindStmt::Let { name, ty: None, value: Box::new(value) };
    proof {
        assert(peg_stmts(ts@, p + 4) == (stmts_v(gb), q as int));
        assert(expr_v(value) == ExprV::TagExpr { name: name@, body: stmts_v(gb) });
        assert(stmt_v(res) == StmtV::Let { name: name@, ty: None, value: ExprV::TagExpr { name: name@, body: stmts_v(gb) } });
    }
    Some((res, q + 2))
}

/// `const` or `constatic`, a name, `:` type, `=` value and `;`.
fn parse_const_def(ts: &[WindSpannedToken], p: usize, is_const: bool) -> (r: Option<(WindStmt, usize)>)
    requires
        p <= ts.len(),
    ensures
        match r {
            Some(x) => p < x.1 <= ts.len() && d_stmt(ts@, p as int, x.1 as int, x.0),
            None => true,
        },
        stmt_res(r) == peg_const_def(ts@, p as int, is_const),
{
    let kw = if is_const { Token::Const } else { Token::Constatic };
    if !at(ts, p, &kw) {
        return None;
    }
    let name = match ident(ts, p + 1) {
        Some(n) => n,
        None => {
            return None;
        }
    };
    if !at(ts, p + 2, &Token::Colon) {
        return None;
    }
    let (ty, k) = match parse_type(ts, p + 3) {
        Some(x) => x,
        None => {
            return None;
        }
    };
    if !at(ts, k, &Token::Equal) {
        return None;
    }
    let (value, m) = match parse_et(ts, k + 1) {
        Some(x) => x,
        None => {
            return None;
        }
    };
    if !at(ts, m, &Token::Semicolon) {
        return None;
    }
    let ghost gt = ty;
    let s = if is_const {
        WindStmt::ConstDef { name, ty, value: Box::new(value) }
    } else {
        WindStmt::ConstaticDef { name, ty, value: Box::new(value) }
    };
    proof {
        assert(d_type(ts@, p + 3, k as int, gt));
    }
    Some((s, m + 1))
}

/// `elif` branches, one after the other.
fn parse_elifs(ts: &[WindSpannedToken], p: usize) -> (r: (Vec<(WindExpr, WindStmt)>, usize))
    requires
        p <= ts.len(),
    ensures
        p <= r.1 <= ts.len(),
        d_elifs(ts@, p as int, r.1 as int, r.0@),
        (elifs_v(r.0@), r.1 as int) == peg_elifs(ts@, p as int),
    decreases ts.len() - p, 1nat,
{
    let mut v: Vec<(WindExpr, WindStmt)> = Vec::new();
    let mut q = p;
    assert(elifs_v(v@) =~= Seq::empty());
    loop
        invariant
            p <= q <= ts.len(),
            d_elifs(ts@, p as int, q as int, v@),
            peg_elifs(ts@, p as int) == peg_elifs_more(ts@, elifs_v(v@), q as int),
        ensures
            p <= q <= ts.len(),
            d_elifs(ts@, p as int, q as int, v@),
            (elifs_v(v@), q as int) == peg_elifs(ts@, p as int),
        decreases ts.len() - q,
    {
        if at(ts, q, &Token::Elif) {
            match parse_expr(ts, q + 1) {
                Some((c, k)) => {
                    match parse_block(ts, k) {
                        Some((b, j)) => {
                            let ghost before = v@;
                            let ghost gc = c;
                            let ghost gb = b;
                            v.push((c, b));
                            proof {
                                lemma_elifs_v_push(before, (gc, gb));
                                assert(v@ =~= before.push((gc, gb)));
                                assert(v@.drop_last() =~= before);
                                assert(d_elifs(ts@, p as int, q as int, v@.drop_last()));
                                assert(d_expr(ts@, q + 1, k as int, gc));
                                assert(v@.last() == (gc, gb));
                                assert(v@.last().0 == gc);
                                assert(v@.last().1 == gb);
                                assert(d_stmt(ts@, k as int, j as int, gb));
                                assert(gb is Block);
                                assert(exists|m: int| q + 1 < m < j && #[trigger] d_expr(ts@, q + 1, m, v@.last().0)
                                    && d_stmt(ts@, m, j as int, v@.last().1) && v@.last().1 is Block);
                                assert(tk(ts@, q as int, Token::Elif));
                                assert(p <= q < j);
                                assert(v@.len() > 0);
                            }
                            q = j;
                            continue;
                        }
                        None => {}
                    }
                }
                None => {}
            }
        }
        break;
    }
    (v, q)
}

/// `if` condition block, `elif` branches and an optional `else` block.
#[verifier::rlimit(100)]
#[verifier::spinoff_prover]
fn parse_if_stmt(ts: &[WindSpannedToken], p: usize) -> (r: Option<(WindStmt, usize)>)
    requires
        p <= ts.len(),
    ensures
        match r {
            Some(x) => p < x.1 <= ts.len() && d_stmt(ts@, p as int, x.1 as int, x.0),
            None => true,
        },
        stmt_res(r) == peg_if_stmt(ts@, p as int),
    decreases ts.len() - p, 1nat,
{
    if !at(ts, p, &Token::If) {
        return None;
    }
    let (condition, k) = match parse_expr(ts, p + 1) {
        Some(x) => x,
        None => {
            return None;
        }
    };
    let (then_branch, m) = match parse_block(ts, k) {
        Some(x) => x,
        None => {
            return None;
        }
    };
    let (elif_branches, q) = parse_elifs(ts, m);
    let ghost gc = condition;
    let ghost gt = then_branch;
    proof {
        assert(d_expr(ts@, p + 1, k as int, gc));
        assert(boundary(ts@, m as int));
        assert(boundary(ts@, q as int));
    }
    if at(ts, q, &Token::Else) {
        match parse_block(ts, q + 1) {
            Some((b, j)) => {
                return Some((WindStmt::If {
                    condition: Box::new(condition),
                    then_branch: Box::new(then_branch),
                    elif_branches,
                    else_branch: Some(Box::new(b)),
                }, j));
            }
            None => {}
        }
    }
    Some((WindStmt::If {
        condition: Box::new(condition),
        then_branch: Box::new(then_branch),
        elif_branches,
        else_branch: None,
    }, q))
}

/// An optional expression.
fn parse_opt_expr(ts: &[WindSpannedToken], p: usize) -> (r: (Option<Box<WindExpr>>, usize))
    requires
        p <= ts.len(),
    ensures
        p <= r.1 <= ts.len(),
        opt_expr(ts@, p as int, r.1 as int, r.0),
        (opt_box_v(r.0), r.1 as int) == peg_opt_expr(ts@, p as int),
{
    match parse_expr(ts, p) {
        Some((e, q)) => (Some(Box::new(e)), q),
        None => (None, p),
    }
}

/// The head of a counting `for`: `for (name [: type] [= value]` up to the first `;`. It gives the
/// first expression (without a value, the name with its type) and where the `;` stands.
fn parse_for_head(ts: &[WindSpannedToken], p: usize) -> (r: Option<(Box<WindExpr>, usize, Ghost<(int, Option<WindType>)>)>)
    requires
        p <= ts.len(),
    ensures
        match r {
            Some((x, k2, g)) => p + 3 <= g@.0 <= k2 < ts.len() && tk(ts@, k2 as int, Token::Semicolon)
                && tk(ts@, p as int, Token::For) && tk(ts@, p + 1, Token::OpenParen)
                && (ts@[p + 2].0 matches Token::Identifier(name) && annot(ts@, p + 3, g@.0, g@.1)
                    && ((tk(ts@, g@.0, Token::Equal) && d_expr(ts@, g@.0 + 1, k2 as int, *x))
                        || (k2 == g@.0 && *x == loop_var_expr(name, g@.1))))
                && peg_for_head(ts@, p as int) == Some((expr_v(*x), k2 as int)),
            None => peg_for_head(ts@, p as int) is None,
        },
{
    if !(at(ts, p, &Token::For) && at(ts, p + 1, &Token::OpenParen)) {
        return None;
    }
    let name = match ident(ts, p + 2) {
        Some(n) => n,
        None => {
            return None;
        }
    };
    let (ty, k1) = parse_annot(ts, p + 3);
    let ghost gty = ty;
    let ghost gname = name;
    if at(ts, k1, &Token::Equal) {
        match parse_et(ts, k1 + 1) {
            Some((x, q)) => {
                if !at(ts, q, &Token::Semicolon) {
                    return None;
                }
                proof {
                    assert(peg_annot(ts@, p + 3) == (opt_type_v(gty), k1 as int));
                    assert(peg_et(ts@, k1 + 1) == Some((expr_v(x), q as int)));
                }
                return Some((Box::new(x), q, Ghost((k1 as int, gty))));
            }
            None => {}
        }
    }
    if !at(ts, k1, &Token::Semicolon) {
        return None;
    }
    let var = WindExpr::Identifier(name);
    let first = match ty {
        Some(t) => Box::new(WindExpr::TypeExpr { expr: Box::new(var), ty: t }),
        None => Box::new(var),
    };
    proof {
        assert(*first == loop_var_expr(gname, gty));
        assert(peg_annot(ts@, p + 3) == (opt_type_v(gty), k1 as int));
        match gty {
            Some(t) => {
                assert(expr_v(WindExpr::Identifier(gname)) == ExprV::Identifier(gname@));
                assert(expr_v(*first) == ExprV::TypeExpr { expr: Box::new(ExprV::Identifier(gname@)), ty: type_v(t) });
            },
            None => {
                assert(expr_v(*first) == ExprV::Identifier(gname@));
            },
        }
    }
    Some((first, k1, Ghost((k1 as int, gty))))
}

/// A counting `for` whose parts each spell what they hold spells the whole statement.
proof fn lemma_d_counting_for(ts: Toks, p: int, j: int, s: WindStmt, k1: int, ty: Option<WindType>, k2: int, k3: int, k4: int)
    requires
        s matches WindStmt::For { init: Some(x), condition, update, body } && tk(ts, p, Token::For)
            && tk(ts, p + 1, Token::OpenParen) && 0 <= p && p + 3 <= k1 <= k2 && k2 < k3 && k3 < k4 && k4 + 1 < j <= ts.len()
            && (ts[p + 2].0 matches Token::Identifier(name) && annot(ts, p + 3, k1, ty)
                && ((tk(ts, k1, Token::Equal) && d_expr(ts, k1 + 1, k2, *x)) || (k2 == k1 && *x == loop_var_expr(name, ty))))
            && tk(ts, k2, Token::Semicolon) && opt_expr(ts, k2 + 1, k3, condition) && tk(ts, k3, Token::Semicolon)
            && opt_expr(ts, k3 + 1, k4, update) && tk(ts, k4, Token::CloseParen) && d_stmt(ts, k4 + 1, j, *body)
            && *body is Block,
    ensures
        d_stmt(ts, p, j, s),
{
}

/// What follows the head of a counting `for`, from `k` (just past its first `;`): an optional
/// condition, `;`, an optional update, `)` and a block.
fn parse_for_rest(ts: &[WindSpannedToken], k: usize)
    -> (r: Option<(Option<Box<WindExpr>>, Option<Box<WindExpr>>, WindStmt, usize, Ghost<(int, int)>)>)
    requires
        k <= ts.len(),
    ensures
        match r {
            Some((c, u, b, j, g)) => k <= g@.0 && g@.0 < g@.1 && g@.1 + 1 < j <= ts.len()
                && opt_expr(ts@, k as int, g@.0, c) && tk(ts@, g@.0, Token::Semicolon)
                && opt_expr(ts@, g@.0 + 1, g@.1, u) && tk(ts@, g@.1, Token::CloseParen)
                && d_stmt(ts@, g@.1 + 1, j as int, b) && b is Block
                && peg_for_rest(ts@, k as int) == Some((opt_box_v(c), opt_box_v(u), stmt_v(b), j as int)),
            None => peg_for_rest(ts@, k as int) is None,
        },
    decreases ts.len() - k, 1nat,
{
    let (condition, k3) = parse_opt_expr(ts, k);
    if !at(ts, k3, &Token::Semicolon) {
        return None;
    }
    let (update, k4) = parse_opt_expr(ts, k3 + 1);
    if !at(ts, k4, &Token::CloseParen) {
        return None;
    }
    let (body, j) = match parse_block(ts, k4 + 1) {
        Some(x) => x,
        None => {
            return None;
        }
    };
    Some((condition, update, body, j, Ghost((k3 as int, k4 as int))))
}

/// `for (name [: type] [= value]; [condition]; [update]) block`.
#[verifier::rlimit(50)]
#[verifier::spinoff_prover]
fn parse_counting_for(ts: &[WindSpannedToken], p: usize) -> (r: Option<(WindStmt, usize)>)
    requires
        p <= ts.len(),
    ensures
        match r {
            Some(x) => p < x.1 <= ts.len() && d_stmt(ts@, p as int, x.1 as int, x.0),
            None => true,
        },
        stmt_res(r) == peg_counting_for(ts@, p as int),
    decreases ts.len() - p, 1nat,
{
    proof {
        lemma_counting_for_parts(ts@, p as int);
    }
    let (init, k2, gh) = match parse_for_head(ts, p) {
        Some(x) => x,
        None => {
            return None;
        }
    };
    let (condition, update, body, j, gk) = match parse_for_rest(ts, k2 + 1) {
        Some(x) => x,
        None => {
            return None;
        }
    };
    let ghost gc = condition;
    let ghost gu = update;
    let ghost gb = body;
    let ghost gi = init;
    let res = WindStmt::For { init: Some(init), condition, update, body: Box::new(body) };
    proof {
        assert(opt_box_v(Some(gi)) == Some(expr_v(*gi)));
        lemma_d_counting_for(ts@, p as int, j as int, res, gh@.0, gh@.1, k2 as int, gk@.0, gk@.1);
        assert(stmt_v(res) == StmtV::For { init: Some(expr_v(*init)), condition: opt_box_v(gc), update: opt_box_v(gu),
            body: Box::new(stmt_v(gb)) });
    }
    Some((res, j))
}

/// `for (name: iterable) block`.
fn parse_for_in(ts: &[WindSpannedToken], p: usize) -> (r: Option<(WindStmt, usize)>)
    requires
        p <= ts.len(),
    ensures
        match r {
            Some(x) => p < x.1 <= ts.len() && d_stmt(ts@, p as int, x.1 as int, x.0),
            None => true,
        },
        stmt_res(r) == peg_for_in(ts@, p as int),
    decreases ts.len() - p, 1nat,
{
    if !(at(ts, p, &Token::For) && at(ts, p + 1, &Token::OpenParen)) {
        return None;
    }
    let var = match ident(ts, p + 2) {
        Some(n) => n,
        None => {
            return None;
        }
    };
    if !at(ts, p + 3, &Token::Colon) {
        return None;
    }
    let (iterable, k) = match parse_expr(ts, p + 4) {
        Some(x) => x,
        None => {
            return None;
        }
    };
    if !at(ts, k, &Token::CloseParen) {
        return None;
    }
    let (body, j) = match parse_block(ts, k + 1) {
        Some(x) => x,
        None => {
            return None;
        }
    };
    let ghost gi = iterable;
    proof {
        assert(d_expr(ts@, p + 4, k as int, gi));
    }
    Some((WindStmt::ForIn { var, iterable: Box::new(iterable), body: Box::new(body) }, j))
}

/// `while` condition block.
fn parse_while(ts: &[WindSpannedToken], p: usize) -> (r: Option<(WindStmt, usize)>)
    requires
        p <= ts.len(),
    ensures
        match r {
            Some(x) => p < x.1 <= ts.len() && d_stmt(ts@, p as int, x.1 as int, x.0),
            None => true,
        },
        stmt_res(r) == peg_while(ts@, p as int),
    decreases ts.len() - p, 1nat,
{
    if !at(ts, p, &Token::While) {
        return None;
    }
    let (condition, k) = match parse_expr(ts, p + 1) {
        Some(x) => x,
        None => {
            return None;
        }
    };
    let (body, j) = match parse_block(ts, k) {
        Some(x) => x,
        None => {
            return None;
        }
    };
    let ghost gc = condition;
    proof {
        assert(d_expr(ts@, p + 1, k as int, gc));
    }
    Some((WindStmt::While { condition: Box::new(condition), body: Box::new(body) }, j))
}

/// The end of an optional semicolon at `m`.
fn opt_semicolon(ts: &[WindSpannedToken], m: usize) -> (j: usize)
    requires
        m <= ts.len(),
    ensures
        opt_semi(ts@, m as int, j as int),
        m <= j <= ts.len(),
        j == peg_opt_semi(ts@, m as int),
{
    if at(ts, m, &Token::Semicolon) {
        m + 1
    } else {
        m
    }
}

/// `return`, an optional value and an optional semicolon.
fn parse_return(ts: &[WindSpannedToken], p: usize) -> (r: Option<(WindStmt, usize)>)
    requires
        p <= ts.len(),
    ensures
        match r {
            Some(x) => p < x.1 <= ts.len() && d_stmt(ts@, p as int, x.1 as int, x.0),
            None => true,
        },
        stmt_res(r) == peg_return(ts@, p as int),
{
    if !at(ts, p, &Token::Return) {
        return None;
    }
    let r0 = parse_et(ts, p + 1);
    let ghost g0 = r0;
    let (e, m) = match r0 {
        Some((x, q)) => (Some(Box::new(x)), q),
        None => (None, p + 1),
    };
    let ghost ge = e;
    let j = opt_semicolon(ts, m);
    proof {
        assert(opt_expr(ts@, p + 1, m as int, ge));
        match g0 {
            Some((x, q)) => {
                assert(opt_box_v(ge) == Some(expr_v(x)));
            },
            None => {
                assert(opt_box_v(ge) == None::<ExprV>);
            },
        }
    }
    Some((WindStmt::Return(e), j))
}

/// A name, an optional type, `=` a value and an optional semicolon.
fn parse_let(ts: &[WindSpannedToken], p: usize) -> (r: Option<(WindStmt, usize)>)
    requires
        p <= ts.len(),
    ensures
        match r {
            Some(x) => p < x.1 <= ts.len() && d_stmt(ts@, p as int, x.1 as int, x.0),
            None => true,
        },
        stmt_res(r) == peg_let(ts@, p as int),
{
    let name = match ident(ts, p) {
        Some(n) => n,
        None => {
            return None;
        }
    };
    let (ty, k) = parse_annot(ts, p + 1);
    if !at(ts, k, &Token::Equal) {
        return None;
    }
    let (value, m) = match parse_et(ts, k + 1) {
        Some(x) => x,
        None => {
            return None;
        }
    };
    let j = opt_semicolon(ts, m);
    let ghost gt = ty;
    let ghost gv = value;
    proof {
        assert(annot(ts@, p + 1, k as int, gt));
        assert(d_expr(ts@, k + 1, m as int, gv));
    }
    Some((WindStmt::Let { name, ty, value: Box::new(value) }, j))
}

/// A target, an assignment operator, a value and an optional semicolon.
fn parse_assign(ts: &[WindSpannedToken], p: usize) -> (r: Option<(WindStmt, usize)>)
    requires
        p <= ts.len(),
    ensures
        match r {
            Some(x) => p < x.1 <= ts.len() && d_stmt(ts@, p as int, x.1 as int, x.0),
            None => true,
        },
        stmt_res(r) == peg_assign(ts@, p as int),
{
    let (target, k) = match parse_expr(ts, p) {
        Some(x) => x,
        None => {
            return None;
        }
    };
    let op = if at(ts, k, &Token::LeftAssign) {
        WindAssignOp::LeftAbs
    } else if at(ts, k, &Token::RightAssign) {
        WindAssignOp::RightAbs
    } else if at(ts, k, &Token::Equal) {
        WindAssignOp::Direct
    } else {
        return None;
    };
    let (value, m) = match parse_et(ts, k + 1) {
        Some(x) => x,
        None => {
            return None;
        }
    };
    let j = opt_semicolon(ts, m);
    let ghost gt = target;
    let ghost gv = value;
    proof {
        assert(d_expr(ts@, p as int, k as int, gt));
        assert(d_expr(ts@, k + 1, m as int, gv));
    }
    Some((WindStmt::Assignment { target: Box::new(target), op, value: Box::new(value) }, j))
}

/// An expression, with an optional type, as a statement, with an optional semicolon.
fn parse_expr_stmt(ts: &[WindSpannedToken], p: usize) -> (r: Option<(WindStmt, usize)>)
    requires
        p <= ts.len(),
    ensures
        match r {
            Some(x) => p < x.1 <= ts.len() && d_stmt(ts@, p as int, x.1 as int, x.0),
            None => true,
        },
        stmt_res(r) == peg_expr_stmt(ts@, p as int),
{
    let (e, m) = match parse_et(ts, p) {
        Some(x) => x,
        None => {
            return None;
        }
    };
    let j = opt_semicolon(ts, m);
    let ghost ge = e;
    proof {
        assert(d_expr(ts@, p as int, m as int, ge));
    }
    Some((WindStmt::Expr(Box::new(e)), j))
}

/// A statement or definition: the first of the statement forms that parses here, in the order
/// functions, structs, enums, types, traits, extras, impls, groups, applies, tags, constants,
/// `if`, `for`, `while`, `return`, variables, assignments and expressions.
fn parse_stmt(ts: &[WindSpannedToken], p: usize) -> (r: Option<(WindStmt, usize)>)
    requires
        p <= ts.len(),
    ensures
        match r {
            Some(x) => p < x.1 <= ts.len() && d_stmt(ts@, p as int, x.1 as int, x.0),
            None => true,
        },
        stmt_res(r) == peg_stmt(ts@, p as int),
    decreases ts.len() - p, 2nat,
{
    proof {
        reveal(peg_stmt);
    }
    match parse_fn_def(ts, p) {
        Some(x) => {
            return Some(x);
        }
        None => {}
    }
    match parse_struct_def(ts, p) {
        Some(x) => {
            return Some(x);
        }
        None => {}
    }
    match parse_enum_def(ts, p) {
        Some(x) => {
            return Some(x);
        }
        None => {}
    }
    match parse_type_def(ts, p) {
        Some(x) => {
            return Some(x);
        }
        None => {}
    }
    match parse_trait_def(ts, p) {
        Some(x) => {
            return Some(x);
        }
        None => {}
    }
    match parse_extra_def(ts, p) {
        Some(x) => {
            return Some(x);
        }
        None => {}
    }
    match parse_impl_def(ts, p) {
        Some(x) => {
            return Some(x);
        }
        None => {}
    }
    match parse_group_def(ts, p) {
        Some(x) => {
            return Some(x);
        }
        None => {}
    }
    match parse_apply(ts, p) {
        Some(x) => {
            return Some(x);
        }
        None => {}
    }
    match parse_tag_def(ts, p) {
        Some(x) => {
            return Some(x);
        }
        None => {}
    }
    match parse_const_def(ts, p, true) {
        Some(x) => {
            return Some(x);
        }
        None => {}
    }
    match parse_const_def(ts, p, false) {
        Some(x) => {
            return Some(x);
        }
        None => {}
    }
    match parse_if_stmt(ts, p) {
        Some(x) => {
            return Some(x);
        }
        None => {}
    }
    match parse_counting_for(ts, p) {
        Some(x) => {
            return Some(x);
        }
        None => {}
    }
    match parse_for_in(ts, p) {
        Some(x) => {
            return Some(x);
        }
        None => {}
    }
    match parse_while(ts, p) {
        Some(x) => {
            return Some(x);
        }
        None => {}
    }
    match parse_return(ts, p) {
        Some(x) => {
            return Some(x);
        }
        None => {}
    }
    match parse_let(ts, p) {
        Some(x) => {
            return Some(x);
        }
        None => {}
    }
    match parse_assign(ts, p) {
        Some(x) => {
            return Some(x);
        }
        None => {}
    }
    parse_expr_stmt(ts, p)
}

} // verus!

verus! {

/// A copy of a token, equal to it.
fn copy_token(t: &Token) -> (r: Token)
    ensures
        r == *t,
{
    match t {
        Token::Fn => Token::Fn,
        Token::Struct => Token::Struct,
        Token::Enum => Token::Enum,
        Token::Extra => Token::Extra,
        Token::Impl => Token::Impl,
        Token::Trait => Token::Trait,
        Token::Const => Token::Const,
        Token::Constatic => Token::Constatic,
        Token::Which => Token::Which,
        Token::Where => Token::Where,
        Token::Type => Token::Type,
        Token::Group => Token::Group,
        Token::In => Token::In,
        Token::Pub => Token::Pub,
        Token::Public => Token::Public,
        Token::Return => Token::Return,
        Token::For => Token::For,
        Token::While => Token::While,
        Token::If => Token::If,
        Token::Elif => Token::Elif,
        Token::Else => Token::Else,
        Token::To => Token::To,
        Token::Tag => Token::Tag,
        Token::SelfKw => Token::SelfKw,
        Token::ThisKw => Token::ThisKw,
        Token::ItKw => Token::ItKw,
        Token::TrueKw => Token::TrueKw,
        Token::FalseKw => Token::FalseKw,
        Token::NoneKw => Token::NoneKw,
        Token::LessEqual => Token::LessEqual,
        Token::GreaterEqual => Token::GreaterEqual,
        Token::NotEqual => Token::NotEqual,
        Token::NotLess => Token::NotLess,
        Token::NotGreater => Token::NotGreater,
        Token::EqualEqual => Token::EqualEqual,
        Token::LeftAssign => Token::LeftAssign,
        Token::RightAssign => Token::RightAssign,
        Token::DoubleSlash => Token::DoubleSlash,
        Token::LeftShift => Token::LeftShift,
        Token::RightShift => Token::RightShift,
        Token::DoubleColon => Token::DoubleColon,
        Token::Arrow => Token::Arrow,
        Token::AndAnd => Token::AndAnd,
        Token::OrOr => Token::OrOr,
        Token::Dot => Token::Dot,
        Token::Comma => Token::Comma,
        Token::Semicolon => Token::Semicolon,
        Token::Colon => Token::Colon,
        Token::OpenParen => Token::OpenParen,
        Token::CloseParen => Token::CloseParen,
        Token::OpenBracket => Token::OpenBracket,
        Token::CloseBracket => Token::CloseBracket,
        Token::OpenBrace => Token::OpenBrace,
        Token::CloseBrace => Token::CloseBrace,
        Token::At => Token::At,
        Token::Bang => Token::Bang,
        Token::Minus => Token::Minus,
        Token::Slash => Token::Slash,
        Token::Percent => Token::Percent,
        Token::Star => Token::Star,
        Token::Plus => Token::Plus,
        Token::Amp => Token::Amp,
        Token::Pipe => Token::Pipe,
        Token::Caret => Token::Caret,
        Token::Equal => Token::Equal,
        Token::Less => Token::Less,
        Token::Greater => Token::Greater,
        Token::FloatLiteral(s) => Token::FloatLiteral(s.clone()),
        Token::IntLiteral(n) => Token::IntLiteral(*n),
        Token::StringLiteral(s) => Token::StringLiteral(s.clone()),
        Token::CharLiteral(s) => Token::CharLiteral(s.clone()),
        Token::Identifier(s) => Token::Identifier(s.clone()),
        Token::LineComment => Token::LineComment,
    }
}

/// How a token is shown in parse errors: its variant, with its text or value.
pub open spec fn token_shown(t: Token) -> Seq<char> {
    match t {
        Token::Fn => "Fn"@,
        Token::Struct => "Struct"@,
        Token::Enum => "Enum"@,
        Token::Extra => "Extra"@,
        Token::Impl => "Impl"@,
        Token::Trait => "Trait"@,
        Token::Const => "Const"@,
        Token::Constatic => "Constatic"@,
        Token::Which => "Which"@,
        Token::Where => "Where"@,
        Token::Type => "Type"@,
        Token::Group => "Group"@,
        Token::In => "In"@,
        Token::Pub => "Pub"@,
        Token::Public => "Public"@,
        Token::Return => "Return"@,
        Token::For => "For"@,
        Token::While => "While"@,
        Token::If => "If"@,
        Token::Elif => "Elif"@,
        Token::Else => "Else"@,
        Token::To => "To"@,
        Token::Tag => "Tag"@,
        Token::SelfKw => "SelfKw"@,
        Token::ThisKw => "ThisKw"@,
        Token::ItKw => "ItKw"@,
        Token::TrueKw => "TrueKw"@,
        Token::FalseKw => "FalseKw"@,
        Token::NoneKw => "NoneKw"@,
        Token::LessEqual => "LessEqual"@,
        Token::GreaterEqual => "GreaterEqual"@,
        Token::NotEqual => "NotEqual"@,
        Token::NotLess => "NotLess"@,
        Token::NotGreater => "NotGreater"@,
        Token::EqualEqual => "EqualEqual"@,
        Token::LeftAssign => "LeftAssign"@,
        Token::RightAssign => "RightAssign"@,
        Token::DoubleSlash => "DoubleSlash"@,
        Token::LeftShift => "LeftShift"@,
        Token::RightShift => "RightShift"@,
        Token::DoubleColon => "DoubleColon"@,
        Token::Arrow => "Arrow"@,
        Token::AndAnd => "AndAnd"@,
        Token::OrOr => "OrOr"@,
        Token::Dot => "Dot"@,
        Token::Comma => "Comma"@,
        Token::Semicolon => "Semicolon"@,
        Token::Colon => "Colon"@,
        Token::OpenParen => "OpenParen"@,
        Token::CloseParen => "CloseParen"@,
        Token::OpenBracket => "OpenBracket"@,
        Token::CloseBracket => "CloseBracket"@,
        Token::OpenBrace => "OpenBrace"@,
        Token::CloseBrace => "CloseBrace"@,
        Token::At => "At"@,
        Token::Bang => "Bang"@,
        Token::Minus => "Minus"@,
        Token::Slash => "Slash"@,
        Token::Percent => "Percent"@,
        Token::Star => "Star"@,
        Token::Plus => "Plus"@,
        Token::Amp => "Amp"@,
        Token::Pipe => "Pipe"@,
        Token::Caret => "Caret"@,
        Token::Equal => "Equal"@,
        Token::Less => "Less"@,
        Token::Greater => "Greater"@,
        Token::FloatLiteral(s) => "FloatLiteral(\""@ + s@ + "\")"@,
        Token::IntLiteral(n) => "IntLiteral("@ + crate::text::signed_decimal(n as int) + ")"@,
        Token::StringLiteral(s) => "StringLiteral(\""@ + s@ + "\")"@,
        Token::CharLiteral(s) => "CharLiteral(\""@ + s@ + "\")"@,
        Token::Identifier(s) => "Identifier(\""@ + s@ + "\")"@,
        Token::LineComment => "LineComment"@,
    }
}

/// How a token is shown in parse errors.
fn show_token(t: &Token) -> (r: String)
    ensures
        r@ == token_shown(*t),
{
    match t {
        Token::Fn => string_of("Fn"),
        Token::Struct => string_of("Struct"),
        Token::Enum => string_of("Enum"),
        Token::Extra => string_of("Extra"),
        Token::Impl => string_of("Impl"),
        Token::Trait => string_of("Trait"),
        Token::Const => string_of("Const"),
        Token::Constatic => string_of("Constatic"),
        Token::Which => string_of("Which"),
        Token::Where => string_of("Where"),
        Token::Type => string_of("Type"),
        Token::Group => string_of("Group"),
        Token::In => string_of("In"),
        Token::Pub => string_of("Pub"),
        Token::Public => string_of("Public"),
        Token::Return => string_of("Return"),
        Token::For => string_of("For"),
        Token::While => string_of("While"),
        Token::If => string_of("If"),
        Token::Elif => string_of("Elif"),
        Token::Else => string_of("Else"),
        Token::To => string_of("To"),
        Token::Tag => string_of("Tag"),
        Token::SelfKw => string_of("SelfKw"),
        Token::ThisKw => string_of("ThisKw"),
        Token::ItKw => string_of("ItKw"),
        Token::TrueKw => string_of("TrueKw"),
        Token::FalseKw => string_of("FalseKw"),
        Token::NoneKw => string_of("NoneKw"),
        Token::LessEqual => string_of("LessEqual"),
        Token::GreaterEqual => string_of("GreaterEqual"),
        Token::NotEqual => string_of("NotEqual"),
        Token::NotLess => string_of("NotLess"),
        Token::NotGreater => string_of("NotGreater"),
        Token::EqualEqual => string_of("EqualEqual"),
        Token::LeftAssign => string_of("LeftAssign"),
        Token::RightAssign => string_of("RightAssign"),
        Token::DoubleSlash => string_of("DoubleSlash"),
        Token::LeftShift => string_of("LeftShift"),
        Token::RightShift => string_of("RightShift"),
        Token::DoubleColon => string_of("DoubleColon"),
        Token::Arrow => string_of("Arrow"),
        Token::AndAnd => string_of("AndAnd"),
        Token::OrOr => string_of("OrOr"),
        Token::Dot => string_of("Dot"),
        Token::Comma => string_of("Comma"),
        Token::Semicolon => string_of("Semicolon"),
        Token::Colon => string_of("Colon"),
        Token::OpenParen => string_of("OpenParen"),
        Token::CloseParen => string_of("CloseParen"),
        Token::OpenBracket => string_of("OpenBracket"),
        Token::CloseBracket => string_of("CloseBracket"),
        Token::OpenBrace => string_of("OpenBrace"),
        Token::CloseBrace => string_of("CloseBrace"),
        Token::At => string_of("At"),
        Token::Bang => string_of("Bang"),
        Token::Minus => string_of("Minus"),
        Token::Slash => string_of("Slash"),
        Token::Percent => string_of("Percent"),
        Token::Star => string_of("Star"),
        Token::Plus => string_of("Plus"),
        Token::Amp => string_of("Amp"),
        Token::Pipe => string_of("Pipe"),
        Token::Caret => string_of("Caret"),
        Token::Equal => string_of("Equal"),
        Token::Less => string_of("Less"),
        Token::Greater => string_of("Greater"),
        Token::FloatLiteral(s) => {
            let mut r = string_of("FloatLiteral(\"");
            push_str(&mut r, s.as_str());
            push_str(&mut r, "\")");
            r
        }
        Token::StringLiteral(s) => {
            let mut r = string_of("StringLiteral(\"");
            push_str(&mut r, s.as_str());
            push_str(&mut r, "\")");
            r
        }
        Token::CharLiteral(s) => {
            let mut r = string_of("CharLiteral(\"");
            push_str(&mut r, s.as_str());
            push_str(&mut r, "\")");
            r
        }
        Token::Identifier(s) => {
            let mut r = string_of("Identifier(\"");
            push_str(&mut r, s.as_str());
            push_str(&mut r, "\")");
            r
        }
        Token::IntLiteral(n) => {
            let mut r = string_of("IntLiteral(");
            let d = i64_to_string(*n);
            push_str(&mut r, d.as_str());
            push_str(&mut r, ")");
            r
        }
        Token::LineComment => string_of("LineComment"),
    }
}

/// The byte `o` can start a slice of `source`: it is a character boundary, or past the end.
pub open spec fn offset_ok(source: &str, o: usize) -> bool {
    o >= vstd::utf8::encode_utf8(source@).len() || vstd::utf8::is_char_boundary(vstd::utf8::encode_utf8(source@), o as int)
}

/// The message of the parse error at the token `t`, which starts on line `line`, column `col`.
pub open spec fn parse_error_text(line: usize, col: usize, t: Token) -> Seq<char> {
    "语法错误 #0 ["@ + crate::text::decimal(line as nat) + ":"@ + crate::text::decimal(col as nat) + "]: 发现 "@
        + token_shown(t) + ", 期望 <未知>"@
}

impl WindParser {
    /// Parses the tokens of `source` into a program: statements, one after the other, up to the
    /// last token. When the statements stop before the last token, the error points at the
    /// token where they stopped.
    pub fn parse(source: &str, tokens: &[WindSpannedToken]) -> (r: Result<WindProgram, Vec<WindParseError>>)
        requires
            vstd::utf8::encode_utf8(source@).len() < usize::MAX,
            forall|k: int| 0 <= k < tokens@.len() ==> offset_ok(source, #[trigger] tokens@[k].1.start),
        ensures
            ({
                let (sv, q) = peg_stmts(tokens@, 0);
                match r {
                    Ok(program) => q == tokens@.len() && stmts_v(program.items@) == sv
                        && d_stmts(tokens@, 0, tokens@.len() as int, program.items@),
                    Err(errors) => 0 <= q < tokens@.len() && errors@.len() == 1
                        && (exists|items: Seq<WindStmt>| #[trigger] d_stmts(tokens@, 0, q, items)) && ({
                            let e = errors@[0];
                            let lc = line_col_spec(source, tokens@[q].1.start);
                            &&& e.span == tokens@[q].1
                            &&& e.found == Some(tokens@[q].0)
                            &&& e.expected@.len() == 0
                            &&& e.message@ == parse_error_text(lc.0, lc.1, tokens@[q].0)
                        }),
                }
            }),
    {
        let (items, q) = parse_stmts(tokens, 0);
        if q == tokens.len() {
            return Ok(WindProgram { items });
        }
        let span = tokens[q].1;
        let found = copy_token(&tokens[q].0);
        let (line, col) = crate::lexer::byte_to_line_col(source, span.start);
        let mut message = string_of("语法错误 #0 [");
        let a = crate::text::u64_to_string(line as u64);
        push_str(&mut message, a.as_str());
        push_str(&mut message, ":");
        let b = crate::text::u64_to_string(col as u64);
        push_str(&mut message, b.as_str());
        push_str(&mut message, "]: 发现 ");
        let shown = show_token(&found);
        push_str(&mut message, shown.as_str());
        push_str(&mut message, ", 期望 <未知>");
        let ghost gi = items@;
        let mut errors: Vec<WindParseError> = Vec::new();
        errors.push(WindParseError { message, span, found: Some(found), expected: Vec::new() });
        proof {
            assert(d_stmts(tokens@, 0, q as int, gi));
        }
        Err(errors)
    }
}

/// The line and column of byte `o`, as `byte_to_line_col` computes them.
pub open spec fn line_col_spec(source: &str, o: usize) -> (usize, usize) {
    let bytes = vstd::utf8::encode_utf8(source@);
    let off = if o < bytes.len() { o as int } else { bytes.len() as int };
    ((crate::lexer::newlines_before(bytes, off) + 1) as usize, (off - crate::lexer::line_start(bytes, off) + 1) as usize)
}

} // verus!
