use vstd::prelude::*;
use crate::ast::WindExpr;
use crate::ast::WindProgram;
use crate::ast::WindStmt;
use crate::ast::WindStructField;
use crate::ast::WindType;
use crate::gather::GatherContext;
use crate::scope::ScopeTree;
use crate::sema::GroupRuleInfo;
use crate::sema::GroupRuleKind;
use crate::sema::SemanticError;
use crate::sema::Symbol;
use crate::text::find_bytes;
use crate::text::push_str;
use crate::text::str_eq;
use crate::text::string_of;
use crate::text::u64_to_string;

verus! {

/// A problem to report: its message, and the text whose next occurrence in the source it
/// points at, if any.
pub type Report = (Seq<char>, Option<Seq<char>>);

/// An error as the checks see it: its message and its span.
pub type ErrorView = (Seq<char>, Option<(usize, usize)>);

/// The messages and spans of a list of errors.
pub open spec fn error_views(es: Seq<SemanticError>) -> Seq<ErrorView> {
    Seq::new(es.len(), |i: int| (es[i].message@, es[i].span))
}

/// The span that a report with `label` gets when the search resumes at byte `cursor` of the
/// source, and where the next search resumes. The search starts only inside the source, and a
/// found label moves the cursor past it.
pub open spec fn span_step(source: Option<String>, cursor: usize, label: Option<Seq<char>>) -> (Option<(usize, usize)>, usize) {
    match (label, source) {
        (Some(l), Some(s)) => {
            let bytes = vstd::utf8::encode_utf8(s@);
            let lb = vstd::utf8::encode_utf8(l);
            if cursor >= bytes.len() {
                (None, cursor)
            } else {
                match crate::text::find_from(bytes, lb, cursor as int) {
                    Some(p) => (Some((p as usize, (p + lb.len()) as usize)), (p + lb.len()) as usize),
                    None => (None, cursor),
                }
            }
        }
        _ => (None, cursor),
    }
}

/// The errors that `reports` give, in order, starting the span search at `cursor`; and the
/// cursor afterwards.
pub open spec fn emit(source: Option<String>, cursor: usize, reports: Seq<Report>) -> (Seq<ErrorView>, usize)
    decreases reports.len(),
{
    if reports.len() == 0 {
        (seq![], cursor)
    } else {
        let prev = emit(source, cursor, reports.drop_last());
        let step = span_step(source, prev.1, reports.last().1);
        (prev.0.push((reports.last().0, step.0)), step.1)
    }
}

/// The message for a missing `main`.
pub open spec fn no_main_text() -> Seq<char> {
    "No 'main' function found. A Wind program must have a 'main' entry point."@
}

/// The message for a constatic value that is not a constant.
pub open spec fn not_constant_text() -> Seq<char> {
    "Constatic value must be a compile-time constant."@
}

/// What a bare top-level expression is called in messages.
pub open spec fn expr_kind_text(e: WindExpr) -> Seq<char> {
    match e {
        WindExpr::Identifier(name) => "identifier '"@ + name@ + "'"@,
        WindExpr::IntLiteral(_) => "int literal"@,
        WindExpr::FloatLiteral(_) => "float literal"@,
        WindExpr::StringLiteral(_) => "string literal"@,
        WindExpr::CharLiteral(_) => "char literal"@,
        WindExpr::BoolLiteral(_) => "bool literal"@,
        WindExpr::NoneLiteral => "None"@,
        WindExpr::Binary { .. } => "binary expression"@,
        WindExpr::Unary { .. } => "unary expression"@,
        WindExpr::Call { .. } => "function call"@,
        WindExpr::FieldAccess { .. } => "field access"@,
        WindExpr::Index { .. } => "index expression"@,
        WindExpr::ScopeRef { .. } => "scope ref"@,
        WindExpr::TypeExpr { .. } => "type expression"@,
        WindExpr::Group(_) => "group expression"@,
        WindExpr::MapLiteral(_) => "map literal"@,
        WindExpr::ArrayLiteral(_) => "array literal"@,
        WindExpr::IfExpr { .. } => "if expression"@,
        WindExpr::TagExpr { .. } => "tag expression"@,
        WindExpr::Unpack(_) => "unpack"@,
        WindExpr::StructLiteral { .. } => "struct literal"@,
    }
}

/// The reports for a value that a `constatic` must compute at compile time: literals, and
/// arrays, maps, structs and operators over such values, pass; anything else is reported, once
/// for each offending part.
pub open spec fn constant_reports(e: WindExpr) -> Seq<Report>
    decreases e,
{
    match e {
        WindExpr::IntLiteral(_) | WindExpr::FloatLiteral(_) | WindExpr::StringLiteral(_)
        | WindExpr::CharLiteral(_) | WindExpr::BoolLiteral(_) | WindExpr::NoneLiteral => seq![],
        WindExpr::ArrayLiteral(elems) => constant_list_reports(elems@),
        WindExpr::MapLiteral(pairs) => constant_pair_reports(pairs@),
        WindExpr::StructLiteral { fields, .. } => constant_field_reports(fields@),
        WindExpr::Unary { expr, .. } => constant_reports(*expr),
        WindExpr::Binary { left, right, .. } => constant_reports(*left) + constant_reports(*right),
        _ => seq![(not_constant_text(), None)],
    }
}

/// `constant_reports` over a list of values, in order.
pub open spec fn constant_list_reports(es: Seq<WindExpr>) -> Seq<Report>
    decreases es,
{
    if es.len() == 0 {
        seq![]
    } else {
        constant_list_reports(es.drop_last()) + constant_reports(es.last())
    }
}

/// `constant_reports` over the keys and values of a map literal, key before value.
pub open spec fn constant_pair_reports(ps: Seq<(WindExpr, WindExpr)>) -> Seq<Report>
    decreases ps,
{
    if ps.len() == 0 {
        seq![]
    } else {
        constant_pair_reports(ps.drop_last()) + constant_reports(ps.last().0) + constant_reports(ps.last().1)
    }
}

/// `constant_reports` over the values of a struct literal.
pub open spec fn constant_field_reports(fs: Seq<(String, WindExpr)>) -> Seq<Report>
    decreases fs,
{
    if fs.len() == 0 {
        seq![]
    } else {
        constant_field_reports(fs.drop_last()) + constant_reports(fs.last().1)
    }
}

/// The reports for a top-level variable: a container type without arguments.
pub open spec fn var_reports(name: Seq<char>, ty: WindType) -> Seq<Report> {
    match ty {
        WindType::Named(n) => if n@ == "map"@ || n@ == "vec"@ || n@ == "set"@ {
            seq![(
                "Top-level variable '"@ + name + "' uses container type '"@ + n@
                    + "' without generic arguments. Specify e.g. vec<string>."@,
                Some(name),
            )]
        } else {
            seq![]
        },
        _ => seq![],
    }
}

/// A top-level variable is reported for its type exactly when the type is the bare container
/// name `map`, `vec` or `set` (a type with arguments, or a function type, never is); the one
/// report names the variable and the container, and spans the variable's name.
pub proof fn lemma_bare_container_reported(name: Seq<char>, n: String, other: WindType)
    requires
        !(other is Named),
    ensures
        var_reports(name, WindType::Named(n)).len() > 0 <==> (n@ == "map"@ || n@ == "vec"@ || n@ == "set"@),
        (n@ == "map"@ || n@ == "vec"@ || n@ == "set"@) ==> {
            &&& var_reports(name, WindType::Named(n)).len() == 1
            &&& var_reports(name, WindType::Named(n))[0].1 == Some(name)
            &&& var_reports(name, WindType::Named(n))[0].0 == "Top-level variable '"@ + name + "' uses container type '"@ + n@
                + "' without generic arguments. Specify e.g. vec<string>."@
        },
        var_reports(name, other).len() == 0,
{
}

/// The reports for the fields of a struct: each field whose name an earlier field has.
pub open spec fn duplicate_reports(fs: Seq<WindStructField>) -> Seq<Report>
    decreases fs.len(),
{
    if fs.len() == 0 {
        seq![]
    } else {
        let last = fs.last();
        duplicate_reports(fs.drop_last()) + if exists|j: int| 0 <= j < fs.len() - 1 && #[trigger] fs[j].name@ == last.name@ {
            seq![("Duplicate field '"@ + last.name@ + "' in struct."@, Some(last.name@))]
        } else {
            seq![]
        }
    }
}

/// The report for one rule of an applied group: a field of the group that the group's target
/// struct lacks.
pub open spec fn rule_report(tree: ScopeTree, rule: GroupRuleInfo, target_struct: Option<String>, group: Seq<char>, target: Seq<char>) -> Seq<Report> {
    match (rule.kind, target_struct) {
        (GroupRuleKind::SelfField { field }, Some(ts)) => match tree.resolve(ts@) {
            Some(Symbol::Struct { fields, .. }) => if exists|j: int| 0 <= j < fields.len() && #[trigger] fields@[j].name@ == field@ {
                seq![]
            } else {
                seq![(
                    "Apply: field '"@ + field@ + "' from group '"@ + group + "' not found in target struct '"@ + target + "'."@,
                    Some(field@),
                )]
            },
            _ => seq![],
        },
        _ => seq![],
    }
}

/// `rule_report` over the rules of a group, in order.
pub open spec fn rule_reports(tree: ScopeTree, rules: Seq<GroupRuleInfo>, target_struct: Option<String>, group: Seq<char>, target: Seq<char>) -> Seq<Report>
    decreases rules.len(),
{
    if rules.len() == 0 {
        seq![]
    } else {
        rule_reports(tree, rules.drop_last(), target_struct, group, target)
            + rule_report(tree, rules.last(), target_struct, group, target)
    }
}

/// The reports for `@group -> target` with `n` fields: a count that differs from the group's
/// rules, then the group's fields that the target struct lacks. An unknown group is left to
/// name resolution.
pub open spec fn apply_reports(tree: ScopeTree, group: Seq<char>, target: Seq<char>, n: nat) -> Seq<Report> {
    match tree.resolve(group) {
        Some(Symbol::Group { rules, target_struct, .. }) => (if n != rules.len() {
            seq![(
                "Apply @"@ + group + " -> "@ + target + " expects "@ + crate::text::decimal(rules.len() as nat)
                    + " fields, got "@ + crate::text::decimal(n) + "."@,
                Some(target),
            )]
        } else {
            seq![]
        }) + rule_reports(tree, rules@, target_struct, group, target),
        _ => seq![],
    }
}

/// The reports for one top-level item.
pub open spec fn stmt_reports(tree: ScopeTree, stmt: WindStmt) -> Seq<Report> {
    match stmt {
        WindStmt::ConstDef { name, ty, .. } => var_reports(name@, ty),
        WindStmt::ConstaticDef { name, ty, value } => var_reports(name@, ty) + constant_reports(*value),
        WindStmt::ExplainDef { name, ty, .. } => var_reports(name@, ty),
        WindStmt::StructDef { fields, .. } => duplicate_reports(fields@),
        WindStmt::ExtraDef { target, .. } => if tree.resolve(target@) is None {
            seq![("Extra target struct '"@ + target@ + "' not found."@, Some(target@))]
        } else {
            seq![]
        },
        WindStmt::ImplDef { trait_name, target, .. } => (if tree.resolve(trait_name@) is None {
            seq![("Trait '"@ + trait_name@ + "' not found for impl."@, Some(trait_name@))]
        } else {
            seq![]
        }) + (if tree.resolve(target@) is None {
            seq![("Target struct '"@ + target@ + "' not found for impl."@, Some(target@))]
        } else {
            seq![]
        }),
        WindStmt::Apply { group, target, fields } => apply_reports(tree, group@, target@, fields.len() as nat),
        WindStmt::Expr(e) => if *e is TagExpr {
            seq![]
        } else {
            seq![(
                "Bare expression ("@ + expr_kind_text(*e)
                    + ") is not allowed at top level. Wrap it in a function or use const/constatic/explain."@,
                None,
            )]
        },
        WindStmt::Let { name, .. } => seq![(
            "Let statement '"@ + name@ + "' is not allowed at top level. Use const, constatic, or explain."@,
            Some(name@),
        )],
        WindStmt::Return(_) => seq![("return is not allowed at top level."@, None)],
        WindStmt::Assignment { .. } => seq![("Assignment is not allowed at top level."@, None)],
        WindStmt::If { .. } | WindStmt::For { .. } | WindStmt::ForIn { .. } | WindStmt::While { .. } => {
            seq![("Control flow statements are not allowed at top level."@, None)]
        },
        _ => seq![],
    }
}

/// The reports for the first `n` items of a program, in order.
pub open spec fn program_reports(tree: ScopeTree, items: Seq<WindStmt>) -> Seq<Report>
    decreases items.len(),
{
    if items.len() == 0 {
        seq![]
    } else {
        program_reports(tree, items.drop_last()) + stmt_reports(tree, items.last())
    }
}

/// Whether an item defines the function `main`.
pub open spec fn defines_main(stmt: WindStmt) -> bool {
    stmt matches WindStmt::FnDef { name, .. } && name@ == "main"@
}

/// The check of the rules that hold of top-level items, once names are resolved.
#[derive(Debug)]
pub struct ConstraintChecker {
    pub errors: Vec<SemanticError>,
    pub has_main: bool,
    pub source: Option<String>,
    pub cursor: usize,
}

/// `b` is `a` after reporting `reports`: the errors they give are appended, the cursor moved.
pub open spec fn reported(a: ConstraintChecker, b: ConstraintChecker, reports: Seq<Report>) -> bool {
    let out = emit(a.source, a.cursor, reports);
    &&& error_views(b.errors@) == error_views(a.errors@) + out.0
    &&& b.cursor == out.1
    &&& b.source == a.source
}

/// Reporting in one go is reporting in two steps.
proof fn lemma_emit_concat(source: Option<String>, cursor: usize, a: Seq<Report>, b: Seq<Report>)
    ensures
        emit(source, cursor, a + b) == ({
            let first = emit(source, cursor, a);
            let second = emit(source, first.1, b);
            (first.0 + second.0, second.1)
        }),
    decreases b.len(),
{
    if b.len() == 0 {
        assert(a + b =~= a);
        assert(emit(source, cursor, a).0 + seq![] =~= emit(source, cursor, a).0);
    } else {
        lemma_emit_concat(source, cursor, a, b.drop_last());
        assert((a + b).drop_last() =~= a + b.drop_last());
        assert((a + b).last() == b.last());
        let first = emit(source, cursor, a);
        let mid = emit(source, first.1, b.drop_last());
        assert((first.0 + mid.0).push((b.last().0, span_step(source, mid.1, b.last().1).0))
            =~= first.0 + mid.0.push((b.last().0, span_step(source, mid.1, b.last().1).0)));
    }
}

/// Reports made one after the other add up.
proof fn lemma_reported_trans(a: ConstraintChecker, b: ConstraintChecker, c: ConstraintChecker, x: Seq<Report>, y: Seq<Report>)
    requires
        reported(a, b, x),
        reported(b, c, y),
    ensures
        reported(a, c, x + y),
{
    lemma_emit_concat(a.source, a.cursor, x, y);
    assert(error_views(c.errors@) =~= error_views(a.errors@) + emit(a.source, a.cursor, x + y).0);
}

/// Reporting nothing changes nothing.
proof fn lemma_reported_none(a: ConstraintChecker)
    ensures
        reported(a, a, seq![]),
{
    assert(error_views(a.errors@) + seq![] =~= error_views(a.errors@));
}

impl ConstraintChecker {
    /// A checker with no errors, no `main` seen yet and no source.
    pub fn new() -> (r: Self)
        ensures
            r.errors@.len() == 0,
            !r.has_main,
            r.source is None,
            r.cursor == 0,
    {
        ConstraintChecker { errors: Vec::new(), has_main: false, source: None, cursor: 0 }
    }

    /// The checker with `source` as the text that spans point into.
    pub fn with_source(self, source: String) -> (r: Self)
        ensures
            r == (ConstraintChecker { source: Some(source), ..self }),
    {
        ConstraintChecker { source: Some(source), ..self }
    }

    /// Checks every top-level item in order, then reports a missing `main`.
    pub fn check(&mut self, ctx: &GatherContext, program: &WindProgram)
        requires
            ctx.wf(),
        ensures
            final(self).has_main == (old(self).has_main || exists|i: int| 0 <= i < program.items.len()
                && defines_main(#[trigger] program.items@[i])),
            reported(*old(self), *final(self), program_reports(ctx.scope_tree, program.items@) + if final(self).has_main {
                Seq::<Report>::empty()
            } else {
                seq![(no_main_text(), None)]
            }),
    {
        let ghost s0 = *self;
        proof {
            lemma_reported_none(*self);
            assert(program.items@.take(0) =~= Seq::<WindStmt>::empty());
        }
        let mut i: usize = 0;
        while i < program.items.len()
            invariant
                i <= program.items.len(),
                ctx.wf(),
                reported(s0, *self, program_reports(ctx.scope_tree, program.items@.take(i as int))),
                self.has_main == (s0.has_main || exists|j: int| 0 <= j < i && defines_main(#[trigger] program.items@[j])),
            decreases program.items.len() - i,
        {
            let ghost s1 = *self;
            self.check_top_level_stmt(ctx, &program.items[i]);
            proof {
                let t = program.items@.take(i + 1);
                assert(t.drop_last() =~= program.items@.take(i as int));
                assert(t.last() == program.items@[i as int]);
                lemma_reported_trans(s0, s1, *self, program_reports(ctx.scope_tree, program.items@.take(i as int)),
                    stmt_reports(ctx.scope_tree, program.items@[i as int]));
                if self.has_main && !s1.has_main {
                    assert(defines_main(program.items@[i as int]));
                }
            }
            i += 1;
        }
        assert(program.items@.take(program.items.len() as int) =~= program.items@);
        let ghost s2 = *self;
        if !self.has_main {
            self.report(string_of("No 'main' function found. A Wind program must have a 'main' entry point."), None);
            proof {
                lemma_reported_trans(s0, s2, *self, program_reports(ctx.scope_tree, program.items@),
                    seq![(no_main_text(), None)]);
            }
        } else {
            proof {
                lemma_reported_none(*self);
                lemma_reported_trans(s0, s2, *self, program_reports(ctx.scope_tree, program.items@),
                    Seq::<Report>::empty());
            }
        }
    }

    /// The span of the next occurrence of `text` at or after the cursor, which then moves past it.
    fn span_at_cursor(&mut self, text: &str) -> (r: Option<(usize, usize)>)
        ensures
            (r, final(self).cursor) == span_step(old(self).source, old(self).cursor, Some(text@)),
            final(self).errors == old(self).errors,
            final(self).source == old(self).source,
            final(self).has_main == old(self).has_main,
    {
        match &self.source {
            Some(s) => {
                let hay = s.as_str().as_bytes();
                let hay_len = hay.len();
                assert(hay@.len() == hay_len);
                if self.cursor >= hay_len {
                    return None;
                }
                let needle = text.as_bytes();
                match find_bytes(hay, needle, self.cursor) {
                    Some(abs) => {
                        assert(crate::text::occurs_at(hay@, needle@, abs as int));
                        let end = abs + needle.len();
                        self.cursor = end;
                        Some((abs, end))
                    }
                    None => None,
                }
            }
            None => None,
        }
    }

    /// Records one error: with the span of the label's next occurrence when there is a label.
    fn report(&mut self, message: String, label: Option<&str>)
        ensures
            reported(*old(self), *final(self), seq![(message@, match label { Some(l) => Some(l@), None => None })]),
            final(self).has_main == old(self).has_main,
    {
        let ghost r: Report = (message@, match label { Some(l) => Some(l@), None => None });
        let span = match label {
            Some(l) => self.span_at_cursor(l),
            None => None,
        };
        self.errors.push(SemanticError { message, span });
        proof {
            let src = old(self).source;
            let c = old(self).cursor;
            assert(seq![r].drop_last() =~= Seq::<Report>::empty());
            let prev = emit(src, c, Seq::<Report>::empty());
            assert(prev == (Seq::<ErrorView>::empty(), c));
            let step = span_step(src, c, r.1);
            assert(step.0 == span && step.1 == self.cursor);
            assert(emit(src, c, seq![r]) == (prev.0.push((r.0, step.0)), step.1));
            assert(error_views(self.errors@) =~= error_views(old(self).errors@).push((message@, span)));
            assert(error_views(self.errors@) =~= error_views(old(self).errors@) + emit(src, c, seq![r]).0);
        }
    }

    fn check_top_level_stmt(&mut self, ctx: &GatherContext, stmt: &WindStmt)
        requires
            ctx.wf(),
        ensures
            reported(*old(self), *final(self), stmt_reports(ctx.scope_tree, *stmt)),
            final(self).has_main == (old(self).has_main || defines_main(*stmt)),
    {
        match stmt {
            WindStmt::FnDef { name, .. } => {
                if str_eq(name.as_str(), "main") {
                    self.has_main = true;
                }
                proof { lemma_reported_none(*self); }
            }
            WindStmt::ConstDef { name, ty, value: _ } => self.check_top_level_var(name, ty),
            WindStmt::ConstaticDef { name, ty, value } => {
                let ghost s1 = *self;
                self.check_top_level_var(name, ty);
                let ghost s2 = *self;
                self.check_constatic_value(value);
                proof {
                    lemma_reported_trans(s1, s2, *self, var_reports(name@, *ty), constant_reports(**value));
                }
            }
            WindStmt::ExplainDef { name, ty, value: _ } => self.check_top_level_var(name, ty),
            WindStmt::StructDef { fields, .. } => self.check_struct_fields(fields),
            WindStmt::ExtraDef { target, .. } => self.check_extra_target(ctx, target),
            WindStmt::ImplDef { trait_name, target, .. } => self.check_impl_targets(ctx, trait_name, target),
            WindStmt::Apply { group, target, fields } => self.check_apply(ctx, group, target, fields.len()),
            WindStmt::Expr(expr) => {
                if let WindExpr::TagExpr { .. } = &**expr {
                    proof { lemma_reported_none(*self); }
                } else {
                    let kind = self.expr_kind(expr);
                    let mut msg = string_of("Bare expression (");
                    push_str(&mut msg, kind.as_str());
                    push_str(&mut msg, ") is not allowed at top level. Wrap it in a function or use const/constatic/explain.");
                    self.report(msg, None);
                }
            }
            WindStmt::Let { name, .. } => {
                let mut msg = string_of("Let statement '");
                push_str(&mut msg, name.as_str());
                push_str(&mut msg, "' is not allowed at top level. Use const, constatic, or explain.");
                self.report(msg, Some(name.as_str()));
            }
            WindStmt::Return(_) => self.report(string_of("return is not allowed at top level."), None),
            WindStmt::Assignment { .. } => self.report(string_of("Assignment is not allowed at top level."), None),
            WindStmt::If { .. } | WindStmt::For { .. } | WindStmt::ForIn { .. } | WindStmt::While { .. } => {
                self.report(string_of("Control flow statements are not allowed at top level."), None)
            }
            _ => {
                proof { lemma_reported_none(*self); }
            }
        }
    }

    fn check_top_level_var(&mut self, name: &String, ty: &WindType)
        ensures
            reported(*old(self), *final(self), var_reports(name@, *ty)),
            final(self).has_main == old(self).has_main,
    {
        match ty {
            WindType::Named(n) => {
                if str_eq(n.as_str(), "map") || str_eq(n.as_str(), "vec") || str_eq(n.as_str(), "set") {
                    let mut msg = string_of("Top-level variable '");
                    push_str(&mut msg, name.as_str());
                    push_str(&mut msg, "' uses container type '");
                    push_str(&mut msg, n.as_str());
                    push_str(&mut msg, "' without generic arguments. Specify e.g. vec<string>.");
                    self.report(msg, Some(name.as_str()));
                } else {
                    proof { lemma_reported_none(*self); }
                }
            }
            _ => {
                proof { lemma_reported_none(*self); }
            }
        }
    }

    fn check_constatic_value(&mut self, value: &WindExpr)
        ensures
            reported(*old(self), *final(self), constant_reports(*value)),
            final(self).has_main == old(self).has_main,
        decreases value, 1nat,
    {
        match value {
            WindExpr::IntLiteral(_) | WindExpr::FloatLiteral(_) | WindExpr::StringLiteral(_)
            | WindExpr::CharLiteral(_) | WindExpr::BoolLiteral(_) | WindExpr::NoneLiteral => {
                proof { lemma_reported_none(*self); }
            }
            WindExpr::ArrayLiteral(elems) => self.check_constant_list(elems),
            WindExpr::MapLiteral(pairs) => self.check_constant_pairs(pairs),
            WindExpr::StructLiteral { fields, .. } => self.check_constant_fields(fields),
            WindExpr::Unary { op: _, expr } => self.check_constatic_value(expr),
            WindExpr::Binary { left, op: _, right } => {
                let ghost s0 = *self;
                self.check_constatic_value(left);
                let ghost s1 = *self;
                self.check_constatic_value(right);
                proof {
                    lemma_reported_trans(s0, s1, *self, constant_reports(**left), constant_reports(**right));
                }
            }
            _ => self.report(string_of("Constatic value must be a compile-time constant."), None),
        }
    }

    fn check_constant_list(&mut self, elems: &Vec<WindExpr>)
        ensures
            reported(*old(self), *final(self), constant_list_reports(elems@)),
            final(self).has_main == old(self).has_main,
        decreases elems, 0nat,
    {
        let ghost s0 = *self;
        proof {
            lemma_reported_none(*self);
            assert(elems@.take(0) =~= Seq::<WindExpr>::empty());
        }
        let mut i: usize = 0;
        while i < elems.len()
            invariant
                i <= elems.len(),
                reported(s0, *self, constant_list_reports(elems@.take(i as int))),
                self.has_main == s0.has_main,
            decreases elems.len() - i,
        {
            proof {
                assert(decreases_to!(*elems => elems@[i as int]));
            }
            let ghost s1 = *self;
            self.check_constatic_value(&elems[i]);
            proof {
                let t = elems@.take(i + 1);
                assert(t.drop_last() =~= elems@.take(i as int));
                lemma_reported_trans(s0, s1, *self, constant_list_reports(elems@.take(i as int)), constant_reports(elems@[i as int]));
            }
            i += 1;
        }
        assert(elems@.take(elems.len() as int) =~= elems@);
    }

    fn check_constant_pairs(&mut self, pairs: &Vec<(WindExpr, WindExpr)>)
        ensures
            reported(*old(self), *final(self), constant_pair_reports(pairs@)),
            final(self).has_main == old(self).has_main,
        decreases pairs, 0nat,
    {
        let ghost s0 = *self;
        proof {
            lemma_reported_none(*self);
            assert(pairs@.take(0) =~= Seq::<(WindExpr, WindExpr)>::empty());
        }
        let mut i: usize = 0;
        while i < pairs.len()
            invariant
                i <= pairs.len(),
                reported(s0, *self, constant_pair_reports(pairs@.take(i as int))),
                self.has_main == s0.has_main,
            decreases pairs.len() - i,
        {
            proof {
                assert(decreases_to!(*pairs => pairs@[i as int]));
                assert(decreases_to!(pairs@[i as int] => pairs@[i as int].0));
                assert(decreases_to!(pairs@[i as int] => pairs@[i as int].1));
            }
            let ghost s1 = *self;
            self.check_constatic_value(&pairs[i].0);
            let ghost s2 = *self;
            self.check_constatic_value(&pairs[i].1);
            proof {
                let t = pairs@.take(i + 1);
                assert(t.drop_last() =~= pairs@.take(i as int));
                let before = constant_pair_reports(pairs@.take(i as int));
                let k = constant_reports(pairs@[i as int].0);
                let v = constant_reports(pairs@[i as int].1);
                lemma_reported_trans(s1, s2, *self, k, v);
                lemma_reported_trans(s0, s1, *self, before, k + v);
                assert(before + (k + v) =~= before + k + v);
            }
            i += 1;
        }
        assert(pairs@.take(pairs.len() as int) =~= pairs@);
    }

    fn check_constant_fields(&mut self, fields: &Vec<(String, WindExpr)>)
        ensures
            reported(*old(self), *final(self), constant_field_reports(fields@)),
            final(self).has_main == old(self).has_main,
        decreases fields, 0nat,
    {
        let ghost s0 = *self;
        proof {
            lemma_reported_none(*self);
            assert(fields@.take(0) =~= Seq::<(String, WindExpr)>::empty());
        }
        let mut i: usize = 0;
        while i < fields.len()
            invariant
                i <= fields.len(),
                reported(s0, *self, constant_field_reports(fields@.take(i as int))),
                self.has_main == s0.has_main,
            decreases fields.len() - i,
        {
            proof {
                assert(decreases_to!(*fields => fields@[i as int]));
                assert(decreases_to!(fields@[i as int] => fields@[i as int].1));
            }
            let ghost s1 = *self;
            self.check_constatic_value(&fields[i].1);
            proof {
                let t = fields@.take(i + 1);
                assert(t.drop_last() =~= fields@.take(i as int));
                lemma_reported_trans(s0, s1, *self, constant_field_reports(fields@.take(i as int)), constant_reports(fields@[i as int].1));
            }
            i += 1;
        }
        assert(fields@.take(fields.len() as int) =~= fields@);
    }

    fn check_struct_fields(&mut self, fields: &Vec<WindStructField>)
        ensures
            reported(*old(self), *final(self), duplicate_reports(fields@)),
            final(self).has_main == old(self).has_main,
    {
        let ghost s0 = *self;
        proof {
            lemma_reported_none(*self);
            assert(fields@.take(0) =~= Seq::<WindStructField>::empty());
        }
        let mut i: usize = 0;
        while i < fields.len()
            invariant
                i <= fields.len(),
                reported(s0, *self, duplicate_reports(fields@.take(i as int))),
                self.has_main == s0.has_main,
            decreases fields.len() - i,
        {
            let ghost s1 = *self;
            let mut seen = false;
            let mut j: usize = 0;
            while j < i
                invariant
                    j <= i,
                    i < fields.len(),
                    seen == exists|k: int| 0 <= k < j && #[trigger] fields@[k].name@ == fields@[i as int].name@,
                decreases i - j,
            {
                if str_eq(fields[j].name.as_str(), fields[i].name.as_str()) {
                    seen = true;
                }
                j += 1;
            }
            if seen {
                let mut msg = string_of("Duplicate field '");
                push_str(&mut msg, fields[i].name.as_str());
                push_str(&mut msg, "' in struct.");
                self.report(msg, Some(fields[i].name.as_str()));
            } else {
                proof { lemma_reported_none(*self); }
            }
            proof {
                let t = fields@.take(i + 1);
                assert(t.drop_last() =~= fields@.take(i as int));
                assert(t.last() == fields@[i as int]);
                assert((exists|k: int| 0 <= k < t.len() - 1 && #[trigger] t[k].name@ == t.last().name@)
                    == (exists|k: int| 0 <= k < i && #[trigger] fields@[k].name@ == fields@[i as int].name@)) by {
                    if exists|k: int| 0 <= k < t.len() - 1 && #[trigger] t[k].name@ == t.last().name@ {
                        let k = choose|k: int| 0 <= k < t.len() - 1 && #[trigger] t[k].name@ == t.last().name@;
                        assert(fields@[k].name@ == fields@[i as int].name@);
                    }
                    if exists|k: int| 0 <= k < i && #[trigger] fields@[k].name@ == fields@[i as int].name@ {
                        let k = choose|k: int| 0 <= k < i && #[trigger] fields@[k].name@ == fields@[i as int].name@;
                        assert(t[k].name@ == t.last().name@);
                    }
                }
                lemma_reported_trans(s0, s1, *self, duplicate_reports(fields@.take(i as int)),
                    if seen {
                        seq![("Duplicate field '"@ + fields@[i as int].name@ + "' in struct."@, Some(fields@[i as int].name@))]
                    } else {
                        Seq::<Report>::empty()
                    });
            }
            i += 1;
        }
        assert(fields@.take(fields.len() as int) =~= fields@);
    }

    fn check_extra_target(&mut self, ctx: &GatherContext, target: &String)
        requires
            ctx.wf(),
        ensures
            reported(*old(self), *final(self), if ctx.scope_tree.resolve(target@) is None {
                seq![("Extra target struct '"@ + target@ + "' not found."@, Some(target@))]
            } else {
                Seq::<Report>::empty()
            }),
            final(self).has_main == old(self).has_main,
    {
        let missing = match ctx.scope_tree.lookup_symbol(target.as_str()) {
            Some(_) => false,
            None => true,
        };
        if missing {
            let mut msg = string_of("Extra target struct '");
            push_str(&mut msg, target.as_str());
            push_str(&mut msg, "' not found.");
            self.report(msg, Some(target.as_str()));
        } else {
            proof { lemma_reported_none(*self); }
        }
    }

    fn check_impl_targets(&mut self, ctx: &GatherContext, trait_name: &String, target: &String)
        requires
            ctx.wf(),
        ensures
            reported(*old(self), *final(self), (if ctx.scope_tree.resolve(trait_name@) is None {
                seq![("Trait '"@ + trait_name@ + "' not found for impl."@, Some(trait_name@))]
            } else {
                Seq::<Report>::empty()
            }) + (if ctx.scope_tree.resolve(target@) is None {
                seq![("Target struct '"@ + target@ + "' not found for impl."@, Some(target@))]
            } else {
                Seq::<Report>::empty()
            })),
            final(self).has_main == old(self).has_main,
    {
        let ghost s0 = *self;
        let trait_missing = match ctx.scope_tree.lookup_symbol(trait_name.as_str()) {
            Some(_) => false,
            None => true,
        };
        if trait_missing {
            let mut msg = string_of("Trait '");
            push_str(&mut msg, trait_name.as_str());
            push_str(&mut msg, "' not found for impl.");
            self.report(msg, Some(trait_name.as_str()));
        } else {
            proof { lemma_reported_none(*self); }
        }
        let ghost s1 = *self;
        let target_missing = match ctx.scope_tree.lookup_symbol(target.as_str()) {
            Some(_) => false,
            None => true,
        };
        if target_missing {
            let mut msg = string_of("Target struct '");
            push_str(&mut msg, target.as_str());
            push_str(&mut msg, "' not found for impl.");
            self.report(msg, Some(target.as_str()));
        } else {
            proof { lemma_reported_none(*self); }
        }
        proof {
            lemma_reported_trans(s0, s1, *self,
                if trait_missing {
                    seq![("Trait '"@ + trait_name@ + "' not found for impl."@, Some(trait_name@))]
                } else {
                    Seq::<Report>::empty()
                },
                if target_missing {
                    seq![("Target struct '"@ + target@ + "' not found for impl."@, Some(target@))]
                } else {
                    Seq::<Report>::empty()
                });
        }
    }

    /// Whether the struct that `target_struct` names, seen from the current scope, lacks `field`;
    /// false when there is no such struct.
    fn struct_lacks_field(ctx: &GatherContext, target_struct: &Option<String>, field: &String) -> (r: bool)
        requires
            ctx.wf(),
        ensures
            r == match target_struct {
                Some(ts) => match ctx.scope_tree.resolve(ts@) {
                    Some(Symbol::Struct { fields, .. }) => !exists|j: int| 0 <= j < fields.len() && #[trigger] fields@[j].name@ == field@,
                    _ => false,
                },
                None => false,
            },
    {
        match target_struct {
            Some(ts) => match ctx.scope_tree.lookup_symbol(ts.as_str()) {
                Some(Symbol::Struct { fields, .. }) => {
                    let mut found = false;
                    let mut j: usize = 0;
                    while j < fields.len()
                        invariant
                            j <= fields.len(),
                            found == exists|k: int| 0 <= k < j && #[trigger] fields@[k].name@ == field@,
                        decreases fields.len() - j,
                    {
                        if str_eq(fields[j].name.as_str(), field.as_str()) {
                            found = true;
                        }
                        j += 1;
                    }
                    !found
                }
                _ => false,
            },
            None => false,
        }
    }

    fn check_apply(&mut self, ctx: &GatherContext, group: &String, target: &String, n_fields: usize)
        requires
            ctx.wf(),
        ensures
            reported(*old(self), *final(self), apply_reports(ctx.scope_tree, group@, target@, n_fields as nat)),
            final(self).has_main == old(self).has_main,
    {
        let ghost tree = ctx.scope_tree;
        match ctx.scope_tree.lookup_symbol(group.as_str()) {
            Some(Symbol::Group { rules, target_struct, .. }) => {
                let ghost s0 = *self;
                let ghost count: Seq<Report> = if n_fields != rules.len() {
                    seq![(
                        "Apply @"@ + group@ + " -> "@ + target@ + " expects "@ + crate::text::decimal(rules.len() as nat)
                            + " fields, got "@ + crate::text::decimal(n_fields as nat) + "."@,
                        Some(target@),
                    )]
                } else {
                    seq![]
                };
                if n_fields != rules.len() {
                    let mut msg = string_of("Apply @");
                    push_str(&mut msg, group.as_str());
                    push_str(&mut msg, " -> ");
                    push_str(&mut msg, target.as_str());
                    push_str(&mut msg, " expects ");
                    let a = u64_to_string(rules.len() as u64);
                    push_str(&mut msg, a.as_str());
                    push_str(&mut msg, " fields, got ");
                    let b = u64_to_string(n_fields as u64);
                    push_str(&mut msg, b.as_str());
                    push_str(&mut msg, ".");
                    self.report(msg, Some(target.as_str()));
                } else {
                    proof { lemma_reported_none(*self); }
                }
                let ghost s1 = *self;
                proof {
                    lemma_reported_none(*self);
                    assert(rules@.take(0) =~= Seq::<GroupRuleInfo>::empty());
                }
                let mut i: usize = 0;
                while i < rules.len()
                    invariant
                        i <= rules.len(),
                        ctx.wf(),
                        ctx.scope_tree == tree,
                        reported(s1, *self, rule_reports(tree, rules@.take(i as int), *target_struct, group@, target@)),
                        self.has_main == s0.has_main,
                    decreases rules.len() - i,
                {
                    let ghost s2 = *self;
                    match &rules[i].kind {
                        GroupRuleKind::SelfField { field } => {
                            if Self::struct_lacks_field(ctx, target_struct, field) {
                                let mut msg = string_of("Apply: field '");
                                push_str(&mut msg, field.as_str());
                                push_str(&mut msg, "' from group '");
                                push_str(&mut msg, group.as_str());
                                push_str(&mut msg, "' not found in target struct '");
                                push_str(&mut msg, target.as_str());
                                push_str(&mut msg, "'.");
                                self.report(msg, Some(field.as_str()));
                            } else {
                                proof { lemma_reported_none(*self); }
                            }
                        }
                        _ => {
                            proof { lemma_reported_none(*self); }
                        }
                    }
                    proof {
                        let t = rules@.take(i + 1);
                        assert(t.drop_last() =~= rules@.take(i as int));
                        assert(t.last() == rules@[i as int]);
                        lemma_reported_trans(s1, s2, *self, rule_reports(tree, rules@.take(i as int), *target_struct, group@, target@),
                            rule_report(tree, rules@[i as int], *target_struct, group@, target@));
                    }
                    i += 1;
                }
                proof {
                    assert(rules@.take(rules.len() as int) =~= rules@);
                    lemma_reported_trans(s0, s1, *self, count, rule_reports(tree, rules@, *target_struct, group@, target@));
                }
            }
            _ => {
                proof { lemma_reported_none(*self); }
            }
        }
    }

    /// What a bare expression is called in messages.
    pub fn expr_kind(&self, expr: &WindExpr) -> (r: String)
        ensures
            r@ == expr_kind_text(*expr),
    {
        match expr {
            WindExpr::Identifier(name) => {
                let mut r = string_of("identifier '");
                push_str(&mut r, name.as_str());
                push_str(&mut r, "'");
                r
            }
            WindExpr::IntLiteral(_) => string_of("int literal"),
            WindExpr::FloatLiteral(_) => string_of("float literal"),
            WindExpr::StringLiteral(_) => string_of("string literal"),
            WindExpr::CharLiteral(_) => string_of("char literal"),
            WindExpr::BoolLiteral(_) => string_of("bool literal"),
            WindExpr::NoneLiteral => string_of("None"),
            WindExpr::Binary { .. } => string_of("binary expression"),
            WindExpr::Unary { .. } => string_of("unary expression"),
            WindExpr::Call { .. } => string_of("function call"),
            WindExpr::FieldAccess { .. } => string_of("field access"),
            WindExpr::Index { .. } => string_of("index expression"),
            WindExpr::ScopeRef { .. } => string_of("scope ref"),
            WindExpr::TypeExpr { .. } => string_of("type expression"),
            WindExpr::Group(_) => string_of("group expression"),
            WindExpr::MapLiteral(_) => string_of("map literal"),
            WindExpr::ArrayLiteral(_) => string_of("array literal"),
            WindExpr::IfExpr { .. } => string_of("if expression"),
            WindExpr::TagExpr { .. } => string_of("tag expression"),
            WindExpr::Unpack(_) => string_of("unpack"),
            WindExpr::StructLiteral { .. } => string_of("struct literal"),
        }
    }
}

} // verus!
