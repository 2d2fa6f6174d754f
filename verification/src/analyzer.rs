use vstd::prelude::*;
use crate::ast::WindProgram;
use crate::ast::WindStmt;
use crate::constraint::ConstraintChecker;
use crate::constraint::Report;
use crate::gather::GatherContext;
use crate::liveness::LivenessAnalyzer;
use crate::resolve::chosen;
use crate::resolve::fresh_resolver;
use crate::resolve::stmts_rel;
use crate::resolve::Resolver;
use crate::gather::gathered;
use crate::sema::DropPoint;
use crate::sema::LiveRange;
use crate::sema::SemanticError;
use crate::text::push_str;
use crate::text::string_of;
use crate::text::u64_to_string;

verus! {

/// The reports of the constraint pass for a program, with the missing `main` last when no item
/// defines it.
pub open spec fn constraint_reports(tree: crate::scope::ScopeTree, items: Seq<crate::ast::WindStmt>) -> Seq<Report> {
    crate::constraint::program_reports(tree, items) + if exists|i: int| 0 <= i < items.len()
        && crate::constraint::defines_main(#[trigger] items[i]) {
        Seq::<Report>::empty()
    } else {
        seq![(crate::constraint::no_main_text(), None)]
    }
}

/// The line that is logged for an error: `[start..end] message` when it has a span.
pub open spec fn error_line(e: SemanticError) -> Seq<char> {
    match e.span {
        Some((s, t)) => "["@ + crate::text::decimal(s as nat) + ".."@ + crate::text::decimal(t as nat) + "] "@ + e.message@,
        None => e.message@,
    }
}

/// The span a diagnostic can underline: a non-empty range inside the source.
pub open spec fn label_range(span: Option<(usize, usize)>, source_len: nat) -> Option<(usize, usize)> {
    match span {
        Some((s, t)) => if s < t && t <= source_len { Some((s, t)) } else { None },
        None => None,
    }
}

/// The length of the source in bytes, as `str::len` gives it; zero without a source.
pub open spec fn source_byte_len(source: Option<String>) -> nat {
    match source {
        Some(s) => (vstd::utf8::encode_utf8(s@).len() as usize) as nat,
        None => 0,
    }
}

/// The whole analysis: symbols are gathered, names resolved, the rules of top-level items
/// checked, and the liveness of values computed; the errors of every pass are collected.
#[derive(Debug)]
pub struct SemanticAnalyzer {
    pub ctx: GatherContext,
    pub all_errors: Vec<SemanticError>,
    pub live_ranges: Vec<LiveRange>,
    pub drop_points: Vec<DropPoint>,
    pub source: Option<String>,
    pub file_name: Option<String>,
}

impl Default for SemanticAnalyzer {
    /// The same as `SemanticAnalyzer::new`.
    fn default() -> (r: Self)
        ensures
            r.ctx.fresh(),
            r.all_errors@.len() == 0,
            r.live_ranges@.len() == 0,
            r.drop_points@.len() == 0,
            r.source is None,
            r.file_name is None,
    {
        Self::new()
    }
}

/// What resolving the names of `items` does to the shared state, from `c0` to `c1`: the scopes
/// there keep their kinds and parents, the values keep their kinds and types, and the scopes that
/// the statements open follow in order.
#[verifier::opaque]
pub open spec fn names_resolved(c0: GatherContext, c1: GatherContext, items: Seq<WindStmt>) -> bool {
    &&& crate::resolve::tree_extends(c0.scope_tree, c1.scope_tree)
    &&& crate::resolve::pool_extends(c0.value_pool, c1.value_pool)
    &&& crate::resolve::scopes_opened(c0.scope_tree, c1.scope_tree, crate::resolve::stmts_scopes(items))
}

/// Resolving the names of `items` with a fresh resolver over `source` takes `c0` to `c1` and
/// reports `errs`, as the resolution relation says statement by statement.
pub open spec fn resolved_with(c0: GatherContext, c1: GatherContext, items: Seq<WindStmt>, source: Option<String>,
    errs: Seq<SemanticError>) -> bool {
    exists|r0: Resolver, r1: Resolver| #![trigger chosen((r0, r1))]
        fresh_resolver(r0, source) && stmts_rel(r0, c0, r1, c1, items) && errs == r1.errors@
}

impl SemanticAnalyzer {
    /// An analyzer with fresh shared state, no errors, no source and no file name.
    pub fn new() -> (r: Self)
        ensures
            r.ctx.fresh(),
            r.all_errors@.len() == 0,
            r.live_ranges@.len() == 0,
            r.drop_points@.len() == 0,
            r.source is None,
            r.file_name is None,
    {
        SemanticAnalyzer {
            ctx: GatherContext::new(),
            all_errors: Vec::new(),
            live_ranges: Vec::new(),
            drop_points: Vec::new(),
            source: None,
            file_name: None,
        }
    }

    /// The analyzer with `source` as the text that error spans point into.
    pub fn with_source(self, source: String) -> (r: Self)
        ensures
            r == (SemanticAnalyzer { source: Some(source), ..self }),
    {
        SemanticAnalyzer { source: Some(source), ..self }
    }

    /// The analyzer with `name` as the file name of diagnostics.
    pub fn with_file_name(self, name: String) -> (r: Self)
        ensures
            r == (SemanticAnalyzer { file_name: Some(name), ..self }),
    {
        SemanticAnalyzer { file_name: Some(name), ..self }
    }

    /// Runs every pass over `program`. The errors found before, then those of gathering and of
    /// name resolution, come first; the errors of the constraint pass come last, exactly as its
    /// reports give them, so a program that defines no `main` always ends with that error. The
    /// shared state is the gathered one, then resolved statement by statement (`resolved_with`),
    /// and the errors between come from that resolution, which reports only on assignments and
    /// apply statements. Last, the live ranges and drop points of the final state are recorded.
    #[verifier::rlimit(80)]
    #[verifier::spinoff_prover]
    pub fn analyze(self, program: &WindProgram) -> (r: Self)
        requires
            self.ctx.wf(),
        ensures
            r.ctx.wf(),
            r.source == self.source,
            r.file_name == self.file_name,
            self.all_errors@.len() <= r.all_errors@.len(),
            forall|i: int| 0 <= i < self.all_errors@.len() ==> #[trigger] r.all_errors@[i] == self.all_errors@[i],
            ({
                let out = crate::constraint::emit(self.source, 0, constraint_reports(r.ctx.scope_tree, program.items@)).0;
                let n = r.all_errors@.len();
                &&& out.len() <= n
                &&& crate::constraint::error_views(r.all_errors@).subrange(n - out.len(), n as int) == out
            }),
            !(exists|i: int| 0 <= i < program.items.len() && crate::constraint::defines_main(#[trigger] program.items@[i]))
                ==> r.all_errors@.len() > 0 && r.all_errors@.last().message@ == crate::constraint::no_main_text(),
            ({
                let pre = self.all_errors@ + self.ctx.errors@;
                let out = crate::constraint::emit(self.source, 0, constraint_reports(r.ctx.scope_tree, program.items@)).0;
                &&& pre.len() <= r.all_errors@.len()
                &&& r.all_errors@.subrange(0, pre.len() as int) == pre
                &&& crate::resolve::silent_stmts(program.items@) ==> r.all_errors@.len() == pre.len() + out.len()
            }),
            r.ctx.errors@.len() == 0,
            exists|cg: GatherContext, cr: GatherContext, errs: Seq<SemanticError>| #![trigger chosen((cg, cr, errs))] {
                let pre = self.all_errors@ + self.ctx.errors@ + errs;
                let out = crate::constraint::emit(self.source, 0, constraint_reports(r.ctx.scope_tree, program.items@)).0;
                &&& gathered(self.ctx, cg, program.items@)
                &&& cr == (GatherContext { errors: cr.errors, ..cg })
                &&& cr.errors@.len() == 0
                &&& resolved_with(cr, r.ctx, program.items@, self.source, errs)
                &&& r.all_errors@.len() == pre.len() + out.len()
                &&& r.all_errors@.subrange(0, pre.len() as int) == pre
                &&& crate::constraint::error_views(r.all_errors@.subrange(pre.len() as int, r.all_errors@.len() as int)) == out
            },
            if r.ctx.dead_values@.len() + r.ctx.value_pool.values@.len() <= usize::MAX {
                &&& crate::liveness::range_views(r.live_ranges@) == crate::liveness::liveness_of(r.ctx).ranges
                &&& crate::liveness::drop_views(r.drop_points@) == crate::liveness::liveness_of(r.ctx).drops
            } else {
                r.live_ranges == self.live_ranges && r.drop_points == self.drop_points
            },
    {
        let mut this = self;
        this.ctx.gather(program);
        let ghost cg = this.ctx;
        this.all_errors.append(&mut this.ctx.errors);
        let ghost cr = this.ctx;
        let ghost pre = this.all_errors@;
        proof {
            assert(pre == self.all_errors@ + self.ctx.errors@);
        }
        let mut resolved = Self::resolve_names(&mut this.ctx, program, &this.source);
        let ghost resolved_view = resolved@;
        this.all_errors.append(&mut resolved);
        let ghost before = this.all_errors@;
        let mut checked = Self::check_constraints(&this.ctx, program, &this.source);
        let ghost checked_view = checked@;
        this.all_errors.append(&mut checked);
        // The lengths of two vectors held at once always add up within the address space.
        if this.ctx.dead_values.len() <= usize::MAX - this.ctx.value_pool.values.len() {
            let mut liveness = LivenessAnalyzer::new();
            proof {
                assert(crate::liveness::range_views(liveness.live_ranges@) =~= Seq::<crate::liveness::RangeView>::empty());
                assert(crate::liveness::drop_views(liveness.drop_points@) =~= Seq::<crate::liveness::DropView>::empty());
            }
            liveness.analyze(&this.ctx);
            this.live_ranges = liveness.live_ranges;
            this.drop_points = liveness.drop_points;
        }
        proof {
            let reports = constraint_reports(this.ctx.scope_tree, program.items@);
            let out = crate::constraint::emit(self.source, 0, reports).0;
            let n = this.all_errors@.len();
            assert(this.all_errors@ == before + checked_view);
            assert(before == pre + resolved_view);
            let pre2 = self.all_errors@ + self.ctx.errors@ + resolved_view;
            assert(pre2 == before);
            assert(this.all_errors@.subrange(0, pre2.len() as int) =~= pre2);
            assert(this.all_errors@.subrange(pre2.len() as int, this.all_errors@.len() as int) =~= checked_view);
            assert(cr == (GatherContext { errors: cr.errors, ..cg }));
            assert(chosen((cg, cr, resolved_view)));
            assert(this.all_errors@.subrange(0, pre.len() as int) =~= pre);
            assert(crate::constraint::error_views(this.all_errors@).subrange(n - out.len(), n as int) =~= out);
            if !(exists|i: int| 0 <= i < program.items.len() && crate::constraint::defines_main(#[trigger] program.items@[i])) {
                assert(reports.last() == (crate::constraint::no_main_text(), None::<Seq<char>>));
                assert(reports.drop_last() =~= crate::constraint::program_reports(this.ctx.scope_tree, program.items@));
                assert(out.last().0 == crate::constraint::no_main_text());
                assert(crate::constraint::error_views(this.all_errors@)[n - 1] == out.last());
            }
        }
        this
    }

    /// Resolves the names of `program` against `ctx`; returns the errors found.
    fn resolve_names(ctx: &mut GatherContext, program: &WindProgram, source: &Option<String>) -> (errors: Vec<SemanticError>)
        requires
            old(ctx).wf(),
        ensures
            final(ctx).wf(),
            final(ctx).dead_values == old(ctx).dead_values,
            final(ctx).errors == old(ctx).errors,
            final(ctx).value_names == old(ctx).value_names,
            names_resolved(*old(ctx), *final(ctx), program.items@),
            crate::resolve::silent_stmts(program.items@) ==> errors@.len() == 0,
            resolved_with(*old(ctx), *final(ctx), program.items@, *source, errors@),
    {
        let mut resolver = Resolver::new();
        match source {
            Some(src) => {
                resolver = resolver.with_source(src.clone());
            }
            None => {}
        }
        let ghost r0 = resolver;
        resolver.resolve(ctx, program);
        proof {
            assert(fresh_resolver(r0, *source));
            assert(chosen((r0, resolver)));
        }
        proof {
            reveal(names_resolved);
        }
        resolver.errors
    }

    /// Checks the top-level rules of `program`; returns the errors, exactly as the reports give
    /// them.
    fn check_constraints(ctx: &GatherContext, program: &WindProgram, source: &Option<String>) -> (errors: Vec<SemanticError>)
        requires
            ctx.wf(),
        ensures
            crate::constraint::error_views(errors@)
                == crate::constraint::emit(*source, 0, constraint_reports(ctx.scope_tree, program.items@)).0,
    {
        let mut constraint = ConstraintChecker::new();
        match source {
            Some(src) => {
                constraint = constraint.with_source(src.clone());
            }
            None => {}
        }
        proof {
            assert(constraint.source == *source);
        }
        constraint.check(ctx, program);
        proof {
            let out = crate::constraint::emit(*source, 0, constraint_reports(ctx.scope_tree, program.items@)).0;
            assert(crate::constraint::error_views(Seq::<SemanticError>::empty()) =~= Seq::<crate::constraint::ErrorView>::empty());
            assert(crate::constraint::error_views(constraint.errors@) =~= out);
        }
        constraint.errors
    }

    /// Whether any pass found an error.
    pub fn has_errors(&self) -> (r: bool)
        ensures
            r == (self.all_errors@.len() > 0),
    {
        self.all_errors.len() > 0
    }

    /// The lines that are logged for the errors, in order: `[start..end] message` for an error
    /// with a span, the message alone otherwise.
    pub fn print_errors(&self) -> (lines: Vec<String>)
        ensures
            lines@.len() == self.all_errors@.len(),
            forall|i: int| 0 <= i < lines@.len() ==> #[trigger] lines@[i]@ == error_line(self.all_errors@[i]),
    {
        let mut lines: Vec<String> = Vec::new();
        let mut i: usize = 0;
        while i < self.all_errors.len()
            invariant
                i <= self.all_errors@.len(),
                lines@.len() == i,
                forall|j: int| 0 <= j < i ==> #[trigger] lines@[j]@ == error_line(self.all_errors@[j]),
            decreases self.all_errors@.len() - i,
        {
            let e = &self.all_errors[i];
            let line = match e.span {
                Some((start, end)) => {
                    let mut l = string_of("[");
                    let a = u64_to_string(start as u64);
                    push_str(&mut l, a.as_str());
                    push_str(&mut l, "..");
                    let b = u64_to_string(end as u64);
                    push_str(&mut l, b.as_str());
                    push_str(&mut l, "] ");
                    push_str(&mut l, e.message.as_str());
                    l
                }
                None => e.message.clone(),
            };
            lines.push(line);
            i += 1;
        }
        lines
    }

    /// The message of each error, with the range a diagnostic underlines: its span when that is
    /// non-empty and inside the source (no source counts as empty).
    pub fn diagnostic_labels(&self) -> (r: Vec<(String, Option<(usize, usize)>)>)
        ensures
            r@.len() == self.all_errors@.len(),
            forall|i: int| 0 <= i < r@.len() ==> (#[trigger] r@[i]).0@ == self.all_errors@[i].message@
                && r@[i].1 == label_range(self.all_errors@[i].span, source_byte_len(self.source)),
    {
        let source_len: usize = match &self.source {
            Some(s) => s.as_str().len(),
            None => 0,
        };
        let mut r: Vec<(String, Option<(usize, usize)>)> = Vec::new();
        let mut i: usize = 0;
        while i < self.all_errors.len()
            invariant
                i <= self.all_errors@.len(),
                r@.len() == i,
                source_len == source_byte_len(self.source),
                forall|j: int| 0 <= j < i ==> (#[trigger] r@[j]).0@ == self.all_errors@[j].message@
                    && r@[j].1 == label_range(self.all_errors@[j].span, source_len as nat),
            decreases self.all_errors@.len() - i,
        {
            let e = &self.all_errors[i];
            let range = match e.span {
                Some((start, end)) => if start < end && end <= source_len {
                    Some((start, end))
                } else {
                    None
                },
                None => None,
            };
            r.push((e.message.clone(), range));
            i += 1;
        }
        r
    }
}

} // verus!
