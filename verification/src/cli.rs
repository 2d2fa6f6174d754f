use vstd::prelude::*;
use crate::analyzer::SemanticAnalyzer;
use crate::liveness::kind_string;
use crate::liveness::kind_text;
use crate::scope::Scope;
use crate::sema::DropPoint;
use crate::sema::LiveRange;
use crate::sema::ScopeKind;
use crate::sema::StorageClass;
use crate::sema::Symbol;
use crate::sema::ValueInfo;
use crate::sema::resolved_text;
use crate::text::decimal;
use crate::text::push_str;
use crate::text::string_of;
use crate::text::u64_to_string;

verus! {

/// How much the command line logs.
#[derive(Debug, Clone, Copy, PartialEq, Eq, Structural)]
pub enum LogLevel {
    Off,
    Error,
    Warn,
    Info,
    Debug,
    Trace,
}

/// What the command line was asked to do: analyse the code given inline (`cmd`) or the file at
/// `path`, stop after lexing or parsing, and log at `level`.
#[derive(Debug)]
pub struct Cli {
    pub cmd: Option<String>,
    pub path: Option<String>,
    pub level: LogLevel,
    pub lex: bool,
    pub parse: bool,
}

/// Where the source text comes from: the code given inline, the file at a path, or nowhere.
#[derive(Debug)]
pub enum SourceRequest {
    Inline(String),
    File(String),
    Missing,
}

/// The helpers of the command line.
pub struct Utils;

/// A line to log, with its level.
#[derive(Debug)]
pub struct LogLine {
    pub level: LogLevel,
    pub text: String,
}

/// A logged line as the contracts see it.
pub type LineView = (LogLevel, Seq<char>);

/// The views of a list of log lines.
pub open spec fn line_views(ls: Seq<LogLine>) -> Seq<LineView> {
    Seq::new(ls.len(), |i: int| (ls[i].level, ls[i].text@))
}

/// The name a file goes by in diagnostics: its path, or `<cmd>` for inline code.
pub open spec fn file_name_text(cli: Cli) -> Seq<char> {
    match cli.path {
        Some(p) => p@,
        None => "<cmd>"@,
    }
}

/// How a storage class is printed.
pub open spec fn storage_text(c: StorageClass) -> Seq<char> {
    match c {
        StorageClass::Let => "Let"@,
        StorageClass::Const => "Const"@,
        StorageClass::Constatic => "Constatic"@,
        StorageClass::Explain => "Explain"@,
    }
}

/// What kind of symbol the table shows: `var (<storage>)` for a variable, else a keyword.
pub open spec fn symbol_kind_text(s: Symbol) -> Seq<char> {
    match s {
        Symbol::Variable { storage_class, .. } => "var ("@ + storage_text(storage_class) + ")"@,
        Symbol::Function { .. } => "fn"@,
        Symbol::Struct { .. } => "struct"@,
        Symbol::Trait { .. } => "trait"@,
        Symbol::Enum { .. } => "enum"@,
        Symbol::TypeAlias { .. } => "type"@,
        Symbol::Extra { .. } => "extra"@,
        Symbol::Impl { .. } => "impl"@,
        Symbol::Group { .. } => "group"@,
    }
}

/// How a scope kind is printed.
pub open spec fn scope_kind_text(k: ScopeKind) -> Seq<char> {
    match k {
        ScopeKind::Global => "Global"@,
        ScopeKind::Function => "Function"@,
        ScopeKind::Block => "Block"@,
    }
}

/// The line for one symbol of a scope.
pub open spec fn symbol_line(entry: (String, Symbol)) -> LineView {
    (LogLevel::Debug, "    - "@ + entry.0@ + " ("@ + symbol_kind_text(entry.1) + ")"@)
}

/// The lines for a scope: none when it has no symbols, else a heading and a line per symbol.
pub open spec fn scope_lines(s: Scope) -> Seq<LineView> {
    let entries = s.symbols.entries@;
    if entries.len() == 0 {
        seq![]
    } else {
        seq![(LogLevel::Debug, "  ["@ + scope_kind_text(s.kind) + " scope_id="@ + decimal(s.id@ as nat) + "] "@
            + decimal(entries.len()) + " 个符号:"@)]
            + Seq::new(entries.len(), |i: int| symbol_line(entries[i]))
    }
}

/// The lines for a list of scopes, one scope after the other.
pub open spec fn scopes_lines(ss: Seq<Scope>) -> Seq<LineView>
    decreases ss.len(),
{
    if ss.len() == 0 {
        seq![]
    } else {
        scopes_lines(ss.drop_last()) + scope_lines(ss.last())
    }
}

/// The number of symbols of a list of scopes.
pub open spec fn symbol_total(ss: Seq<Scope>) -> nat
    decreases ss.len(),
{
    if ss.len() == 0 {
        0
    } else {
        symbol_total(ss.drop_last()) + ss.last().symbols.entries@.len()
    }
}

/// The symbol table as it is logged: a summary, then each scope that has symbols, in the order
/// of their ids. The symbol count stops at the largest `usize`.
pub open spec fn symbol_table_lines(a: SemanticAnalyzer) -> Seq<LineView> {
    let ss = a.ctx.scope_tree.scopes@;
    let total: nat = if symbol_total(ss) <= usize::MAX { symbol_total(ss) } else { usize::MAX as nat };
    seq![(LogLevel::Info, "符号表: "@ + decimal(ss.len()) + " 个作用域, "@ + decimal(total) + " 个符号"@)]
        + scopes_lines(ss)
}

/// The name shown for a value: the one recorded for it, else `<anon>`.
pub open spec fn value_name_text(a: SemanticAnalyzer, v: u64) -> Seq<char> {
    if a.ctx.value_names@.contains_key(v) {
        a.ctx.value_names@[v]@
    } else {
        "<anon>"@
    }
}

/// The line for one value of the pool: id, name, kind, type (`?` when unknown) and references.
pub open spec fn value_line(a: SemanticAnalyzer, info: ValueInfo) -> LineView {
    let ty = match info.ty {
        Some(t) => resolved_text(t),
        None => "?"@,
    };
    (LogLevel::Debug, "  - id="@ + decimal(info.id@ as nat) + " '"@ + value_name_text(a, info.id@) + "' "@
        + kind_text(info.kind) + " ::"@ + ty + "  refs="@ + decimal(info.ref_count as nat))
}

/// The value pool as it is logged: the number of values, then a line per value in id order.
pub open spec fn value_pool_lines(a: SemanticAnalyzer) -> Seq<LineView> {
    let vals = a.ctx.value_pool.values@;
    seq![(LogLevel::Debug, "Value Pool: "@ + decimal(vals.len()) + " 个值"@)]
        + Seq::new(vals.len(), |i: int| value_line(a, vals[i]))
}

/// Some range of `ranges` is about `v` and was ended by a scope exit.
pub open spec fn dropped_at_scope_exit(ranges: Seq<LiveRange>, v: u64) -> bool {
    exists|j: int| 0 <= j < ranges.len() && (#[trigger] ranges[j]).value@ == v && ranges[j].dropped_by_scope_exit
}

/// The drop points whose value a scope exit dropped (`at_exit`), or the others, in order.
pub open spec fn drops_where(ranges: Seq<LiveRange>, drops: Seq<DropPoint>, at_exit: bool) -> Seq<DropPoint>
    decreases drops.len(),
{
    if drops.len() == 0 {
        seq![]
    } else {
        let prev = drops_where(ranges, drops.drop_last(), at_exit);
        if dropped_at_scope_exit(ranges, drops.last().value@) == at_exit {
            prev.push(drops.last())
        } else {
            prev
        }
    }
}

/// A heading, then one line per drop point, when there are any.
pub open spec fn drop_section(heading: Seq<char>, ds: Seq<DropPoint>) -> Seq<LineView> {
    if ds.len() == 0 {
        seq![]
    } else {
        seq![(LogLevel::Debug, heading)] + Seq::new(ds.len(), |i: int| (LogLevel::Debug, "    - "@ + ds[i].description@))
    }
}

/// The liveness results as they are logged: the counts of ranges and of drop points, split into
/// those a scope exit caused and the early ones; then the early drops, then the scope-exit ones.
pub open spec fn liveness_lines(a: SemanticAnalyzer) -> Seq<LineView> {
    let ranges = a.live_ranges@;
    let drops = a.drop_points@;
    let at_exit = drops_where(ranges, drops, true);
    let early = drops_where(ranges, drops, false);
    seq![(LogLevel::Info, "存活分析: "@ + decimal(ranges.len()) + " 区间, "@ + decimal(drops.len()) + " Drop ("@
        + decimal(at_exit.len()) + " scope-exit, "@ + decimal(early.len()) + " early)"@)]
        + drop_section("  [提前 Drop (ref_count→0)]:"@, early)
        + drop_section("  [作用域退出 Drop]:"@, at_exit)
}

impl Utils {
    /// The name of the file being analysed: its path, or `<cmd>` for inline code.
    pub fn resolve_file_name(cli: &Cli) -> (r: String)
        ensures
            r@ == file_name_text(*cli),
    {
        match &cli.path {
            Some(p) => p.clone(),
            None => string_of("<cmd>"),
        }
    }

    /// Where the source comes from: inline code first, else the file at the path.
    pub fn source_request(cli: &Cli) -> (r: SourceRequest)
        ensures
            match cli.cmd {
                Some(code) => r matches SourceRequest::Inline(c) && c@ == code@,
                None => match cli.path {
                    Some(p) => r matches SourceRequest::File(f) && f@ == p@,
                    None => r is Missing,
                },
            },
    {
        match &cli.cmd {
            Some(code) => SourceRequest::Inline(code.clone()),
            None => match &cli.path {
                Some(p) => SourceRequest::File(p.clone()),
                None => SourceRequest::Missing,
            },
        }
    }
}

/// The printed form of a storage class.
fn storage_string(c: StorageClass) -> (r: String)
    ensures
        r@ == storage_text(c),
{
    match c {
        StorageClass::Let => string_of("Let"),
        StorageClass::Const => string_of("Const"),
        StorageClass::Constatic => string_of("Constatic"),
        StorageClass::Explain => string_of("Explain"),
    }
}

/// The printed kind of a symbol.
fn symbol_kind_string(s: &Symbol) -> (r: String)
    ensures
        r@ == symbol_kind_text(*s),
{
    match s {
        Symbol::Variable { storage_class, .. } => {
            let mut r = string_of("var (");
            let c = storage_string(*storage_class);
            push_str(&mut r, c.as_str());
            push_str(&mut r, ")");
            r
        }
        Symbol::Function { .. } => string_of("fn"),
        Symbol::Struct { .. } => string_of("struct"),
        Symbol::Trait { .. } => string_of("trait"),
        Symbol::Enum { .. } => string_of("enum"),
        Symbol::TypeAlias { .. } => string_of("type"),
        Symbol::Extra { .. } => string_of("extra"),
        Symbol::Impl { .. } => string_of("impl"),
        Symbol::Group { .. } => string_of("group"),
    }
}

/// The printed kind of a scope.
fn scope_kind_string(k: ScopeKind) -> (r: String)
    ensures
        r@ == scope_kind_text(k),
{
    match k {
        ScopeKind::Global => string_of("Global"),
        ScopeKind::Function => string_of("Function"),
        ScopeKind::Block => string_of("Block"),
    }
}

/// Appends the lines of one scope.
fn push_scope_lines(lines: &mut Vec<LogLine>, s: &Scope)
    ensures
        line_views(final(lines)@) == line_views(old(lines)@) + scope_lines(*s),
{
    let entries = &s.symbols.entries;
    let ghost start = line_views(lines@);
    if entries.len() == 0 {
        assert(line_views(lines@) =~= start + scope_lines(*s));
        return;
    }
    let mut head = string_of("  [");
    let k = scope_kind_string(s.kind);
    push_str(&mut head, k.as_str());
    push_str(&mut head, " scope_id=");
    let id = u64_to_string(s.id.0);
    push_str(&mut head, id.as_str());
    push_str(&mut head, "] ");
    let n = u64_to_string(entries.len() as u64);
    push_str(&mut head, n.as_str());
    push_str(&mut head, " 个符号:");
    lines.push(LogLine { level: LogLevel::Debug, text: head });
    let ghost first = line_views(lines@);
    proof {
        assert(first =~= start + seq![scope_lines(*s)[0]]);
    }
    let mut i: usize = 0;
    while i < entries.len()
        invariant
            i <= entries@.len(),
            entries@.len() > 0,
            *entries == s.symbols.entries,
            first == start + seq![scope_lines(*s)[0]],
            line_views(lines@) == first + Seq::new(i as nat, |j: int| symbol_line(entries@[j])),
        decreases entries@.len() - i,
    {
        let mut t = string_of("    - ");
        push_str(&mut t, entries[i].0.as_str());
        push_str(&mut t, " (");
        let kind = symbol_kind_string(&entries[i].1);
        push_str(&mut t, kind.as_str());
        push_str(&mut t, ")");
        let ghost before = line_views(lines@);
        lines.push(LogLine { level: LogLevel::Debug, text: t });
        proof {
            assert(line_views(lines@) =~= before.push(symbol_line(entries@[i as int])));
            assert(Seq::new((i + 1) as nat, |j: int| symbol_line(entries@[j]))
                =~= Seq::new(i as nat, |j: int| symbol_line(entries@[j])).push(symbol_line(entries@[i as int])));
        }
        i += 1;
    }
    proof {
        assert(scope_lines(*s) =~= seq![scope_lines(*s)[0]] + Seq::new(entries@.len(), |j: int| symbol_line(entries@[j])));
    }
}

/// The symbol table of the analysis as it is logged: the number of scopes and symbols, then,
/// for each scope with symbols in the order of their ids, a heading and one line per symbol.
pub fn print_symbol_table(result: &SemanticAnalyzer) -> (lines: Vec<LogLine>)
    ensures
        line_views(lines@) == symbol_table_lines(*result),
{
    let scopes = &result.ctx.scope_tree.scopes;
    let mut total: usize = 0;
    let mut i: usize = 0;
    while i < scopes.len()
        invariant
            i <= scopes@.len(),
            total == (if symbol_total(scopes@.take(i as int)) <= usize::MAX {
                symbol_total(scopes@.take(i as int))
            } else {
                usize::MAX as nat
            }),
        decreases scopes@.len() - i,
    {
        proof {
            assert(scopes@.take(i + 1).drop_last() =~= scopes@.take(i as int));
        }
        let n = scopes[i].symbols.entries.len();
        total = if total <= usize::MAX - n { total + n } else { usize::MAX };
        i += 1;
    }
    proof {
        assert(scopes@.take(scopes@.len() as int) =~= scopes@);
    }
    let mut head = string_of("符号表: ");
    let a = u64_to_string(scopes.len() as u64);
    push_str(&mut head, a.as_str());
    push_str(&mut head, " 个作用域, ");
    let b = u64_to_string(total as u64);
    push_str(&mut head, b.as_str());
    push_str(&mut head, " 个符号");
    let mut lines: Vec<LogLine> = Vec::new();
    lines.push(LogLine { level: LogLevel::Info, text: head });
    let ghost first = line_views(lines@);
    proof {
        assert(first =~= seq![symbol_table_lines(*result)[0]]);
        assert(scopes@.take(0) =~= Seq::<Scope>::empty());
    }
    let mut k: usize = 0;
    while k < scopes.len()
        invariant
            k <= scopes@.len(),
            *scopes == result.ctx.scope_tree.scopes,
            first == seq![symbol_table_lines(*result)[0]],
            line_views(lines@) == first + scopes_lines(scopes@.take(k as int)),
        decreases scopes@.len() - k,
    {
        proof {
            assert(scopes@.take(k + 1).drop_last() =~= scopes@.take(k as int));
            assert(scopes@.take(k + 1).last() == scopes@[k as int]);
        }
        push_scope_lines(&mut lines, &scopes[k]);
        proof {
            assert(line_views(lines@) =~= first + scopes_lines(scopes@.take(k + 1)));
        }
        k += 1;
    }
    proof {
        assert(scopes@.take(scopes@.len() as int) =~= scopes@);
        assert(line_views(lines@) =~= symbol_table_lines(*result));
    }
    lines
}

/// The value pool of the analysis as it is logged: the number of values, then, for each value in
/// id order, its id, name, kind, type and reference count.
pub fn print_value_pool(result: &SemanticAnalyzer) -> (lines: Vec<LogLine>)
    requires
        result.ctx.wf(),
    ensures
        line_views(lines@) == value_pool_lines(*result),
{
    let vals = &result.ctx.value_pool.values;
    let mut head = string_of("Value Pool: ");
    let n = u64_to_string(vals.len() as u64);
    push_str(&mut head, n.as_str());
    push_str(&mut head, " 个值");
    let mut lines: Vec<LogLine> = Vec::new();
    lines.push(LogLine { level: LogLevel::Debug, text: head });
    let ghost first = line_views(lines@);
    proof {
        assert(first =~= seq![value_pool_lines(*result)[0]]);
    }
    let mut i: usize = 0;
    while i < vals.len()
        invariant
            i <= vals@.len(),
            *vals == result.ctx.value_pool.values,
            result.ctx.wf(),
            first == seq![value_pool_lines(*result)[0]],
            line_views(lines@) == first + Seq::new(i as nat, |j: int| value_line(*result, vals@[j])),
        decreases vals@.len() - i,
    {
        let info = &vals[i];
        let mut t = string_of("  - id=");
        let id = u64_to_string(info.id.0);
        push_str(&mut t, id.as_str());
        push_str(&mut t, " '");
        match result.ctx.value_names.get(&info.id) {
            Some(name) => push_str(&mut t, name.as_str()),
            None => push_str(&mut t, "<anon>"),
        }
        push_str(&mut t, "' ");
        let kind = kind_string(&info.kind);
        push_str(&mut t, kind.as_str());
        push_str(&mut t, " ::");
        match &info.ty {
            Some(ty) => {
                let tn = ty.display_name();
                push_str(&mut t, tn.as_str());
            }
            None => push_str(&mut t, "?"),
        }
        push_str(&mut t, "  refs=");
        let rc = u64_to_string(info.ref_count as u64);
        push_str(&mut t, rc.as_str());
        let ghost before = line_views(lines@);
        lines.push(LogLine { level: LogLevel::Debug, text: t });
        proof {
            assert(line_views(lines@) =~= before.push(value_line(*result, vals@[i as int])));
            assert(Seq::new((i + 1) as nat, |j: int| value_line(*result, vals@[j]))
                =~= Seq::new(i as nat, |j: int| value_line(*result, vals@[j])).push(value_line(*result, vals@[i as int])));
        }
        i += 1;
    }
    proof {
        assert(line_views(lines@) =~= value_pool_lines(*result));
    }
    lines
}

/// Whether a scope exit dropped the value `v`, as one of `ranges` records it.
fn scope_exit_dropped(ranges: &Vec<LiveRange>, v: u64) -> (r: bool)
    ensures
        r == dropped_at_scope_exit(ranges@, v),
{
    let mut i: usize = 0;
    while i < ranges.len()
        invariant
            i <= ranges@.len(),
            forall|j: int| 0 <= j < i ==> !((#[trigger] ranges@[j]).value@ == v && ranges@[j].dropped_by_scope_exit),
        decreases ranges@.len() - i,
    {
        if ranges[i].value.0 == v && ranges[i].dropped_by_scope_exit {
            return true;
        }
        i += 1;
    }
    false
}

/// The descriptions of the drop points that a scope exit caused (`at_exit`), or of the others.
fn drop_descriptions(ranges: &Vec<LiveRange>, drops: &Vec<DropPoint>, at_exit: bool) -> (r: Vec<String>)
    ensures
        r@.len() == drops_where(ranges@, drops@, at_exit).len(),
        forall|i: int| 0 <= i < r@.len() ==> #[trigger] r@[i]@ == drops_where(ranges@, drops@, at_exit)[i].description@,
{
    let mut r: Vec<String> = Vec::new();
    let mut i: usize = 0;
    while i < drops.len()
        invariant
            i <= drops@.len(),
            r@.len() == drops_where(ranges@, drops@.take(i as int), at_exit).len(),
            forall|k: int| 0 <= k < r@.len() ==> #[trigger] r@[k]@ == drops_where(ranges@, drops@.take(i as int), at_exit)[k].description@,
        decreases drops@.len() - i,
    {
        proof {
            assert(drops@.take(i + 1).drop_last() =~= drops@.take(i as int));
            assert(drops@.take(i + 1).last() == drops@[i as int]);
        }
        if scope_exit_dropped(ranges, drops[i].value.0) == at_exit {
            r.push(drops[i].description.clone());
        }
        i += 1;
    }
    proof {
        assert(drops@.take(drops@.len() as int) =~= drops@);
    }
    r
}

/// Appends a heading and one line per description, when there are any.
fn push_drop_section(lines: &mut Vec<LogLine>, heading: &str, descs: &Vec<String>, ds: Ghost<Seq<DropPoint>>)
    requires
        descs@.len() == ds@.len(),
        forall|i: int| 0 <= i < descs@.len() ==> #[trigger] descs@[i]@ == ds@[i].description@,
    ensures
        line_views(final(lines)@) == line_views(old(lines)@) + drop_section(heading@, ds@),
{
    let ghost start = line_views(lines@);
    if descs.len() == 0 {
        assert(line_views(lines@) =~= start + drop_section(heading@, ds@));
        return;
    }
    lines.push(LogLine { level: LogLevel::Debug, text: string_of(heading) });
    let ghost first = line_views(lines@);
    proof {
        assert(first =~= start + seq![(LogLevel::Debug, heading@)]);
    }
    let mut i: usize = 0;
    while i < descs.len()
        invariant
            i <= descs@.len(),
            descs@.len() == ds@.len(),
            forall|k: int| 0 <= k < descs@.len() ==> #[trigger] descs@[k]@ == ds@[k].description@,
            line_views(lines@) == first + Seq::new(i as nat, |k: int| (LogLevel::Debug, "    - "@ + ds@[k].description@)),
        decreases descs@.len() - i,
    {
        let mut t = string_of("    - ");
        push_str(&mut t, descs[i].as_str());
        let ghost before = line_views(lines@);
        lines.push(LogLine { level: LogLevel::Debug, text: t });
        proof {
            assert(line_views(lines@) =~= before.push((LogLevel::Debug, "    - "@ + ds@[i as int].description@)));
            assert(Seq::new((i + 1) as nat, |k: int| (LogLevel::Debug, "    - "@ + ds@[k].description@))
                =~= Seq::new(i as nat, |k: int| (LogLevel::Debug, "    - "@ + ds@[k].description@))
                .push((LogLevel::Debug, "    - "@ + ds@[i as int].description@)));
        }
        i += 1;
    }
    proof {
        assert(line_views(lines@) =~= start + drop_section(heading@, ds@));
    }
}

/// The liveness results of the analysis as they are logged: the number of ranges and drop points
/// with the split between scope-exit and early drops, then the early drops, then the scope-exit
/// drops, each section only when it has entries.
pub fn print_liveness(result: &SemanticAnalyzer) -> (lines: Vec<LogLine>)
    ensures
        line_views(lines@) == liveness_lines(*result),
{
    let ranges = &result.live_ranges;
    let drops = &result.drop_points;
    let at_exit = drop_descriptions(ranges, drops, true);
    let early = drop_descriptions(ranges, drops, false);
    let mut head = string_of("存活分析: ");
    let a = u64_to_string(ranges.len() as u64);
    push_str(&mut head, a.as_str());
    push_str(&mut head, " 区间, ");
    let b = u64_to_string(drops.len() as u64);
    push_str(&mut head, b.as_str());
    push_str(&mut head, " Drop (");
    let c = u64_to_string(at_exit.len() as u64);
    push_str(&mut head, c.as_str());
    push_str(&mut head, " scope-exit, ");
    let d = u64_to_string(early.len() as u64);
    push_str(&mut head, d.as_str());
    push_str(&mut head, " early)");
    let mut lines: Vec<LogLine> = Vec::new();
    lines.push(LogLine { level: LogLevel::Info, text: head });
    let ghost first = line_views(lines@);
    push_drop_section(&mut lines, "  [提前 Drop (ref_count→0)]:", &early, Ghost(drops_where(ranges@, drops@, false)));
    push_drop_section(&mut lines, "  [作用域退出 Drop]:", &at_exit, Ghost(drops_where(ranges@, drops@, true)));
    proof {
        assert(line_views(lines@) =~= liveness_lines(*result));
    }
    lines
}

/// Everything the command line logs after an analysis: the symbol table, the value pool and the
/// liveness results, in that order.
pub fn debug_summary(result: &SemanticAnalyzer) -> (lines: Vec<LogLine>)
    requires
        result.ctx.wf(),
    ensures
        line_views(lines@) == symbol_table_lines(*result) + value_pool_lines(*result) + liveness_lines(*result),
{
    let mut lines = print_symbol_table(result);
    let mut pool = print_value_pool(result);
    let mut live = print_liveness(result);
    let ghost a = lines@;
    let ghost b = pool@;
    let ghost c = live@;
    lines.append(&mut pool);
    lines.append(&mut live);
    proof {
        assert(lines@ == a + b + c);
        assert(line_views(lines@) =~= line_views(a) + line_views(b) + line_views(c));
    }
    lines
}

} // verus!
