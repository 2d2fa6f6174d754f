use vstd::prelude::*;
use crate::bindings::list_at;
use crate::gather::GatherContext;
use crate::ids::ValueId;
use crate::sema::DropPoint;
use crate::sema::LiveRange;
use crate::sema::MangledName;
use crate::sema::ValueInfo;
use crate::sema::ValueKind;
use crate::text::join_strings;
use crate::text::push_str;
use crate::text::string_of;
use crate::text::u64_to_string;

verus! {

/// How a value kind is printed: its variant, with the id it points at.
pub open spec fn kind_text(k: ValueKind) -> Seq<char> {
    match k {
        ValueKind::ScalarConst => "ScalarConst"@,
        ValueKind::Allocated => "Allocated"@,
        ValueKind::Copied => "Copied"@,
        ValueKind::Reference { target } => "Reference { target: ValueId("@ + crate::text::decimal(target@ as nat) + ") }"@,
        ValueKind::Returned { source } => "Returned { source: ValueId("@ + crate::text::decimal(source@ as nat) + ") }"@,
    }
}

/// The source names of a list of mangled names, joined with ", ".
pub open spec fn var_names_text(names: Seq<MangledName>) -> Seq<char> {
    crate::text::join(Seq::new(names.len(), |i: int| names[i].var_name@), ", "@)
}

/// How a value is described: by the name recorded for it, else by the variables bound to it,
/// with its kind when the pool has it, and always its id.
pub open spec fn describe_text(ctx: GatherContext, v: ValueId) -> Seq<char> {
    let id_part = "(id:"@ + crate::text::decimal(v@ as nat) + ")"@;
    let held = ctx.value_pool.holds(v);
    let kind = kind_text(ctx.value_pool.values@[v@ - 1].kind);
    let names = list_at(ctx.bindings.value_to_names@, v@);
    if ctx.value_names@.contains_key(v@) || names.len() > 0 {
        let who = if ctx.value_names@.contains_key(v@) { ctx.value_names@[v@]@ } else { var_names_text(names) };
        if held {
            "'"@ + who + "' "@ + kind + " "@ + id_part
        } else {
            "'"@ + who + "' "@ + id_part
        }
    } else if held {
        kind + " "@ + id_part
    } else {
        "<unknown> "@ + id_part
    }
}

/// A live range as the analysis sees it: value, description, birth, last use, drop, and
/// whether a scope exit dropped it.
pub type RangeView = (u64, Seq<char>, usize, usize, Option<usize>, bool);

/// A drop point as the analysis sees it: value, description, position.
pub type DropView = (u64, Seq<char>, usize);

/// The live ranges, drop points and position while the analysis runs.
pub struct LiveState {
    pub ranges: Seq<RangeView>,
    pub drops: Seq<DropView>,
    pub pos: nat,
}

/// The views of a list of live ranges.
pub open spec fn range_views(rs: Seq<LiveRange>) -> Seq<RangeView> {
    Seq::new(rs.len(), |i: int| (rs[i].value@, rs[i].description@, rs[i].born_at, rs[i].last_use, rs[i].drop_at, rs[i].dropped_by_scope_exit))
}

/// The views of a list of drop points.
pub open spec fn drop_views(ds: Seq<DropPoint>) -> Seq<DropView> {
    Seq::new(ds.len(), |i: int| (ds[i].value@, ds[i].description@, ds[i].at_position))
}

/// A value that a scope exit left without references: it gets a drop point at the current
/// position, which then advances, unless it has one; and a range that ends with its drop,
/// unless it has one.
pub open spec fn dead_step(st: LiveState, v: u64, desc: Seq<char>) -> LiveState {
    let has_drop = exists|j: int| 0 <= j < st.drops.len() && (#[trigger] st.drops[j]).0 == v;
    let drops = if has_drop { st.drops } else { st.drops.push((v, desc, st.pos as usize)) };
    let pos = if has_drop { st.pos } else { st.pos + 1 };
    let has_range = exists|j: int| 0 <= j < st.ranges.len() && (#[trigger] st.ranges[j]).0 == v;
    let ranges = if has_range {
        st.ranges
    } else {
        st.ranges.push((v, desc, pos as usize, pos as usize, Some(pos as usize), true))
    };
    LiveState { ranges, drops, pos }
}

/// `dead_step` over the values that scope exits left without references, in order.
pub open spec fn dead_fold(ctx: GatherContext, st: LiveState, dead: Seq<(MangledName, ValueId)>) -> LiveState
    decreases dead.len(),
{
    if dead.len() == 0 {
        st
    } else {
        let prev = dead_fold(ctx, st, dead.drop_last());
        dead_step(prev, dead.last().1@, describe_text(ctx, dead.last().1))
    }
}

/// A value of the pool that no scope exit dropped: it gets a range that is never dropped at the
/// current position, which then advances; a value without references that is no reference
/// also gets a drop point at the new position.
pub open spec fn value_step(ctx: GatherContext, st: LiveState, info: ValueInfo, dead: Seq<(MangledName, ValueId)>) -> LiveState {
    if exists|j: int| 0 <= j < dead.len() && (#[trigger] dead[j]).1 == info.id {
        st
    } else {
        let desc = describe_text(ctx, info.id);
        let pos = st.pos + 1;
        LiveState {
            ranges: st.ranges.push((info.id@, desc, st.pos as usize, st.pos as usize, None, false)),
            drops: if info.ref_count == 0 && !(info.kind is Reference) {
                st.drops.push((info.id@, desc, pos as usize))
            } else {
                st.drops
            },
            pos,
        }
    }
}

/// `value_step` over the values of the pool, in order.
pub open spec fn value_fold(ctx: GatherContext, st: LiveState, vals: Seq<ValueInfo>, dead: Seq<(MangledName, ValueId)>) -> LiveState
    decreases vals.len(),
{
    if vals.len() == 0 {
        st
    } else {
        value_step(ctx, value_fold(ctx, st, vals.drop_last(), dead), vals.last(), dead)
    }
}

/// The live ranges and drop points that a fresh analysis of `ctx` records.
pub open spec fn liveness_of(ctx: GatherContext) -> LiveState {
    let start = LiveState { ranges: seq![], drops: seq![], pos: 0 };
    value_fold(ctx, dead_fold(ctx, start, ctx.dead_values@), ctx.value_pool.values@, ctx.dead_values@)
}

/// A scope exit left the value `id` without references.
pub open spec fn dropped_at_exit(dead: Seq<(MangledName, ValueId)>, id: ValueId) -> bool {
    exists|j: int| 0 <= j < dead.len() && (#[trigger] dead[j]).1 == id
}

/// Some drop point of `drops` is about the value `v`.
pub open spec fn has_drop(drops: Seq<DropView>, v: u64) -> bool {
    exists|j: int| 0 <= j < drops.len() && (#[trigger] drops[j]).0 == v
}

/// The first fold adds drop points only for values that scope exits left without references.
proof fn lemma_dead_fold_drops(ctx: GatherContext, st: LiveState, dead: Seq<(MangledName, ValueId)>)
    ensures
        st.drops.len() <= dead_fold(ctx, st, dead).drops.len(),
        forall|j: int| 0 <= j < st.drops.len() ==> #[trigger] dead_fold(ctx, st, dead).drops[j] == st.drops[j],
        forall|j: int| st.drops.len() <= j < dead_fold(ctx, st, dead).drops.len()
            ==> exists|i: int| 0 <= i < dead.len() && (#[trigger] dead[i]).1@ == (#[trigger] dead_fold(ctx, st, dead).drops[j]).0,
        forall|i: int| 0 <= i < dead.len() ==> has_drop(dead_fold(ctx, st, dead).drops, (#[trigger] dead[i]).1@),
    decreases dead.len(),
{
    if dead.len() > 0 {
        let d = dead.drop_last();
        lemma_dead_fold_drops(ctx, st, d);
        let prev = dead_fold(ctx, st, d);
        let next = dead_fold(ctx, st, dead);
        assert forall|i: int| 0 <= i < dead.len() implies has_drop(next.drops, (#[trigger] dead[i]).1@) by {
            if i < d.len() {
                assert(dead[i] == d[i]);
                let j = choose|j: int| 0 <= j < prev.drops.len() && (#[trigger] prev.drops[j]).0 == d[i].1@;
                assert(next.drops[j] == prev.drops[j]);
            } else {
                let v = dead[i].1@;
                if !has_drop(prev.drops, v) {
                    assert(next.drops[next.drops.len() - 1].0 == v);
                }
            }
        }
        assert forall|j: int| st.drops.len() <= j < next.drops.len()
            implies exists|i: int| 0 <= i < dead.len() && (#[trigger] dead[i]).1@ == (#[trigger] next.drops[j]).0 by {
            if j < prev.drops.len() {
                assert(next.drops[j] == prev.drops[j]);
                let i = choose|i: int| 0 <= i < d.len() && (#[trigger] d[i]).1@ == prev.drops[j].0;
                assert(dead[i] == d[i]);
            } else {
                assert(next.drops[j].0 == dead[dead.len() - 1].1@);
            }
        }
    }
}

/// The second fold adds, in order, a drop point for each value of `vals` that no scope exit
/// dropped, that has no reference and that is no reference, and for no other value.
proof fn lemma_value_fold_drops(ctx: GatherContext, st: LiveState, vals: Seq<ValueInfo>, dead: Seq<(MangledName, ValueId)>)
    ensures
        st.drops.len() <= value_fold(ctx, st, vals, dead).drops.len(),
        forall|j: int| 0 <= j < st.drops.len() ==> #[trigger] value_fold(ctx, st, vals, dead).drops[j] == st.drops[j],
        forall|k: int| 0 <= k < vals.len() && !dropped_at_exit(dead, (#[trigger] vals[k]).id) && vals[k].ref_count == 0
            && !(vals[k].kind is Reference) ==> has_drop(value_fold(ctx, st, vals, dead).drops, vals[k].id@),
        forall|j: int| st.drops.len() <= j < value_fold(ctx, st, vals, dead).drops.len()
            ==> exists|k: int| 0 <= k < vals.len() && (#[trigger] vals[k]).id@ == (#[trigger] value_fold(ctx, st, vals, dead).drops[j]).0
                && vals[k].ref_count == 0 && !(vals[k].kind is Reference),
    decreases vals.len(),
{
    if vals.len() > 0 {
        let d = vals.drop_last();
        lemma_value_fold_drops(ctx, st, d, dead);
        let prev = value_fold(ctx, st, d, dead);
        let info = vals.last();
        let next = value_fold(ctx, st, vals, dead);
        assert(next == value_step(ctx, prev, info, dead));
        assert forall|k: int| 0 <= k < vals.len() && !dropped_at_exit(dead, (#[trigger] vals[k]).id) && vals[k].ref_count == 0
            && !(vals[k].kind is Reference) implies has_drop(next.drops, vals[k].id@) by {
            if k < d.len() {
                assert(vals[k] == d[k]);
                let j = choose|j: int| 0 <= j < prev.drops.len() && (#[trigger] prev.drops[j]).0 == d[k].id@;
                assert(next.drops[j] == prev.drops[j]);
            } else {
                assert(vals[k] == info);
                assert(next.drops[next.drops.len() - 1].0 == info.id@);
            }
        }
        assert forall|j: int| st.drops.len() <= j < next.drops.len()
            implies exists|k: int| 0 <= k < vals.len() && (#[trigger] vals[k]).id@ == (#[trigger] next.drops[j]).0
                && vals[k].ref_count == 0 && !(vals[k].kind is Reference) by {
            if j < prev.drops.len() {
                assert(next.drops[j] == prev.drops[j]);
                let k = choose|k: int| 0 <= k < d.len() && (#[trigger] d[k]).id@ == prev.drops[j].0
                    && d[k].ref_count == 0 && !(d[k].kind is Reference);
                assert(vals[k] == d[k]);
            } else {
                assert(vals[vals.len() - 1] == info);
            }
        }
    }
}

/// Every value that a scope exit left without references gets a drop point.
pub proof fn lemma_values_dropped_at_exit_have_drops(ctx: GatherContext, i: int)
    requires
        0 <= i < ctx.dead_values@.len(),
    ensures
        has_drop(liveness_of(ctx).drops, ctx.dead_values@[i].1@),
{
    let dead = ctx.dead_values@;
    let start = LiveState { ranges: seq![], drops: seq![], pos: 0 };
    let mid = dead_fold(ctx, start, dead);
    lemma_dead_fold_drops(ctx, start, dead);
    lemma_value_fold_drops(ctx, mid, ctx.value_pool.values@, dead);
    let j = choose|j: int| 0 <= j < mid.drops.len() && (#[trigger] mid.drops[j]).0 == dead[i].1@;
    assert(liveness_of(ctx).drops[j] == mid.drops[j]);
}

/// Liveness gives a value of the pool that no scope exit dropped a drop point exactly when it
/// has no reference and is no reference itself.
pub proof fn lemma_unreferenced_values_are_dropped(ctx: GatherContext, k: int)
    requires
        ctx.value_pool.wf(),
        0 <= k < ctx.value_pool.values@.len(),
        !dropped_at_exit(ctx.dead_values@, ctx.value_pool.values@[k].id),
    ensures
        has_drop(liveness_of(ctx).drops, ctx.value_pool.values@[k].id@)
            <==> (ctx.value_pool.values@[k].ref_count == 0 && !(ctx.value_pool.values@[k].kind is Reference)),
{
    let vals = ctx.value_pool.values@;
    let dead = ctx.dead_values@;
    let start = LiveState { ranges: seq![], drops: seq![], pos: 0 };
    let mid = dead_fold(ctx, start, dead);
    let out = liveness_of(ctx);
    lemma_dead_fold_drops(ctx, start, dead);
    lemma_value_fold_drops(ctx, mid, vals, dead);
    let info = vals[k];
    if has_drop(out.drops, info.id@) {
        let j = choose|j: int| 0 <= j < out.drops.len() && (#[trigger] out.drops[j]).0 == info.id@;
        if j < mid.drops.len() {
            assert(out.drops[j] == mid.drops[j]);
            let i = choose|i: int| 0 <= i < dead.len() && (#[trigger] dead[i]).1@ == mid.drops[j].0;
            assert(dead[i].1 == info.id);
            assert(false);
        } else {
            let k2 = choose|k2: int| 0 <= k2 < vals.len() && (#[trigger] vals[k2]).id@ == out.drops[j].0
                && vals[k2].ref_count == 0 && !(vals[k2].kind is Reference);
            assert(vals[k2].id@ == k2 + 1);
            assert(vals[k].id@ == k + 1);
        }
    }
}

/// Some range of `rs` is about the value `v`.
pub open spec fn has_range(rs: Seq<RangeView>, v: u64) -> bool {
    exists|j: int| 0 <= j < rs.len() && (#[trigger] rs[j]).0 == v
}

/// After the first fold, every value that a scope exit left without references has a range.
proof fn lemma_dead_fold_covers(ctx: GatherContext, st: LiveState, dead: Seq<(MangledName, ValueId)>)
    ensures
        forall|k: int| 0 <= k < dead.len() ==> has_range(dead_fold(ctx, st, dead).ranges, (#[trigger] dead[k]).1@),
    decreases dead.len(),
{
    if dead.len() > 0 {
        let d = dead.drop_last();
        lemma_dead_fold_covers(ctx, st, d);
        let prev = dead_fold(ctx, st, d);
        let v = dead.last().1@;
        let next = dead_step(prev, v, describe_text(ctx, dead.last().1));
        assert(has_range(next.ranges, v)) by {
            if !has_range(prev.ranges, v) {
                assert(next.ranges[next.ranges.len() - 1].0 == v);
            }
        }
        assert forall|k: int| 0 <= k < dead.len() implies has_range(next.ranges, (#[trigger] dead[k]).1@) by {
            if k < d.len() {
                assert(dead[k] == d[k]);
                let w = d[k].1@;
                assert(has_range(prev.ranges, w));
                let j = choose|j: int| 0 <= j < prev.ranges.len() && (#[trigger] prev.ranges[j]).0 == w;
                assert(next.ranges[j] == prev.ranges[j]);
            }
        }
    }
}

/// The second fold only adds ranges, and gives each value of the pool that had none a range.
proof fn lemma_value_fold_covers(ctx: GatherContext, st: LiveState, vals: Seq<ValueInfo>, dead: Seq<(MangledName, ValueId)>)
    requires
        forall|k: int| 0 <= k < dead.len() ==> has_range(st.ranges, (#[trigger] dead[k]).1@),
    ensures
        forall|v: u64| has_range(st.ranges, v) ==> #[trigger] has_range(value_fold(ctx, st, vals, dead).ranges, v),
        forall|i: int| 0 <= i < vals.len() ==> has_range(value_fold(ctx, st, vals, dead).ranges, (#[trigger] vals[i]).id@),
    decreases vals.len(),
{
    if vals.len() > 0 {
        let d = vals.drop_last();
        lemma_value_fold_covers(ctx, st, d, dead);
        let prev = value_fold(ctx, st, d, dead);
        let info = vals.last();
        let next = value_step(ctx, prev, info, dead);
        assert forall|v: u64| has_range(prev.ranges, v) implies #[trigger] has_range(next.ranges, v) by {
            let j = choose|j: int| 0 <= j < prev.ranges.len() && (#[trigger] prev.ranges[j]).0 == v;
            assert(next.ranges[j] == prev.ranges[j]);
        }
        assert(has_range(next.ranges, info.id@)) by {
            if exists|j: int| 0 <= j < dead.len() && (#[trigger] dead[j]).1 == info.id {
                let j = choose|j: int| 0 <= j < dead.len() && (#[trigger] dead[j]).1 == info.id;
                assert(has_range(st.ranges, dead[j].1@));
                assert(has_range(prev.ranges, info.id@));
            } else {
                assert(next.ranges[next.ranges.len() - 1].0 == info.id@);
            }
        }
        assert forall|i: int| 0 <= i < vals.len() implies has_range(next.ranges, (#[trigger] vals[i]).id@) by {
            if i < d.len() {
                assert(vals[i] == d[i]);
                assert(has_range(prev.ranges, d[i].id@));
            }
        }
    }
}

/// Every value of the pool gets a live range: the values that scope exits left without
/// references from the first fold, every other value from the second.
pub proof fn lemma_every_value_has_range(ctx: GatherContext, st: LiveState)
    ensures
        ({
            let end = value_fold(ctx, dead_fold(ctx, st, ctx.dead_values@), ctx.value_pool.values@, ctx.dead_values@);
            forall|i: int| 0 <= i < ctx.value_pool.values@.len()
                ==> has_range(end.ranges, (#[trigger] ctx.value_pool.values@[i]).id@)
        }),
{
    lemma_dead_fold_covers(ctx, st, ctx.dead_values@);
    lemma_value_fold_covers(ctx, dead_fold(ctx, st, ctx.dead_values@), ctx.value_pool.values@, ctx.dead_values@);
}

/// The liveness pass: when each value lives and where it is dropped.
#[derive(Debug)]
pub struct LivenessAnalyzer {
    pub live_ranges: Vec<LiveRange>,
    pub drop_points: Vec<DropPoint>,
}

pub(crate) fn kind_string(kind: &ValueKind) -> (r: String)
    ensures
        r@ == kind_text(*kind),
{
    match kind {
        ValueKind::ScalarConst => string_of("ScalarConst"),
        ValueKind::Allocated => string_of("Allocated"),
        ValueKind::Copied => string_of("Copied"),
        ValueKind::Reference { target } => {
            let mut r = string_of("Reference { target: ValueId(");
            let n = u64_to_string(target.get());
            push_str(&mut r, n.as_str());
            push_str(&mut r, ") }");
            r
        }
        ValueKind::Returned { source } => {
            let mut r = string_of("Returned { source: ValueId(");
            let n = u64_to_string(source.get());
            push_str(&mut r, n.as_str());
            push_str(&mut r, ") }");
            r
        }
    }
}

fn var_names_string(names: &[MangledName]) -> (r: String)
    ensures
        r@ == var_names_text(names@),
{
    let mut parts: Vec<String> = Vec::new();
    let mut i: usize = 0;
    while i < names.len()
        invariant
            i <= names.len(),
            parts.len() == i,
            forall|j: int| 0 <= j < i ==> #[trigger] parts@[j]@ == names@[j].var_name@,
        decreases names.len() - i,
    {
        parts.push(names[i].var_name.clone());
        i += 1;
    }
    let r = join_strings(&parts, ", ");
    assert(crate::text::views(parts@) =~= Seq::new(names@.len(), |j: int| names@[j].var_name@));
    r
}

/// Whether some entry of `ds` drops `v`.
fn drops_value(ds: &Vec<DropPoint>, v: ValueId) -> (r: bool)
    ensures
        r == exists|j: int| 0 <= j < drop_views(ds@).len() && (#[trigger] drop_views(ds@)[j]).0 == v@,
{
    let mut i: usize = 0;
    while i < ds.len()
        invariant
            i <= ds.len(),
            forall|j: int| 0 <= j < i ==> (#[trigger] drop_views(ds@)[j]).0 != v@,
        decreases ds.len() - i,
    {
        if ds[i].value.get() == v.get() {
            assert(drop_views(ds@)[i as int].0 == v@);
            return true;
        }
        i += 1;
    }
    false
}

/// Whether some entry of `rs` is the range of `v`.
fn ranges_value(rs: &Vec<LiveRange>, v: ValueId) -> (r: bool)
    ensures
        r == exists|j: int| 0 <= j < range_views(rs@).len() && (#[trigger] range_views(rs@)[j]).0 == v@,
{
    let mut i: usize = 0;
    while i < rs.len()
        invariant
            i <= rs.len(),
            forall|j: int| 0 <= j < i ==> (#[trigger] range_views(rs@)[j]).0 != v@,
        decreases rs.len() - i,
    {
        if rs[i].value.get() == v.get() {
            assert(range_views(rs@)[i as int].0 == v@);
            return true;
        }
        i += 1;
    }
    false
}

/// Whether a scope exit dropped `v`.
fn is_dead(dead: &Vec<(MangledName, ValueId)>, v: ValueId) -> (r: bool)
    ensures
        r == exists|j: int| 0 <= j < dead@.len() && (#[trigger] dead@[j]).1 == v,
{
    let mut i: usize = 0;
    while i < dead.len()
        invariant
            i <= dead.len(),
            forall|j: int| 0 <= j < i ==> (#[trigger] dead@[j]).1 != v,
        decreases dead.len() - i,
    {
        if dead[i].1.get() == v.get() {
            return true;
        }
        i += 1;
    }
    false
}

impl LivenessAnalyzer {
    /// No ranges and no drop points.
    pub fn new() -> (r: Self)
        ensures
            r.live_ranges@.len() == 0,
            r.drop_points@.len() == 0,
    {
        LivenessAnalyzer { live_ranges: Vec::new(), drop_points: Vec::new() }
    }

    /// Records the values that scope exits left without references, then every other value of
    /// the pool, as `dead_fold` and `value_fold` say, counting positions from zero.
    pub fn analyze(&mut self, ctx: &GatherContext)
        requires
            ctx.wf(),
            ctx.dead_values@.len() + ctx.value_pool.values@.len() <= usize::MAX,
        ensures
            ({
                let start = LiveState {
                    ranges: range_views(old(self).live_ranges@),
                    drops: drop_views(old(self).drop_points@),
                    pos: 0,
                };
                let end = value_fold(*ctx, dead_fold(*ctx, start, ctx.dead_values@), ctx.value_pool.values@, ctx.dead_values@);
                &&& range_views(final(self).live_ranges@) == end.ranges
                &&& drop_views(final(self).drop_points@) == end.drops
            }),
    {
        let ghost start = LiveState {
            ranges: range_views(self.live_ranges@),
            drops: drop_views(self.drop_points@),
            pos: 0,
        };
        let dead = &ctx.dead_values;
        let mut position: usize = 0;
        let mut i: usize = 0;
        proof {
            assert(dead@.take(0) =~= Seq::<(MangledName, ValueId)>::empty());
        }
        while i < dead.len()
            invariant
                i <= dead.len(),
                ctx.wf(),
                dead == &ctx.dead_values,
                ctx.dead_values@.len() + ctx.value_pool.values@.len() <= usize::MAX,
                position <= i,
                ({
                    let st = dead_fold(*ctx, start, dead@.take(i as int));
                    &&& range_views(self.live_ranges@) == st.ranges
                    &&& drop_views(self.drop_points@) == st.drops
                    &&& st.pos == position
                }),
            decreases dead.len() - i,
        {
            let value_id = dead[i].1;
            let desc = self.describe_value(ctx, value_id);
            let ghost st = dead_fold(*ctx, start, dead@.take(i as int));
            proof {
                let t = dead@.take(i + 1);
                assert(t.drop_last() =~= dead@.take(i as int));
                assert(t.last() == dead@[i as int]);
            }
            if !drops_value(&self.drop_points, value_id) {
                self.drop_points.push(DropPoint { value: value_id, description: desc.clone(), at_position: position });
                position += 1;
                proof {
                    assert(drop_views(self.drop_points@) =~= st.drops.push((value_id@, desc@, st.pos as usize)));
                }
            }
            if !ranges_value(&self.live_ranges, value_id) {
                self.live_ranges.push(LiveRange {
                    value: value_id,
                    description: desc,
                    born_at: position,
                    last_use: position,
                    drop_at: Some(position),
                    dropped_by_scope_exit: true,
                });
                proof {
                    let pos = dead_step(st, value_id@, describe_text(*ctx, value_id)).pos;
                    assert(range_views(self.live_ranges@) =~= st.ranges.push(
                        (value_id@, describe_text(*ctx, value_id), pos as usize, pos as usize, Some(pos as usize), true)));
                }
            }
            i += 1;
        }
        assert(dead@.take(dead.len() as int) =~= dead@);
        let ghost mid = dead_fold(*ctx, start, dead@);
        let values = &ctx.value_pool.values;
        let mut k: usize = 0;
        proof {
            assert(values@.take(0) =~= Seq::<ValueInfo>::empty());
        }
        while k < values.len()
            invariant
                k <= values.len(),
                ctx.wf(),
                dead == &ctx.dead_values,
                values == &ctx.value_pool.values,
                ctx.dead_values@.len() + ctx.value_pool.values@.len() <= usize::MAX,
                position <= dead.len() + k,
                ({
                    let st = value_fold(*ctx, mid, values@.take(k as int), dead@);
                    &&& range_views(self.live_ranges@) == st.ranges
                    &&& drop_views(self.drop_points@) == st.drops
                    &&& st.pos == position
                }),
            decreases values.len() - k,
        {
            let info = &values[k];
            let ghost st = value_fold(*ctx, mid, values@.take(k as int), dead@);
            proof {
                let t = values@.take(k + 1);
                assert(t.drop_last() =~= values@.take(k as int));
                assert(t.last() == values@[k as int]);
            }
            let value_id = info.id;
            if !is_dead(dead, value_id) {
                let desc = self.describe_value(ctx, value_id);
                self.live_ranges.push(LiveRange {
                    value: value_id,
                    description: desc.clone(),
                    born_at: position,
                    last_use: position,
                    drop_at: None,
                    dropped_by_scope_exit: false,
                });
                proof {
                    assert(range_views(self.live_ranges@) =~= st.ranges.push(
                        (value_id@, desc@, st.pos as usize, st.pos as usize, None, false)));
                }
                position += 1;
                let is_reference = match info.kind {
                    ValueKind::Reference { .. } => true,
                    _ => false,
                };
                if info.ref_count == 0 && !is_reference {
                    self.drop_points.push(DropPoint { value: value_id, description: desc, at_position: position });
                    proof {
                        assert(drop_views(self.drop_points@) =~= st.drops.push((value_id@, describe_text(*ctx, value_id), position)));
                    }
                }
            }
            k += 1;
        }
        assert(values@.take(values.len() as int) =~= values@);
    }

    /// How the value `value_id` is described in ranges and drop points.
    pub fn describe_value(&self, ctx: &GatherContext, value_id: ValueId) -> (r: String)
        requires
            ctx.wf(),
        ensures
            r@ == describe_text(*ctx, value_id),
    {
        let mut id_part = string_of("(id:");
        let n = u64_to_string(value_id.get());
        push_str(&mut id_part, n.as_str());
        push_str(&mut id_part, ")");
        let info = ctx.value_pool.get(value_id);
        let names = ctx.bindings.get_names_for_value(value_id);
        let who: Option<String> = match ctx.value_names.get(&value_id) {
            Some(name) => Some(name.clone()),
            None => if names.len() > 0 {
                Some(var_names_string(names))
            } else {
                None
            },
        };
        match who {
            Some(w) => {
                let mut r = string_of("'");
                push_str(&mut r, w.as_str());
                push_str(&mut r, "' ");
                match info {
                    Some(i) => {
                        let k = kind_string(&i.kind);
                        push_str(&mut r, k.as_str());
                        push_str(&mut r, " ");
                    }
                    None => {}
                }
                push_str(&mut r, id_part.as_str());
                r
            }
            None => match info {
                Some(i) => {
                    let mut r = kind_string(&i.kind);
                    push_str(&mut r, " ");
                    push_str(&mut r, id_part.as_str());
                    r
                }
                None => {
                    let mut r = string_of("<unknown> ");
                    push_str(&mut r, id_part.as_str());
                    r
                }
            },
        }
    }
}

} // verus!
