use vstd::prelude::*;
use crate::ids::ValueId;
use crate::sema::MangledName;
use crate::sema::ValueInfo;
use crate::value_pool::dead_after_dec;
use crate::value_pool::dec_count;
use crate::value_pool::inc_count;
use crate::value_pool::WindValuePool;
use crate::vmap::ViewMap;

verus! {

/// The view of a mangled name.
pub type NameView = (u64, Seq<char>, u64, Seq<char>, u64);

/// `s` without the names whose view is `n`, in order.
pub open spec fn without(s: Seq<MangledName>, n: NameView) -> Seq<MangledName>
    decreases s.len(),
{
    if s.len() == 0 {
        seq![]
    } else if s.last()@ == n {
        without(s.drop_last(), n)
    } else {
        without(s.drop_last(), n).push(s.last())
    }
}

/// The names listed for the value `k`; none when the value has no entry.
pub open spec fn list_at(m: Map<u64, Vec<MangledName>>, k: u64) -> Seq<MangledName> {
    if m.contains_key(k) {
        m[k]@
    } else {
        seq![]
    }
}

/// The lists of names after `name` was taken out of the list of `from`.
pub open spec fn lists_after_unlink(m: Map<u64, Vec<MangledName>>, from: u64, name: NameView, k: u64) -> Seq<MangledName> {
    if k == from {
        without(list_at(m, k), name)
    } else {
        list_at(m, k)
    }
}

/// The bindings and the values, as far as unbinding changes them.
pub struct UnbindState {
    pub names: Map<NameView, ValueId>,
    pub lists: Map<u64, Seq<MangledName>>,
    pub values: Seq<ValueInfo>,
    pub dead: Seq<(MangledName, ValueId)>,
}

/// The name lists of a table, by value.
pub open spec fn lists_of(m: Map<u64, Vec<MangledName>>) -> Map<u64, Seq<MangledName>> {
    Map::new(|k: u64| m.contains_key(k), |k: u64| m[k]@)
}

/// One name unbound: its value loses a reference and the name, and is recorded as dead
/// when left without references.
pub open spec fn unbind_step(st: UnbindState, name: MangledName) -> UnbindState {
    if st.names.contains_key(name@) {
        let v = st.names[name@];
        UnbindState {
            names: st.names.remove(name@),
            lists: if st.lists.contains_key(v@) {
                st.lists.insert(v@, without(st.lists[v@], name@))
            } else {
                st.lists
            },
            values: dec_count(st.values, v),
            dead: if dead_after_dec(st.values, v) { st.dead.push((name, v)) } else { st.dead },
        }
    } else {
        st
    }
}

/// The names unbound one after another.
pub open spec fn unbind_all(st: UnbindState, names: Seq<MangledName>) -> UnbindState
    decreases names.len(),
{
    if names.len() == 0 {
        st
    } else {
        unbind_step(unbind_all(st, names.drop_last()), names.last())
    }
}

/// Which names are bound to which values, in both directions.
#[derive(Debug)]
pub struct Bindings {
    pub name_to_value: ViewMap<MangledName, ValueId>,
    pub value_to_names: ViewMap<ValueId, Vec<MangledName>>,
}

/// A copy of `names` without the names equal to `name`.
fn names_without(names: &Vec<MangledName>, name: &MangledName) -> (r: Vec<MangledName>)
    ensures
        r@ == without(names@, name@),
{
    let mut r: Vec<MangledName> = Vec::new();
    let mut i: usize = 0;
    while i < names.len()
        invariant
            i <= names.len(),
            r@ == without(names@.take(i as int), name@),
        decreases names.len() - i,
    {
        proof {
            let t = names@.take(i + 1);
            assert(t.drop_last() =~= names@.take(i as int));
        }
        if !names[i].same_as(name) {
            r.push(names[i].copy());
        }
        i += 1;
    }
    assert(names@.take(names.len() as int) =~= names@);
    r
}

/// Some name of `s` has the view `n`.
pub open spec fn lists_view(s: Seq<MangledName>, n: NameView) -> bool {
    exists|k: int| 0 <= k < s.len() && (#[trigger] s[k])@ == n
}

/// The list of the value `v` in a map of lists; empty when `v` has none.
pub open spec fn seq_at(m: Map<u64, Seq<MangledName>>, v: u64) -> Seq<MangledName> {
    if m.contains_key(v) {
        m[v]
    } else {
        seq![]
    }
}

/// The two directions agree: each bound name is listed under its value, and each listed name is
/// bound to the value it is listed under.
pub open spec fn consistent_maps(names: Map<NameView, ValueId>, lists: Map<u64, Seq<MangledName>>) -> bool {
    &&& forall|n: NameView| #[trigger] names.contains_key(n) ==> lists_view(seq_at(lists, names[n]@), n)
    &&& forall|v: u64, k: int| 0 <= k < seq_at(lists, v).len()
        ==> names.contains_key((#[trigger] seq_at(lists, v)[k])@) && names[seq_at(lists, v)[k]@]@ == v
}

/// What `bind` does to the bindings `b0` and the pool `p0`, giving `b1` and `p1`: `name` is bound
/// to `value`; a previous value of the name loses a reference and the name, `value` gains both.
pub open spec fn bind_effect(b0: Bindings, p0: WindValuePool, b1: Bindings, p1: WindValuePool, name: MangledName, value: ValueId) -> bool {
    &&& b1.wf()
    &&& p1.wf()
    &&& p1.scalar_cache == p0.scalar_cache
    &&& b1.name_to_value@ == b0.name_to_value@.insert(name@, value)
    &&& b0.name_to_value@.contains_key(name@) ==> {
        let ov = b0.name_to_value@[name@];
        &&& p1.values@ == inc_count(dec_count(p0.values@, ov), value)
        &&& forall|k: u64| #[trigger] list_at(b1.value_to_names@, k) == if k == value@ {
            lists_after_unlink(b0.value_to_names@, ov@, name@, k).push(name)
        } else {
            lists_after_unlink(b0.value_to_names@, ov@, name@, k)
        }
    }
    &&& !b0.name_to_value@.contains_key(name@) ==> {
        &&& p1.values@ == inc_count(p0.values@, value)
        &&& forall|k: u64| #[trigger] list_at(b1.value_to_names@, k) == if k == value@ {
            list_at(b0.value_to_names@, k).push(name)
        } else {
            list_at(b0.value_to_names@, k)
        }
    }
    &&& forall|k: u64| #[trigger] b1.value_to_names@.contains_key(k)
        == (b0.value_to_names@.contains_key(k) || k == value@)
}

/// What `unbind` does: `name` is no longer bound; its value, if it had one, loses a reference
/// and the name.
pub open spec fn unbind_effect(b0: Bindings, p0: WindValuePool, b1: Bindings, p1: WindValuePool, name: NameView) -> bool {
    &&& b1.wf()
    &&& p1.wf()
    &&& p1.scalar_cache == p0.scalar_cache
    &&& b1.name_to_value@ == b0.name_to_value@.remove(name)
    &&& b0.name_to_value@.contains_key(name) ==> {
        let v = b0.name_to_value@[name];
        &&& p1.values@ == dec_count(p0.values@, v)
        &&& forall|k: u64| #[trigger] list_at(b1.value_to_names@, k) == lists_after_unlink(b0.value_to_names@, v@, name, k)
        &&& forall|k: u64| #[trigger] b1.value_to_names@.contains_key(k) == b0.value_to_names@.contains_key(k)
    }
    &&& !b0.name_to_value@.contains_key(name) ==> {
        &&& p1.values@ == p0.values@
        &&& b1.value_to_names == b0.value_to_names
    }
}

/// What `unbind_all_in_scope` does: the names `names` are unbound one after the other.
pub open spec fn unbind_all_effect(b0: Bindings, p0: WindValuePool, b1: Bindings, p1: WindValuePool, names: Seq<MangledName>) -> bool {
    let st = unbind_all(UnbindState {
        names: b0.name_to_value@,
        lists: lists_of(b0.value_to_names@),
        values: p0.values@,
        dead: seq![],
    }, names);
    &&& b1.wf()
    &&& p1.wf()
    &&& p1.scalar_cache == p0.scalar_cache
    &&& b1.name_to_value@ == st.names
    &&& lists_of(b1.value_to_names@) == st.lists
    &&& p1.values@ == st.values
}

/// In consistent bindings the names listed for a value are exactly the names bound to it: a name
/// is in the list of `v` (what `get_names_for_value` returns) exactly when `lookup` gives `v` for
/// it. Every operation keeps the bindings consistent.
pub proof fn lemma_names_for_value_agree(b: Bindings, v: ValueId, n: NameView)
    requires
        b.consistent(),
    ensures
        lists_view(list_at(b.value_to_names@, v@), n) <==> (b.name_to_value@.contains_key(n) && b.name_to_value@[n] == v),
{
    let lists = lists_of(b.value_to_names@);
    assert(seq_at(lists, v@) == list_at(b.value_to_names@, v@));
    if b.name_to_value@.contains_key(n) && b.name_to_value@[n] == v {
        assert(lists_view(seq_at(lists, b.name_to_value@[n]@), n));
    }
    if lists_view(list_at(b.value_to_names@, v@), n) {
        let k = choose|k: int| 0 <= k < seq_at(lists, v@).len() && (#[trigger] seq_at(lists, v@)[k])@ == n;
        assert(b.name_to_value@.contains_key(seq_at(lists, v@)[k]@));
    }
}

/// One call on the bindings, by what it does to the name table: `bind` puts a name under a
/// value (its `ensures` inserts the name), `unbind` takes a name out (its `ensures` removes it),
/// `unbind_all_in_scope` takes each of its names out.
pub enum BindingStep {
    Bind(NameView, ValueId),
    Unbind(NameView),
    UnbindAll(Seq<NameView>),
}

/// The name table after one call.
pub open spec fn step_names(m: Map<NameView, ValueId>, s: BindingStep) -> Map<NameView, ValueId> {
    match s {
        BindingStep::Bind(n, v) => m.insert(n, v),
        BindingStep::Unbind(n) => m.remove(n),
        BindingStep::UnbindAll(ns) => m.remove_keys(ns.to_set()),
    }
}

/// The name table after the calls `steps`, in order.
pub open spec fn run_steps(m: Map<NameView, ValueId>, steps: Seq<BindingStep>) -> Map<NameView, ValueId>
    decreases steps.len(),
{
    if steps.len() == 0 {
        m
    } else {
        step_names(run_steps(m, steps.drop_last()), steps.last())
    }
}

/// The call `s` is about the name `n`.
pub open spec fn step_touches(s: BindingStep, n: NameView) -> bool {
    match s {
        BindingStep::Bind(k, _) => k == n,
        BindingStep::Unbind(k) => k == n,
        BindingStep::UnbindAll(ks) => ks.contains(n),
    }
}

/// A name that was bound to `v` looks up `v` through any calls about other names, and looks up
/// nothing once it is unbound.
pub proof fn lemma_bind_lookup_unbind(m: Map<NameView, ValueId>, n: NameView, v: ValueId, steps: Seq<BindingStep>)
    requires
        forall|i: int| 0 <= i < steps.len() ==> !step_touches(#[trigger] steps[i], n),
    ensures
        run_steps(m.insert(n, v), steps).contains_key(n),
        run_steps(m.insert(n, v), steps)[n] == v,
        !step_names(run_steps(m.insert(n, v), steps), BindingStep::Unbind(n)).contains_key(n),
        forall|ns: Seq<NameView>| ns.contains(n)
            ==> !(#[trigger] step_names(run_steps(m.insert(n, v), steps), BindingStep::UnbindAll(ns))).contains_key(n),
    decreases steps.len(),
{
    if steps.len() > 0 {
        assert(forall|i: int| 0 <= i < steps.drop_last().len() ==> steps.drop_last()[i] == steps[i]);
        lemma_bind_lookup_unbind(m, n, v, steps.drop_last());
        assert(!step_touches(steps[steps.len() - 1], n));
    }
}

/// Taking the names of view `n` out of a list keeps the others and adds none.
proof fn lemma_without(s: Seq<MangledName>, n: NameView)
    ensures
        forall|k: int| 0 <= k < without(s, n).len() ==> (#[trigger] without(s, n)[k])@ != n
            && s.contains(without(s, n)[k]),
        forall|m: NameView| m != n && lists_view(s, m) ==> lists_view(without(s, n), m),
    decreases s.len(),
{
    if s.len() > 0 {
        let d = s.drop_last();
        lemma_without(d, n);
        let w = without(s, n);
        let wd = without(d, n);
        assert forall|k: int| 0 <= k < w.len() implies (#[trigger] w[k])@ != n && s.contains(w[k]) by {
            if k < wd.len() {
                assert(w[k] == wd[k]);
                let j = choose|j: int| 0 <= j < d.len() && d[j] == wd[k];
                assert(s[j] == d[j]);
            } else {
                assert(w[k] == s.last());
                assert(s[s.len() - 1] == s.last());
            }
        }
        assert forall|m: NameView| m != n && lists_view(s, m) implies lists_view(w, m) by {
            let k = choose|k: int| 0 <= k < s.len() && (#[trigger] s[k])@ == m;
            if k == s.len() - 1 {
                assert(s.last()@ == m);
                assert(w[w.len() - 1] == s.last());
            } else {
                assert(d[k] == s[k]);
                assert(lists_view(d, m));
                let j = choose|j: int| 0 <= j < wd.len() && (#[trigger] wd[j])@ == m;
                assert(w[j] == wd[j]);
            }
        }
    }
}

/// The lists of a table of vectors, read through `seq_at`, are those that `list_at` reads.
proof fn lemma_seq_at_lists_of(m: Map<u64, Vec<MangledName>>)
    ensures
        forall|v: u64| #[trigger] seq_at(lists_of(m), v) == list_at(m, v),
{
}

/// Binding a name keeps the two directions in agreement.
proof fn lemma_bind_keeps(
    n0: Map<NameView, ValueId>,
    l0: Map<u64, Seq<MangledName>>,
    n1: Map<NameView, ValueId>,
    l1: Map<u64, Seq<MangledName>>,
    name: MangledName,
    value: ValueId,
)
    requires
        consistent_maps(n0, l0),
        n1 == n0.insert(name@, value),
        forall|k: u64| #[trigger] seq_at(l1, k) == ({
            let base = if n0.contains_key(name@) && k == n0[name@]@ {
                without(seq_at(l0, k), name@)
            } else {
                seq_at(l0, k)
            };
            if k == value@ { base.push(name) } else { base }
        }),
    ensures
        consistent_maps(n1, l1),
{
    assert forall|n: NameView| #[trigger] n1.contains_key(n) implies lists_view(seq_at(l1, n1[n]@), n) by {
        let v = n1[n]@;
        let base = if n0.contains_key(name@) && v == n0[name@]@ { without(seq_at(l0, v), name@) } else { seq_at(l0, v) };
        if n == name@ {
            let l = seq_at(l1, v);
            assert(l == base.push(name));
            assert(l[l.len() - 1] == name);
        } else {
            assert(n0.contains_key(n) && n0[n] == n1[n]);
            assert(lists_view(seq_at(l0, v), n));
            if n0.contains_key(name@) && v == n0[name@]@ {
                lemma_without(seq_at(l0, v), name@);
            }
            assert(lists_view(base, n));
            if v == value@ {
                let j = choose|j: int| 0 <= j < base.len() && (#[trigger] base[j])@ == n;
                assert(seq_at(l1, v)[j] == base[j]);
            }
        }
    }
    assert forall|v: u64, k: int| 0 <= k < seq_at(l1, v).len() implies n1.contains_key((#[trigger] seq_at(l1, v)[k])@)
        && n1[seq_at(l1, v)[k]@]@ == v by {
        let base = if n0.contains_key(name@) && v == n0[name@]@ { without(seq_at(l0, v), name@) } else { seq_at(l0, v) };
        let x = seq_at(l1, v)[k];
        if v == value@ && k == base.len() {
            assert(x == name);
        } else {
            assert(x == base[k]);
            if n0.contains_key(name@) && v == n0[name@]@ {
                lemma_without(seq_at(l0, v), name@);
                let j = choose|j: int| 0 <= j < seq_at(l0, v).len() && seq_at(l0, v)[j] == x;
                assert(n0.contains_key(seq_at(l0, v)[j]@));
            } else {
                assert(n0.contains_key(seq_at(l0, v)[k]@));
                assert(x@ != name@);
            }
        }
    }
}

/// Unbinding a name keeps the two directions in agreement.
proof fn lemma_unbind_step_keeps(st: UnbindState, name: MangledName)
    requires
        consistent_maps(st.names, st.lists),
    ensures
        consistent_maps(unbind_step(st, name).names, unbind_step(st, name).lists),
{
    if st.names.contains_key(name@) {
        let v = st.names[name@];
        let nx = unbind_step(st, name);
        assert forall|k: u64| #[trigger] seq_at(nx.lists, k) == if k == v@ {
            without(seq_at(st.lists, k), name@)
        } else {
            seq_at(st.lists, k)
        } by {
            if k == v@ && !st.lists.contains_key(v@) {
                assert(without(Seq::<MangledName>::empty(), name@) =~= Seq::<MangledName>::empty());
            }
        }
        assert forall|n: NameView| #[trigger] nx.names.contains_key(n) implies lists_view(seq_at(nx.lists, nx.names[n]@), n) by {
            assert(st.names.contains_key(n) && n != name@);
            if st.names[n]@ == v@ {
                lemma_without(seq_at(st.lists, v@), name@);
            }
        }
        assert forall|w: u64, k: int| 0 <= k < seq_at(nx.lists, w).len() implies nx.names.contains_key(
            (#[trigger] seq_at(nx.lists, w)[k])@) && nx.names[seq_at(nx.lists, w)[k]@]@ == w by {
            let x = seq_at(nx.lists, w)[k];
            if w == v@ {
                lemma_without(seq_at(st.lists, w), name@);
                let j = choose|j: int| 0 <= j < seq_at(st.lists, w).len() && seq_at(st.lists, w)[j] == x;
                assert(st.names.contains_key(seq_at(st.lists, w)[j]@));
            } else {
                assert(st.names.contains_key(seq_at(st.lists, w)[k]@));
            }
        }
    }
}

/// Unbinding names one after another keeps the two directions in agreement.
proof fn lemma_unbind_all_keeps(st: UnbindState, names: Seq<MangledName>)
    requires
        consistent_maps(st.names, st.lists),
    ensures
        consistent_maps(unbind_all(st, names).names, unbind_all(st, names).lists),
    decreases names.len(),
{
    if names.len() > 0 {
        lemma_unbind_all_keeps(st, names.drop_last());
        lemma_unbind_step_keeps(unbind_all(st, names.drop_last()), names.last());
    }
}

/// Binding `name` to `value`, as `bind` does it, keeps the tables in agreement.
proof fn lemma_bind_consistent(b0: Bindings, b1: Bindings, name: MangledName, value: ValueId)
    requires
        b0.consistent(),
        b1.name_to_value@ == b0.name_to_value@.insert(name@, value),
        b0.name_to_value@.contains_key(name@) ==> forall|k: u64| #[trigger] list_at(b1.value_to_names@, k) == if k == value@ {
            lists_after_unlink(b0.value_to_names@, b0.name_to_value@[name@]@, name@, k).push(name)
        } else {
            lists_after_unlink(b0.value_to_names@, b0.name_to_value@[name@]@, name@, k)
        },
        !b0.name_to_value@.contains_key(name@) ==> forall|k: u64| #[trigger] list_at(b1.value_to_names@, k) == if k == value@ {
            list_at(b0.value_to_names@, k).push(name)
        } else {
            list_at(b0.value_to_names@, k)
        },
    ensures
        b1.consistent(),
{
    lemma_seq_at_lists_of(b0.value_to_names@);
    lemma_seq_at_lists_of(b1.value_to_names@);
    let n0 = b0.name_to_value@;
    let l0 = lists_of(b0.value_to_names@);
    let l1 = lists_of(b1.value_to_names@);
    assert forall|k: u64| #[trigger] seq_at(l1, k) == ({
        let base = if n0.contains_key(name@) && k == n0[name@]@ {
            without(seq_at(l0, k), name@)
        } else {
            seq_at(l0, k)
        };
        if k == value@ { base.push(name) } else { base }
    }) by {
        assert(seq_at(l1, k) == list_at(b1.value_to_names@, k));
        assert(seq_at(l0, k) == list_at(b0.value_to_names@, k));
    }
    lemma_bind_keeps(n0, l0, b1.name_to_value@, l1, name, value);
}

/// Unbinding `name`, as `unbind` does it, keeps the tables in agreement.
proof fn lemma_unbind_consistent(b0: Bindings, b1: Bindings, name: MangledName)
    requires
        b0.consistent(),
        b1.name_to_value@ == b0.name_to_value@.remove(name@),
        b0.name_to_value@.contains_key(name@) ==> {
            &&& forall|k: u64| #[trigger] list_at(b1.value_to_names@, k)
                == lists_after_unlink(b0.value_to_names@, b0.name_to_value@[name@]@, name@, k)
            &&& forall|k: u64| #[trigger] b1.value_to_names@.contains_key(k) == b0.value_to_names@.contains_key(k)
        },
        !b0.name_to_value@.contains_key(name@) ==> b1.value_to_names == b0.value_to_names,
    ensures
        b1.consistent(),
{
    if b0.name_to_value@.contains_key(name@) {
        let st = UnbindState {
            names: b0.name_to_value@,
            lists: lists_of(b0.value_to_names@),
            values: seq![],
            dead: seq![],
        };
        lemma_unbind_step_keeps(st, name);
        let nx = unbind_step(st, name);
        let v = b0.name_to_value@[name@];
        assert(lists_of(b1.value_to_names@) =~= nx.lists) by {
            assert forall|k: u64| #[trigger] lists_of(b1.value_to_names@).contains_key(k) == nx.lists.contains_key(k) by {}
            assert forall|k: u64| #[trigger] lists_of(b1.value_to_names@).contains_key(k)
                implies lists_of(b1.value_to_names@)[k] == nx.lists[k] by {
                assert(list_at(b1.value_to_names@, k) == lists_after_unlink(b0.value_to_names@, v@, name@, k));
            }
        }
        assert(b1.name_to_value@ =~= nx.names);
    } else {
        assert(b1.name_to_value@ =~= b0.name_to_value@);
    }
}

impl Bindings {
    /// Both tables are well formed.
    pub open spec fn wf(&self) -> bool {
        self.name_to_value.wf() && self.value_to_names.wf()
    }

    /// The two tables agree: each bound name is listed under its value, and each listed name is
    /// bound to the value it is listed under.
    pub open spec fn consistent(&self) -> bool {
        consistent_maps(self.name_to_value@, lists_of(self.value_to_names@))
    }

    /// No bindings.
    pub fn new() -> (r: Self)
        ensures
            r.wf(),
            r.name_to_value@ == Map::<NameView, ValueId>::empty(),
            r.value_to_names@ == Map::<u64, Vec<MangledName>>::empty(),
            r.consistent(),
    {
        let r = Bindings { name_to_value: ViewMap::new(), value_to_names: ViewMap::new() };
        proof {
            assert(lists_of(r.value_to_names@) =~= Map::<u64, Seq<MangledName>>::empty());
        }
        r
    }

    /// Takes `name` out of the list of the value `from`, if that value has a list.
    fn unlink(&mut self, from: ValueId, name: &MangledName)
        requires
            old(self).wf(),
        ensures
            final(self).wf(),
            final(self).name_to_value == old(self).name_to_value,
            forall|k: u64| #[trigger] final(self).value_to_names@.contains_key(k) == old(self).value_to_names@.contains_key(k),
            forall|k: u64| #[trigger] list_at(final(self).value_to_names@, k) == lists_after_unlink(old(self).value_to_names@, from@, name@, k),
    {
        match self.value_to_names.remove(&from) {
            Some(names) => {
                let kept = names_without(&names, name);
                self.value_to_names.insert(from, kept);
            }
            None => {}
        }
    }

    /// Binds `name` to `value`: a previous value of `name` loses a reference and the name,
    /// `value` gains both. Returns the previous value when it is left without references.
    pub fn bind(&mut self, name: MangledName, value: ValueId, pool: &mut WindValuePool) -> (dead_old: Option<ValueId>)
        requires
            old(self).wf(),
            old(pool).wf(),
        ensures
            final(self).wf(),
            final(pool).wf(),
            final(pool).scalar_cache == old(pool).scalar_cache,
            final(self).name_to_value@ == old(self).name_to_value@.insert(name@, value),
            old(self).name_to_value@.contains_key(name@) ==> {
                let ov = old(self).name_to_value@[name@];
                &&& final(pool).values@ == inc_count(dec_count(old(pool).values@, ov), value)
                &&& dead_old == if dead_after_dec(old(pool).values@, ov) { Some(ov) } else { None }
                &&& forall|k: u64| #[trigger] list_at(final(self).value_to_names@, k) == if k == value@ {
                    lists_after_unlink(old(self).value_to_names@, ov@, name@, k).push(name)
                } else {
                    lists_after_unlink(old(self).value_to_names@, ov@, name@, k)
                }
            },
            !old(self).name_to_value@.contains_key(name@) ==> {
                &&& final(pool).values@ == inc_count(old(pool).values@, value)
                &&& dead_old is None
                &&& forall|k: u64| #[trigger] list_at(final(self).value_to_names@, k) == if k == value@ {
                    list_at(old(self).value_to_names@, k).push(name)
                } else {
                    list_at(old(self).value_to_names@, k)
                }
            },
            forall|k: u64| #[trigger] final(self).value_to_names@.contains_key(k)
                == (old(self).value_to_names@.contains_key(k) || k == value@),
            old(self).consistent() ==> final(self).consistent(),
            bind_effect(*old(self), *old(pool), *final(self), *final(pool), name, value),
    {
        let ghost gname = name;
        let mut dead_old: Option<ValueId> = None;
        let bound = match self.name_to_value.get(&name) {
            Some(v) => Some(*v),
            None => None,
        };
        match bound {
            Some(ov) => {
                if pool.dec_ref(ov) {
                    dead_old = Some(ov);
                }
                self.unlink(ov, &name);
            }
            None => {}
        }
        let ghost mid = self.value_to_names@;
        let key = name.copy();
        self.name_to_value.insert(key, value);
        pool.inc_ref(value);
        let mut list = match self.value_to_names.remove(&value) {
            Some(l) => l,
            None => Vec::new(),
        };
        list.push(name);
        self.value_to_names.insert(value, list);
        proof {
            assert forall|k: u64| #[trigger] list_at(self.value_to_names@, k) == if k == value@ {
                list_at(mid, k).push(name)
            } else {
                list_at(mid, k)
            } by {}
            if old(self).consistent() {
                lemma_bind_consistent(*old(self), *self, gname, value);
            }
        }
        dead_old
    }

    /// Unbinds `name`: its value loses a reference and the name. Returns that value, if any.
    pub fn unbind(&mut self, name: &MangledName, pool: &mut WindValuePool) -> (r: Option<ValueId>)
        requires
            old(self).wf(),
            old(pool).wf(),
        ensures
            final(self).wf(),
            final(pool).wf(),
            final(pool).scalar_cache == old(pool).scalar_cache,
            final(self).name_to_value@ == old(self).name_to_value@.remove(name@),
            old(self).name_to_value@.contains_key(name@) ==> {
                let v = old(self).name_to_value@[name@];
                &&& r == Some(v)
                &&& final(pool).values@ == dec_count(old(pool).values@, v)
                &&& forall|k: u64| #[trigger] list_at(final(self).value_to_names@, k)
                    == lists_after_unlink(old(self).value_to_names@, v@, name@, k)
                &&& forall|k: u64| #[trigger] final(self).value_to_names@.contains_key(k)
                    == old(self).value_to_names@.contains_key(k)
            },
            !old(self).name_to_value@.contains_key(name@) ==> {
                &&& r is None
                &&& final(pool).values@ == old(pool).values@
                &&& final(self).value_to_names == old(self).value_to_names
            },
            old(self).consistent() ==> final(self).consistent(),
            unbind_effect(*old(self), *old(pool), *final(self), *final(pool), name@),
    {
        let bound = match self.name_to_value.get(name) {
            Some(v) => Some(*v),
            None => None,
        };
        let r = match bound {
            Some(value) => {
                let _dead = pool.dec_ref(value);
                self.name_to_value.remove(name);
                self.unlink(value, name);
                Some(value)
            }
            None => {
                assert(old(self).name_to_value@.remove(name@) =~= old(self).name_to_value@);
                None
            }
        };
        proof {
            if old(self).consistent() {
                lemma_unbind_consistent(*old(self), *self, *name);
            }
        }
        r
    }

    /// Unbinds each of `scope_mangled_names` in turn and returns, in that order, the names whose
    /// value was left without references, with that value.
    pub fn unbind_all_in_scope(&mut self, scope_mangled_names: &[MangledName], pool: &mut WindValuePool) -> (dead: Vec<(MangledName, ValueId)>)
        requires
            old(self).wf(),
            old(pool).wf(),
        ensures
            final(self).wf(),
            final(pool).wf(),
            final(pool).scalar_cache == old(pool).scalar_cache,
            ({
                let st = unbind_all(UnbindState {
                    names: old(self).name_to_value@,
                    lists: lists_of(old(self).value_to_names@),
                    values: old(pool).values@,
                    dead: seq![],
                }, scope_mangled_names@);
                &&& final(self).name_to_value@ == st.names
                &&& lists_of(final(self).value_to_names@) == st.lists
                &&& final(pool).values@ == st.values
                &&& dead@ == st.dead
            }),
            old(self).consistent() ==> final(self).consistent(),
            unbind_all_effect(*old(self), *old(pool), *final(self), *final(pool), scope_mangled_names@),
    {
        let mut dead: Vec<(MangledName, ValueId)> = Vec::new();
        let ghost start = UnbindState {
            names: self.name_to_value@,
            lists: lists_of(self.value_to_names@),
            values: pool.values@,
            dead: seq![],
        };
        let mut i: usize = 0;
        while i < scope_mangled_names.len()
            invariant
                i <= scope_mangled_names@.len(),
                self.wf(),
                pool.wf(),
                pool.scalar_cache == old(pool).scalar_cache,
                ({
                    let st = unbind_all(start, scope_mangled_names@.take(i as int));
                    &&& self.name_to_value@ == st.names
                    &&& lists_of(self.value_to_names@) == st.lists
                    &&& pool.values@ == st.values
                    &&& dead@ == st.dead
                }),
            decreases scope_mangled_names@.len() - i,
        {
            let name = &scope_mangled_names[i];
            proof {
                let t = scope_mangled_names@.take(i + 1);
                assert(t.drop_last() =~= scope_mangled_names@.take(i as int));
                assert(t.last() == *name);
            }
            let ghost before = self.value_to_names@;
            match self.name_to_value.remove(name) {
                Some(value) => {
                    let is_dead = pool.dec_ref(value);
                    self.unlink(value, name);
                    if is_dead {
                        dead.push((name.copy(), value));
                    }
                    proof {
                        let st = unbind_all(start, scope_mangled_names@.take(i as int));
                        let next = unbind_step(st, *name);
                        assert forall|k: u64| lists_of(self.value_to_names@).contains_key(k) == next.lists.contains_key(k) by {
                            assert(self.value_to_names@.contains_key(k) == before.contains_key(k));
                        }
                        assert forall|k: u64| #[trigger] lists_of(self.value_to_names@).contains_key(k)
                            implies lists_of(self.value_to_names@)[k] == next.lists[k] by {
                            assert(list_at(self.value_to_names@, k) == lists_after_unlink(before, value@, name@, k));
                        }
                        assert(lists_of(self.value_to_names@) =~= next.lists);
                    }
                }
                None => {}
            }
            i += 1;
        }
        assert(scope_mangled_names@.take(scope_mangled_names@.len() as int) =~= scope_mangled_names@);
        proof {
            if old(self).consistent() {
                lemma_unbind_all_keeps(start, scope_mangled_names@);
            }
        }
        dead
    }

    /// The value bound to `name`, if any.
    pub fn lookup(&self, name: &MangledName) -> (r: Option<ValueId>)
        requires
            self.wf(),
        ensures
            r == if self.name_to_value@.contains_key(name@) {
                Some(self.name_to_value@[name@])
            } else {
                None
            },
    {
        match self.name_to_value.get(name) {
            Some(v) => Some(*v),
            None => None,
        }
    }

    /// The names bound to `value`, in the order they were bound.
    pub fn get_names_for_value(&self, value: ValueId) -> (r: &[MangledName])
        requires
            self.wf(),
        ensures
            r@ == list_at(self.value_to_names@, value@),
    {
        match self.value_to_names.get(&value) {
            Some(v) => v.as_slice(),
            None => {
                let e: &[MangledName] = &[];
                assert(e@ =~= Seq::<MangledName>::empty());
                e
            }
        }
    }
}

} // verus!
