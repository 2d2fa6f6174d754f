use vstd::prelude::*;
use crate::ids::ValueId;
use crate::sema::ValueInfo;
use crate::sema::ValueKind;
use crate::sema::WindResolvedType;
use crate::text::string_of;
use crate::vmap::ViewMap;

verus! {

/// One more reference, unless the count is already at its largest.
pub open spec fn bump(n: usize) -> usize {
    if n < usize::MAX {
        (n + 1) as usize
    } else {
        n
    }
}

/// The values after one more reference to `id`, when `id` names one of them.
pub open spec fn inc_count(vals: Seq<ValueInfo>, id: ValueId) -> Seq<ValueInfo> {
    if 1 <= id@ <= vals.len() {
        vals.update(id@ - 1, ValueInfo { ref_count: bump(vals[id@ - 1].ref_count), ..vals[id@ - 1] })
    } else {
        vals
    }
}

/// The values after one reference less to `id`, never below zero, when `id` names one of them.
pub open spec fn dec_count(vals: Seq<ValueInfo>, id: ValueId) -> Seq<ValueInfo> {
    if 1 <= id@ <= vals.len() {
        vals.update(id@ - 1, ValueInfo { ref_count: drop_one(vals[id@ - 1].ref_count), ..vals[id@ - 1] })
    } else {
        vals
    }
}

/// One reference less, never below zero.
pub open spec fn drop_one(n: usize) -> usize {
    if n > 0 {
        (n - 1) as usize
    } else {
        0
    }
}

/// Whether `id` is left without references after one reference less (or names no value).
pub open spec fn dead_after_dec(vals: Seq<ValueInfo>, id: ValueId) -> bool {
    1 <= id@ <= vals.len() ==> drop_one(vals[id@ - 1].ref_count) == 0
}

/// Position of the value with id `id` in the pool's list, when `id` names a value there.
pub open spec fn slot(id: ValueId) -> int {
    id@ - 1
}

/// `p1` and `id` are what asking `p0` for the scalar of the literal `lit` of type `ty` gives:
/// the cached value when the text was seen before, else a new scalar constant, now cached.
pub open spec fn scalar_taken(p0: WindValuePool, p1: WindValuePool, lit: Seq<char>, ty: Option<WindResolvedType>, id: ValueId) -> bool {
    &&& p0.scalar_cache@.contains_key(lit) ==> {
        &&& id == p0.scalar_cache@[lit]
        &&& p1.values@ == p0.values@
        &&& p1.scalar_cache@ == p0.scalar_cache@
    }
    &&& !p0.scalar_cache@.contains_key(lit) ==> {
        &&& id@ == p0.next_id()
        &&& p1.values@ == p0.values@.push(ValueInfo { id, ty, kind: ValueKind::ScalarConst, ref_count: 0 })
        &&& p1.scalar_cache@ == p0.scalar_cache@.insert(lit, id)
    }
}

/// The same literal text always gives the same scalar value: asking twice gives one id, and the
/// second request adds no value.
pub proof fn lemma_scalar_shared(
    p0: WindValuePool,
    p1: WindValuePool,
    p2: WindValuePool,
    lit: Seq<char>,
    ty1: Option<WindResolvedType>,
    ty2: Option<WindResolvedType>,
    id1: ValueId,
    id2: ValueId,
)
    requires
        scalar_taken(p0, p1, lit, ty1, id1),
        scalar_taken(p1, p2, lit, ty2, id2),
    ensures
        id2 == id1,
        p2.values@ == p1.values@,
{
}

/// Taking back a reference that was just added restores the counts, unless the count was
/// already at its largest.
pub proof fn lemma_inc_dec_restores(vals: Seq<ValueInfo>, id: ValueId)
    requires
        1 <= id@ <= vals.len() ==> vals[id@ - 1].ref_count < usize::MAX,
    ensures
        dec_count(inc_count(vals, id), id) == vals,
{
    if 1 <= id@ <= vals.len() {
        assert(dec_count(inc_count(vals, id), id) =~= vals);
    }
}

/// The pool of values: value `i` (counting from 1) sits at position `i - 1`,
/// and literals with the same text share one scalar value.
#[derive(Debug)]
pub struct WindValuePool {
    pub values: Vec<ValueInfo>,
    pub scalar_cache: ViewMap<String, ValueId>,
}

impl WindValuePool {
    /// Every value sits at the position of its id, and the cache names values of the pool.
    pub open spec fn wf(&self) -> bool {
        &&& forall|i: int| 0 <= i < self.values@.len() ==> (#[trigger] self.values@[i]).id@ == i + 1
        &&& self.scalar_cache.wf()
        &&& forall|k: Seq<char>| #[trigger] self.scalar_cache@.contains_key(k) ==> self.holds(self.scalar_cache@[k])
    }

    /// `id` names a value of the pool.
    pub open spec fn holds(&self, id: ValueId) -> bool {
        1 <= id@ <= self.values@.len()
    }

    /// The id that the next new value gets.
    pub open spec fn next_id(&self) -> int {
        (self.values@.len() + 1) as int
    }

    /// An empty pool.
    pub fn new() -> (r: Self)
        ensures
            r.wf(),
            r.values@.len() == 0,
            r.scalar_cache@ == Map::<Seq<char>, ValueId>::empty(),
    {
        WindValuePool { values: Vec::new(), scalar_cache: ViewMap::new() }
    }

    /// The id that the next new value gets.
    fn allocate_id(&self) -> (id: ValueId)
        requires
            self.values@.len() < usize::MAX,
        ensures
            id@ == self.next_id(),
    {
        ValueId((self.values.len() + 1) as u64)
    }

    fn push_value(&mut self, ty: Option<WindResolvedType>, kind: ValueKind) -> (id: ValueId)
        requires
            old(self).wf(),
        ensures
            final(self).wf(),
            id@ == old(self).next_id(),
            final(self).values@ == old(self).values@.push(ValueInfo { id, ty, kind, ref_count: 0 }),
            final(self).scalar_cache == old(self).scalar_cache,
    {
        self.values.push(ValueInfo { id: ValueId(1), ty, kind, ref_count: 0 });
        let n = self.values.len();
        let mut last = self.values.pop().unwrap();
        assert(self.values@.len() == n - 1);
        let id = self.allocate_id();
        last.id = id;
        self.values.push(last);
        id
    }

    /// A new heap value of type `ty`, with no references yet.
    pub fn new_allocated(&mut self, ty: Option<WindResolvedType>) -> (id: ValueId)
        requires
            old(self).wf(),
        ensures
            final(self).wf(),
            id@ == old(self).next_id(),
            final(self).values@ == old(self).values@.push(
                ValueInfo { id, ty, kind: ValueKind::Allocated, ref_count: 0 },
            ),
            final(self).scalar_cache == old(self).scalar_cache,
    {
        self.push_value(ty, ValueKind::Allocated)
    }

    /// A new value made as a copy; the source is not recorded.
    pub fn new_copy_of(&mut self, _source: ValueId, ty: Option<WindResolvedType>) -> (id: ValueId)
        requires
            old(self).wf(),
        ensures
            final(self).wf(),
            id@ == old(self).next_id(),
            final(self).values@ == old(self).values@.push(
                ValueInfo { id, ty, kind: ValueKind::Copied, ref_count: 0 },
            ),
            final(self).scalar_cache == old(self).scalar_cache,
    {
        self.push_value(ty, ValueKind::Copied)
    }

    /// A new reference to `target`; the target, when it is in the pool, gains one reference.
    pub fn new_reference(&mut self, target: ValueId, ty: Option<WindResolvedType>) -> (id: ValueId)
        requires
            old(self).wf(),
        ensures
            final(self).wf(),
            id@ == old(self).next_id(),
            ({
                let pushed = old(self).values@.push(
                    ValueInfo { id, ty, kind: ValueKind::Reference { target }, ref_count: 0 },
                );
                final(self).values@ == inc_count(pushed, target)
            }),
            final(self).scalar_cache == old(self).scalar_cache,
    {
        let id = self.push_value(ty, ValueKind::Reference { target });
        self.inc_ref(target);
        id
    }

    /// The scalar value for the literal `literal_repr`: the cached one when this text was seen
    /// before, else a new scalar constant of type `ty`.
    pub fn scalar(&mut self, literal_repr: &str, ty: Option<WindResolvedType>) -> (id: ValueId)
        requires
            old(self).wf(),
        ensures
            final(self).wf(),
            scalar_taken(*old(self), *final(self), literal_repr@, ty, id),
    {
        let key = string_of(literal_repr);
        match self.scalar_cache.get(&key) {
            Some(cached) => *cached,
            None => {
                let id = self.push_value(ty, ValueKind::ScalarConst);
                self.scalar_cache.insert(key, id);
                id
            }
        }
    }

    /// Adds one reference to the value `id`, when it is in the pool.
    pub fn inc_ref(&mut self, id: ValueId)
        requires
            old(self).wf(),
        ensures
            final(self).wf(),
            final(self).values@ == inc_count(old(self).values@, id),
            final(self).scalar_cache == old(self).scalar_cache,
    {
        if id.0 >= 1 && id.0 - 1 < self.values.len() as u64 {
            let i = (id.0 - 1) as usize;
            let mut info = self.values.remove(i);
            info.ref_count = if info.ref_count < usize::MAX { info.ref_count + 1 } else { info.ref_count };
            self.values.insert(i, info);
        }
    }

    /// Removes one reference from the value `id`, never going below zero; true when the value
    /// is left without references or is not in the pool.
    pub fn dec_ref(&mut self, id: ValueId) -> (dead: bool)
        requires
            old(self).wf(),
        ensures
            final(self).wf(),
            final(self).scalar_cache == old(self).scalar_cache,
            final(self).values@ == dec_count(old(self).values@, id),
            dead == dead_after_dec(old(self).values@, id),
    {
        if id.0 >= 1 && id.0 - 1 < self.values.len() as u64 {
            let i = (id.0 - 1) as usize;
            let mut info = self.values.remove(i);
            if info.ref_count > 0 {
                info.ref_count = info.ref_count - 1;
            }
            let dead = info.ref_count == 0;
            self.values.insert(i, info);
            return dead;
        }
        true
    }

    /// The value `id`, to be changed in place, if it is in the pool.
    pub fn get_mut(&mut self, id: ValueId) -> (r: Option<&mut ValueInfo>)
        ensures
            old(self).holds(id) ==> {
                &&& r.is_some()
                &&& *r.unwrap() == old(self).values@[slot(id)]
                &&& final(self).values@ == old(self).values@.update(slot(id), *final(r.unwrap()))
                &&& final(self).scalar_cache == old(self).scalar_cache
            },
            !old(self).holds(id) ==> r.is_none() && *final(self) == *old(self),
    {
        if id.0 >= 1 && id.0 - 1 < self.values.len() as u64 {
            Some(&mut self.values[(id.0 - 1) as usize])
        } else {
            None
        }
    }

    /// The value `id`, if it is in the pool.
    pub fn get(&self, id: ValueId) -> (r: Option<&ValueInfo>)
        requires
            self.wf(),
        ensures
            match r {
                Some(info) => self.holds(id) && *info == self.values@[slot(id)],
                None => !self.holds(id),
            },
    {
        if id.0 >= 1 && id.0 - 1 < self.values.len() as u64 {
            Some(&self.values[(id.0 - 1) as usize])
        } else {
            None
        }
    }
}

/// The earlier form of the pool: a value starts with one reference (a reference value with
/// none), and every request for a cached scalar adds a reference to it.
#[derive(Debug)]
pub struct ValuePool {
    pub values: Vec<ValueInfo>,
    pub scalar_cache: ViewMap<String, ValueId>,
}

/// `p1` and `id` are what asking `p0` for the scalar of the literal `lit` of type `ty` gives:
/// the cached value, with one more reference, when the text was seen before; else a new scalar
/// constant with one reference, now cached.
pub open spec fn counted_scalar_taken(p0: ValuePool, p1: ValuePool, lit: Seq<char>, ty: Option<WindResolvedType>, id: ValueId) -> bool {
    &&& p0.scalar_cache@.contains_key(lit) ==> {
        &&& id == p0.scalar_cache@[lit]
        &&& p1.values@ == inc_count(p0.values@, id)
        &&& p1.scalar_cache@ == p0.scalar_cache@
    }
    &&& !p0.scalar_cache@.contains_key(lit) ==> {
        &&& id@ == p0.next_id()
        &&& p1.values@ == p0.values@.push(ValueInfo { id, ty, kind: ValueKind::ScalarConst, ref_count: 1 })
        &&& p1.scalar_cache@ == p0.scalar_cache@.insert(lit, id)
    }
}

/// In the earlier pool too, the same literal text always gives the same scalar value; the
/// second request only adds a reference to it.
pub proof fn lemma_counted_scalar_shared(
    p0: ValuePool,
    p1: ValuePool,
    p2: ValuePool,
    lit: Seq<char>,
    ty1: Option<WindResolvedType>,
    ty2: Option<WindResolvedType>,
    id1: ValueId,
    id2: ValueId,
)
    requires
        counted_scalar_taken(p0, p1, lit, ty1, id1),
        counted_scalar_taken(p1, p2, lit, ty2, id2),
    ensures
        id2 == id1,
        p2.values@ == inc_count(p1.values@, id1),
{
}

impl ValuePool {
    /// Every value sits at the position of its id, and the cache names values of the pool.
    pub open spec fn wf(&self) -> bool {
        &&& forall|i: int| 0 <= i < self.values@.len() ==> (#[trigger] self.values@[i]).id@ == i + 1
        &&& self.scalar_cache.wf()
        &&& forall|k: Seq<char>| #[trigger] self.scalar_cache@.contains_key(k) ==> self.holds(self.scalar_cache@[k])
    }

    /// `id` names a value of the pool.
    pub open spec fn holds(&self, id: ValueId) -> bool {
        1 <= id@ <= self.values@.len()
    }

    /// The id that the next new value gets.
    pub open spec fn next_id(&self) -> int {
        (self.values@.len() + 1) as int
    }

    /// An empty pool.
    pub fn new() -> (r: Self)
        ensures
            r.wf(),
            r.values@.len() == 0,
            r.scalar_cache@ == Map::<Seq<char>, ValueId>::empty(),
    {
        ValuePool { values: Vec::new(), scalar_cache: ViewMap::new() }
    }

    /// The id that the next new value gets.
    fn allocate_id(&self) -> (id: ValueId)
        requires
            self.values@.len() < usize::MAX,
        ensures
            id@ == self.next_id(),
    {
        ValueId((self.values.len() + 1) as u64)
    }

    fn push_value(&mut self, ty: Option<WindResolvedType>, kind: ValueKind, ref_count: usize) -> (id: ValueId)
        requires
            old(self).wf(),
        ensures
            final(self).wf(),
            id@ == old(self).next_id(),
            final(self).values@ == old(self).values@.push(ValueInfo { id, ty, kind, ref_count }),
            final(self).scalar_cache == old(self).scalar_cache,
    {
        self.values.push(ValueInfo { id: ValueId(1), ty, kind, ref_count });
        let n = self.values.len();
        let mut last = self.values.pop().unwrap();
        assert(self.values@.len() == n - 1);
        let id = self.allocate_id();
        last.id = id;
        self.values.push(last);
        id
    }

    /// A new heap value of type `ty`, with one reference.
    pub fn new_allocated(&mut self, ty: Option<WindResolvedType>) -> (id: ValueId)
        requires
            old(self).wf(),
        ensures
            final(self).wf(),
            id@ == old(self).next_id(),
            final(self).values@ == old(self).values@.push(
                ValueInfo { id, ty, kind: ValueKind::Allocated, ref_count: 1 },
            ),
            final(self).scalar_cache == old(self).scalar_cache,
    {
        self.push_value(ty, ValueKind::Allocated, 1)
    }

    /// A new value made as a copy, with one reference; the source is not recorded.
    pub fn new_copy_of(&mut self, _source: ValueId, ty: Option<WindResolvedType>) -> (id: ValueId)
        requires
            old(self).wf(),
        ensures
            final(self).wf(),
            id@ == old(self).next_id(),
            final(self).values@ == old(self).values@.push(
                ValueInfo { id, ty, kind: ValueKind::Copied, ref_count: 1 },
            ),
            final(self).scalar_cache == old(self).scalar_cache,
    {
        self.push_value(ty, ValueKind::Copied, 1)
    }

    /// A new reference to `target`, itself without references; the target, when it is in the
    /// pool, gains one.
    pub fn new_reference(&mut self, target: ValueId, ty: Option<WindResolvedType>) -> (id: ValueId)
        requires
            old(self).wf(),
        ensures
            final(self).wf(),
            id@ == old(self).next_id(),
            ({
                let pushed = old(self).values@.push(
                    ValueInfo { id, ty, kind: ValueKind::Reference { target }, ref_count: 0 },
                );
                final(self).values@ == inc_count(pushed, target)
            }),
            final(self).scalar_cache == old(self).scalar_cache,
    {
        let id = self.push_value(ty, ValueKind::Reference { target }, 0);
        self.inc_ref(target);
        id
    }

    /// The scalar value for the literal `literal_repr`: the cached one, with one more reference,
    /// when this text was seen before, else a new scalar constant of type `ty`.
    pub fn scalar(&mut self, literal_repr: &str, ty: Option<WindResolvedType>) -> (id: ValueId)
        requires
            old(self).wf(),
        ensures
            final(self).wf(),
            counted_scalar_taken(*old(self), *final(self), literal_repr@, ty, id),
    {
        let key = string_of(literal_repr);
        match self.scalar_cache.get(&key) {
            Some(cached) => {
                let id = *cached;
                self.inc_ref(id);
                id
            }
            None => {
                let id = self.push_value(ty, ValueKind::ScalarConst, 1);
                self.scalar_cache.insert(key, id);
                id
            }
        }
    }

    /// Adds one reference to the value `id`, when it is in the pool.
    pub fn inc_ref(&mut self, id: ValueId)
        requires
            old(self).wf(),
        ensures
            final(self).wf(),
            final(self).values@ == inc_count(old(self).values@, id),
            final(self).scalar_cache == old(self).scalar_cache,
    {
        if id.0 >= 1 && id.0 - 1 < self.values.len() as u64 {
            let i = (id.0 - 1) as usize;
            let mut info = self.values.remove(i);
            info.ref_count = if info.ref_count < usize::MAX { info.ref_count + 1 } else { info.ref_count };
            self.values.insert(i, info);
        }
    }

    /// Removes one reference from the value `id`, never going below zero; true when the value
    /// is left without references or is not in the pool.
    pub fn dec_ref(&mut self, id: ValueId) -> (dead: bool)
        requires
            old(self).wf(),
        ensures
            final(self).wf(),
            final(self).scalar_cache == old(self).scalar_cache,
            final(self).values@ == dec_count(old(self).values@, id),
            dead == dead_after_dec(old(self).values@, id),
    {
        if id.0 >= 1 && id.0 - 1 < self.values.len() as u64 {
            let i = (id.0 - 1) as usize;
            let mut info = self.values.remove(i);
            if info.ref_count > 0 {
                info.ref_count = info.ref_count - 1;
            }
            let dead = info.ref_count == 0;
            self.values.insert(i, info);
            return dead;
        }
        true
    }

    /// The value `id`, if it is in the pool.
    pub fn get(&self, id: ValueId) -> (r: Option<&ValueInfo>)
        ensures
            match r {
                Some(info) => self.holds(id) && *info == self.values@[slot(id)],
                None => !self.holds(id),
            },
    {
        if id.0 >= 1 && id.0 - 1 < self.values.len() as u64 {
            Some(&self.values[(id.0 - 1) as usize])
        } else {
            None
        }
    }

    /// The value `id`, to be changed in place, if it is in the pool.
    pub fn get_mut(&mut self, id: ValueId) -> (r: Option<&mut ValueInfo>)
        ensures
            old(self).holds(id) ==> {
                &&& r.is_some()
                &&& *r.unwrap() == old(self).values@[slot(id)]
                &&& final(self).values@ == old(self).values@.update(slot(id), *final(r.unwrap()))
                &&& final(self).scalar_cache == old(self).scalar_cache
            },
            !old(self).holds(id) ==> r.is_none() && *final(self) == *old(self),
    {
        if id.0 >= 1 && id.0 - 1 < self.values.len() as u64 {
            Some(&mut self.values[(id.0 - 1) as usize])
        } else {
            None
        }
    }
}

} // verus!
