use vstd::prelude::*;
use crate::ids::ScopeId;
use crate::sema::MangledName;
use crate::sema::ScopeKind;
use crate::sema::Symbol;
use crate::text::string_of;
use crate::vmap::ViewMap;

verus! {

/// A scope: its symbols by name and the mangled names declared in it, in order.
#[derive(Debug)]
pub struct Scope {
    pub id: ScopeId,
    pub kind: ScopeKind,
    pub parent: Option<ScopeId>,
    pub symbols: ViewMap<String, Symbol>,
    pub local_mangled_names: Vec<MangledName>,
}

impl Scope {
    /// An empty scope.
    pub fn new(id: ScopeId, kind: ScopeKind, parent: Option<ScopeId>) -> (r: Self)
        ensures
            r.id == id,
            r.kind == kind,
            r.parent == parent,
            r.symbols.wf(),
            r.symbols@ == Map::<Seq<char>, Symbol>::empty(),
            r.symbols.entries@.len() == 0,
            r.local_mangled_names@.len() == 0,
    {
        Scope { id, kind, parent, symbols: ViewMap::new(), local_mangled_names: Vec::new() }
    }

    /// Puts `symbol` under `name`, in place of any symbol of that name.
    pub fn insert_symbol(&mut self, name: &str, symbol: Symbol)
        requires
            old(self).symbols.wf(),
        ensures
            final(self).symbols.wf(),
            final(self).symbols@ == old(self).symbols@.insert(name@, symbol),
            final(self).id == old(self).id,
            final(self).kind == old(self).kind,
            final(self).parent == old(self).parent,
            final(self).local_mangled_names == old(self).local_mangled_names,
    {
        self.symbols.insert(string_of(name), symbol);
    }

    /// The symbol named `name` in this scope alone.
    pub fn lookup(&self, name: &str) -> (r: Option<&Symbol>)
        requires
            self.symbols.wf(),
        ensures
            match r {
                Some(s) => self.symbols@.contains_key(name@) && *s == self.symbols@[name@],
                None => !self.symbols@.contains_key(name@),
            },
    {
        let key = string_of(name);
        self.symbols.get(&key)
    }

    /// Records a mangled name declared in this scope.
    pub fn add_mangled_name(&mut self, name: MangledName)
        ensures
            final(self).local_mangled_names@ == old(self).local_mangled_names@.push(name),
            final(self).symbols == old(self).symbols,
            final(self).id == old(self).id,
            final(self).kind == old(self).kind,
            final(self).parent == old(self).parent,
    {
        self.local_mangled_names.push(name);
    }
}

/// The symbol that `name` denotes seen from the scope numbered `id`: the innermost scope on the
/// way to the global scope that has it.
pub open spec fn lookup_from(scopes: Seq<Scope>, id: int, name: Seq<char>) -> Option<Symbol>
    decreases id,
{
    if 1 <= id <= scopes.len() {
        let s = scopes[id - 1];
        if s.symbols@.contains_key(name) {
            Some(s.symbols@[name])
        } else {
            match s.parent {
                Some(p) => if p@ < id {
                    lookup_from(scopes, p@ as int, name)
                } else {
                    None
                },
                None => None,
            }
        }
    } else {
        None
    }
}

/// `t1` is `t0` with a new empty scope of `kind`, whose parent is the scope that was current,
/// added at the end and made current.
pub open spec fn scope_pushed(t0: ScopeTree, t1: ScopeTree, kind: ScopeKind) -> bool {
    &&& t1.scopes@.len() == t0.scopes@.len() + 1
    &&& t1.scopes@.drop_last() == t0.scopes@
    &&& t1.current@ == t1.scopes@.len()
    &&& t1.scopes@.last().id == t1.current
    &&& t1.scopes@.last().kind == kind
    &&& t1.scopes@.last().parent == Some(t0.current)
    &&& t1.scopes@.last().symbols@ == Map::<Seq<char>, Symbol>::empty()
    &&& t1.scopes@.last().local_mangled_names@.len() == 0
}

/// `t1` is `t0` with the parent of the current scope made current; the global scope, which
/// has no parent, stays current.
pub open spec fn scope_popped(t0: ScopeTree, t1: ScopeTree) -> bool {
    &&& t1.scopes == t0.scopes
    &&& t1.current == match t0.cur().parent {
        Some(p) => p,
        None => t0.current,
    }
}

/// `t1` is `t0` with `symbol` put under `name` in the current scope, all else unchanged.
pub open spec fn symbol_inserted(t0: ScopeTree, t1: ScopeTree, name: Seq<char>, symbol: Symbol) -> bool {
    &&& t1.current == t0.current
    &&& t1.scopes@.len() == t0.scopes@.len()
    &&& forall|i: int| 0 <= i < t0.scopes@.len() && i != t0.current@ - 1
        ==> #[trigger] t1.scopes@[i] == t0.scopes@[i]
    &&& t1.cur().symbols@ == t0.cur().symbols@.insert(name, symbol)
    &&& t1.cur().local_mangled_names == t0.cur().local_mangled_names
    &&& t1.cur().parent == t0.cur().parent
    &&& t1.cur().kind == t0.cur().kind
    &&& t1.cur().id == t0.cur().id
}

/// `t1` is `t0` with `name` put last among the local names of the current scope, all else
/// unchanged.
pub open spec fn name_added(t0: ScopeTree, t1: ScopeTree, name: MangledName) -> bool {
    &&& t1.current == t0.current
    &&& t1.scopes@.len() == t0.scopes@.len()
    &&& forall|i: int| 0 <= i < t0.scopes@.len() && i != t0.current@ - 1
        ==> #[trigger] t1.scopes@[i] == t0.scopes@[i]
    &&& t1.cur().local_mangled_names@ == t0.cur().local_mangled_names@.push(name)
    &&& t1.cur().symbols == t0.cur().symbols
    &&& t1.cur().parent == t0.cur().parent
    &&& t1.cur().kind == t0.cur().kind
    &&& t1.cur().id == t0.cur().id
}

/// Looking a name up from a scope of `s` gives the same symbol once more scopes follow.
proof fn lemma_lookup_from_extend(s: Seq<Scope>, extra: Scope, id: int, name: Seq<char>)
    requires
        id <= s.len(),
    ensures
        lookup_from(s.push(extra), id, name) == lookup_from(s, id, name),
    decreases id,
{
    if 1 <= id <= s.len() {
        assert(s.push(extra)[id - 1] == s[id - 1]);
        match s[id - 1].parent {
            Some(p) => {
                if p@ < id {
                    lemma_lookup_from_extend(s, extra, p@ as int, name);
                }
            }
            None => {}
        }
    }
}

/// Opening a scope and leaving it makes the scope that was current current again; the scopes
/// that were there are unchanged.
pub proof fn lemma_push_pop_restores(t0: ScopeTree, t1: ScopeTree, t2: ScopeTree, kind: ScopeKind)
    requires
        t0.wf(),
        scope_pushed(t0, t1, kind),
        scope_popped(t1, t2),
    ensures
        t2.current == t0.current,
        t2.scopes@.drop_last() == t0.scopes@,
{
}

/// A new scope hides nothing: every name denotes from it what it denoted before.
pub proof fn lemma_push_keeps_names(t0: ScopeTree, t1: ScopeTree, kind: ScopeKind, name: Seq<char>)
    requires
        t0.wf(),
        scope_pushed(t0, t1, kind),
    ensures
        t1.resolve(name) == t0.resolve(name),
{
    let last = t1.scopes@.last();
    assert(t1.scopes@ == t0.scopes@.push(last)) by {
        assert(t1.scopes@ =~= t1.scopes@.drop_last().push(last));
    }
    lemma_lookup_from_extend(t0.scopes@, last, t0.current@ as int, name);
    assert(t1.scopes@[t1.current@ - 1] == last);
    assert(!last.symbols@.contains_key(name));
}

/// A symbol put under a name in a scope (what `Scope::insert_symbol` does to its table) is what
/// the scope's `lookup` of that name gives afterwards; every other name keeps what it had.
pub proof fn lemma_scope_insert_lookup(s0: Scope, s1: Scope, name: Seq<char>, symbol: Symbol, other: Seq<char>)
    requires
        s1.symbols@ == s0.symbols@.insert(name, symbol),
    ensures
        s1.symbols@.contains_key(name),
        s1.symbols@[name] == symbol,
        other != name ==> s1.symbols@.contains_key(other) == s0.symbols@.contains_key(other),
        other != name && s0.symbols@.contains_key(other) ==> s1.symbols@[other] == s0.symbols@[other],
{
}

/// In a well-formed tree (every tree that `new`, `push_scope`, `pop_scope` and `insert_symbol`
/// reach) the scope that `get_scope` gives for an id from 1 to the number of scopes carries that
/// id; the global scope, id 1, alone has no parent, and every other scope's parent is an earlier
/// scope of the tree.
pub proof fn lemma_scope_ids(t: ScopeTree, id: ScopeId)
    requires
        t.wf(),
        1 <= id@ <= t.scopes@.len(),
    ensures
        t.scopes@[id@ - 1].id == id,
        t.scopes@[0].kind == ScopeKind::Global,
        t.scopes@[id@ - 1].parent is None <==> id@ == 1,
        t.scopes@[id@ - 1].parent matches Some(p) ==> 1 <= p@ < id@,
{
    assert(t.scopes@[id@ - 1].id@ == id@);
    if id@ > 1 {
        assert(t.scopes@[id@ - 1].parent is Some);
    }
}

/// A symbol put under a name is what that name denotes from the current scope afterwards.
pub proof fn lemma_insert_then_resolve(t0: ScopeTree, t1: ScopeTree, name: Seq<char>, symbol: Symbol)
    requires
        t0.wf(),
        symbol_inserted(t0, t1, name, symbol),
    ensures
        t1.resolve(name) == Some(symbol),
{
    assert(t1.cur().symbols@.contains_key(name));
}

/// The tree of scopes: scope `i` (counting from 1) sits at position `i - 1`, scope 1 is the
/// global scope, and `current` is the scope that new symbols go to.
#[derive(Debug)]
pub struct ScopeTree {
    pub scopes: Vec<Scope>,
    pub current: ScopeId,
}

impl ScopeTree {
    /// Each scope sits at the position of its id, its parent comes before it, only the global
    /// scope has none, and the current scope exists.
    pub open spec fn wf(&self) -> bool {
        &&& self.scopes@.len() >= 1
        &&& forall|i: int| 0 <= i < self.scopes@.len() ==> (#[trigger] self.scopes@[i]).id@ == i + 1
        &&& forall|i: int| 0 <= i < self.scopes@.len() ==> (#[trigger] self.scopes@[i]).symbols.wf()
        &&& forall|i: int| 1 <= i < self.scopes@.len() ==> match (#[trigger] self.scopes@[i]).parent {
            Some(p) => 1 <= p@ <= i,
            None => false,
        }
        &&& self.scopes@[0].parent is None
        &&& self.scopes@[0].kind == ScopeKind::Global
        &&& 1 <= self.current@ <= self.scopes@.len()
    }

    /// The scope that is current.
    pub open spec fn cur(&self) -> Scope {
        self.scopes@[self.current@ - 1]
    }

    /// The symbol that `name` denotes from the current scope.
    pub open spec fn resolve(&self, name: Seq<char>) -> Option<Symbol> {
        lookup_from(self.scopes@, self.current@ as int, name)
    }

    /// The position of the current scope.
    fn cur_index(&self) -> (i: usize)
        requires
            self.wf(),
        ensures
            i == self.current@ - 1,
            i < self.scopes@.len(),
    {
        let n = self.scopes.len();
        assert(self.current.0 <= n);
        (self.current.0 - 1) as usize
    }

    /// A tree holding only the global scope, which is current.
    pub fn new() -> (r: Self)
        ensures
            r.wf(),
            r.scopes@.len() == 1,
            r.current@ == 1,
            r.scopes@[0].symbols@ == Map::<Seq<char>, Symbol>::empty(),
            r.scopes@[0].local_mangled_names@.len() == 0,
            r.scopes@[0].id@ == 1,
            r.scopes@[0].kind == ScopeKind::Global,
            r.scopes@[0].parent is None,
    {
        let global_id = ScopeId::new(1);
        let global = Scope::new(global_id, ScopeKind::Global, None);
        let mut scopes: Vec<Scope> = Vec::new();
        scopes.push(global);
        ScopeTree { scopes, current: global_id }
    }

    /// Opens a new empty scope of `kind` inside the current one and makes it current.
    pub fn push_scope(&mut self, kind: ScopeKind) -> (id: ScopeId)
        requires
            old(self).wf(),
        ensures
            final(self).wf(),
            id@ == old(self).scopes@.len() + 1,
            final(self).current == id,
            scope_pushed(*old(self), *final(self), kind),
    {
        let parent = self.current;
        self.scopes.push(Scope::new(ScopeId(1), kind, Some(parent)));
        let n = self.scopes.len();
        let mut last = self.scopes.pop().unwrap();
        let id = ScopeId(n as u64);
        last.id = id;
        self.scopes.push(last);
        self.current = id;
        assert(self.scopes@.drop_last() =~= old(self).scopes@);
        id
    }

    /// Leaves the current scope for its parent (the global scope stays current) and returns the
    /// scope that was current.
    pub fn pop_scope(&mut self) -> (r: Option<ScopeId>)
        requires
            old(self).wf(),
        ensures
            final(self).wf(),
            r == Some(old(self).current),
            scope_popped(*old(self), *final(self)),
    {
        let current = self.current;
        let i = self.cur_index();
        match self.scopes[i].parent {
            Some(pid) => {
                self.current = pid;
            }
            None => {}
        }
        Some(current)
    }

    /// The current scope.
    pub fn current_scope(&self) -> (r: &Scope)
        requires
            self.wf(),
        ensures
            *r == self.cur(),
    {
        &self.scopes[self.cur_index()]
    }

    /// The current scope, to be changed in place.
    pub fn current_scope_mut(&mut self) -> (r: &mut Scope)
        requires
            old(self).wf(),
        ensures
            *r == old(self).cur(),
            final(self).current == old(self).current,
            final(self).scopes@ == old(self).scopes@.update(old(self).current@ - 1, *final(r)),
    {
        let i = self.cur_index();
        &mut self.scopes[i]
    }

    /// The scope `id`, to be changed in place, if the tree has it.
    pub fn get_scope_mut(&mut self, id: ScopeId) -> (r: Option<&mut Scope>)
        ensures
            1 <= id@ <= old(self).scopes@.len() ==> {
                &&& r.is_some()
                &&& *r.unwrap() == old(self).scopes@[id@ - 1]
                &&& final(self).current == old(self).current
                &&& final(self).scopes@ == old(self).scopes@.update(id@ - 1, *final(r.unwrap()))
            },
            !(1 <= id@ <= old(self).scopes@.len()) ==> r.is_none() && *final(self) == *old(self),
    {
        if id.0 >= 1 && id.0 - 1 < self.scopes.len() as u64 {
            Some(&mut self.scopes[(id.0 - 1) as usize])
        } else {
            None
        }
    }

    /// The scope `id`, if the tree has it.
    pub fn get_scope(&self, id: ScopeId) -> (r: Option<&Scope>)
        requires
            self.wf(),
        ensures
            match r {
                Some(s) => 1 <= id@ <= self.scopes@.len() && *s == self.scopes@[id@ - 1],
                None => !(1 <= id@ <= self.scopes@.len()),
            },
    {
        if id.0 >= 1 && id.0 - 1 < self.scopes.len() as u64 {
            Some(&self.scopes[(id.0 - 1) as usize])
        } else {
            None
        }
    }

    /// The symbol that `name` denotes from the current scope: the one of the innermost scope,
    /// on the way out to the global scope, that has it.
    pub fn lookup_symbol(&self, name: &str) -> (r: Option<&Symbol>)
        requires
            self.wf(),
        ensures
            match r {
                Some(s) => self.resolve(name@) == Some(*s),
                None => self.resolve(name@) is None,
            },
    {
        let key = string_of(name);
        let mut cid: u64 = self.current.0;
        while cid >= 1
            invariant
                self.wf(),
                key@ == name@,
                cid <= self.scopes@.len(),
                cid >= 1 ==> self.resolve(name@) == lookup_from(self.scopes@, cid as int, name@),
                cid == 0 ==> self.resolve(name@) is None,
            decreases cid,
        {
            let n = self.scopes.len();
            assert(cid <= n);
            let scope = &self.scopes[(cid - 1) as usize];
            match scope.symbols.get(&key) {
                Some(sym) => {
                    return Some(sym);
                }
                None => {}
            }
            match scope.parent {
                Some(p) => {
                    cid = p.0;
                }
                None => {
                    cid = 0;
                }
            }
        }
        None
    }

    /// The symbol named `name` in the scope `scope_id` alone.
    pub fn lookup_symbol_in_scope(&self, scope_id: ScopeId, name: &str) -> (r: Option<&Symbol>)
        requires
            self.wf(),
        ensures
            match r {
                Some(s) => 1 <= scope_id@ <= self.scopes@.len() && self.scopes@[scope_id@ - 1].symbols@.contains_key(name@)
                    && *s == self.scopes@[scope_id@ - 1].symbols@[name@],
                None => !(1 <= scope_id@ <= self.scopes@.len()) || !self.scopes@[scope_id@ - 1].symbols@.contains_key(name@),
            },
    {
        match self.get_scope(scope_id) {
            Some(s) => s.lookup(name),
            None => None,
        }
    }

    /// Puts `symbol` under `name` in the current scope.
    pub fn insert_symbol(&mut self, name: &str, symbol: Symbol)
        requires
            old(self).wf(),
        ensures
            final(self).wf(),
            symbol_inserted(*old(self), *final(self), name@, symbol),
    {
        let i = self.cur_index();
        self.scopes[i].insert_symbol(name, symbol);
    }

    /// Records a mangled name declared in the current scope.
    pub fn add_mangled_name(&mut self, name: MangledName)
        requires
            old(self).wf(),
        ensures
            final(self).wf(),
            final(self).current == old(self).current,
            final(self).scopes@.len() == old(self).scopes@.len(),
            forall|i: int| 0 <= i < old(self).scopes@.len() && i != old(self).current@ - 1
                ==> #[trigger] final(self).scopes@[i] == old(self).scopes@[i],
            final(self).cur().local_mangled_names@ == old(self).cur().local_mangled_names@.push(name),
            final(self).cur().symbols == old(self).cur().symbols,
            final(self).cur().parent == old(self).cur().parent,
            final(self).cur().kind == old(self).cur().kind,
            name_added(*old(self), *final(self), name),
    {
        let i = self.cur_index();
        self.scopes[i].add_mangled_name(name);
    }
}

} // verus!
