//! Variables at run time. Every scope that a program opens is kept, by index, in
//! one environment: a scope holds its variables' values by slot, in the order they
//! were declared, and may have a parent scope. A variable is found from a scope by
//! how many parents out its own scope is and by its slot, as the parser resolved it.

use vstd::prelude::*;

verus! {

/// A scope as a value: its parent's index, if it has one, and its variables.
pub struct ScopeV<V> {
    pub parent: Option<nat>,
    pub vars: Seq<V>,
}

/// The scope `times` parents out from scope `scope`, if every scope on the way exists
/// and has a parent.
pub open spec fn scope_out<V>(s: Seq<ScopeV<V>>, scope: nat, times: nat) -> Option<nat>
    decreases times,
{
    if scope >= s.len() {
        None
    } else if times == 0 {
        Some(scope)
    } else {
        match s[scope as int].parent {
            None => None,
            Some(p) => scope_out(s, p, (times - 1) as nat),
        }
    }
}

/// The value in slot `slot` of the scope `depth` parents out from `scope`.
pub open spec fn lookup<V>(s: Seq<ScopeV<V>>, scope: nat, depth: nat, slot: nat) -> Option<V> {
    match scope_out(s, scope, depth) {
        Some(d) => if slot < s[d as int].vars.len() {
            Some(s[d as int].vars[slot as int])
        } else {
            None
        },
        None => None,
    }
}

/// The scopes after `value` is written to slot `slot` of the scope `depth` parents
/// out from `scope`; unchanged where there is no such variable.
pub open spec fn assigned<V>(s: Seq<ScopeV<V>>, scope: nat, depth: nat, slot: nat, value: V) -> Seq<ScopeV<V>> {
    match scope_out(s, scope, depth) {
        Some(d) => if slot < s[d as int].vars.len() {
            s.update(d as int, ScopeV { parent: s[d as int].parent, vars: s[d as int].vars.update(slot as int, value) })
        } else {
            s
        },
        None => s,
    }
}

/// The scopes after `value` is declared as the next variable of scope `scope`.
pub open spec fn declared<V>(s: Seq<ScopeV<V>>, scope: nat, value: V) -> Seq<ScopeV<V>> {
    s.update(scope as int, ScopeV { parent: s[scope as int].parent, vars: s[scope as int].vars.push(value) })
}

/// Every scope's parent was opened before it.
pub open spec fn parents_earlier<V>(s: Seq<ScopeV<V>>) -> bool {
    forall|i: int| 0 <= i < s.len() ==> (#[trigger] s[i].parent matches Some(p) ==> p < i)
}

/// A scope of the environment.
struct Scope<V> {
    parent: Option<usize>,
    vars: Vec<V>,
}

/// Every scope that was opened, by index. The first is the global scope.
pub struct Environment<V> {
    scopes: Vec<Scope<V>>,
}

impl<V> View for Environment<V> {
    type V = Seq<ScopeV<V>>;

    closed spec fn view(&self) -> Seq<ScopeV<V>> {
        self.scopes@.map_values(
            |c: Scope<V>|
                ScopeV {
                    parent: match c.parent {
                        Some(p) => Some(p as nat),
                        None => None,
                    },
                    vars: c.vars@,
                },
        )
    }
}

impl<V> Environment<V> {
    /// An environment with one scope, the global one, at index 0, without variables.
    pub fn new_global() -> (r: Self)
        ensures
            r@ == seq![ScopeV::<V> { parent: None, vars: seq![] }],
            parents_earlier(r@),
    {
        let mut scopes: Vec<Scope<V>> = Vec::new();
        scopes.push(Scope { parent: None, vars: Vec::new() });
        let r = Environment { scopes };
        assert(r@ =~= seq![ScopeV::<V> { parent: None, vars: seq![] }]);
        r
    }

    /// Opens a new scope without variables whose parent is `parent`, and gives its index.
    pub fn new_scope(&mut self, parent: usize) -> (r: usize)
        requires
            parent < old(self)@.len(),
        ensures
            r == old(self)@.len(),
            final(self)@ == old(self)@.push(ScopeV { parent: Some(parent as nat), vars: seq![] }),
            parents_earlier(old(self)@) ==> parents_earlier(final(self)@),
    {
        let r = self.scopes.len();
        self.scopes.push(Scope { parent: Some(parent), vars: Vec::new() });
        assert(self@ =~= old(self)@.push(ScopeV { parent: Some(parent as nat), vars: seq![] }));
        r
    }

    /// The number of scopes opened so far.
    pub fn len(&self) -> (r: usize)
        ensures
            r == self@.len(),
    {
        self.scopes.len()
    }

    /// The index of the scope `times` parents out from scope `scope`, or `None` where
    /// a scope on the way does not exist or has no parent.
    pub fn decendent(&self, scope: usize, times: usize) -> (r: Option<usize>)
        ensures
            match r {
                Some(d) => scope_out(self@, scope as nat, times as nat) == Some(d as nat) && d < self@.len(),
                None => scope_out(self@, scope as nat, times as nat) is None,
            },
    {
        if scope >= self.scopes.len() {
            return None;
        }
        let mut cur = scope;
        let mut i: usize = 0;
        while i < times
            invariant
                cur < self@.len(),
                i <= times,
                scope_out(self@, scope as nat, times as nat) == scope_out(self@, cur as nat, (times - i) as nat),
            decreases times - i,
        {
            match self.scopes[cur].parent {
                None => {
                    return None;
                },
                Some(p) => {
                    if p >= self.scopes.len() {
                        assert(scope_out(self@, p as nat, (times - i - 1) as nat) is None);
                        return None;
                    }
                    cur = p;
                },
            }
            i = i + 1;
        }
        Some(cur)
    }

    /// The value of slot `slot` in the scope `depth` parents out from scope `scope`,
    /// if there is such a variable.
    pub fn get(&self, scope: usize, depth: usize, slot: usize) -> (r: Option<&V>)
        ensures
            match r {
                Some(v) => lookup(self@, scope as nat, depth as nat, slot as nat) == Some(*v),
                None => lookup(self@, scope as nat, depth as nat, slot as nat) is None,
            },
    {
        match self.decendent(scope, depth) {
            None => None,
            Some(d) => {
                if slot < self.scopes[d].vars.len() {
                    Some(&self.scopes[d].vars[slot])
                } else {
                    None
                }
            },
        }
    }

    /// Declares `value` as the next variable of scope `scope`.
    pub fn declare(&mut self, scope: usize, value: V)
        requires
            scope < old(self)@.len(),
        ensures
            final(self)@ == declared(old(self)@, scope as nat, value),
            parents_earlier(old(self)@) ==> parents_earlier(final(self)@),
    {
        let ghost before = self@;
        self.scopes[scope].vars.push(value);
        assert(self@ =~= declared(before, scope as nat, value));
    }

    /// Writes `value` to slot `slot` of the scope `depth` parents out from scope
    /// `scope`; says whether there is such a variable, and changes nothing where
    /// there is none.
    pub fn set(&mut self, scope: usize, depth: usize, slot: usize, value: V) -> (r: bool)
        ensures
            r == (lookup(old(self)@, scope as nat, depth as nat, slot as nat) is Some),
            final(self)@ == assigned(old(self)@, scope as nat, depth as nat, slot as nat, value),
            parents_earlier(old(self)@) ==> parents_earlier(final(self)@),
    {
        proof {
            lemma_scope_out_bound(self@, scope as nat, depth as nat);
        }
        let ghost before = self@;
        match self.decendent(scope, depth) {
            None => false,
            Some(d) => {
                if slot < self.scopes[d].vars.len() {
                    self.scopes[d].vars.set(slot, value);
                    assert(self@ =~= assigned(before, scope as nat, depth as nat, slot as nat, value));
                    true
                } else {
                    false
                }
            },
        }
    }
    /// Closes every scope after the first `len`, once nothing can reach them any
    /// more; changes nothing when there are no more than `len` scopes.
    pub fn release(&mut self, len: usize)
        ensures
            final(self)@ == (if len <= old(self)@.len() {
                old(self)@.take(len as int)
            } else {
                old(self)@
            }),
            parents_earlier(old(self)@) ==> parents_earlier(final(self)@),
    {
        let ghost before = self@;
        self.scopes.truncate(len);
        proof {
            if len <= before.len() {
                assert(self@ =~= before.take(len as int));
            } else {
                assert(self@ =~= before);
            }
        }
    }
}

/// Closing the scopes opened last changes no variable reached from the scopes that
/// stay, where every scope's parent was opened before it.
pub proof fn law_release_keeps<V>(s: Seq<ScopeV<V>>, len: nat, scope: nat, depth: nat, slot: nat)
    requires
        scope < len <= s.len(),
        parents_earlier(s),
    ensures
        lookup(s.take(len as int), scope, depth, slot) == lookup(s, scope, depth, slot),
{
    let t = s.take(len as int);
    assert forall|i: int| 0 <= i < t.len() implies #[trigger] s[i] == t[i] by {}
    assert forall|i: int| 0 <= i < t.len() implies (#[trigger] t[i].parent matches Some(p) ==> p < t.len()) by {
        assert(s[i] == t[i]);
    }
    lemma_scope_out_prefix(t, s, scope, depth);
}


/// A read gives back what the last write to the same variable wrote.
pub proof fn law_get_after_set<V>(s: Seq<ScopeV<V>>, scope: nat, depth: nat, slot: nat, value: V)
    requires
        lookup(s, scope, depth, slot) is Some,
    ensures
        lookup(assigned(s, scope, depth, slot, value), scope, depth, slot) == Some(value),
{
    lemma_scope_out_bound(s, scope, depth);
    lemma_scope_out_same_parents(s, assigned(s, scope, depth, slot, value), scope, depth);
}

/// A write changes no variable but the one it writes: a read of a variable in
/// another scope, or in another slot, gives what it gave before.
pub proof fn law_set_elsewhere<V>(
    s: Seq<ScopeV<V>>,
    scope: nat,
    depth: nat,
    slot: nat,
    value: V,
    scope2: nat,
    depth2: nat,
    slot2: nat,
)
    requires
        scope_out(s, scope, depth) != scope_out(s, scope2, depth2) || slot != slot2,
    ensures
        lookup(assigned(s, scope, depth, slot, value), scope2, depth2, slot2) == lookup(s, scope2, depth2, slot2),
{
    let t = assigned(s, scope, depth, slot, value);
    lemma_scope_out_bound(s, scope, depth);
    lemma_scope_out_bound(s, scope2, depth2);
    lemma_scope_out_same_parents(s, t, scope2, depth2);
    lemma_scope_out_same_parents(s, t, scope, depth);
}

/// A declared value is read back from the next slot of its scope, and a declaration
/// changes no variable that was there before.
pub proof fn law_get_after_declare<V>(s: Seq<ScopeV<V>>, scope: nat, value: V, scope2: nat, depth2: nat, slot2: nat)
    requires
        scope < s.len(),
    ensures
        lookup(declared(s, scope, value), scope, 0, s[scope as int].vars.len()) == Some(value),
        lookup(s, scope2, depth2, slot2) is Some ==> lookup(declared(s, scope, value), scope2, depth2, slot2)
            == lookup(s, scope2, depth2, slot2),
{
    let t = declared(s, scope, value);
    lemma_scope_out_bound(s, scope2, depth2);
    lemma_scope_out_same_parents(s, t, scope, 0);
    lemma_scope_out_same_parents(s, t, scope2, depth2);
}

/// Opening a scope changes no variable reached from a scope that was there before.
pub proof fn law_new_scope_keeps<V>(s: Seq<ScopeV<V>>, parent: nat, scope: nat, depth: nat, slot: nat)
    requires
        scope < s.len(),
        forall|i: int| 0 <= i < s.len() ==> (#[trigger] s[i].parent matches Some(p) ==> p < s.len()),
    ensures
        lookup(s.push(ScopeV { parent: Some(parent), vars: seq![] }), scope, depth, slot) == lookup(s, scope, depth, slot),
{
    let t = s.push(ScopeV { parent: Some(parent), vars: seq![] });
    assert forall|i: int| 0 <= i < s.len() implies #[trigger] t[i] == s[i] by {}
    lemma_scope_out_prefix(s, t, scope, depth);
}

/// A scope reached from a scope is one of the scopes.
proof fn lemma_scope_out_bound<V>(s: Seq<ScopeV<V>>, scope: nat, times: nat)
    ensures
        scope_out(s, scope, times) matches Some(d) ==> d < s.len(),
    decreases times,
{
    if scope < s.len() && times > 0 {
        match s[scope as int].parent {
            Some(p) => lemma_scope_out_bound(s, p, (times - 1) as nat),
            None => {},
        }
    }
}

/// Two lists of scopes of the same length with the same parents lead from a scope to
/// the same scopes.
proof fn lemma_scope_out_same_parents<V>(s: Seq<ScopeV<V>>, t: Seq<ScopeV<V>>, scope: nat, times: nat)
    requires
        s.len() == t.len(),
        forall|i: int| 0 <= i < s.len() ==> #[trigger] s[i].parent == t[i].parent,
    ensures
        scope_out(s, scope, times) == scope_out(t, scope, times),
    decreases times,
{
    if scope < s.len() && times > 0 {
        assert(s[scope as int].parent == t[scope as int].parent);
        match s[scope as int].parent {
            Some(p) => lemma_scope_out_same_parents(s, t, p, (times - 1) as nat),
            None => {},
        }
    }
}

/// Scopes appended after `s` change no path among the scopes of `s`, where every
/// parent in `s` is in `s`.
proof fn lemma_scope_out_prefix<V>(s: Seq<ScopeV<V>>, t: Seq<ScopeV<V>>, scope: nat, times: nat)
    requires
        scope < s.len(),
        s.len() <= t.len(),
        forall|i: int| 0 <= i < s.len() ==> #[trigger] t[i] == s[i],
        forall|i: int| 0 <= i < s.len() ==> (#[trigger] s[i].parent matches Some(p) ==> p < s.len()),
    ensures
        scope_out(s, scope, times) == scope_out(t, scope, times),
        scope_out(s, scope, times) matches Some(d) ==> d < s.len(),
    decreases times,
{
    assert(t[scope as int] == s[scope as int]);
    if times > 0 {
        match s[scope as int].parent {
            Some(p) => lemma_scope_out_prefix(s, t, p, (times - 1) as nat),
            None => {},
        }
    }
}

} // verus!
