//! The set of live connections, kept in the order in which they were added.
use vstd::prelude::*;

verus! {

/// Holds of every identifier but `id`.
pub open spec fn other_than(id: u64) -> spec_fn(u64) -> bool {
    |c: u64| c != id
}

/// The connections of `s` other than `id`, in their order.
pub open spec fn without(s: Seq<u64>, id: u64) -> Seq<u64> {
    s.filter(other_than(id))
}

/// What `without` keeps: every entry but `id`, and nothing else.
pub proof fn lemma_without_contains(s: Seq<u64>, id: u64, c: u64)
    ensures
        without(s, id).contains(c) <==> (s.contains(c) && c != id),
{
    broadcast use vstd::seq_lib::group_filter_ensures;

    if s.contains(c) && c != id {
        let i = choose|i: int| 0 <= i < s.len() && s[i] == c;
        s.lemma_filter_contains(other_than(id), i);
    }
    if without(s, id).contains(c) {
        s.lemma_filter_contains_rev(other_than(id), c);
        let k = choose|k: int| 0 <= k < without(s, id).len() && without(s, id)[k] == c;
        s.lemma_filter_pred(other_than(id), k);
    }
}

/// Taking an identifier out keeps a duplicate-free sequence duplicate-free.
pub proof fn lemma_without_no_duplicates(s: Seq<u64>, id: u64)
    requires
        s.no_duplicates(),
    ensures
        without(s, id).no_duplicates(),
    decreases s.len(),
{
    if s.len() > 0 {
        let rest = s.drop_last();
        let x = s.last();
        assert(rest.no_duplicates());
        lemma_without_no_duplicates(rest, id);
        assert(rest.push(x) =~= s);
        rest.lemma_filter_push(x, other_than(id));
        if x != id {
            lemma_without_contains(rest, id, x);
            let w = without(rest, id);
            assert(!rest.contains(x));
            assert forall|a: int, b: int|
                0 <= a < w.push(x).len() && 0 <= b < w.push(x).len() && a != b implies w.push(x)[a]
                != w.push(x)[b] by {
                if a == w.len() {
                    assert(w.contains(w[b]));
                } else if b == w.len() {
                    assert(w.contains(w[a]));
                }
            }
        }
    }
}

/// Connection identifiers, each at most once, in insertion order.
pub struct Registry {
    conns: Vec<u64>,
}

impl View for Registry {
    type V = Seq<u64>;

    closed spec fn view(&self) -> Seq<u64> {
        self.conns@
    }
}

impl Registry {
    /// No identifier is registered twice.
    pub open spec fn wf(&self) -> bool {
        self@.no_duplicates()
    }

    /// An empty registry.
    pub fn new() -> (r: Registry)
        ensures
            r.wf(),
            r@ == Seq::<u64>::empty(),
    {
        Registry { conns: Vec::new() }
    }

    /// Number of registered connections.
    pub fn len(&self) -> (n: usize)
        ensures
            n == self@.len(),
    {
        self.conns.len()
    }

    /// Whether `id` is registered.
    pub fn contains(&self, id: u64) -> (r: bool)
        ensures
            r == self@.contains(id),
    {
        let mut i: usize = 0;
        while i < self.conns.len()
            invariant
                0 <= i <= self.conns@.len(),
                forall|j: int| 0 <= j < i ==> self.conns@[j] != id,
            decreases self.conns@.len() - i,
        {
            if self.conns[i] == id {
                return true;
            }
            i = i + 1;
        }
        false
    }

    /// Appends `id` unless it is already registered; says whether it was added.
    pub fn add(&mut self, id: u64) -> (added: bool)
        requires
            old(self).wf(),
        ensures
            final(self).wf(),
            added == !old(self)@.contains(id),
            final(self)@ == (if added { old(self)@.push(id) } else { old(self)@ }),
    {
        if self.contains(id) {
            false
        } else {
            self.conns.push(id);
            true
        }
    }

    /// Takes `id` out of the registry; says whether it was there.
    pub fn remove(&mut self, id: u64) -> (removed: bool)
        requires
            old(self).wf(),
        ensures
            final(self).wf(),
            removed == old(self)@.contains(id),
            final(self)@ == without(old(self)@, id),
    {
        broadcast use vstd::seq_lib::group_filter_ensures;

        let ghost before = self.conns@;
        let mut kept: Vec<u64> = Vec::new();
        let mut removed = false;
        let mut i: usize = 0;
        while i < self.conns.len()
            invariant
                0 <= i <= before.len(),
                self.conns@ == before,
                before.no_duplicates(),
                kept@ == without(before.take(i as int), id),
                kept@.no_duplicates(),
                forall|c: u64| kept@.contains(c) ==> before.take(i as int).contains(c),
                removed == before.take(i as int).contains(id),
            decreases before.len() - i,
        {
            let c = self.conns[i];
            proof {
                assert(before.take(i + 1) =~= before.take(i as int).push(c));
                before.take(i as int).lemma_filter_push(c, other_than(id));
                assert(!before.take(i as int).contains(c));
            }
            let ghost prefix = before.take(i as int);
            let ghost was = kept@;
            if c == id {
                removed = true;
            } else {
                kept.push(c);
            }
            i = i + 1;
            proof {
                let next = before.take(i as int);
                assert forall|x: u64| next.contains(x) <==> (prefix.contains(x) || x == c) by {
                    if next.contains(x) {
                        let k = choose|k: int| 0 <= k < next.len() && next[k] == x;
                        if k < prefix.len() {
                            assert(prefix[k] == x);
                        }
                    }
                    if prefix.contains(x) {
                        let k = choose|k: int| 0 <= k < prefix.len() && prefix[k] == x;
                        assert(next[k] == x);
                    }
                    assert(next[next.len() - 1] == c);
                }
                if c != id {
                    assert(kept@ =~= was.push(c));
                    assert(!was.contains(c));
                    assert forall|x: u64| kept@.contains(x) implies (was.contains(x) || x == c) by {
                        let k = choose|k: int| 0 <= k < kept@.len() && kept@[k] == x;
                        if k < was.len() {
                            assert(was[k] == x);
                        }
                    }
                    assert forall|a: int, b: int|
                        0 <= a < kept@.len() && 0 <= b < kept@.len() && a != b implies kept@[a]
                        != kept@[b] by {
                        if a < was.len() && b < was.len() {
                        } else if a < was.len() {
                            assert(was.contains(kept@[a]));
                        } else if b < was.len() {
                            assert(was.contains(kept@[b]));
                        }
                    }
                }
                assert forall|x: u64| kept@.contains(x) implies next.contains(x) by {
                    if c != id && x == c {
                    } else {
                        assert(was.contains(x));
                        assert(prefix.contains(x));
                    }
                }
            }
        }
        assert(before.take(before.len() as int) =~= before);
        self.conns = kept;
        removed
    }

    /// A point-in-time copy of the registered identifiers, in order.
    pub fn snapshot(&self) -> (s: Vec<u64>)
        ensures
            s@ == self@,
    {
        self.conns.clone()
    }
}

} // verus!
