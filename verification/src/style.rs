//! Styles: collections of components, at most one of each kind.

use vstd::prelude::*;

verus! {

/// A style component whose value does not depend on the display scale.
pub trait UnscaledStyleComponent<Unit>: Clone {
}

/// The index of the entry for `key` among the first `n` entries, or -1.
pub open spec fn index_of<C>(entries: Seq<(u64, C)>, key: u64, n: int) -> int
    decreases n,
{
    if n <= 0 {
        -1
    } else if entries[n - 1].0 == key {
        n - 1
    } else {
        index_of(entries, key, n - 1)
    }
}

/// The component stored for `key` in `entries`, if any.
pub open spec fn lookup<C>(entries: Seq<(u64, C)>, key: u64) -> Option<C> {
    let i = index_of(entries, key, entries.len() as int);
    if i >= 0 {
        Some(entries[i].1)
    } else {
        None
    }
}

/// A set of style components, keyed by the kind of component.
#[derive(Debug)]
pub struct Style<C> {
    components: Vec<(u64, C)>,
}

proof fn lemma_index_of_range<C>(entries: Seq<(u64, C)>, key: u64, n: int)
    requires
        n <= entries.len(),
    ensures
        index_of(entries, key, n) == -1 || (0 <= index_of(entries, key, n) < n && entries[index_of(
            entries,
            key,
            n,
        )].0 == key),
        index_of(entries, key, n) == -1 ==> forall|i: int| 0 <= i < n ==> entries[i].0 != key,
    decreases n,
{
    if n > 0 {
        lemma_index_of_range(entries, key, n - 1);
    }
}

/// In a sequence without repeated keys, the index found is the entry with that
/// key.
proof fn lemma_index_of_unique<C>(entries: Seq<(u64, C)>, key: u64, i: int)
    requires
        0 <= i < entries.len(),
        entries[i].0 == key,
        forall|a: int, b: int| 0 <= a < b < entries.len() ==> entries[a].0 != entries[b].0,
    ensures
        index_of(entries, key, entries.len() as int) == i,
{
    lemma_index_of_range(entries, key, entries.len() as int);
    let j = index_of(entries, key, entries.len() as int);
    if j != i {
        if j < i {
            assert(entries[j].0 != entries[i].0);
        } else {
            assert(entries[i].0 != entries[j].0);
        }
    }
}

impl<C> Style<C> {
    /// The stored entries.
    pub closed spec fn entries(&self) -> Seq<(u64, C)> {
        self.components@
    }

    /// No kind of component is stored twice.
    pub closed spec fn wf(&self) -> bool {
        forall|a: int, b: int| 0 <= a < b < self.components@.len() ==> self.components@[a].0 != self.components@[b].0
    }

    /// The component stored for `key`, if any.
    pub open spec fn component(&self, key: u64) -> Option<C> {
        lookup(self.entries(), key)
    }

    /// Returns an empty style.
    pub fn new() -> (r: Self)
        ensures
            r.wf(),
            forall|key: u64| r.component(key) is None,
    {
        let r = Style { components: Vec::new() };
        assert forall|key: u64| r.component(key) is None by {
            lemma_index_of_range(r.entries(), key, 0);
        }
        r
    }

    /// Stores `component` as the component for `key`, replacing any stored
    /// before.
    pub fn push(&mut self, key: u64, component: C)
        requires
            old(self).wf(),
        ensures
            final(self).wf(),
            final(self).component(key) == Some(component),
            forall|other: u64| other != key ==> final(self).component(other) == old(self).component(other),
    {
        let ghost e0 = self.entries();
        let len = self.components.len();
        let mut i: usize = 0;
        while i < len
            invariant
                e0 == old(self).entries(),
                self.entries() == e0,
                len == e0.len(),
                i <= len,
                old(self).wf(),
                forall|j: int| 0 <= j < i ==> e0[j].0 != key,
            decreases len - i,
        {
            if self.components[i].0 == key {
                self.components.set(i, (key, component));
                proof {
                    let e1 = self.entries();
                    assert forall|a: int, b: int| 0 <= a < b < e1.len() implies e1[a].0 != e1[b].0 by {
                        assert(e1[a].0 == e0[a].0);
                        assert(e1[b].0 == e0[b].0);
                    }
                    lemma_index_of_unique(e1, key, i as int);
                    assert forall|other: u64| other != key implies #[trigger] lookup(e1, other) == lookup(e0, other) by {
                        lemma_index_of_range(e0, other, e0.len() as int);
                        lemma_index_of_range(e1, other, e1.len() as int);
                        let j0 = index_of(e0, other, e0.len() as int);
                        if j0 >= 0 {
                            lemma_index_of_unique(e1, other, j0);
                        } else {
                            let j1 = index_of(e1, other, e1.len() as int);
                            if j1 >= 0 {
                                assert(e0[j1].0 == other);
                            }
                        }
                    }
                }
                return;
            }
            i = i + 1;
        }
        self.components.push((key, component));
        proof {
            let e1 = self.entries();
            assert(e1 == e0.push((key, component)));
            lemma_index_of_unique(e1, key, len as int);
            assert forall|other: u64| other != key implies #[trigger] lookup(e1, other) == lookup(e0, other) by {
                lemma_index_of_range(e0, other, e0.len() as int);
                let j0 = index_of(e0, other, e0.len() as int);
                if j0 >= 0 {
                    lemma_index_of_unique(e0, other, j0);
                    lemma_index_of_unique(e1, other, j0);
                } else {
                    lemma_index_of_range(e1, other, e1.len() as int);
                    let j1 = index_of(e1, other, e1.len() as int);
                    if j1 >= 0 {
                        assert(e1[j1] == e0[j1]);
                    }
                }
            }
        }
    }

    /// Returns the style with `component` stored for `key`.
    pub fn with(self, key: u64, component: C) -> (r: Self)
        requires
            self.wf(),
        ensures
            r.wf(),
            r.component(key) == Some(component),
            forall|other: u64| other != key ==> r.component(other) == self.component(other),
    {
        let mut style = self;
        style.push(key, component);
        style
    }

    /// The component stored for `key`, if any.
    pub fn get(&self, key: u64) -> (r: Option<&C>)
        requires
            self.wf(),
        ensures
            r matches Some(c) ==> self.component(key) == Some(*c),
            r is None ==> self.component(key) is None,
    {
        let ghost e = self.entries();
        let len = self.components.len();
        let mut i: usize = 0;
        while i < len
            invariant
                e == self.entries(),
                len == e.len(),
                i <= len,
                self.wf(),
                forall|j: int| 0 <= j < i ==> e[j].0 != key,
            decreases len - i,
        {
            if self.components[i].0 == key {
                proof {
                    lemma_index_of_unique(e, key, i as int);
                }
                return Some(&self.components[i].1);
            }
            i = i + 1;
        }
        proof {
            lemma_index_of_range(e, key, e.len() as int);
            if index_of(e, key, e.len() as int) >= 0 {
                assert(e[index_of(e, key, e.len() as int)].0 == key);
            }
        }
        None
    }
}

/// The component of kind `key` that a style with `own` inheriting from a
/// parent with `inherited` holds: its own, and otherwise the parent's.
pub open spec fn merged_component<C>(own: Option<C>, inherited: Option<C>) -> Option<C> {
    match own {
        Some(c) => Some(c),
        None => inherited,
    }
}

/// Inheritance, component by component: inheriting from an empty style, or
/// an empty style inheriting, keeps the other's components; a style
/// inheriting from itself keeps its own; and inheriting from a parent that
/// inherits from a grandparent holds what inheriting from the parent and
/// then from the grandparent holds.
pub proof fn lemma_inheritance_laws<C>(a: Option<C>, b: Option<C>, c: Option<C>)
    ensures
        merged_component(a, None) == a,
        merged_component(None, b) == b,
        merged_component(a, a) == a,
        merged_component(merged_component(a, b), c) == merged_component(a, merged_component(b, c)),
{
}

impl<C: Clone> Style<C> {
    /// Returns a style holding every component of this style, and each
    /// component of `parent` whose kind this style lacks; each is a clone.
    pub fn inherit_from(&self, parent: &Style<C>) -> (r: Self)
        requires
            self.wf(),
            parent.wf(),
        ensures
            r.wf(),
            forall|key: u64|
                #![trigger r.component(key)]
                {
                    &&& r.component(key) is Some <==> (self.component(key) is Some || parent.component(key) is Some)
                    &&& self.component(key) matches Some(c) ==> cloned(c, r.component(key).unwrap())
                    &&& self.component(key) is None ==> (parent.component(key) matches Some(c) ==> cloned(
                        c,
                        r.component(key).unwrap(),
                    ))
                    &&& r.component(key) is Some <==> merged_component(
                        self.component(key),
                        parent.component(key),
                    ) is Some
                    &&& r.component(key) is Some ==> cloned(
                        merged_component(self.component(key), parent.component(key)).unwrap(),
                        r.component(key).unwrap(),
                    )
                },
    {
        let ghost es = self.entries();
        let ghost ep = parent.entries();
        let mut merged: Vec<(u64, C)> = Vec::new();
        let n = self.components.len();
        let mut i: usize = 0;
        while i < n
            invariant
                es == self.entries(),
                n == es.len(),
                i <= n,
                self.wf(),
                merged@.len() == i,
                forall|j: int| 0 <= j < i ==> (#[trigger] merged@[j]).0 == es[j].0,
                forall|j: int| 0 <= j < i ==> cloned(es[j].1, (#[trigger] merged@[j]).1),
            decreases n - i,
        {
            let key = self.components[i].0;
            let value = self.components[i].1.clone();
            proof {
                assert(cloned(es[i as int].1, value));
            }
            let ghost before = merged@;
            merged.push((key, value));
            proof {
                assert forall|j: int| 0 <= j < i + 1 implies (#[trigger] merged@[j]).0 == es[j].0 && cloned(
                    es[j].1,
                    merged@[j].1,
                ) by {
                    if j < i {
                        assert(merged@[j] == before[j]);
                    }
                }
            }
            i = i + 1;
        }
        let m = parent.components.len();
        let mut k: usize = 0;
        while k < m
            invariant
                es == self.entries(),
                ep == parent.entries(),
                n == es.len(),
                m == ep.len(),
                k <= m,
                self.wf(),
                parent.wf(),
                n <= merged@.len(),
                forall|j: int| 0 <= j < n ==> (#[trigger] merged@[j]).0 == es[j].0,
                forall|j: int| 0 <= j < n ==> cloned(es[j].1, (#[trigger] merged@[j]).1),
                forall|j: int|
                    n <= j < merged@.len() ==> {
                        &&& lookup(es, #[trigger] merged@[j].0) is None
                        &&& lookup(ep, merged@[j].0) is Some
                        &&& cloned(lookup(ep, merged@[j].0).unwrap(), merged@[j].1)
                    },
                forall|a: int, b: int| 0 <= a < b < merged@.len() ==> merged@[a].0 != merged@[b].0,
                forall|j: int| 0 <= j < k ==> (lookup(es, ep[j].0) is Some || exists|q: int| n <= q < merged@.len() && merged@[q].0 == #[trigger] ep[j].0),
                forall|q: int| n <= q < merged@.len() ==> exists|j: int| 0 <= j < k && ep[j].0 == #[trigger] merged@[q].0,
            decreases m - k,
        {
            let key = parent.components[k].0;
            let present = self.get(key);
            let ghost old_merged = merged@;
            if present.is_none() {
                let value = parent.components[k].1.clone();
                proof {
                    lemma_index_of_unique(ep, key, k as int);
                    assert forall|a: int| 0 <= a < merged@.len() implies merged@[a].0 != key by {
                        if a < n {
                            lemma_index_of_unique(es, merged@[a].0, a);
                        } else {
                            let j = choose|j: int| 0 <= j < k && ep[j].0 == #[trigger] merged@[a].0;
                            assert(ep[j].0 != ep[k as int].0);
                        }
                    }
                }
                let ghost before = merged@;
                merged.push((key, value));
                proof {
                    assert forall|q: int| n <= q < merged@.len() implies exists|j: int|
                        0 <= j < k + 1 && ep[j].0 == #[trigger] merged@[q].0 by {
                        if q == before.len() {
                            assert(ep[k as int].0 == merged@[q].0);
                        } else {
                            assert(merged@[q] == before[q]);
                            let j = choose|j: int| 0 <= j < k && ep[j].0 == #[trigger] before[q].0;
                            assert(ep[j].0 == merged@[q].0);
                        }
                    }
                }
            }
            proof {
                assert forall|j: int| 0 <= j < k + 1 implies (lookup(es, ep[j].0) is Some || exists|q: int|
                    n <= q < merged@.len() && merged@[q].0 == #[trigger] ep[j].0) by {
                    if j == k {
                        if present is None {
                            assert(merged@[old_merged.len() as int].0 == ep[j].0);
                        }
                    } else if lookup(es, ep[j].0) is None {
                        let q = choose|q: int| n <= q < old_merged.len() && old_merged[q].0 == #[trigger] ep[j].0;
                        assert(merged@[q] == old_merged[q]);
                    }
                }
            }
            k = k + 1;
        }
        let r = Style { components: merged };
        proof {
            let er = r.entries();
            assert forall|key: u64| #![trigger r.component(key)]
                {
                    &&& r.component(key) is Some <==> (self.component(key) is Some || parent.component(key) is Some)
                    &&& self.component(key) matches Some(c) ==> cloned(c, r.component(key).unwrap())
                    &&& self.component(key) is None ==> (parent.component(key) matches Some(c) ==> cloned(
                        c,
                        r.component(key).unwrap(),
                    ))
                } by {
                lemma_index_of_range(es, key, es.len() as int);
                lemma_index_of_range(ep, key, ep.len() as int);
                lemma_index_of_range(er, key, er.len() as int);
                let is = index_of(es, key, es.len() as int);
                let ip = index_of(ep, key, ep.len() as int);
                if is >= 0 {
                    lemma_index_of_unique(er, key, is);
                } else if ip >= 0 {
                    let q = choose|q: int| n <= q < er.len() && er[q].0 == #[trigger] ep[ip].0;
                    lemma_index_of_unique(er, key, q);
                } else {
                    let ir = index_of(er, key, er.len() as int);
                    if ir >= 0 {
                        if ir < n {
                            assert(es[ir].0 == key);
                        } else {
                            let j = choose|j: int| 0 <= j < m && ep[j].0 == #[trigger] er[ir].0;
                            assert(ep[j].0 == key);
                        }
                    }
                }
            }
        }
        r
    }
}

} // verus!
