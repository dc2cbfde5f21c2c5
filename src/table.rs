//! Association lists with unique keys, kept in insertion order.

use vstd::prelude::*;

verus! {

/// A key whose equality can be decided in executable code, in agreement with its view.
pub trait TableKey: View + Sized {
    fn same_key(&self, other: &Self) -> (r: bool)
        ensures
            r == (self@ == other@),
    ;
}

impl TableKey for String {
    fn same_key(&self, other: &Self) -> (r: bool) {
        *self == *other
    }
}

impl TableKey for u64 {
    fn same_key(&self, other: &Self) -> (r: bool) {
        *self == *other
    }
}

impl TableKey for (String, u64) {
    fn same_key(&self, other: &Self) -> (r: bool) {
        self.0 == other.0 && self.1 == other.1
    }
}

/// Index of the last entry holding key `k`, or -1.
pub open spec fn find_key<A, B>(s: Seq<(A, B)>, k: A) -> int
    decreases s.len(),
{
    if s.len() == 0 {
        -1
    } else if s.last().0 == k {
        s.len() - 1
    } else {
        find_key(s.drop_last(), k)
    }
}

pub open spec fn keys_unique<A, B>(s: Seq<(A, B)>) -> bool {
    forall|i: int, j: int| #![trigger s[i], s[j]] 0 <= i < j < s.len() ==> s[i].0 != s[j].0
}

pub open spec fn lookup<A, B>(s: Seq<(A, B)>, k: A) -> Option<B> {
    let i = find_key(s, k);
    if i >= 0 {
        Some(s[i].1)
    } else {
        None
    }
}

/// The list with `k` bound to `v`: in place where `k` is present, appended otherwise.
pub open spec fn assign<A, B>(s: Seq<(A, B)>, k: A, v: B) -> Seq<(A, B)> {
    let i = find_key(s, k);
    if i >= 0 {
        s.update(i, (k, v))
    } else {
        s.push((k, v))
    }
}

/// The list without the entry for `k`; the others keep their order.
pub open spec fn erase<A, B>(s: Seq<(A, B)>, k: A) -> Seq<(A, B)> {
    let i = find_key(s, k);
    if i >= 0 {
        s.remove(i)
    } else {
        s
    }
}

pub proof fn lemma_find_key<A, B>(s: Seq<(A, B)>, k: A)
    ensures
        -1 <= find_key(s, k) < s.len(),
        find_key(s, k) >= 0 ==> s[find_key(s, k)].0 == k,
        forall|j: int| 0 <= j < s.len() && s[j].0 == k ==> j <= find_key(s, k),
        keys_unique(s) ==> forall|j: int| 0 <= j < s.len() && s[j].0 == k ==> j == find_key(s, k),
    decreases s.len(),
{
    if s.len() > 0 {
        let t = s.drop_last();
        lemma_find_key(t, k);
        assert forall|j: int| 0 <= j < t.len() implies t[j] == s[j] by {}
        if keys_unique(s) {
            assert(keys_unique(t));
        }
    }
}

pub proof fn lemma_assign<A, B>(s: Seq<(A, B)>, k: A, v: B)
    requires
        keys_unique(s),
    ensures
        keys_unique(assign(s, k, v)),
        forall|q: A| #[trigger]
            lookup(assign(s, k, v), q) == (if q == k {
                Some(v)
            } else {
                lookup(s, q)
            }),
        assign(s, k, v).len() == s.len() + (if lookup(s, k) is Some {
            0int
        } else {
            1int
        }),
{
    let t = assign(s, k, v);
    let i = find_key(s, k);
    lemma_find_key(s, k);
    let pos = if i >= 0 {
        i
    } else {
        s.len() as int
    };
    assert(t[pos] == (k, v));
    assert forall|j: int| 0 <= j < t.len() && j != pos implies t[j] == s[j] && s[j].0 != k by {}
    assert(keys_unique(t)) by {
        assert forall|a: int, b: int| 0 <= a < b < t.len() implies t[a].0 != t[b].0 by {
            if a != pos && b != pos {
                assert(t[a] == s[a] && t[b] == s[b]);
            }
        }
    }
    assert forall|q: A| #[trigger]
        lookup(t, q) == (if q == k {
            Some(v)
        } else {
            lookup(s, q)
        }) by {
        lemma_find_key(s, q);
        lemma_find_key(t, q);
        if q != k {
            let f = find_key(s, q);
            if f >= 0 {
                assert(t[f] == s[f]);
            } else {
                let g = find_key(t, q);
                if g >= 0 {
                    assert(t[g] == s[g]);
                }
            }
        }
    }
}

pub proof fn lemma_erase<A, B>(s: Seq<(A, B)>, k: A)
    requires
        keys_unique(s),
    ensures
        keys_unique(erase(s, k)),
        forall|q: A| #[trigger]
            lookup(erase(s, k), q) == (if q == k {
                None
            } else {
                lookup(s, q)
            }),
        erase(s, k).len() == s.len() - (if lookup(s, k) is Some {
            1int
        } else {
            0int
        }),
{
    let t = erase(s, k);
    let i = find_key(s, k);
    lemma_find_key(s, k);
    if i >= 0 {
        assert forall|j: int| 0 <= j < t.len() implies t[j] == (if j < i {
            s[j]
        } else {
            s[j + 1]
        }) by {}
        assert(keys_unique(t)) by {
            assert forall|a: int, b: int| 0 <= a < b < t.len() implies t[a].0 != t[b].0 by {
                let a2 = if a < i {
                    a
                } else {
                    a + 1
                };
                let b2 = if b < i {
                    b
                } else {
                    b + 1
                };
                assert(t[a] == s[a2] && t[b] == s[b2]);
            }
        }
        assert forall|q: A| #[trigger]
            lookup(t, q) == (if q == k {
                None
            } else {
                lookup(s, q)
            }) by {
            lemma_find_key(s, q);
            lemma_find_key(t, q);
            let g = find_key(t, q);
            if g >= 0 {
                let g2 = if g < i {
                    g
                } else {
                    g + 1
                };
                assert(t[g] == s[g2]);
            }
            if q != k {
                let f = find_key(s, q);
                if f >= 0 {
                    let f2 = if f < i {
                        f
                    } else {
                        f - 1
                    };
                    assert(t[f2] == s[f]);
                }
            }
        }
    }
}

pub proof fn lemma_entries_after_assign<A, B>(s: Seq<(A, B)>, k: A, v: B)
    ensures
        forall|j: int|
            0 <= j < assign(s, k, v).len() ==> #[trigger] assign(s, k, v)[j] == (k, v) || (j
                < s.len() && assign(s, k, v)[j] == s[j]),
{
    lemma_find_key(s, k);
}

pub proof fn lemma_entries_after_erase<A, B>(s: Seq<(A, B)>, k: A)
    ensures
        forall|j: int|
            0 <= j < erase(s, k).len() ==> (#[trigger] erase(s, k)[j] == s[j] || erase(s, k)[j]
                == s[j + 1]) && j + 1 <= s.len(),
{
    lemma_find_key(s, k);
}

pub proof fn lemma_insert_fresh<A, B>(s: Seq<(A, B)>, p: int, k: A, v: B)
    requires
        keys_unique(s),
        lookup(s, k) is None,
        0 <= p <= s.len(),
    ensures
        keys_unique(s.insert(p, (k, v))),
        forall|q: A| #[trigger]
            lookup(s.insert(p, (k, v)), q) == (if q == k {
                Some(v)
            } else {
                lookup(s, q)
            }),
{
    let t = s.insert(p, (k, v));
    lemma_find_key(s, k);
    assert forall|j: int| 0 <= j < t.len() implies t[j] == (if j < p {
        s[j]
    } else if j == p {
        (k, v)
    } else {
        s[j - 1]
    }) by {}
    assert(keys_unique(t)) by {
        assert forall|a: int, b: int| 0 <= a < b < t.len() implies t[a].0 != t[b].0 by {
            if a != p && b != p {
                let a2 = if a < p {
                    a
                } else {
                    a - 1
                };
                let b2 = if b < p {
                    b
                } else {
                    b - 1
                };
                assert(t[a] == s[a2] && t[b] == s[b2]);
            } else if a == p {
                assert(t[b] == s[b - 1]);
            } else {
                assert(t[a] == s[a]);
            }
        }
    }
    assert forall|q: A| #[trigger]
        lookup(t, q) == (if q == k {
            Some(v)
        } else {
            lookup(s, q)
        }) by {
        lemma_find_key(s, q);
        lemma_find_key(t, q);
        if q == k {
            assert(t[p] == (k, v));
        } else {
            let g = find_key(t, q);
            if g >= 0 {
                let g2 = if g < p {
                    g
                } else {
                    g - 1
                };
                assert(t[g] == s[g2]);
            }
            let f = find_key(s, q);
            if f >= 0 {
                let f2 = if f < p {
                    f
                } else {
                    f + 1
                };
                assert(t[f2] == s[f]);
            }
        }
    }
}

/// An association list: `entries` holds at most one pair per key.
#[derive(Debug, PartialEq, Eq)]
pub struct Table<K, V> {
    pub entries: Vec<(K, V)>,
}

impl<K: View, V: View> View for Table<K, V> {
    type V = Seq<(K::V, V::V)>;

    open spec fn view(&self) -> Seq<(K::V, V::V)> {
        self.entries@.map_values(|e: (K, V)| (e.0@, e.1@))
    }
}

impl<K: TableKey, V: View> Table<K, V> {
    pub open spec fn wf(&self) -> bool {
        keys_unique(self@)
    }

    pub fn new() -> (t: Self)
        ensures
            t@ == Seq::<(K::V, V::V)>::empty(),
            t.wf(),
    {
        let t = Table { entries: Vec::new() };
        assert(t@ =~= Seq::<(K::V, V::V)>::empty());
        t
    }

    pub fn len(&self) -> (n: usize)
        ensures
            n == self@.len(),
    {
        self.entries.len()
    }

    /// Position of the entry for `k`.
    pub fn find(&self, k: &K) -> (r: Option<usize>)
        ensures
            match r {
                Some(i) => i == find_key(self@, k@),
                None => find_key(self@, k@) == -1,
            },
    {
        proof {
            lemma_find_key(self@, k@);
        }
        assert(self@.len() == self.entries@.len());
        let mut i = self.entries.len();
        while i > 0
            invariant
                i <= self.entries.len(),
                self@.len() == self.entries@.len(),
                forall|j: int| i <= j < self@.len() ==> self@[j].0 != k@,
                -1 <= find_key(self@, k@) < self@.len(),
                find_key(self@, k@) >= 0 ==> self@[find_key(self@, k@)].0 == k@,
                forall|j: int| 0 <= j < self@.len() && self@[j].0 == k@ ==> j <= find_key(self@, k@),
            decreases i,
        {
            assert(self@[i - 1] == (self.entries@[i - 1].0@, self.entries@[i - 1].1@));
            if self.entries[i - 1].0.same_key(k) {
                return Some(i - 1);
            }
            i = i - 1;
        }
        None
    }

    pub fn get(&self, k: &K) -> (r: Option<&V>)
        ensures
            match r {
                Some(v) => lookup(self@, k@) == Some(v@),
                None => lookup(self@, k@) is None,
            },
    {
        proof {
            lemma_find_key(self@, k@);
        }
        match self.find(k) {
            Some(i) => Some(&self.entries[i].1),
            None => None,
        }
    }

    /// Binds `k` to `v`, in place where `k` is present.
    pub fn insert(&mut self, k: K, v: V)
        requires
            old(self).wf(),
        ensures
            final(self).wf(),
            final(self)@ == assign(old(self)@, k@, v@),
    {
        proof {
            lemma_assign(self@, k@, v@);
        }
        let ghost kv = k@;
        let ghost vv = v@;
        proof {
            lemma_find_key(self@, kv);
        }
        match self.find(&k) {
            Some(i) => {
                self.entries.set(i, (k, v));
                assert(self@ =~= old(self)@.update(i as int, (kv, vv)));
            },
            None => {
                self.entries.push((k, v));
                assert(self@ =~= old(self)@.push((kv, vv)));
            },
        }
    }

    /// Takes the entry for `k` out, keeping the order of the others.
    pub fn remove(&mut self, k: &K) -> (r: Option<V>)
        requires
            old(self).wf(),
        ensures
            final(self).wf(),
            final(self)@ == erase(old(self)@, k@),
            match r {
                Some(v) => lookup(old(self)@, k@) == Some(v@),
                None => lookup(old(self)@, k@) is None,
            },
    {
        proof {
            lemma_erase(self@, k@);
            lemma_find_key(self@, k@);
        }
        match self.find(k) {
            Some(i) => {
                let e = self.entries.remove(i);
                assert(self@ =~= old(self)@.remove(i as int));
                Some(e.1)
            },
            None => None,
        }
    }
}

} // verus!
