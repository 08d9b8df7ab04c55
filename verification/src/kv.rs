//! The key-value substrate the adapter writes through, modelled as an
//! association list with unique keys. New keys are appended, so iteration
//! order is insertion order; rows of one table are inserted with strictly
//! increasing identifiers, which makes a prefix scan of the table ordered.

use vstd::prelude::*;

use crate::bytes::{bytes_eq, copy_bytes, is_prefix, starts_with};

verus! {

/// Keys of an entry sequence are pairwise distinct.
pub open spec fn kv_unique(s: Seq<(Seq<u8>, Seq<u8>)>) -> bool {
    forall|i: int, j: int| 0 <= i < j < s.len() ==> (#[trigger] s[i]).0 != (#[trigger] s[j]).0
}

pub open spec fn kv_contains(s: Seq<(Seq<u8>, Seq<u8>)>, k: Seq<u8>) -> bool {
    exists|i: int| 0 <= i < s.len() && (#[trigger] s[i]).0 == k
}

pub open spec fn kv_index(s: Seq<(Seq<u8>, Seq<u8>)>, k: Seq<u8>) -> int {
    choose|i: int| 0 <= i < s.len() && (#[trigger] s[i]).0 == k
}

/// The value stored at `k`, if any.
pub open spec fn kv_get(s: Seq<(Seq<u8>, Seq<u8>)>, k: Seq<u8>) -> Option<Seq<u8>> {
    if kv_contains(s, k) {
        Some(s[kv_index(s, k)].1)
    } else {
        None
    }
}

/// Under unique keys, the entry at any position is what `kv_get` returns.
pub proof fn lemma_kv_get_at(s: Seq<(Seq<u8>, Seq<u8>)>, i: int)
    requires
        kv_unique(s),
        0 <= i < s.len(),
    ensures
        kv_get(s, s[i].0) == Some(s[i].1),
        kv_index(s, s[i].0) == i,
{
    assert(kv_contains(s, s[i].0));
    let j = kv_index(s, s[i].0);
    if j != i {
        if j < i {
            assert(s[j].0 != s[i].0);
        } else {
            assert(s[i].0 != s[j].0);
        }
    }
}

/// The entries whose key extends `p`, in store order.
pub open spec fn filter_prefix(s: Seq<(Seq<u8>, Seq<u8>)>, p: Seq<u8>) -> Seq<(Seq<u8>, Seq<u8>)>
    decreases s.len(),
{
    if s.len() == 0 {
        Seq::empty()
    } else {
        let rest = filter_prefix(s.drop_last(), p);
        if is_prefix(p, s.last().0) {
            rest.push(s.last())
        } else {
            rest
        }
    }
}

/// The in-memory store: entries in insertion order, keys unique.
pub struct Kv {
    pub entries: Vec<(Vec<u8>, Vec<u8>)>,
}

impl View for Kv {
    type V = Seq<(Seq<u8>, Seq<u8>)>;

    open spec fn view(&self) -> Seq<(Seq<u8>, Seq<u8>)> {
        self.entries@.map(|i: int, p: (Vec<u8>, Vec<u8>)| (p.0@, p.1@))
    }
}

impl Kv {
    pub open spec fn wf(self) -> bool {
        kv_unique(self@)
    }

    pub fn new() -> (r: Kv)
        ensures
            r.wf(),
            r@ == Seq::<(Seq<u8>, Seq<u8>)>::empty(),
    {
        let r = Kv { entries: Vec::new() };
        assert(r@ =~= Seq::<(Seq<u8>, Seq<u8>)>::empty());
        r
    }

    fn find(&self, k: &Vec<u8>) -> (r: Option<usize>)
        ensures
            r matches Some(i) ==> i < self@.len() && self@[i as int].0 == k@,
            r is None ==> !kv_contains(self@, k@),
    {
        let mut i: usize = 0;
        while i < self.entries.len()
            invariant
                i <= self@.len(),
                self@.len() == self.entries@.len(),
                forall|j: int| 0 <= j < i ==> (#[trigger] self@[j]).0 != k@,
            decreases self@.len() - i,
        {
            if bytes_eq(&self.entries[i].0, k) {
                assert(self@[i as int].0 == k@);
                return Some(i);
            }
            i = i + 1;
        }
        None
    }

    /// The value at `k`, copied out, if present.
    pub fn get(&self, k: &Vec<u8>) -> (r: Option<Vec<u8>>)
        requires
            self.wf(),
        ensures
            r matches Some(v) ==> kv_get(self@, k@) == Some(v@),
            r is None ==> kv_get(self@, k@) is None,
    {
        match self.find(k) {
            Some(i) => {
                proof {
                    lemma_kv_get_at(self@, i as int);
                }
                Some(copy_bytes(&self.entries[i].1))
            },
            None => None,
        }
    }

    /// Whether any entry lives at `k`.
    pub fn contains(&self, k: &Vec<u8>) -> (r: bool)
        requires
            self.wf(),
        ensures
            r <==> kv_contains(self@, k@),
    {
        match self.find(k) {
            Some(i) => {
                assert(kv_contains(self@, k@));
                true
            },
            None => false,
        }
    }

    /// Stores `v` at `k` and returns the value previously there, if any.
    /// A new key is appended after all existing entries; an existing key
    /// keeps its position.
    pub fn insert(&mut self, k: Vec<u8>, v: Vec<u8>) -> (r: Option<Vec<u8>>)
        requires
            old(self).wf(),
        ensures
            final(self).wf(),
            kv_get(final(self)@, k@) == Some(v@),
            forall|k2: Seq<u8>| k2 != k@ ==> kv_get(final(self)@, k2) == kv_get(old(self)@, k2),
            r matches Some(pv) ==> kv_get(old(self)@, k@) == Some(pv@),
            r is None ==> !kv_contains(old(self)@, k@),
            final(self)@ == crate::model::kv_put(old(self)@, k@, v@),
            !kv_contains(old(self)@, k@) ==> final(self)@ == old(self)@.push((k@, v@)),
            final(self)@.len() == old(self)@.len() + (if kv_contains(old(self)@, k@) {
                0int
            } else {
                1int
            }),
            forall|i: int|
                0 <= i < old(self)@.len() ==> (#[trigger] final(self)@[i]).0 == old(self)@[i].0,
    {
        let ghost pre = self@;
        match self.find(&k) {
            Some(i) => {
                proof {
                    lemma_kv_get_at(pre, i as int);
                }
                let old_pair = self.entries.remove(i);
                self.entries.insert(i, (k, v));
                proof {
                    let ghost post = self@;
                    assert(post =~= pre.update(i as int, (k@, v@)));
                    assert(post.len() == pre.len());
                    assert forall|j: int| 0 <= j < post.len() && j != i implies post[j]
                        == pre[j] by {}
                    assert(post[i as int] == (k@, v@));
                    assert(kv_unique(post));
                    lemma_kv_get_at(post, i as int);
                    assert forall|k2: Seq<u8>| k2 != k@ implies kv_get(post, k2) == kv_get(
                        pre,
                        k2,
                    ) by {
                        if kv_contains(pre, k2) {
                            let j = kv_index(pre, k2);
                            assert(pre[j].0 == k2);
                            assert(j != i);
                            assert(post[j].0 == k2 && post[j].1 == pre[j].1);
                            lemma_kv_get_at(pre, j);
                            lemma_kv_get_at(post, j);
                        } else {
                            if kv_contains(post, k2) {
                                let j = kv_index(post, k2);
                                assert(post[j].0 == k2);
                                assert(j != i);
                                assert(pre[j].0 == k2);
                            }
                        }
                    }
                }
                Some(old_pair.1)
            },
            None => {
                self.entries.push((k, v));
                proof {
                    let ghost post = self@;
                    assert(post =~= pre.push((k@, v@)));
                    assert(kv_unique(post)) by {
                        assert forall|i: int, j: int| 0 <= i < j < post.len() implies (
                        #[trigger] post[i]).0 != (#[trigger] post[j]).0 by {
                            if j == post.len() - 1 {
                                assert(post[i] == pre[i]);
                                assert(!kv_contains(pre, k@));
                                assert(pre[i].0 != k@);
                            }
                        }
                    }
                    lemma_kv_get_at(post, post.len() - 1);
                    assert forall|k2: Seq<u8>| k2 != k@ implies kv_get(post, k2) == kv_get(
                        pre,
                        k2,
                    ) by {
                        if kv_contains(pre, k2) {
                            let j = kv_index(pre, k2);
                            lemma_kv_get_at(pre, j);
                            assert(post[j].0 == k2);
                            lemma_kv_get_at(post, j);
                        } else {
                            if kv_contains(post, k2) {
                                let j = kv_index(post, k2);
                                assert(post[j].0 == k2);
                                assert(j < pre.len());
                            }
                        }
                    }
                }
                None
            },
        }
    }

    /// Removes the entry at `k`, returning its value, if any.
    pub fn remove(&mut self, k: &Vec<u8>) -> (r: Option<Vec<u8>>)
        requires
            old(self).wf(),
        ensures
            final(self).wf(),
            kv_get(final(self)@, k@) is None,
            forall|k2: Seq<u8>| k2 != k@ ==> kv_get(final(self)@, k2) == kv_get(old(self)@, k2),
            final(self)@ == crate::model::kv_del(old(self)@, k@),
            r matches Some(pv) ==> kv_get(old(self)@, k@) == Some(pv@),
            r is None ==> !kv_contains(old(self)@, k@) && final(self)@ == old(self)@,
            final(self)@.len() == old(self)@.len() - (if kv_contains(old(self)@, k@) {
                1int
            } else {
                0int
            }),
    {
        let ghost pre = self@;
        match self.find(k) {
            Some(i) => {
                proof {
                    lemma_kv_get_at(pre, i as int);
                }
                let old_pair = self.entries.remove(i);
                proof {
                    let ghost post = self@;
                    assert(post =~= pre.remove(i as int));
                    assert(kv_unique(post)) by {
                        assert forall|a: int, b: int| 0 <= a < b < post.len() implies (
                        #[trigger] post[a]).0 != (#[trigger] post[b]).0 by {
                            let a0 = if a < i { a } else { a + 1 };
                            let b0 = if b < i { b } else { b + 1 };
                            assert(post[a] == pre[a0] && post[b] == pre[b0]);
                        }
                    }
                    assert(!kv_contains(post, k@)) by {
                        if kv_contains(post, k@) {
                            let j = kv_index(post, k@);
                            let j0 = if j < i { j } else { j + 1 };
                            assert(pre[j0].0 == k@);
                            assert(j0 != i ==> pre[j0].0 != pre[i as int].0);
                        }
                    }
                    assert forall|k2: Seq<u8>| k2 != k@ implies kv_get(post, k2) == kv_get(
                        pre,
                        k2,
                    ) by {
                        if kv_contains(pre, k2) {
                            let j = kv_index(pre, k2);
                            lemma_kv_get_at(pre, j);
                            let j2 = if j < i { j } else { j - 1 };
                            assert(j != i);
                            assert(post[j2] == pre[j]);
                            lemma_kv_get_at(post, j2);
                        } else {
                            if kv_contains(post, k2) {
                                let j = kv_index(post, k2);
                                let j0 = if j < i { j } else { j + 1 };
                                assert(pre[j0].0 == k2);
                            }
                        }
                    }
                }
                Some(old_pair.1)
            },
            None => None,
        }
    }

    /// Every entry whose key extends `p`, copied out in store order.
    pub fn scan_prefix(&self, p: &Vec<u8>) -> (r: Vec<(Vec<u8>, Vec<u8>)>)
        requires
            self.wf(),
        ensures
            r@.map(|i: int, q: (Vec<u8>, Vec<u8>)| (q.0@, q.1@)) == filter_prefix(self@, p@),
    {
        let mut out: Vec<(Vec<u8>, Vec<u8>)> = Vec::new();
        let mut i: usize = 0;
        while i < self.entries.len()
            invariant
                i <= self@.len(),
                self@.len() == self.entries@.len(),
                out@.map(|i0: int, q: (Vec<u8>, Vec<u8>)| (q.0@, q.1@)) == filter_prefix(
                    self@.take(i as int),
                    p@,
                ),
            decreases self@.len() - i,
        {
            let ghost pre_out = out@.map(|i0: int, q: (Vec<u8>, Vec<u8>)| (q.0@, q.1@));
            proof {
                assert(self@.take(i + 1 as int).drop_last() =~= self@.take(i as int));
                assert(self@.take(i + 1 as int).last() == self@[i as int]);
            }
            if starts_with(&self.entries[i].0, p) {
                let kc = copy_bytes(&self.entries[i].0);
                let vc = copy_bytes(&self.entries[i].1);
                out.push((kc, vc));
                proof {
                    assert(out@.map(|i0: int, q: (Vec<u8>, Vec<u8>)| (q.0@, q.1@)) =~= pre_out.push(
                        self@[i as int],
                    ));
                }
            }
            i = i + 1;
        }
        proof {
            assert(self@.take(self@.len() as int) =~= self@);
        }
        out
    }

    /// Removes every entry whose key extends `p`, keeping the rest in order.
    pub fn remove_prefix(&mut self, p: &Vec<u8>)
        requires
            old(self).wf(),
        ensures
            final(self).wf(),
            final(self)@ == crate::model::remove_prefix(old(self)@, p@),
    {
        let mut kept: Vec<(Vec<u8>, Vec<u8>)> = Vec::new();
        let mut i: usize = 0;
        while i < self.entries.len()
            invariant
                i <= self@.len(),
                self@.len() == self.entries@.len(),
                kept@.map(|i0: int, q: (Vec<u8>, Vec<u8>)| (q.0@, q.1@))
                    == crate::model::remove_prefix(self@.take(i as int), p@),
            decreases self@.len() - i,
        {
            let ghost pre_kept = kept@.map(|i0: int, q: (Vec<u8>, Vec<u8>)| (q.0@, q.1@));
            proof {
                assert(self@.take(i + 1 as int).drop_last() =~= self@.take(i as int));
                assert(self@.take(i + 1 as int).last() == self@[i as int]);
            }
            if !starts_with(&self.entries[i].0, p) {
                let kc = copy_bytes(&self.entries[i].0);
                let vc = copy_bytes(&self.entries[i].1);
                kept.push((kc, vc));
                proof {
                    assert(kept@.map(|i0: int, q: (Vec<u8>, Vec<u8>)| (q.0@, q.1@)) =~= pre_kept
                        .push(self@[i as int]));
                }
            }
            i = i + 1;
        }
        let ghost pre = self@;
        self.entries = kept;
        proof {
            assert(pre.take(pre.len() as int) =~= pre);
            crate::model::lemma_remove_prefix_unique(pre, p@);
        }
    }

    /// A fresh store with the same contents, for transactional rollback.
    pub fn snapshot_copy(&self) -> (r: Kv)
        ensures
            r@ == self@,
    {
        let mut entries: Vec<(Vec<u8>, Vec<u8>)> = Vec::new();
        let mut i: usize = 0;
        while i < self.entries.len()
            invariant
                i <= self.entries@.len(),
                entries@.len() == i,
                forall|j: int|
                    0 <= j < i ==> (#[trigger] entries@[j]).0@ == self.entries@[j].0@
                        && entries@[j].1@ == self.entries@[j].1@,
            decreases self.entries@.len() - i,
        {
            let kc = copy_bytes(&self.entries[i].0);
            let vc = copy_bytes(&self.entries[i].1);
            entries.push((kc, vc));
            i = i + 1;
        }
        let r = Kv { entries };
        assert(r@ =~= self@);
        r
    }
}

} // verus!
