//! A flat key-value store with composite keys.
//!
//! The linked index in `link` needs only single-key operations — get, put,
//! remove, contains — against keys of the form `(owner, Option<item>)`.
//! This module supplies such a store as a plain vector of entries with
//! pairwise distinct keys; its view is the map from keys to stored values.

use vstd::prelude::*;

verus! {

/// One stored entry: a composite key `(owner, item)` and its value.
pub struct Entry<V> {
    pub owner: u64,
    pub item: Option<u32>,
    pub value: V,
}

/// True when some entry of `s` carries the key `k`.
pub open spec fn seq_has_key<V>(s: Seq<Entry<V>>, k: (u64, Option<u32>)) -> bool {
    exists|j: int| 0 <= j < s.len() && (#[trigger] s[j]).owner == k.0 && s[j].item == k.1
}

/// The index of the entry of `s` that carries the key `k` (meaningful only
/// when `seq_has_key(s, k)` holds and keys are distinct).
pub open spec fn seq_key_at<V>(s: Seq<Entry<V>>, k: (u64, Option<u32>)) -> int {
    choose|j: int| 0 <= j < s.len() && (#[trigger] s[j]).owner == k.0 && s[j].item == k.1
}

/// The map described by an entry sequence with distinct keys.
pub open spec fn seq_as_map<V>(s: Seq<Entry<V>>) -> Map<(u64, Option<u32>), V> {
    Map::new(|k: (u64, Option<u32>)| seq_has_key(s, k), |k: (u64, Option<u32>)| s[seq_key_at(s, k)].value)
}

/// A key-value store over composite keys `(owner, Option<item>)`.
pub struct KvStore<V> {
    entries: Vec<Entry<V>>,
}

impl<V> View for KvStore<V> {
    type V = Map<(u64, Option<u32>), V>;

    closed spec fn view(&self) -> Map<(u64, Option<u32>), V> {
        seq_as_map(self.entries@)
    }
}

/// With distinct keys, an entry matching `k` at position `j` pins both
/// membership of `k` and the position `seq_key_at` resolves to.
proof fn lemma_key_at<V>(s: Seq<Entry<V>>, k: (u64, Option<u32>), j: int)
    requires
        distinct_keys(s),
        0 <= j < s.len(),
        s[j].owner == k.0,
        s[j].item == k.1,
    ensures
        seq_has_key(s, k),
        seq_key_at(s, k) == j,
{
    assert(seq_has_key(s, k));
    let j2 = seq_key_at(s, k);
    assert(0 <= j2 < s.len() && s[j2].owner == k.0 && s[j2].item == k.1);
    if j2 != j {
        assert(false);
    }
}

/// Pairwise distinct keys.
pub open spec fn distinct_keys<V>(s: Seq<Entry<V>>) -> bool {
    forall|i: int, j: int|
        0 <= i < j < s.len() ==> !((#[trigger] s[i]).owner == (#[trigger] s[j]).owner && s[i].item
            == s[j].item)
}

/// True when the two optional item identifiers are equal.
fn same_item(a: Option<u32>, b: Option<u32>) -> (r: bool)
    ensures
        r == (a == b),
{
    match (a, b) {
        (None, None) => true,
        (Some(x), Some(y)) => x == y,
        _ => false,
    }
}

impl<V: Copy> KvStore<V> {
    /// The store's entries carry pairwise distinct keys.
    pub closed spec fn wf(self) -> bool {
        distinct_keys(self.entries@)
    }

    /// An empty store.
    pub fn new() -> (r: Self)
        ensures
            r.wf(),
            r@ == Map::<(u64, Option<u32>), V>::empty(),
    {
        let r = KvStore { entries: Vec::new() };
        proof {
            assert(r@ =~= Map::<(u64, Option<u32>), V>::empty());
        }
        r
    }

    /// The position of the entry keyed `(owner, item)`, if one is stored.
    fn find(&self, owner: u64, item: Option<u32>) -> (r: Option<usize>)
        requires
            self.wf(),
        ensures
            match r {
                Some(j) => j < self.entries@.len() && self.entries@[j as int].owner == owner
                    && self.entries@[j as int].item == item,
                None => !seq_has_key(self.entries@, (owner, item)),
            },
    {
        let n = self.entries.len();
        let mut j: usize = 0;
        while j < n
            invariant
                j <= n,
                n == self.entries@.len(),
                forall|jj: int|
                    0 <= jj < j ==> !((#[trigger] self.entries@[jj]).owner == owner
                        && self.entries@[jj].item == item),
            decreases n - j,
        {
            let e = &self.entries[j];
            if e.owner == owner && same_item(e.item, item) {
                return Some(j);
            }
            j = j + 1;
        }
        None
    }

    /// Whether the store holds an entry for `(owner, item)`.
    pub fn contains(&self, owner: u64, item: Option<u32>) -> (r: bool)
        requires
            self.wf(),
        ensures
            r == self@.dom().contains((owner, item)),
    {
        match self.find(owner, item) {
            Some(j) => {
                proof {
                    lemma_key_at(self.entries@, (owner, item), j as int);
                }
                true
            },
            None => false,
        }
    }

    /// The value stored under `(owner, item)`, if any.
    pub fn get(&self, owner: u64, item: Option<u32>) -> (r: Option<V>)
        requires
            self.wf(),
        ensures
            r == if self@.dom().contains((owner, item)) {
                Some(self@[(owner, item)])
            } else {
                None::<V>
            },
    {
        match self.find(owner, item) {
            Some(j) => {
                proof {
                    lemma_key_at(self.entries@, (owner, item), j as int);
                }
                Some(self.entries[j].value)
            },
            None => None,
        }
    }

    /// Stores `value` under `(owner, item)`, replacing any previous value.
    pub fn put(&mut self, owner: u64, item: Option<u32>, value: V)
        requires
            old(self).wf(),
        ensures
            final(self).wf(),
            final(self)@ == old(self)@.insert((owner, item), value),
    {
        let ghost k = (owner, item);
        let ghost s0 = self.entries@;
        match self.find(owner, item) {
            Some(j) => {
                self.entries.set(j, Entry { owner, item, value });
                proof {
                    let s1 = self.entries@;
                    assert forall|i: int, jj: int| 0 <= i < jj < s1.len() implies !((#[trigger] s1[i]).owner
                        == (#[trigger] s1[jj]).owner && s1[i].item == s1[jj].item) by {
                        assert(s0[i].owner == s1[i].owner && s0[i].item == s1[i].item);
                        assert(s0[jj].owner == s1[jj].owner && s0[jj].item == s1[jj].item);
                    }
                    lemma_put_at(s0, s1, k, j as int);
                }
            },
            None => {
                self.entries.push(Entry { owner, item, value });
                proof {
                    let s1 = self.entries@;
                    let j = s0.len() as int;
                    assert forall|i: int, jj: int| 0 <= i < jj < s1.len() implies !((#[trigger] s1[i]).owner
                        == (#[trigger] s1[jj]).owner && s1[i].item == s1[jj].item) by {
                        if jj < j {
                            assert(s1[i] == s0[i] && s1[jj] == s0[jj]);
                        } else {
                            assert(s1[i] == s0[i] && s1[jj].owner == k.0 && s1[jj].item == k.1);
                            assert(!(s0[i].owner == k.0 && s0[i].item == k.1));
                        }
                    }
                    lemma_put_at(s0, s1, k, j);
                }
            },
        }
    }

    /// Removes the entry keyed `(owner, item)`, if one is stored.
    pub fn remove(&mut self, owner: u64, item: Option<u32>)
        requires
            old(self).wf(),
        ensures
            final(self).wf(),
            final(self)@ == old(self)@.remove((owner, item)),
    {
        let ghost k = (owner, item);
        let ghost s0 = self.entries@;
        match self.find(owner, item) {
            Some(j) => {
                self.entries.remove(j);
                proof {
                    let s1 = self.entries@;
                    assert forall|i: int, jj: int| 0 <= i < jj < s1.len() implies !((#[trigger] s1[i]).owner
                        == (#[trigger] s1[jj]).owner && s1[i].item == s1[jj].item) by {
                        let i0 = if i < j { i } else { i + 1 };
                        let jj0 = if jj < j { jj } else { jj + 1 };
                        assert(s1[i] == s0[i0] && s1[jj] == s0[jj0]);
                    }
                    lemma_remove_at(s0, s1, k, j as int);
                }
            },
            None => {
                proof {
                    assert(!self@.dom().contains(k));
                    assert(self@ =~= old(self)@.remove(k));
                }
            },
        }
    }
}

/// After replacing or appending the entry for `k` at position `j`, the
/// described map is the old map with `k` bound to the new value.
proof fn lemma_put_at<V>(s0: Seq<Entry<V>>, s1: Seq<Entry<V>>, k: (u64, Option<u32>), j: int)
    requires
        distinct_keys(s0),
        distinct_keys(s1),
        0 <= j <= s0.len(),
        s1.len() == if j == s0.len() {
            s0.len() + 1
        } else {
            s0.len()
        },
        forall|i: int| 0 <= i < s0.len() && i != j ==> s1[i] == s0[i],
        s1[j].owner == k.0,
        s1[j].item == k.1,
        j < s0.len() ==> s0[j].owner == k.0 && s0[j].item == k.1,
    ensures
        seq_as_map(s1) == seq_as_map(s0).insert(k, s1[j].value),
{
    assert forall|k2: (u64, Option<u32>)| #[trigger] seq_has_key(s1, k2)
        == seq_as_map(s0).insert(k, s1[j].value).dom().contains(k2) by {
        if k2 == k {
            lemma_key_at(s1, k, j);
        } else {
            if seq_has_key(s1, k2) {
                let j2 = seq_key_at(s1, k2);
                assert(j2 != j);
                assert(s0[j2].owner == k2.0 && s0[j2].item == k2.1);
            }
            if seq_has_key(s0, k2) {
                let j2 = seq_key_at(s0, k2);
                assert(j2 != j);
                assert(s1[j2].owner == k2.0 && s1[j2].item == k2.1);
            }
        }
    }
    assert forall|k2: (u64, Option<u32>)| seq_has_key(s1, k2) implies seq_as_map(s1)[k2]
        == seq_as_map(s0).insert(k, s1[j].value)[k2] by {
        if k2 == k {
            lemma_key_at(s1, k, j);
        } else {
            let j2 = seq_key_at(s1, k2);
            assert(0 <= j2 < s1.len() && s1[j2].owner == k2.0 && s1[j2].item == k2.1);
            assert(j2 != j);
            lemma_key_at(s0, k2, j2);
            lemma_key_at(s1, k2, j2);
        }
    }
    assert(seq_as_map(s1) =~= seq_as_map(s0).insert(k, s1[j].value));
}

/// After deleting the entry for `k` at position `j`, the described map is
/// the old map without `k`.
proof fn lemma_remove_at<V>(s0: Seq<Entry<V>>, s1: Seq<Entry<V>>, k: (u64, Option<u32>), j: int)
    requires
        distinct_keys(s0),
        distinct_keys(s1),
        0 <= j < s0.len(),
        s0[j].owner == k.0,
        s0[j].item == k.1,
        s1.len() == s0.len() - 1,
        forall|i: int| 0 <= i < j ==> s1[i] == s0[i],
        forall|i: int| j <= i < s1.len() ==> s1[i] == s0[i + 1],
    ensures
        seq_as_map(s1) == seq_as_map(s0).remove(k),
{
    assert forall|k2: (u64, Option<u32>)| #[trigger] seq_has_key(s1, k2)
        == seq_as_map(s0).remove(k).dom().contains(k2) by {
        if k2 == k {
            if seq_has_key(s1, k2) {
                let j2 = seq_key_at(s1, k2);
                let j0 = if j2 < j { j2 } else { j2 + 1 };
                assert(s0[j0].owner == k2.0 && s0[j0].item == k2.1);
                lemma_key_at(s0, k, j);
                lemma_key_at(s0, k2, j0);
            }
        } else {
            if seq_has_key(s1, k2) {
                let j2 = seq_key_at(s1, k2);
                let j0 = if j2 < j { j2 } else { j2 + 1 };
                assert(s0[j0].owner == k2.0 && s0[j0].item == k2.1);
            }
            if seq_has_key(s0, k2) {
                let j0 = seq_key_at(s0, k2);
                assert(j0 != j);
                let j2 = if j0 < j { j0 } else { j0 - 1 };
                assert(s1[j2].owner == k2.0 && s1[j2].item == k2.1);
            }
        }
    }
    assert forall|k2: (u64, Option<u32>)| seq_has_key(s1, k2) implies seq_as_map(s1)[k2]
        == seq_as_map(s0).remove(k)[k2] by {
        let j2 = seq_key_at(s1, k2);
        assert(0 <= j2 < s1.len() && s1[j2].owner == k2.0 && s1[j2].item == k2.1);
        let j0 = if j2 < j { j2 } else { j2 + 1 };
        assert(s0[j0].owner == k2.0 && s0[j0].item == k2.1);
        lemma_key_at(s0, k2, j0);
        lemma_key_at(s1, k2, j2);
    }
    assert(seq_as_map(s1) =~= seq_as_map(s0).remove(k));
}

} // verus!
