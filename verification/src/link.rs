//! Per-owner linked index.
//!
//! Each owner's set of item identifiers is kept as a circular doubly
//! linked list embedded in the flat key-value store: the key
//! `(owner, None)` is the owner's sentinel, whose `prev` holds the current
//! tail and `next` the current head, and each key `(owner, Some(item))`
//! is a member node whose `prev`/`next` are the item's circular
//! neighbours. Append and removal touch O(1) keys; enumeration follows
//! `next` pointers from the head for one full circuit.
//!
//! The abstract content of the structure is, per owner, the sequence of
//! items in insertion order (`owned`); every operation is specified
//! against it.

use vstd::prelude::*;
use crate::store::KvStore;

verus! {

/// One link node: the `prev`/`next` identifiers of either a member node
/// or a sentinel.
#[derive(Clone, Copy, PartialEq, Debug)]
pub struct LinkedItem {
    pub prev: Option<u32>,
    pub next: Option<u32>,
}

/// The circular predecessor of position `j` in `s`.
pub open spec fn prev_in(s: Seq<u32>, j: int) -> u32 {
    if j == 0 {
        s.last()
    } else {
        s[j - 1]
    }
}

/// The circular successor of position `j` in `s`.
pub open spec fn next_in(s: Seq<u32>, j: int) -> u32 {
    if j == s.len() - 1 {
        s[0]
    } else {
        s[j + 1]
    }
}

/// The member node for position `j` of `s` is present and links to its
/// circular neighbours.
pub open spec fn node_ok(kv: Map<(u64, Option<u32>), LinkedItem>, o: u64, s: Seq<u32>, j: int) -> bool {
    &&& kv.dom().contains((o, Some(s[j])))
    &&& kv[(o, Some(s[j]))] == (LinkedItem { prev: Some(prev_in(s, j)), next: Some(next_in(s, j)) })
}

/// The store describes, for owner `o`, exactly the circular list whose
/// insertion order is `s`.
pub open spec fn owner_ok(kv: Map<(u64, Option<u32>), LinkedItem>, o: u64, s: Seq<u32>) -> bool {
    &&& s.no_duplicates()
    &&& (s.len() == 0 ==> (kv.dom().contains((o, None::<u32>)) ==> kv[(o, None::<u32>)]
        == (LinkedItem { prev: None, next: None })))
    &&& (s.len() > 0 ==> kv.dom().contains((o, None::<u32>)) && kv[(o, None::<u32>)]
        == (LinkedItem { prev: Some(s.last()), next: Some(s[0]) }))
    &&& (forall|j: int| 0 <= j < s.len() ==> #[trigger] node_ok(kv, o, s, j))
    &&& (forall|i: u32| kv.dom().contains((o, Some(i))) ==> s.contains(i))
}

/// The list recorded for `o`, the empty sequence if `o` was never touched.
pub open spec fn list_of(lists: Map<u64, Seq<u32>>, o: u64) -> Seq<u32> {
    if lists.dom().contains(o) {
        lists[o]
    } else {
        Seq::empty()
    }
}

/// The per-owner linked index: a key-value store of link nodes together
/// with the abstract sequences it encodes.
pub struct LinkedList {
    store: KvStore<LinkedItem>,
    lists: Ghost<Map<u64, Seq<u32>>>,
}

impl LinkedList {
    /// The items of `o`'s list, in insertion order.
    pub closed spec fn owned(self, o: u64) -> Seq<u32> {
        list_of(self.lists@, o)
    }

    /// The link node stored under `(o, item)`, if any.
    pub closed spec fn spec_node(self, o: u64, item: Option<u32>) -> Option<LinkedItem> {
        if self.store@.dom().contains((o, item)) {
            Some(self.store@[(o, item)])
        } else {
            None
        }
    }

    /// Every owner's stored nodes encode that owner's recorded sequence.
    pub closed spec fn wf(self) -> bool {
        &&& self.store.wf()
        &&& (forall|o: u64| #[trigger] owner_ok(self.store@, o, list_of(self.lists@, o)))
    }

    /// An index with no lists at all.
    pub fn new() -> (r: Self)
        ensures
            r.wf(),
            forall|o: u64| r.owned(o) == Seq::<u32>::empty(),
            forall|o: u64, item: Option<u32>| r.spec_node(o, item) is None,
    {
        let r = LinkedList { store: KvStore::new(), lists: Ghost(Map::empty()) };
        proof {
            assert forall|o: u64| owner_ok(r.store@, o, list_of(r.lists@, o)) by {
                assert(list_of(r.lists@, o) == Seq::<u32>::empty());
            }
        }
        r
    }

    /// Reads the raw link node under `(owner, item)`: the sentinel for
    /// `item == None`, a member node otherwise. The contract ties what is
    /// stored to the abstract sequence.
    pub fn read(&self, owner: u64, item: Option<u32>) -> (r: Option<LinkedItem>)
        requires
            self.wf(),
        ensures
            r == self.spec_node(owner, item),
            match item {
                None => {
                    &&& self.owned(owner).len() > 0 ==> r == Some(
                        LinkedItem {
                            prev: Some(self.owned(owner).last()),
                            next: Some(self.owned(owner)[0]),
                        },
                    )
                    &&& self.owned(owner).len() == 0 ==> (r is None || r == Some(
                        LinkedItem { prev: None, next: None },
                    ))
                },
                Some(v) => {
                    &&& self.owned(owner).contains(v) ==> r == Some(
                        LinkedItem {
                            prev: Some(prev_in(self.owned(owner), self.owned(owner).index_of(v))),
                            next: Some(next_in(self.owned(owner), self.owned(owner).index_of(v))),
                        },
                    )
                    &&& !self.owned(owner).contains(v) ==> r is None
                },
            },
    {
        proof {
            let s = list_of(self.lists@, owner);
            assert(owner_ok(self.store@, owner, s));
            if item is Some && s.contains(item->0) {
                let v = item->0;
                let j = s.index_of(v);
                assert(s[j] == v);
                assert(node_ok(self.store@, owner, s, j));
            }
        }
        self.store.get(owner, item)
    }

    /// Whether `item` is currently in `owner`'s list.
    pub fn contains(&self, owner: u64, item: u32) -> (r: bool)
        requires
            self.wf(),
        ensures
            r == self.owned(owner).contains(item),
    {
        proof {
            let s = list_of(self.lists@, owner);
            assert(owner_ok(self.store@, owner, s));
            if s.contains(item) {
                let j = s.index_of(item);
                assert(s[j] == item);
                assert(node_ok(self.store@, owner, s, j));
            }
        }
        self.store.contains(owner, Some(item))
    }

    /// Appends `item` as the new tail of `owner`'s list. The item must not
    /// already be present (the lifecycle service guarantees this).
    pub fn append(&mut self, owner: u64, item: u32)
        requires
            old(self).wf(),
            !old(self).owned(owner).contains(item),
        ensures
            final(self).wf(),
            final(self).owned(owner) == old(self).owned(owner).push(item),
            forall|o: u64| o != owner ==> final(self).owned(o) == old(self).owned(o),
    {
        let ghost kv0 = self.store@;
        let ghost s = list_of(self.lists@, owner);
        let ghost s1 = s.push(item);
        proof {
            assert(owner_ok(kv0, owner, s));
        }
        let sentinel = match self.store.get(owner, None) {
            Some(n) => n,
            None => LinkedItem { prev: None, next: None },
        };
        match sentinel.prev {
            None => {
                proof {
                    if s.len() > 0 {
                        assert(false);
                    }
                }
                self.store.put(owner, Some(item), LinkedItem { prev: Some(item), next: Some(item) });
                self.store.put(owner, None, LinkedItem { prev: Some(item), next: Some(item) });
                proof {
                    self.lists@ = self.lists@.insert(owner, s1);
                    let kv1 = self.store@;
                    assert forall|o: u64| owner_ok(kv1, o, list_of(self.lists@, o)) by {
                        if o == owner {
                            assert(s1.no_duplicates());
                            assert forall|j: int| 0 <= j < s1.len() implies #[trigger] node_ok(
                                kv1,
                                owner,
                                s1,
                                j,
                            ) by {
                                assert(j == 0);
                                assert(s1.last() == item);
                            }
                            assert forall|i: u32| kv1.dom().contains((owner, Some(i))) implies s1.contains(
                                i,
                            ) by {
                                if i != item {
                                    assert(kv0.dom().contains((owner, Some(i))));
                                    assert(s.contains(i));
                                }
                                assert(s1[s1.len() - 1] == item);
                            }
                            assert(s1.last() == item && s1[0] == item);
                            assert(owner_ok(kv1, owner, s1));
                        } else {
                            let so = list_of(old(self).lists@, o);
                            assert(owner_ok(old(self).store@, o, so));
                            assert(kv0 == old(self).store@);
                            assert(list_of(self.lists@, o) == so);
                            lemma_owner_frame(kv0, kv1, o, so);
                        }
                    }
                }
            },
            Some(tail) => {
                proof {
                    if s.len() == 0 {
                        assert(false);
                    }
                    assert(sentinel == (LinkedItem { prev: Some(s.last()), next: Some(s[0]) }));
                }
                let head = match sentinel.next {
                    Some(h) => h,
                    None => {
                        proof {
                            assert(false);
                        }
                        0
                    },
                };
                proof {
                    assert(node_ok(kv0, owner, s, 0));
                    assert(node_ok(kv0, owner, s, s.len() - 1));
                    assert(s.contains(s[0]) && s.contains(s.last()));
                }
                self.store.put(owner, Some(item), LinkedItem { prev: Some(tail), next: Some(head) });
                let tail_node = match self.store.get(owner, Some(tail)) {
                    Some(n) => n,
                    None => {
                        proof {
                            assert(false);
                        }
                        LinkedItem { prev: None, next: None }
                    },
                };
                self.store.put(owner, Some(tail), LinkedItem { prev: tail_node.prev, next: Some(item) });
                let head_node = match self.store.get(owner, Some(head)) {
                    Some(n) => n,
                    None => {
                        proof {
                            assert(false);
                        }
                        LinkedItem { prev: None, next: None }
                    },
                };
                self.store.put(owner, Some(head), LinkedItem { prev: Some(item), next: head_node.next });
                self.store.put(owner, None, LinkedItem { prev: Some(item), next: Some(head) });
                proof {
                    self.lists@ = self.lists@.insert(owner, s1);
                    let kv1 = self.store@;
                    let n = s.len() as int;
                    assert(tail == s[n - 1] && head == s[0]);
                    assert forall|o: u64| owner_ok(kv1, o, list_of(self.lists@, o)) by {
                        if o == owner {
                            assert forall|i: int, j: int| 0 <= i < j < s1.len() implies s1[i] != s1[j] by {
                                if j < n {
                                    assert(s[i] == s1[i] && s[j] == s1[j]);
                                } else {
                                    assert(s1[j] == item && s1[i] == s[i]);
                                    assert(s.contains(s[i]));
                                }
                            }
                            assert(s1.no_duplicates());
                            assert(s1.last() == item && s1[0] == head);
                            assert(kv1[(owner, None::<u32>)] == (LinkedItem {
                                prev: Some(item),
                                next: Some(head),
                            }));
                            assert forall|j: int| 0 <= j < s1.len() implies #[trigger] node_ok(
                                kv1,
                                owner,
                                s1,
                                j,
                            ) by {
                                if j == n {
                                    assert(s1[j] == item);
                                    assert(prev_in(s1, j) == s1[n - 1] == tail);
                                    assert(next_in(s1, j) == s1[0] == head);
                                } else if n == 1 {
                                    assert(j == 0 && tail == head && s1[j] == tail);
                                    assert(tail_node == (LinkedItem {
                                        prev: Some(prev_in(s, 0)),
                                        next: Some(next_in(s, 0)),
                                    }));
                                    assert(prev_in(s, 0) == s.last() == tail);
                                    assert(head_node == (LinkedItem { prev: Some(tail), next: Some(item) }));
                                    assert(kv1[(owner, Some(tail))] == (LinkedItem {
                                        prev: Some(item),
                                        next: Some(item),
                                    }));
                                    assert(prev_in(s1, 0) == s1.last() == item);
                                    assert(next_in(s1, 0) == s1[1] == item);
                                } else if j == n - 1 {
                                    // the old tail, in a list of two or more
                                    assert(s1[j] == tail);
                                    assert(tail != item && tail != head);
                                    assert(node_ok(kv0, owner, s, n - 1));
                                    assert(tail_node == (LinkedItem {
                                        prev: Some(prev_in(s, n - 1)),
                                        next: Some(next_in(s, n - 1)),
                                    }));
                                    assert(kv1[(owner, Some(tail))] == (LinkedItem {
                                        prev: Some(s[n - 2]),
                                        next: Some(item),
                                    }));
                                    assert(prev_in(s1, j) == s1[n - 2] == s[n - 2]);
                                    assert(next_in(s1, j) == s1[n] == item);
                                } else if j == 0 {
                                    // the old head, in a list of two or more
                                    assert(s1[j] == head);
                                    assert(head != item && head != tail);
                                    assert(node_ok(kv0, owner, s, 0));
                                    assert(head_node == (LinkedItem {
                                        prev: Some(prev_in(s, 0)),
                                        next: Some(next_in(s, 0)),
                                    }));
                                    assert(next_in(s, 0) == s[1]);
                                    assert(kv1[(owner, Some(head))] == (LinkedItem {
                                        prev: Some(item),
                                        next: Some(s[1]),
                                    }));
                                    assert(prev_in(s1, 0) == s1.last() == item);
                                    assert(next_in(s1, 0) == s1[1] == s[1]);
                                } else {
                                    // an interior node: untouched
                                    assert(s1[j] == s[j]);
                                    assert(s.contains(s[j]));
                                    assert(s[j] != item);
                                    assert(s[j] != s[0] && s[j] != s[n - 1]);
                                    assert(node_ok(kv0, owner, s, j));
                                    assert(kv1[(owner, Some(s[j]))] == kv0[(owner, Some(s[j]))]);
                                    assert(prev_in(s1, j) == s1[j - 1] == s[j - 1] == prev_in(s, j));
                                    assert(next_in(s1, j) == s1[j + 1] == s[j + 1] == next_in(s, j));
                                }
                            }
                            assert forall|i: u32| kv1.dom().contains((owner, Some(i))) implies s1.contains(
                                i,
                            ) by {
                                if i == item {
                                    assert(s1[n] == item);
                                } else {
                                    assert(kv0.dom().contains((owner, Some(i))));
                                    assert(s.contains(i));
                                    let j = choose|j: int| 0 <= j < s.len() && s[j] == i;
                                    assert(s1[j] == i);
                                }
                            }
                            assert(owner_ok(kv1, owner, s1));
                        } else {
                            let so = list_of(old(self).lists@, o);
                            assert(owner_ok(old(self).store@, o, so));
                            assert(kv0 == old(self).store@);
                            assert(list_of(self.lists@, o) == so);
                            lemma_owner_frame(kv0, kv1, o, so);
                        }
                    }
                }
            },
        }
    }

    /// Removes `item` from `owner`'s list by splicing its neighbours
    /// together; the remaining members keep their relative order.
    pub fn remove(&mut self, owner: u64, item: u32)
        requires
            old(self).wf(),
            old(self).owned(owner).contains(item),
        ensures
            final(self).wf(),
            final(self).owned(owner) == old(self).owned(owner).remove(
                old(self).owned(owner).index_of(item),
            ),
            !final(self).owned(owner).contains(item),
            forall|o: u64| o != owner ==> final(self).owned(o) == old(self).owned(o),
    {
        let ghost kv0 = self.store@;
        let ghost s = list_of(self.lists@, owner);
        let ghost k = s.index_of(item);
        let ghost s1 = s.remove(k);
        let ghost len = s.len() as int;
        proof {
            assert(owner_ok(kv0, owner, s));
            assert(s[k] == item);
            assert(node_ok(kv0, owner, s, k));
            s.remove_ensures(k);
            assert forall|i: int| 0 <= i < s1.len() implies s1[i] != item by {
                let i0 = if i < k {
                    i
                } else {
                    i + 1
                };
                assert(s1[i] == s[i0]);
            }
            assert forall|i: int, j: int| 0 <= i < j < s1.len() implies s1[i] != s1[j] by {
                let i0 = if i < k {
                    i
                } else {
                    i + 1
                };
                let j0 = if j < k {
                    j
                } else {
                    j + 1
                };
                assert(s1[i] == s[i0] && s1[j] == s[j0]);
            }
            assert(s1.no_duplicates());
        }
        let node = match self.store.get(owner, Some(item)) {
            Some(n) => n,
            None => {
                proof {
                    assert(false);
                }
                LinkedItem { prev: None, next: None }
            },
        };
        let (p, nx) = match (node.prev, node.next) {
            (Some(p), Some(nx)) => (p, nx),
            _ => {
                proof {
                    assert(false);
                }
                (0, 0)
            },
        };
        let ghost pj = if k == 0 {
            len - 1
        } else {
            k - 1
        };
        let ghost nj = if k == len - 1 {
            0
        } else {
            k + 1
        };
        proof {
            assert(p == prev_in(s, k) && nx == next_in(s, k));
            assert(s[pj] == p && s[nj] == nx);
        }
        if p == item {
            // `item` is its own predecessor: the list has exactly one member.
            proof {
                if len >= 2 {
                    assert(pj != k && s[pj] != s[k]);
                    assert(false);
                }
            }
            self.store.put(owner, None, LinkedItem { prev: None, next: None });
            self.store.remove(owner, Some(item));
            proof {
                self.lists@ = self.lists@.insert(owner, s1);
                let kv1 = self.store@;
                assert forall|o: u64| owner_ok(kv1, o, list_of(self.lists@, o)) by {
                    if o == owner {
                        assert(s1.len() == 0);
                        assert forall|i: u32| kv1.dom().contains((owner, Some(i))) implies s1.contains(
                            i,
                        ) by {
                            assert(kv0.dom().contains((owner, Some(i))));
                            assert(s.contains(i));
                            let j0 = choose|j0: int| 0 <= j0 < s.len() && s[j0] == i;
                            assert(j0 == k && i == item);
                            assert(!kv1.dom().contains((owner, Some(item))));
                        }
                        assert(owner_ok(kv1, owner, s1));
                    } else {
                        let so = list_of(old(self).lists@, o);
                        assert(owner_ok(old(self).store@, o, so));
                        assert(kv0 == old(self).store@);
                        assert(list_of(self.lists@, o) == so);
                        lemma_owner_frame(kv0, kv1, o, so);
                    }
                }
            }
        } else {
            // at least two members: splice the neighbours together
            proof {
                assert(len >= 2);
                if nx == item {
                    assert(nj != k && s[nj] != s[k]);
                    assert(false);
                }
                assert(s.contains(p) && s.contains(nx));
            }
            let pn = match self.store.get(owner, Some(p)) {
                Some(n) => n,
                None => {
                    proof {
                        assert(node_ok(kv0, owner, s, pj));
                        assert(false);
                    }
                    LinkedItem { prev: None, next: None }
                },
            };
            proof {
                assert(node_ok(kv0, owner, s, pj));
                assert(pn == (LinkedItem { prev: Some(prev_in(s, pj)), next: Some(next_in(s, pj)) }));
            }
            self.store.put(owner, Some(p), LinkedItem { prev: pn.prev, next: node.next });
            let nn = match self.store.get(owner, Some(nx)) {
                Some(n) => n,
                None => {
                    proof {
                        assert(node_ok(kv0, owner, s, nj));
                        assert(false);
                    }
                    LinkedItem { prev: None, next: None }
                },
            };
            proof {
                assert(node_ok(kv0, owner, s, nj));
                if p != nx {
                    assert(nn == (LinkedItem {
                        prev: Some(prev_in(s, nj)),
                        next: Some(next_in(s, nj)),
                    }));
                } else {
                    assert(nn == (LinkedItem { prev: pn.prev, next: node.next }));
                }
            }
            self.store.put(owner, Some(nx), LinkedItem { prev: node.prev, next: nn.next });
            let sent = match self.store.get(owner, None) {
                Some(n) => n,
                None => {
                    proof {
                        assert(false);
                    }
                    LinkedItem { prev: None, next: None }
                },
            };
            let (sp, sn) = match (sent.prev, sent.next) {
                (Some(sp), Some(sn)) => (sp, sn),
                _ => {
                    proof {
                        assert(false);
                    }
                    (0, 0)
                },
            };
            let new_sprev = if sp == item {
                p
            } else {
                sp
            };
            let new_snext = if sn == item {
                nx
            } else {
                sn
            };
            self.store.put(owner, None, LinkedItem { prev: Some(new_sprev), next: Some(new_snext) });
            self.store.remove(owner, Some(item));
            proof {
                self.lists@ = self.lists@.insert(owner, s1);
                let kv1 = self.store@;
                let len1 = s1.len() as int;
                assert(len1 == len - 1 >= 1);
                assert(sp == s[len - 1] && sn == s[0]);
                // the new sentinel names the new tail and head
                if k == len - 1 {
                    assert(sp == item);
                    assert(s1.last() == s[len - 2] && s[len - 2] == p);
                } else {
                    assert(sp != item && s1.last() == s[len - 1]);
                }
                if k == 0 {
                    assert(sn == item);
                    assert(s1[0] == s[1] && s[1] == nx);
                } else {
                    assert(sn != item && s1[0] == s[0]);
                }
                assert(new_sprev == s1.last() && new_snext == s1[0]);
                assert forall|o: u64| owner_ok(kv1, o, list_of(self.lists@, o)) by {
                    if o == owner {
                        assert(kv1[(owner, None::<u32>)] == (LinkedItem {
                            prev: Some(s1.last()),
                            next: Some(s1[0]),
                        }));
                        assert forall|j: int| 0 <= j < len1 implies #[trigger] node_ok(
                            kv1,
                            owner,
                            s1,
                            j,
                        ) by {
                            let x = s1[j];
                            let j0 = if j < k {
                                j
                            } else {
                                j + 1
                            };
                            assert(s[j0] == x && x != item);
                            if len == 2 {
                                assert(j == 0 && len1 == 1);
                                assert(x == p && p == nx);
                                assert(nn == (LinkedItem { prev: pn.prev, next: node.next }));
                                assert(kv1[(owner, Some(x))] == (LinkedItem {
                                    prev: node.prev,
                                    next: nn.next,
                                }));
                                assert(prev_in(s1, 0) == x && next_in(s1, 0) == x);
                            } else {
                                assert(pj != nj && p != nx);
                                assert(pn == (LinkedItem {
                                    prev: Some(prev_in(s, pj)),
                                    next: Some(next_in(s, pj)),
                                }));
                                assert(nn == (LinkedItem {
                                    prev: Some(prev_in(s, nj)),
                                    next: Some(next_in(s, nj)),
                                }));
                                if x == p {
                                    assert(kv1[(owner, Some(p))] == (LinkedItem {
                                        prev: Some(prev_in(s, pj)),
                                        next: Some(nx),
                                    }));
                                    assert(next_in(s1, j) == nx);
                                    assert(prev_in(s1, j) == prev_in(s, pj));
                                } else if x == nx {
                                    assert(kv1[(owner, Some(nx))] == (LinkedItem {
                                        prev: Some(p),
                                        next: Some(next_in(s, nj)),
                                    }));
                                    assert(prev_in(s1, j) == p);
                                    assert(next_in(s1, j) == next_in(s, nj));
                                } else {
                                    assert(node_ok(kv0, owner, s, j0));
                                    assert(kv1[(owner, Some(x))] == kv0[(owner, Some(x))]);
                                    assert(prev_in(s1, j) == prev_in(s, j0));
                                    assert(next_in(s1, j) == next_in(s, j0));
                                }
                            }
                        }
                        assert forall|i: u32| kv1.dom().contains((owner, Some(i))) implies s1.contains(
                            i,
                        ) by {
                            assert(kv0.dom().contains((owner, Some(i))));
                            assert(s.contains(i));
                            let j0 = choose|j0: int| 0 <= j0 < s.len() && s[j0] == i;
                            assert(i != item);
                            assert(j0 != k);
                            let j1 = if j0 < k {
                                j0
                            } else {
                                j0 - 1
                            };
                            assert(s1[j1] == i);
                        }
                        assert(owner_ok(kv1, owner, s1));
                    } else {
                        let so = list_of(old(self).lists@, o);
                        assert(owner_ok(old(self).store@, o, so));
                        assert(kv0 == old(self).store@);
                        assert(list_of(self.lists@, o) == so);
                        lemma_owner_frame(kv0, kv1, o, so);
                    }
                }
            }
        }
    }

    /// Enumerates `owner`'s items in insertion order: one full circuit of
    /// the list, starting at the head named by the sentinel.
    pub fn enumerate(&self, owner: u64) -> (r: Vec<u32>)
        requires
            self.wf(),
        ensures
            r@ == self.owned(owner),
    {
        let ghost s = list_of(self.lists@, owner);
        proof {
            assert(owner_ok(self.store@, owner, s));
        }
        let sentinel = match self.store.get(owner, None) {
            Some(n) => n,
            None => LinkedItem { prev: None, next: None },
        };
        let head = match sentinel.next {
            Some(h) => h,
            None => {
                proof {
                    if s.len() > 0 {
                        assert(false);
                    }
                    assert(s =~= Seq::<u32>::empty());
                }
                return Vec::new();
            },
        };
        proof {
            if s.len() == 0 {
                assert(false);
            }
            assert(head == s[0]);
        }
        let mut out: Vec<u32> = Vec::new();
        let mut cur: u32 = head;
        loop
            invariant
                self.wf(),
                s == list_of(self.lists@, owner),
                s.len() > 0,
                head == s[0],
                out@.len() < s.len(),
                out@ == s.take(out@.len() as int),
                cur == s[out@.len() as int],
            decreases s.len() - out@.len(),
        {
            let ghost j = out@.len() as int;
            out.push(cur);
            proof {
                assert(owner_ok(self.store@, owner, list_of(self.lists@, owner)));
                assert(s.take(j + 1) =~= s.take(j).push(s[j]));
                assert(node_ok(self.store@, owner, s, j));
            }
            let node = match self.store.get(owner, Some(cur)) {
                Some(n) => n,
                None => {
                    proof {
                        assert(false);
                    }
                    LinkedItem { prev: None, next: None }
                },
            };
            let nxt = match node.next {
                Some(nxt) => nxt,
                None => {
                    proof {
                        assert(false);
                    }
                    0
                },
            };
            proof {
                assert(nxt == next_in(s, j));
            }
            if nxt == head {
                proof {
                    // only the tail's successor is the head again
                    if j + 1 < s.len() {
                        assert(nxt == s[j + 1]);
                        assert(false);
                    }
                    assert(out@ =~= s);
                }
                return out;
            }
            proof {
                if j + 1 == s.len() {
                    assert(nxt == s[0]);
                    assert(false);
                }
            }
            cur = nxt;
        }
    }
}

/// Whenever an owner's list is empty — in particular after every
/// appended item has been removed again — that owner's sentinel records
/// no head and no tail: it is either still unwritten or cleared to
/// `prev == next == None`, and no member node of the owner remains.
pub proof fn lemma_empty_list_sentinel(l: LinkedList, o: u64)
    requires
        l.wf(),
        l.owned(o).len() == 0,
    ensures
        l.spec_node(o, None) is None || l.spec_node(o, None) == Some(
            LinkedItem { prev: None, next: None },
        ),
        forall|i: u32| l.spec_node(o, Some(i)) is None,
{
    assert(owner_ok(l.store@, o, list_of(l.lists@, o)));
    assert forall|i: u32| l.spec_node(o, Some(i)) is None by {
        if l.store@.dom().contains((o, Some(i))) {
            assert(list_of(l.lists@, o).contains(i));
        }
    }
}

/// `owner_ok` depends only on the keys of its owner: if none of them
/// changed between `kv0` and `kv1`, the predicate carries over.
proof fn lemma_owner_frame(
    kv0: Map<(u64, Option<u32>), LinkedItem>,
    kv1: Map<(u64, Option<u32>), LinkedItem>,
    o: u64,
    s: Seq<u32>,
)
    requires
        owner_ok(kv0, o, s),
        forall|it: Option<u32>| kv1.dom().contains((o, it)) == kv0.dom().contains((o, it)),
        forall|it: Option<u32>| kv0.dom().contains((o, it)) ==> kv1[(o, it)] == kv0[(o, it)],
    ensures
        owner_ok(kv1, o, s),
{
    assert forall|j: int| 0 <= j < s.len() implies #[trigger] node_ok(kv1, o, s, j) by {
        assert(node_ok(kv0, o, s, j));
    }
}

} // verus!
