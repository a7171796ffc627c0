//! The collectible lifecycle service.
//!
//! `Kitties` holds the item table (identifier to genome), the ownership
//! map (the single source of truth for authorization), the price map and
//! the per-owner linked index, and keeps them consistent across create,
//! breed, transfer, list-for-sale and buy. Identifiers are issued by a
//! strictly increasing counter and never reused, so the three tables are
//! vectors indexed by identifier.

use vstd::prelude::*;
use vstd::pervasive::VecAdditionalExecFns;
use crate::link::{LinkedItem, LinkedList, prev_in, next_in};
use crate::currency::{Currency, CurrencyError};

verus! {

/// A collectible: a 16-byte genetic code, immutable once created.
#[derive(Clone, Copy, PartialEq, Debug)]
pub struct Kitty(pub [u8; 16]);

/// The error kinds of the lifecycle operations.
#[derive(Clone, Copy, Debug, PartialEq, Eq)]
pub enum Error {
    /// The item counter is exhausted; no further item can be created.
    KittiesCountOverflow,
    /// A referenced item does not exist.
    InvalidKittyId,
    /// Breeding was attempted with a single item as both parents.
    RequireDifferentParent,
    /// The caller is not the current owner of a referenced item.
    RequireOwner,
    /// A purchase was attempted on an item with no active listing.
    NotForSale,
    /// The offered amount is below the listed price.
    PriceTooLow,
    /// The currency transfer failed; propagated unchanged.
    InsufficientFunds,
}

/// One byte of a child genome: each bit is taken from `dna1` where the
/// selector bit is set and from `dna2` where it is clear.
pub open spec fn combine_dna_spec(dna1: u8, dna2: u8, selector: u8) -> u8 {
    (selector & dna1) | (!selector & dna2)
}

/// Combines one byte of two parent genomes under a selector byte.
pub fn combine_dna(dna1: u8, dna2: u8, selector: u8) -> (r: u8)
    ensures
        r == combine_dna_spec(dna1, dna2, selector),
{
    (selector & dna1) | (!selector & dna2)
}

/// How a completed ownership move relates the registry after (`post`) to
/// the registry before (`pre`): `k` has left `from`'s list, joined the
/// tail of `to`'s, its owner record now names `to`, and nothing else about
/// items, owners or lists has changed.
pub open spec fn transfer_post(pre: Kitties, post: Kitties, from: u64, to: u64, k: u32) -> bool {
    &&& post.spec_count() == pre.spec_count()
    &&& post.spec_owner(k) == to
    &&& (forall|i: u32| i < pre.spec_count() && i != k ==> post.spec_owner(i) == pre.spec_owner(i))
    &&& (forall|i: u32| i < pre.spec_count() ==> post.spec_kitty(i) == pre.spec_kitty(i))
    &&& (from != to ==> post.owned_items(from) == pre.owned_items(from).remove(
        pre.owned_items(from).index_of(k),
    ) && post.owned_items(to) == pre.owned_items(to).push(k))
    &&& (from == to ==> post.owned_items(from) == pre.owned_items(from).remove(
        pre.owned_items(from).index_of(k),
    ).push(k))
    &&& (forall|o: u64| o != from && o != to ==> post.owned_items(o) == pre.owned_items(o))
}

/// The error `breed` reports for these arguments, if any: parents must
/// exist, both be the caller's, and differ; and the counter must not be
/// exhausted. The checks apply in this order.
pub open spec fn breed_error(pre: Kitties, sender: u64, k1: u32, k2: u32) -> Option<Error> {
    if k1 >= pre.spec_count() {
        Some(Error::InvalidKittyId)
    } else if k2 >= pre.spec_count() {
        Some(Error::InvalidKittyId)
    } else if pre.spec_owner(k1) != sender {
        Some(Error::RequireOwner)
    } else if pre.spec_owner(k2) != sender {
        Some(Error::RequireOwner)
    } else if k1 == k2 {
        Some(Error::RequireDifferentParent)
    } else if pre.spec_count() == u32::MAX {
        Some(Error::KittiesCountOverflow)
    } else {
        None
    }
}

/// How a successful breeding relates `post` to `pre`: a child owned by
/// `sender` is issued the next identifier, with each genome byte combined
/// from the parents under the selector, and nothing else changes.
pub open spec fn breed_post(
    pre: Kitties,
    post: Kitties,
    sender: u64,
    k1: u32,
    k2: u32,
    selector: [u8; 16],
) -> bool {
    let child = pre.spec_count();
    &&& post.spec_count() == pre.spec_count() + 1
    &&& (forall|b: int|
        0 <= b < 16 ==> post.spec_kitty(child).0@[b] == combine_dna_spec(
            pre.spec_kitty(k1).0@[b],
            pre.spec_kitty(k2).0@[b],
            selector@[b],
        ))
    &&& post.spec_owner(child) == sender
    &&& post.spec_price(child) == None::<u64>
    &&& post.owned_items(sender) == pre.owned_items(sender).push(child)
    &&& (forall|o: u64| o != sender ==> post.owned_items(o) == pre.owned_items(o))
    &&& (forall|i: u32|
        i < pre.spec_count() ==> post.spec_kitty(i) == pre.spec_kitty(i) && post.spec_owner(i)
            == pre.spec_owner(i) && post.spec_price(i) == pre.spec_price(i))
}

/// The error `buy` reports before any currency moves, if any: the item
/// must exist, carry a listing, and the offer must reach the listed
/// price. The checks apply in this order.
pub open spec fn buy_error(pre: Kitties, kitty_id: u32, price: u64) -> Option<Error> {
    if kitty_id >= pre.spec_count() {
        Some(Error::InvalidKittyId)
    } else if pre.spec_price(kitty_id) is None {
        Some(Error::NotForSale)
    } else if price < pre.spec_price(kitty_id)->0 {
        Some(Error::PriceTooLow)
    } else {
        None
    }
}

/// How a completed purchase relates `post` to `pre`: the listing is
/// cleared, the item moves from the seller's list to the buyer's, and no
/// other price changes.
pub open spec fn buy_post(pre: Kitties, post: Kitties, buyer: u64, kitty_id: u32) -> bool {
    &&& transfer_post(pre, post, pre.spec_owner(kitty_id), buyer, kitty_id)
    &&& post.spec_price(kitty_id) == None::<u64>
    &&& (forall|i: u32|
        i < pre.spec_count() && i != kitty_id ==> post.spec_price(i) == pre.spec_price(i))
}

/// How a settled payment relates the currency capability after a
/// purchase to the capability before it: the buyer paid the listed
/// `amount` to the `seller` (no balance moves when the buyer is the
/// seller), and every other account's balance is untouched.
pub open spec fn paid_listed_price<C: Currency>(
    pre: C,
    post: C,
    buyer: u64,
    seller: u64,
    amount: u64,
) -> bool {
    &&& pre.balance(buyer) >= amount
    &&& (buyer != seller ==> post.balance(buyer) == pre.balance(buyer) - amount && post.balance(
        seller,
    ) == pre.balance(seller) + amount)
    &&& (buyer == seller ==> post.balance(buyer) == pre.balance(buyer))
    &&& (forall|a: u64| a != buyer && a != seller ==> post.balance(a) == pre.balance(a))
}

/// The collectible registry: item table, ownership map, price map and
/// per-owner linked index.
pub struct Module {
    kitties: Vec<Kitty>,
    count: u32,
    owners: Vec<u64>,
    prices: Vec<Option<u64>>,
    owned: LinkedList,
}

/// The registry under the name its callers and tests use.
pub type Kitties = Module;

impl Module {
    /// The counter value: one past the largest issued identifier.
    pub closed spec fn spec_count(self) -> u32 {
        self.count
    }

    /// The genome record of item `id` (meaningful for `id < spec_count()`).
    pub closed spec fn spec_kitty(self, id: u32) -> Kitty {
        self.kitties@[id as int]
    }

    /// The current owner of item `id` (meaningful for `id < spec_count()`).
    pub closed spec fn spec_owner(self, id: u32) -> u64 {
        self.owners@[id as int]
    }

    /// The listed price of item `id`, if any (meaningful for `id < spec_count()`).
    pub closed spec fn spec_price(self, id: u32) -> Option<u64> {
        self.prices@[id as int]
    }

    /// The items of owner `o`'s linked index, in insertion order.
    pub closed spec fn owned_items(self, o: u64) -> Seq<u32> {
        self.owned.owned(o)
    }

    /// The raw link node stored under `(o, item)`, if any.
    pub closed spec fn spec_node(self, o: u64, item: Option<u32>) -> Option<LinkedItem> {
        self.owned.spec_node(o, item)
    }

    /// The tables are equal in length and the linked index is a valid
    /// family of circular lists.
    pub closed spec fn wf_base(self) -> bool {
        &&& self.owned.wf()
        &&& self.kitties@.len() == self.count as int
        &&& self.owners@.len() == self.count as int
        &&& self.prices@.len() == self.count as int
    }

    /// Every list member exists and is listed under its recorded owner.
    pub closed spec fn list_sound(self) -> bool {
        forall|o: u64, i: u32|
            self.owned.owned(o).contains(i) ==> i < self.count && self.owners@[i as int] == o
    }

    /// Item `i` appears in its recorded owner's list.
    pub closed spec fn placed(self, i: u32) -> bool {
        self.owned.owned(self.owners@[i as int]).contains(i)
    }

    /// The registry invariant: consistent tables, a valid linked index,
    /// and the ownership map and index describing the same relation.
    pub closed spec fn wf(self) -> bool {
        &&& self.wf_base()
        &&& self.list_sound()
        &&& forall|i: u32| i < self.count ==> #[trigger] self.placed(i)
    }

    /// An empty registry: no items, every owner's list empty.
    pub fn new() -> (r: Self)
        ensures
            r.wf(),
            r.spec_count() == 0,
            forall|o: u64| r.owned_items(o) == Seq::<u32>::empty(),
    {
        Kitties {
            kitties: Vec::new(),
            count: 0,
            owners: Vec::new(),
            prices: Vec::new(),
            owned: LinkedList::new(),
        }
    }

    /// The genome record of an item, or nothing for an unissued identifier.
    pub fn kitties(&self, kitty_id: u32) -> (r: Option<Kitty>)
        requires
            self.wf(),
        ensures
            r == if kitty_id < self.spec_count() {
                Some(self.spec_kitty(kitty_id))
            } else {
                None::<Kitty>
            },
    {
        if kitty_id < self.count {
            Some(self.kitties[kitty_id as usize])
        } else {
            None
        }
    }

    /// The current counter value.
    pub fn kitties_count(&self) -> (r: u32)
        ensures
            r == self.spec_count(),
    {
        self.count
    }

    /// The current owner of an item, or nothing for an unissued identifier.
    pub fn kitty_owner(&self, kitty_id: u32) -> (r: Option<u64>)
        requires
            self.wf(),
        ensures
            r == if kitty_id < self.spec_count() {
                Some(self.spec_owner(kitty_id))
            } else {
                None::<u64>
            },
    {
        if kitty_id < self.count {
            Some(self.owners[kitty_id as usize])
        } else {
            None
        }
    }

    /// The listed price of an item, or nothing if it is not for sale.
    pub fn kitty_price(&self, kitty_id: u32) -> (r: Option<u64>)
        requires
            self.wf(),
        ensures
            r == if kitty_id < self.spec_count() {
                self.spec_price(kitty_id)
            } else {
                None::<u64>
            },
    {
        if kitty_id < self.count {
            self.prices[kitty_id as usize]
        } else {
            None
        }
    }

    /// The raw link node under `(owner, item)`: the sentinel of `owner`
    /// for `item == None`, the member node of an owned item otherwise.
    pub fn owned_kitties(&self, owner: u64, item: Option<u32>) -> (r: Option<LinkedItem>)
        requires
            self.wf(),
        ensures
            r == self.spec_node(owner, item),
            match item {
                None => {
                    &&& self.owned_items(owner).len() > 0 ==> r == Some(
                        LinkedItem {
                            prev: Some(self.owned_items(owner).last()),
                            next: Some(self.owned_items(owner)[0]),
                        },
                    )
                    &&& self.owned_items(owner).len() == 0 ==> (r is None || r == Some(
                        LinkedItem { prev: None, next: None },
                    ))
                },
                Some(v) => {
                    &&& self.owned_items(owner).contains(v) ==> r == Some(
                        LinkedItem {
                            prev: Some(
                                prev_in(self.owned_items(owner), self.owned_items(owner).index_of(v)),
                            ),
                            next: Some(
                                next_in(self.owned_items(owner), self.owned_items(owner).index_of(v)),
                            ),
                        },
                    )
                    &&& !self.owned_items(owner).contains(v) ==> r is None
                },
            },
    {
        self.owned.read(owner, item)
    }

    /// The identifiers of `owner`'s items, in insertion order.
    pub fn enumerate_owned(&self, owner: u64) -> (r: Vec<u32>)
        requires
            self.wf(),
        ensures
            r@ == self.owned_items(owner),
    {
        self.owned.enumerate(owner)
    }

    /// Records `owner` as the owner of `kitty_id`: appends the item to
    /// `owner`'s linked index and updates the ownership map. The item must
    /// exist and currently be in no list (freshly issued, or just removed
    /// in the middle of a transfer).
    pub fn insert_owned_kitty(&mut self, owner: u64, kitty_id: u32)
        requires
            old(self).wf_base(),
            old(self).list_sound(),
            kitty_id < old(self).spec_count(),
            forall|i: u32|
                i < old(self).spec_count() && i != kitty_id ==> #[trigger] old(self).placed(i),
            forall|o: u64| !old(self).owned_items(o).contains(kitty_id),
        ensures
            final(self).wf(),
            final(self).spec_count() == old(self).spec_count(),
            forall|i: u32|
                i < old(self).spec_count() ==> final(self).spec_kitty(i) == old(self).spec_kitty(i)
                    && final(self).spec_price(i) == old(self).spec_price(i),
            final(self).spec_owner(kitty_id) == owner,
            forall|i: u32|
                i < old(self).spec_count() && i != kitty_id ==> final(self).spec_owner(i) == old(self).spec_owner(i),
            final(self).owned_items(owner) == old(self).owned_items(owner).push(kitty_id),
            forall|o: u64| o != owner ==> final(self).owned_items(o) == old(self).owned_items(o),
    {
        proof {
            assert(!old(self).owned_items(owner).contains(kitty_id));
        }
        self.owned.append(owner, kitty_id);
        self.owners.set(kitty_id as usize, owner);
        proof {
            let pre = *old(self);
            let post = *self;
            assert(post.owned.owned(owner) == pre.owned.owned(owner).push(kitty_id));
            assert(forall|o: u64| o != owner ==> post.owned.owned(o) == pre.owned.owned(o));
            assert forall|o: u64, i: u32| post.owned.owned(o).contains(i) implies i < post.count
                && post.owners@[i as int] == o by {
                if o == owner {
                    let s = pre.owned.owned(owner);
                    if i != kitty_id {
                        let j = choose|j: int| 0 <= j < s.push(kitty_id).len() && s.push(kitty_id)[j] == i;
                        assert(s[j] == i);
                        assert(s.contains(i));
                        assert(i < pre.count && pre.owners@[i as int] == owner);
                        assert(post.owners@[i as int] == pre.owners@[i as int]);
                    }
                } else {
                    assert(pre.owned.owned(o).contains(i));
                    if i == kitty_id {
                        assert(!pre.owned_items(o).contains(kitty_id));
                        assert(false);
                    }
                    assert(i < pre.count && pre.owners@[i as int] == o);
                    assert(post.owners@[i as int] == pre.owners@[i as int]);
                }
            }
            assert forall|i: u32| i < post.count implies #[trigger] post.placed(i) by {
                let s = pre.owned.owned(owner);
                if i == kitty_id {
                    assert(s.push(kitty_id)[s.len() as int] == kitty_id);
                    assert(post.owned.owned(owner).contains(kitty_id));
                } else {
                    assert(pre.placed(i));
                    let own_i = pre.owners@[i as int];
                    assert(post.owners@[i as int] == own_i);
                    if own_i == owner {
                        let j = choose|j: int| 0 <= j < s.len() && s[j] == i;
                        assert(s.push(kitty_id)[j] == i);
                        assert(post.owned.owned(owner).contains(i));
                    }
                }
            }
        }
    }

    /// Stores a freshly issued item: records its genome, advances the
    /// counter, and hands it to `owner` with no price set.
    pub fn insert_kitty(&mut self, owner: u64, kitty_id: u32, kitty: Kitty)
        requires
            old(self).wf(),
            kitty_id == old(self).spec_count(),
            old(self).spec_count() < u32::MAX,
        ensures
            final(self).wf(),
            final(self).spec_count() == old(self).spec_count() + 1,
            final(self).spec_kitty(kitty_id) == kitty,
            final(self).spec_owner(kitty_id) == owner,
            final(self).spec_price(kitty_id) == None::<u64>,
            forall|i: u32|
                i < old(self).spec_count() ==> final(self).spec_kitty(i) == old(self).spec_kitty(i)
                    && final(self).spec_owner(i) == old(self).spec_owner(i)
                    && final(self).spec_price(i) == old(self).spec_price(i),
            final(self).owned_items(owner) == old(self).owned_items(owner).push(kitty_id),
            forall|o: u64| o != owner ==> final(self).owned_items(o) == old(self).owned_items(o),
    {
        self.kitties.push(kitty);
        self.owners.push(0);
        self.prices.push(None);
        self.count = self.count + 1;
        proof {
            assert forall|o: u64| !self.owned_items(o).contains(kitty_id) by {
                if self.owned.owned(o).contains(kitty_id) {
                    assert(old(self).list_sound());
                    assert(kitty_id < old(self).count);
                }
            }
            assert forall|i: u32| i < self.spec_count() && i != kitty_id implies #[trigger] self.placed(
                i,
            ) by {
                assert(old(self).placed(i));
            }
        }
        self.insert_owned_kitty(owner, kitty_id);
    }

    /// Moves `kitty_id` from `from`'s linked index to the tail of `to`'s
    /// and updates the ownership map. The caller has already authorized
    /// the move against the ownership map.
    pub fn do_transfer(&mut self, from: u64, to: u64, kitty_id: u32)
        requires
            old(self).wf(),
            kitty_id < old(self).spec_count(),
            old(self).spec_owner(kitty_id) == from,
        ensures
            final(self).wf(),
            final(self).spec_count() == old(self).spec_count(),
            forall|i: u32|
                i < old(self).spec_count() ==> final(self).spec_kitty(i) == old(self).spec_kitty(i)
                    && final(self).spec_price(i) == old(self).spec_price(i),
            final(self).spec_owner(kitty_id) == to,
            forall|i: u32|
                i < old(self).spec_count() && i != kitty_id ==> final(self).spec_owner(i) == old(self).spec_owner(i),
            from != to ==> final(self).owned_items(from) == old(self).owned_items(from).remove(
                old(self).owned_items(from).index_of(kitty_id),
            ) && final(self).owned_items(to) == old(self).owned_items(to).push(kitty_id),
            from == to ==> final(self).owned_items(from) == old(self).owned_items(from).remove(
                old(self).owned_items(from).index_of(kitty_id),
            ).push(kitty_id),
            forall|o: u64|
                o != from && o != to ==> final(self).owned_items(o) == old(self).owned_items(o),
    {
        proof {
            assert(old(self).placed(kitty_id));
        }
        self.owned.remove(from, kitty_id);
        proof {
            let pre = *old(self);
            let mid = *self;
            let s = pre.owned.owned(from);
            let s1 = mid.owned.owned(from);
            assert(s1 == s.remove(s.index_of(kitty_id)));
            s.remove_ensures(s.index_of(kitty_id));
            assert forall|o: u64, i: u32| mid.owned.owned(o).contains(i) implies i < mid.count
                && mid.owners@[i as int] == o by {
                if o == from {
                    let j = choose|j: int| 0 <= j < s1.len() && s1[j] == i;
                    let k = s.index_of(kitty_id);
                    let j0 = if j < k {
                        j
                    } else {
                        j + 1
                    };
                    assert(s[j0] == i);
                    assert(s.contains(i));
                } else {
                    assert(pre.owned.owned(o).contains(i));
                }
            }
            assert(mid.list_sound());
            assert forall|i: u32| i < mid.count && i != kitty_id implies #[trigger] mid.placed(
                i,
            ) by {
                assert(pre.placed(i));
                let own_i = pre.owners@[i as int];
                if own_i == from {
                    let j0 = choose|j0: int| 0 <= j0 < s.len() && s[j0] == i;
                    let k = s.index_of(kitty_id);
                    assert(s[k] == kitty_id);
                    assert(j0 != k);
                    let j1 = if j0 < k {
                        j0
                    } else {
                        j0 - 1
                    };
                    assert(s1[j1] == i);
                    assert(mid.owned.owned(from).contains(i));
                }
            }
            assert forall|o: u64| !mid.owned_items(o).contains(kitty_id) by {
                if mid.owned.owned(o).contains(kitty_id) {
                    if o != from {
                        assert(pre.owned.owned(o).contains(kitty_id));
                        assert(pre.owners@[kitty_id as int] == o);
                    }
                }
            }
        }
        self.insert_owned_kitty(to, kitty_id);
    }

    /// Transfers an item from the caller to `to` and removes any listing
    /// it carried: a sale offer never survives an ownership change. Fails
    /// with `RequireOwner` unless the ownership map names the caller, and
    /// changes nothing in that case.
    pub fn transfer(&mut self, caller: u64, to: u64, kitty_id: u32) -> (r: Result<(), Error>)
        requires
            old(self).wf(),
        ensures
            final(self).wf(),
            !(kitty_id < old(self).spec_count() && old(self).spec_owner(kitty_id) == caller) ==> r
                == Err::<(), Error>(Error::RequireOwner) && *final(self) == *old(self),
            kitty_id < old(self).spec_count() && old(self).spec_owner(kitty_id) == caller ==> {
                &&& r == Ok::<(), Error>(())
                &&& transfer_post(*old(self), *final(self), caller, to, kitty_id)
                &&& final(self).spec_price(kitty_id) == None::<u64>
                &&& (forall|i: u32|
                    i < old(self).spec_count() && i != kitty_id ==> final(self).spec_price(i)
                        == old(self).spec_price(i))
            },
    {
        let owner = match self.kitty_owner(kitty_id) {
            Some(o) => o,
            None => {
                return Err(Error::RequireOwner);
            },
        };
        if owner != caller {
            return Err(Error::RequireOwner);
        }
        self.prices.set(kitty_id as usize, None);
        proof {
            assert forall|i: u32| i < self.count implies #[trigger] self.placed(i) by {
                assert(old(self).placed(i));
            }
            assert forall|o: u64, i: u32| self.owned.owned(o).contains(i) implies i < self.count
                && self.owners@[i as int] == o by {
                assert(old(self).owned.owned(o).contains(i));
            }
        }
        self.do_transfer(caller, to, kitty_id);
        Ok(())
    }

    /// Lists an item for sale at `new_price`, or delists it for `None`.
    /// Fails with `RequireOwner` unless the item is in the caller's
    /// linked index, and changes nothing in that case.
    pub fn ask(&mut self, caller: u64, kitty_id: u32, new_price: Option<u64>) -> (r: Result<
        (),
        Error,
    >)
        requires
            old(self).wf(),
        ensures
            final(self).wf(),
            !(kitty_id < old(self).spec_count() && old(self).spec_owner(kitty_id) == caller) ==> r
                == Err::<(), Error>(Error::RequireOwner) && *final(self) == *old(self),
            kitty_id < old(self).spec_count() && old(self).spec_owner(kitty_id) == caller ==> {
                &&& r == Ok::<(), Error>(())
                &&& final(self).spec_count() == old(self).spec_count()
                &&& final(self).spec_price(kitty_id) == new_price
                &&& (forall|i: u32|
                    i < old(self).spec_count() && i != kitty_id ==> final(self).spec_price(i) == old(self).spec_price(i))
                &&& (forall|i: u32|
                    i < old(self).spec_count() ==> final(self).spec_kitty(i) == old(self).spec_kitty(i) && final(self).spec_owner(i) == old(self).spec_owner(i))
                &&& (forall|o: u64| final(self).owned_items(o) == old(self).owned_items(o))
            },
    {
        proof {
            if old(self).owned_items(caller).contains(kitty_id) {
                assert(kitty_id < old(self).spec_count() && old(self).spec_owner(kitty_id)
                    == caller);
            }
            if kitty_id < old(self).spec_count() && old(self).spec_owner(kitty_id) == caller {
                assert(old(self).placed(kitty_id));
            }
        }
        if !self.owned.contains(caller, kitty_id) {
            return Err(Error::RequireOwner);
        }
        self.prices.set(kitty_id as usize, new_price);
        proof {
            assert forall|i: u32| i < self.count implies #[trigger] self.placed(i) by {
                assert(old(self).placed(i));
            }
            assert forall|o: u64, i: u32| self.owned.owned(o).contains(i) implies i < self.count
                && self.owners@[i as int] == o by {
                assert(old(self).owned.owned(o).contains(i));
            }
        }
        Ok(())
    }

    /// The identifier the next created item will get, or
    /// `KittiesCountOverflow` when the counter is exhausted.
    pub fn next_kitty_id(&self) -> (r: Result<u32, Error>)
        ensures
            self.spec_count() < u32::MAX ==> r == Ok::<u32, Error>(self.spec_count()),
            self.spec_count() == u32::MAX ==> r == Err::<u32, Error>(Error::KittiesCountOverflow),
    {
        let kitty_id = self.count;
        if kitty_id == u32::MAX {
            return Err(Error::KittiesCountOverflow);
        }
        Ok(kitty_id)
    }

    /// Creates a collectible whose genome is the freshly drawn `dna`,
    /// owned by the caller: the next identifier is issued, the item is
    /// stored, and it becomes the tail of the caller's linked index. No
    /// price is set. Fails only with `KittiesCountOverflow`, changing
    /// nothing.
    pub fn create(&mut self, caller: u64, dna: [u8; 16]) -> (r: Result<(), Error>)
        requires
            old(self).wf(),
        ensures
            final(self).wf(),
            old(self).spec_count() == u32::MAX ==> r == Err::<(), Error>(
                Error::KittiesCountOverflow,
            ) && *final(self) == *old(self),
            old(self).spec_count() < u32::MAX ==> {
                &&& r == Ok::<(), Error>(())
                &&& final(self).spec_count() == old(self).spec_count() + 1
                &&& final(self).spec_kitty(old(self).spec_count()) == Kitty(dna)
                &&& final(self).spec_owner(old(self).spec_count()) == caller
                &&& final(self).spec_price(old(self).spec_count()) == None::<u64>
                &&& final(self).owned_items(caller) == old(self).owned_items(caller).push(
                    old(self).spec_count(),
                )
                &&& (forall|o: u64|
                    o != caller ==> final(self).owned_items(o) == old(self).owned_items(o))
                &&& (forall|i: u32|
                    i < old(self).spec_count() ==> final(self).spec_kitty(i) == old(self).spec_kitty(i) && final(self).spec_owner(i) == old(self).spec_owner(i)
                        && final(self).spec_price(i) == old(self).spec_price(i))
            },
    {
        let kitty_id = match self.next_kitty_id() {
            Ok(id) => id,
            Err(e) => {
                return Err(e);
            },
        };
        self.insert_kitty(caller, kitty_id, Kitty(dna));
        Ok(())
    }

    /// Breeds a child from two parents the caller owns, under the freshly
    /// drawn `selector`, and returns the child's identifier. The checks
    /// and their order are those of `breed_error`; a rejected call
    /// changes nothing.
    pub fn do_breed(&mut self, sender: u64, kitty_id_1: u32, kitty_id_2: u32, selector: [u8; 16])
        -> (r: Result<u32, Error>)
        requires
            old(self).wf(),
        ensures
            final(self).wf(),
            breed_error(*old(self), sender, kitty_id_1, kitty_id_2) matches Some(e) ==> r == Err::<
                u32,
                Error,
            >(e) && *final(self) == *old(self),
            breed_error(*old(self), sender, kitty_id_1, kitty_id_2) is None ==> r == Ok::<
                u32,
                Error,
            >(old(self).spec_count()) && breed_post(
                *old(self),
                *final(self),
                sender,
                kitty_id_1,
                kitty_id_2,
                selector,
            ),
    {
        proof {
            if kitty_id_1 < old(self).spec_count() {
                assert(old(self).placed(kitty_id_1));
            }
            if kitty_id_2 < old(self).spec_count() {
                assert(old(self).placed(kitty_id_2));
            }
        }
        let kitty1 = match self.kitties(kitty_id_1) {
            Some(k) => k,
            None => {
                return Err(Error::InvalidKittyId);
            },
        };
        let kitty2 = match self.kitties(kitty_id_2) {
            Some(k) => k,
            None => {
                return Err(Error::InvalidKittyId);
            },
        };
        if !self.owned.contains(sender, kitty_id_1) {
            return Err(Error::RequireOwner);
        }
        if !self.owned.contains(sender, kitty_id_2) {
            return Err(Error::RequireOwner);
        }
        if kitty_id_1 == kitty_id_2 {
            return Err(Error::RequireDifferentParent);
        }
        let kitty_id = match self.next_kitty_id() {
            Ok(id) => id,
            Err(e) => {
                return Err(e);
            },
        };
        let dna1 = kitty1.0;
        let dna2 = kitty2.0;
        let mut new_dna: [u8; 16] = [0u8; 16];
        let mut i: usize = 0;
        while i < 16
            invariant
                i <= 16,
                forall|b: int|
                    0 <= b < i ==> new_dna@[b] == combine_dna_spec(dna1@[b], dna2@[b], selector@[b]),
            decreases 16 - i,
        {
            new_dna[i] = combine_dna(dna1[i], dna2[i], selector[i]);
            i = i + 1;
        }
        self.insert_kitty(sender, kitty_id, Kitty(new_dna));
        Ok(kitty_id)
    }

    /// Breeds a child from two parents the caller owns; the checks and
    /// effect are those of `do_breed`.
    pub fn breed(&mut self, caller: u64, kitty_id_1: u32, kitty_id_2: u32, selector: [u8; 16])
        -> (r: Result<(), Error>)
        requires
            old(self).wf(),
        ensures
            final(self).wf(),
            breed_error(*old(self), caller, kitty_id_1, kitty_id_2) matches Some(e) ==> r == Err::<
                (),
                Error,
            >(e) && *final(self) == *old(self),
            breed_error(*old(self), caller, kitty_id_1, kitty_id_2) is None ==> r == Ok::<
                (),
                Error,
            >(()) && breed_post(
                *old(self),
                *final(self),
                caller,
                kitty_id_1,
                kitty_id_2,
                selector,
            ),
    {
        match self.do_breed(caller, kitty_id_1, kitty_id_2, selector) {
            Ok(_) => Ok(()),
            Err(e) => Err(e),
        }
    }

    /// Buys a listed item at its listed price, paying through the given
    /// currency capability. The pre-checks and their order are those of
    /// `buy_error`, and a rejected call changes nothing and moves no
    /// currency. When they pass, the listed price is moved from the
    /// caller to the current owner; if that transfer fails, its error is
    /// propagated and nothing changes. Otherwise the listing is cleared
    /// and the item moves to the caller.
    pub fn buy<C: Currency>(
        &mut self,
        currency: &mut C,
        caller: u64,
        kitty_id: u32,
        price: u64,
    ) -> (r: Result<(), Error>)
        requires
            old(self).wf(),
            old(currency).inv(),
        ensures
            final(self).wf(),
            final(currency).inv(),
            buy_error(*old(self), kitty_id, price) matches Some(e) ==> r == Err::<(), Error>(e)
                && *final(self) == *old(self),
            buy_error(*old(self), kitty_id, price) is None ==> (r == Ok::<(), Error>(()) || r
                == Err::<(), Error>(Error::InsufficientFunds)),
            buy_error(*old(self), kitty_id, price) is None && r is Err ==> *final(self) == *old(
                self,
            ),
            r is Err ==> *final(currency) == *old(currency),
            buy_error(*old(self), kitty_id, price) is None && r is Ok ==> buy_post(
                *old(self),
                *final(self),
                caller,
                kitty_id,
            ),
            buy_error(*old(self), kitty_id, price) is None && r is Ok ==> paid_listed_price(
                *old(currency),
                *final(currency),
                caller,
                old(self).spec_owner(kitty_id),
                old(self).spec_price(kitty_id)->0,
            ),
    {
        let owner = match self.kitty_owner(kitty_id) {
            Some(o) => o,
            None => {
                return Err(Error::InvalidKittyId);
            },
        };
        let kitty_price = match self.kitty_price(kitty_id) {
            Some(p) => p,
            None => {
                return Err(Error::NotForSale);
            },
        };
        if price < kitty_price {
            return Err(Error::PriceTooLow);
        }
        match currency.transfer(caller, owner, kitty_price) {
            Ok(_) => {},
            Err(CurrencyError::InsufficientFunds) => {
                return Err(Error::InsufficientFunds);
            },
        }
        self.prices.set(kitty_id as usize, None);
        proof {
            assert forall|i: u32| i < self.count implies #[trigger] self.placed(i) by {
                assert(old(self).placed(i));
            }
            assert forall|o: u64, i: u32| self.owned.owned(o).contains(i) implies i < self.count
                && self.owners@[i as int] == o by {
                assert(old(self).owned.owned(o).contains(i));
            }
        }
        self.do_transfer(owner, caller, kitty_id);
        Ok(())
    }
}

/// The ownership map and the linked index never diverge: an owner's
/// enumeration contains exactly the existing items whose ownership record
/// names that owner.
pub proof fn lemma_owned_iff_owner(r: Kitties, o: u64, i: u32)
    requires
        r.wf(),
    ensures
        r.owned_items(o).contains(i) <==> (i < r.spec_count() && r.spec_owner(i) == o),
{
    if i < r.spec_count() && r.spec_owner(i) == o {
        assert(r.placed(i));
    }
}

/// At most one owner's enumeration ever contains a given item: membership
/// in a list pins the ownership record, so two lists cannot both hold it.
pub proof fn lemma_owned_exclusive(r: Kitties, o1: u64, o2: u64, i: u32)
    requires
        r.wf(),
        r.owned_items(o1).contains(i),
        r.owned_items(o2).contains(i),
    ensures
        o1 == o2,
{
}

/// Breeding an item with itself is rejected as `RequireDifferentParent`
/// whenever the existence and ownership checks before it pass.
pub proof fn lemma_breed_same_parent(r: Kitties, caller: u64, k: u32)
    requires
        k < r.spec_count(),
        r.spec_owner(k) == caller,
    ensures
        breed_error(r, caller, k, k) == Some(Error::RequireDifferentParent),
{
}

/// After two back-to-back transfers of one item — away from `a` to `b`,
/// then from `b` to `c` — the item is owned by `c`, present in `c`'s
/// enumeration, and absent from every other owner's.
pub proof fn lemma_transfer_chain(
    s0: Kitties,
    s1: Kitties,
    s2: Kitties,
    a: u64,
    b: u64,
    c: u64,
    k: u32,
)
    requires
        s2.wf(),
        k < s0.spec_count(),
        transfer_post(s0, s1, a, b, k),
        transfer_post(s1, s2, b, c, k),
    ensures
        s2.spec_owner(k) == c,
        s2.owned_items(c).contains(k),
        forall|o: u64| o != c ==> !s2.owned_items(o).contains(k),
{
    assert(k < s2.spec_count());
    assert(s2.placed(k));
    assert forall|o: u64| o != c implies !s2.owned_items(o).contains(k) by {
        if s2.owned_items(o).contains(k) {
            lemma_owned_exclusive(s2, o, c, k);
        }
    }
}

} // verus!
