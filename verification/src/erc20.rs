//! A fungible-token ledger.
//!
//! `Erc20` keeps a balance per account and an allowance per
//! (owner, spender) pair, plus the fixed roles of an issuer and a running
//! total supply. It emits an event record for every transfer and every
//! allowance change. It also implements the `Currency` capability, so the
//! marketplace can settle purchases against it.

use vstd::prelude::*;
use crate::currency::{Currency, CurrencyError};

verus! {

/// The event record of one completed balance transfer.
#[derive(Clone, Copy, PartialEq, Eq, Debug)]
pub struct Transfer {
    pub from: u64,
    pub to: u64,
    pub value: u64,
}

/// The event record of one allowance change.
#[derive(Clone, Copy, PartialEq, Eq, Debug)]
pub struct SetAllowance {
    pub owner: u64,
    pub spender: u64,
    pub value: u64,
}

/// An event emitted by the ledger, in order of occurrence.
#[derive(Clone, Copy, PartialEq, Eq, Debug)]
pub enum Event {
    Transfer(Transfer),
    SetAllowance(SetAllowance),
}

/// The error kinds of the ledger operations.
#[derive(Clone, Copy, PartialEq, Eq, Debug)]
pub enum Error {
    /// The debited account's balance does not cover the amount.
    InSufficientBalance,
    /// The spender's allowance does not cover the amount.
    InSufficientAllowance,
    /// Only the issuer may issue new supply.
    IssuePermissionDenied,
}

/// One stored balance.
struct BalEntry {
    who: u64,
    amount: u64,
}

/// One stored allowance.
struct AllowEntry {
    owner: u64,
    spender: u64,
    amount: u64,
}

/// True when some entry of `s` belongs to `who`.
spec fn bal_has(s: Seq<BalEntry>, who: u64) -> bool {
    exists|j: int| 0 <= j < s.len() && (#[trigger] s[j]).who == who
}

/// The index of `who`'s entry in `s`.
spec fn bal_at(s: Seq<BalEntry>, who: u64) -> int {
    choose|j: int| 0 <= j < s.len() && (#[trigger] s[j]).who == who
}

/// Balance entries belong to pairwise distinct accounts.
spec fn bal_distinct(s: Seq<BalEntry>) -> bool {
    forall|i: int, j: int| 0 <= i < j < s.len() ==> (#[trigger] s[i]).who != (#[trigger] s[j]).who
}

/// True when some entry of `s` is for the pair `(owner, spender)`.
spec fn allow_has(s: Seq<AllowEntry>, owner: u64, spender: u64) -> bool {
    exists|j: int| 0 <= j < s.len() && (#[trigger] s[j]).owner == owner && s[j].spender == spender
}

/// The index of the `(owner, spender)` entry in `s`.
spec fn allow_at(s: Seq<AllowEntry>, owner: u64, spender: u64) -> int {
    choose|j: int| 0 <= j < s.len() && (#[trigger] s[j]).owner == owner && s[j].spender == spender
}

/// Allowance entries belong to pairwise distinct pairs.
spec fn allow_distinct(s: Seq<AllowEntry>) -> bool {
    forall|i: int, j: int|
        0 <= i < j < s.len() ==> !((#[trigger] s[i]).owner == (#[trigger] s[j]).owner && s[i].spender
            == s[j].spender)
}

/// The balance recorded for `who` in `s`; zero when no entry exists.
spec fn bal_value(s: Seq<BalEntry>, who: u64) -> u64 {
    if bal_has(s, who) {
        s[bal_at(s, who)].amount
    } else {
        0
    }
}

/// The allowance recorded for `(owner, spender)` in `s`; zero when no
/// entry exists.
spec fn allow_value(s: Seq<AllowEntry>, owner: u64, spender: u64) -> u64 {
    if allow_has(s, owner, spender) {
        s[allow_at(s, owner, spender)].amount
    } else {
        0
    }
}

/// After replacing or appending `who`'s entry at position `j`, `who`
/// holds the new amount and every other account's balance is unchanged.
proof fn lemma_bal_set(s0: Seq<BalEntry>, s1: Seq<BalEntry>, who: u64, j: int)
    requires
        bal_distinct(s0),
        0 <= j <= s0.len(),
        s1.len() == if j == s0.len() {
            s0.len() + 1
        } else {
            s0.len()
        },
        forall|i: int| 0 <= i < s0.len() && i != j ==> s1[i] == s0[i],
        s1[j].who == who,
        j < s0.len() ==> s0[j].who == who,
        j == s0.len() ==> !bal_has(s0, who),
    ensures
        bal_distinct(s1),
        bal_value(s1, who) == s1[j].amount,
        forall|a: u64| a != who ==> bal_value(s1, a) == bal_value(s0, a),
{
    assert forall|i: int, jj: int| 0 <= i < jj < s1.len() implies (#[trigger] s1[i]).who
        != (#[trigger] s1[jj]).who by {
        if jj < s0.len() || jj < j {
            assert(s1[i].who == s0[i].who || i == j);
            assert(s1[jj].who == s0[jj].who || jj == j);
        } else {
            assert(jj == j && s1[jj].who == who);
            assert(s1[i] == s0[i]);
            if s0[i].who == who {
                if j < s0.len() {
                    assert(false);
                } else {
                    assert(bal_has(s0, who));
                    assert(false);
                }
            }
        }
    }
    assert(bal_has(s1, who));
    let j2 = bal_at(s1, who);
    assert(0 <= j2 < s1.len() && s1[j2].who == who);
    if j2 != j {
        assert(false);
    }
    assert forall|a: u64| a != who implies bal_value(s1, a) == bal_value(s0, a) by {
        if bal_has(s1, a) {
            let i = bal_at(s1, a);
            assert(0 <= i < s1.len() && s1[i].who == a);
            assert(i != j);
            assert(s0[i].who == a);
            let i0 = bal_at(s0, a);
            assert(0 <= i0 < s0.len() && s0[i0].who == a);
            if i0 != i {
                assert(false);
            }
            assert(s1[i] == s0[i]);
        }
        if bal_has(s0, a) {
            let i = bal_at(s0, a);
            assert(0 <= i < s0.len() && s0[i].who == a);
            assert(i != j);
            assert(s1[i].who == a);
            assert(bal_has(s1, a));
        }
    }
}

/// After replacing or appending the `(owner, spender)` entry at position
/// `j`, that pair holds the new amount and every other pair is unchanged.
proof fn lemma_allow_set(s0: Seq<AllowEntry>, s1: Seq<AllowEntry>, owner: u64, spender: u64, j: int)
    requires
        allow_distinct(s0),
        0 <= j <= s0.len(),
        s1.len() == if j == s0.len() {
            s0.len() + 1
        } else {
            s0.len()
        },
        forall|i: int| 0 <= i < s0.len() && i != j ==> s1[i] == s0[i],
        s1[j].owner == owner,
        s1[j].spender == spender,
        j < s0.len() ==> s0[j].owner == owner && s0[j].spender == spender,
        j == s0.len() ==> !allow_has(s0, owner, spender),
    ensures
        allow_distinct(s1),
        allow_value(s1, owner, spender) == s1[j].amount,
        forall|o: u64, sp: u64|
            !(o == owner && sp == spender) ==> allow_value(s1, o, sp) == allow_value(s0, o, sp),
{
    assert forall|i: int, jj: int| 0 <= i < jj < s1.len() implies !((#[trigger] s1[i]).owner
        == (#[trigger] s1[jj]).owner && s1[i].spender == s1[jj].spender) by {
        if jj < s0.len() || jj < j {
            assert(s1[i] == s0[i] || i == j);
            assert(s1[jj] == s0[jj] || jj == j);
        } else {
            assert(jj == j && s1[jj].owner == owner && s1[jj].spender == spender);
            assert(s1[i] == s0[i]);
            if s0[i].owner == owner && s0[i].spender == spender {
                if j < s0.len() {
                    assert(false);
                } else {
                    assert(allow_has(s0, owner, spender));
                    assert(false);
                }
            }
        }
    }
    assert(allow_has(s1, owner, spender));
    let j2 = allow_at(s1, owner, spender);
    assert(0 <= j2 < s1.len() && s1[j2].owner == owner && s1[j2].spender == spender);
    if j2 != j {
        assert(false);
    }
    assert forall|o: u64, sp: u64| !(o == owner && sp == spender) implies allow_value(s1, o, sp)
        == allow_value(s0, o, sp) by {
        if allow_has(s1, o, sp) {
            let i = allow_at(s1, o, sp);
            assert(0 <= i < s1.len() && s1[i].owner == o && s1[i].spender == sp);
            assert(i != j);
            assert(s0[i] == s1[i]);
            let i0 = allow_at(s0, o, sp);
            assert(0 <= i0 < s0.len() && s0[i0].owner == o && s0[i0].spender == sp);
            if i0 != i {
                assert(false);
            }
        }
        if allow_has(s0, o, sp) {
            let i = allow_at(s0, o, sp);
            assert(0 <= i < s0.len() && s0[i].owner == o && s0[i].spender == sp);
            assert(i != j);
            assert(s1[i].owner == o && s1[i].spender == sp);
            assert(allow_has(s1, o, sp));
        }
    }
}

/// The fungible-token ledger.
pub struct Erc20 {
    issuer: u64,
    total_supply: u64,
    balances: Vec<BalEntry>,
    allowance: Vec<AllowEntry>,
    events: Vec<Event>,
}

impl Erc20 {
    /// The account that may issue new supply.
    pub closed spec fn spec_issuer(self) -> u64 {
        self.issuer
    }

    /// The current total supply.
    pub closed spec fn spec_total_supply(self) -> u64 {
        self.total_supply
    }

    /// The balance of `who`; accounts never credited hold zero.
    pub closed spec fn spec_balance_of(self, who: u64) -> u64 {
        bal_value(self.balances@, who)
    }

    /// The allowance `owner` has granted `spender`; zero if never set.
    pub closed spec fn spec_allowance(self, owner: u64, spender: u64) -> u64 {
        allow_value(self.allowance@, owner, spender)
    }

    /// The events emitted so far, oldest first.
    pub closed spec fn spec_events(self) -> Seq<Event> {
        self.events@
    }

    /// Balances and allowances hold one entry per key.
    pub closed spec fn wf(self) -> bool {
        &&& bal_distinct(self.balances@)
        &&& allow_distinct(self.allowance@)
    }

    /// A fresh ledger: the whole initial supply on the creator's account,
    /// who is also the issuer.
    pub fn new(caller: u64, total_supply: u64) -> (r: Self)
        ensures
            r.wf(),
            r.spec_issuer() == caller,
            r.spec_total_supply() == total_supply,
            r.spec_balance_of(caller) == total_supply,
            forall|a: u64| a != caller ==> r.spec_balance_of(a) == 0,
            forall|o: u64, s: u64| r.spec_allowance(o, s) == 0,
            r.spec_events() == Seq::<Event>::empty(),
    {
        let mut balances: Vec<BalEntry> = Vec::new();
        balances.push(BalEntry { who: caller, amount: total_supply });
        let r = Erc20 { issuer: caller, total_supply, balances, allowance: Vec::new(), events: Vec::new() };
        proof {
            assert(r.balances@[0].who == caller);
            assert(bal_has(r.balances@, caller) && bal_at(r.balances@, caller) == 0);
            assert forall|a: u64| a != caller implies r.spec_balance_of(a) == 0 by {
                if bal_has(r.balances@, a) {
                    let j = bal_at(r.balances@, a);
                    assert(0 <= j < 1 && r.balances@[j].who == a);
                }
            }
        }
        r
    }

    /// The current total supply.
    pub fn total_supply(&self) -> (r: u64)
        ensures
            r == self.spec_total_supply(),
    {
        self.total_supply
    }

    /// The balance of `owner`.
    pub fn balance_of(&self, owner: u64) -> (r: u64)
        requires
            self.wf(),
        ensures
            r == self.spec_balance_of(owner),
    {
        let n = self.balances.len();
        let mut j: usize = 0;
        while j < n
            invariant
                j <= n,
                n == self.balances@.len(),
                self.wf(),
                forall|jj: int| 0 <= jj < j ==> (#[trigger] self.balances@[jj]).who != owner,
            decreases n - j,
        {
            if self.balances[j].who == owner {
                proof {
                    let j2 = bal_at(self.balances@, owner);
                    assert(0 <= j2 < n && self.balances@[j2].who == owner);
                    if j2 != j {
                        assert(false);
                    }
                }
                return self.balances[j].amount;
            }
            j = j + 1;
        }
        proof {
            if bal_has(self.balances@, owner) {
                let j2 = bal_at(self.balances@, owner);
                assert(0 <= j2 < n && self.balances@[j2].who == owner);
            }
        }
        0
    }

    /// The allowance `owner` has granted `spender`.
    pub fn allowance(&self, owner: u64, spender: u64) -> (r: u64)
        requires
            self.wf(),
        ensures
            r == self.spec_allowance(owner, spender),
    {
        let n = self.allowance.len();
        let mut j: usize = 0;
        while j < n
            invariant
                j <= n,
                n == self.allowance@.len(),
                self.wf(),
                forall|jj: int|
                    0 <= jj < j ==> !((#[trigger] self.allowance@[jj]).owner == owner
                        && self.allowance@[jj].spender == spender),
            decreases n - j,
        {
            let e = &self.allowance[j];
            if e.owner == owner && e.spender == spender {
                proof {
                    let j2 = allow_at(self.allowance@, owner, spender);
                    assert(0 <= j2 < n && self.allowance@[j2].owner == owner
                        && self.allowance@[j2].spender == spender);
                    if j2 != j {
                        assert(false);
                    }
                }
                return self.allowance[j].amount;
            }
            j = j + 1;
        }
        proof {
            if allow_has(self.allowance@, owner, spender) {
                let j2 = allow_at(self.allowance@, owner, spender);
                assert(0 <= j2 < n && self.allowance@[j2].owner == owner && self.allowance@[j2].spender
                    == spender);
            }
        }
        0
    }

    /// The events emitted so far, oldest first.
    pub fn events(&self) -> (r: &Vec<Event>)
        ensures
            r@ == self.spec_events(),
    {
        &self.events
    }

    /// The position of `who`'s balance entry, if one is stored.
    fn find_balance(&self, who: u64) -> (r: Option<usize>)
        ensures
            match r {
                Some(j) => j < self.balances@.len() && self.balances@[j as int].who == who,
                None => !bal_has(self.balances@, who),
            },
    {
        let n = self.balances.len();
        let mut j: usize = 0;
        while j < n
            invariant
                j <= n,
                n == self.balances@.len(),
                forall|jj: int| 0 <= jj < j ==> (#[trigger] self.balances@[jj]).who != who,
            decreases n - j,
        {
            if self.balances[j].who == who {
                return Some(j);
            }
            j = j + 1;
        }
        None
    }

    /// The position of the `(owner, spender)` allowance entry, if one is
    /// stored.
    fn find_allowance(&self, owner: u64, spender: u64) -> (r: Option<usize>)
        ensures
            match r {
                Some(j) => j < self.allowance@.len() && self.allowance@[j as int].owner == owner
                    && self.allowance@[j as int].spender == spender,
                None => !allow_has(self.allowance@, owner, spender),
            },
    {
        let n = self.allowance.len();
        let mut j: usize = 0;
        while j < n
            invariant
                j <= n,
                n == self.allowance@.len(),
                forall|jj: int|
                    0 <= jj < j ==> !((#[trigger] self.allowance@[jj]).owner == owner
                        && self.allowance@[jj].spender == spender),
            decreases n - j,
        {
            let e = &self.allowance[j];
            if e.owner == owner && e.spender == spender {
                return Some(j);
            }
            j = j + 1;
        }
        None
    }

    /// Records `amount` as `who`'s balance.
    fn set_balance(&mut self, who: u64, amount: u64)
        requires
            old(self).wf(),
        ensures
            final(self).wf(),
            final(self).spec_balance_of(who) == amount,
            forall|a: u64| a != who ==> final(self).spec_balance_of(a) == old(self).spec_balance_of(a),
            final(self).spec_issuer() == old(self).spec_issuer(),
            final(self).spec_total_supply() == old(self).spec_total_supply(),
            forall|o: u64, sp: u64| final(self).spec_allowance(o, sp) == old(self).spec_allowance(o, sp),
            final(self).spec_events() == old(self).spec_events(),
    {
        let ghost s0 = self.balances@;
        match self.find_balance(who) {
            Some(j) => {
                self.balances.set(j, BalEntry { who, amount });
                proof {
                    lemma_bal_set(s0, self.balances@, who, j as int);
                }
            },
            None => {
                self.balances.push(BalEntry { who, amount });
                proof {
                    lemma_bal_set(s0, self.balances@, who, s0.len() as int);
                }
            },
        }
    }

    /// Records `amount` as the allowance of `(owner, spender)`.
    fn set_allowance_entry(&mut self, owner: u64, spender: u64, amount: u64)
        requires
            old(self).wf(),
        ensures
            final(self).wf(),
            final(self).spec_allowance(owner, spender) == amount,
            forall|o: u64, sp: u64|
                !(o == owner && sp == spender) ==> final(self).spec_allowance(o, sp) == old(
                    self,
                ).spec_allowance(o, sp),
            forall|a: u64| final(self).spec_balance_of(a) == old(self).spec_balance_of(a),
            final(self).spec_issuer() == old(self).spec_issuer(),
            final(self).spec_total_supply() == old(self).spec_total_supply(),
            final(self).spec_events() == old(self).spec_events(),
    {
        let ghost s0 = self.allowance@;
        match self.find_allowance(owner, spender) {
            Some(j) => {
                self.allowance.set(j, AllowEntry { owner, spender, amount });
                proof {
                    lemma_allow_set(s0, self.allowance@, owner, spender, j as int);
                }
            },
            None => {
                self.allowance.push(AllowEntry { owner, spender, amount });
                proof {
                    lemma_allow_set(s0, self.allowance@, owner, spender, s0.len() as int);
                }
            },
        }
    }

    /// Grants `spender` an allowance of `value` out of the caller's
    /// balance, replacing any previous grant, and emits the event.
    pub fn set_allowance(&mut self, caller: u64, spender: u64, value: u64) -> (r: Result<(), Error>)
        requires
            old(self).wf(),
        ensures
            final(self).wf(),
            r == Ok::<(), Error>(()),
            final(self).spec_allowance(caller, spender) == value,
            forall|o: u64, sp: u64|
                !(o == caller && sp == spender) ==> final(self).spec_allowance(o, sp) == old(
                    self,
                ).spec_allowance(o, sp),
            forall|a: u64| final(self).spec_balance_of(a) == old(self).spec_balance_of(a),
            final(self).spec_issuer() == old(self).spec_issuer(),
            final(self).spec_total_supply() == old(self).spec_total_supply(),
            final(self).spec_events() == old(self).spec_events().push(
                Event::SetAllowance(SetAllowance { owner: caller, spender, value }),
            ),
    {
        self.set_allowance_entry(caller, spender, value);
        self.events.push(Event::SetAllowance(SetAllowance { owner: caller, spender, value }));
        Ok(())
    }

    /// Moves `value` from `from` to `to` and emits the event, or fails
    /// with `InSufficientBalance` leaving everything unchanged. The
    /// recipient's balance must have room for the credit; a transfer to
    /// oneself merely returns the balance to its old value.
    fn transfer_help(&mut self, from: u64, to: u64, value: u64) -> (r: Result<(), Error>)
        requires
            old(self).wf(),
            from != to ==> old(self).spec_balance_of(to) + value <= u64::MAX,
        ensures
            final(self).wf(),
            old(self).spec_balance_of(from) < value ==> r == Err::<(), Error>(
                Error::InSufficientBalance,
            ) && *final(self) == *old(self),
            old(self).spec_balance_of(from) >= value ==> {
                &&& r == Ok::<(), Error>(())
                &&& (from != to ==> final(self).spec_balance_of(from) == old(self).spec_balance_of(
                    from,
                ) - value && final(self).spec_balance_of(to) == old(self).spec_balance_of(to)
                    + value)
                &&& (from == to ==> final(self).spec_balance_of(from) == old(self).spec_balance_of(
                    from,
                ))
                &&& (forall|a: u64|
                    a != from && a != to ==> final(self).spec_balance_of(a) == old(
                        self,
                    ).spec_balance_of(a))
                &&& (forall|o: u64, sp: u64|
                    final(self).spec_allowance(o, sp) == old(self).spec_allowance(o, sp))
                &&& final(self).spec_issuer() == old(self).spec_issuer()
                &&& final(self).spec_total_supply() == old(self).spec_total_supply()
                &&& final(self).spec_events() == old(self).spec_events().push(
                    Event::Transfer(Transfer { from, to, value }),
                )
            },
    {
        let from_balance = self.balance_of(from);
        if from_balance < value {
            return Err(Error::InSufficientBalance);
        }
        self.set_balance(from, from_balance - value);
        let to_balance = self.balance_of(to);
        self.set_balance(to, to_balance + value);
        self.events.push(Event::Transfer(Transfer { from, to, value }));
        Ok(())
    }

    /// Moves `value` from the caller's balance to `to`.
    pub fn transfer(&mut self, caller: u64, to: u64, value: u64) -> (r: Result<(), Error>)
        requires
            old(self).wf(),
            caller != to ==> old(self).spec_balance_of(to) + value <= u64::MAX,
        ensures
            final(self).wf(),
            old(self).spec_balance_of(caller) < value ==> r == Err::<(), Error>(
                Error::InSufficientBalance,
            ) && *final(self) == *old(self),
            old(self).spec_balance_of(caller) >= value ==> {
                &&& r == Ok::<(), Error>(())
                &&& (caller != to ==> final(self).spec_balance_of(caller) == old(
                    self,
                ).spec_balance_of(caller) - value && final(self).spec_balance_of(to) == old(
                    self,
                ).spec_balance_of(to) + value)
                &&& (caller == to ==> final(self).spec_balance_of(caller) == old(
                    self,
                ).spec_balance_of(caller))
                &&& (forall|a: u64|
                    a != caller && a != to ==> final(self).spec_balance_of(a) == old(
                        self,
                    ).spec_balance_of(a))
                &&& (forall|o: u64, sp: u64|
                    final(self).spec_allowance(o, sp) == old(self).spec_allowance(o, sp))
                &&& final(self).spec_issuer() == old(self).spec_issuer()
                &&& final(self).spec_total_supply() == old(self).spec_total_supply()
                &&& final(self).spec_events() == old(self).spec_events().push(
                    Event::Transfer(Transfer { from: caller, to, value }),
                )
            },
    {
        self.transfer_help(caller, to, value)
    }

    /// Moves `value` from `from` to `to` on the caller's behalf,
    /// consuming that much of the caller's allowance from `from`. The
    /// allowance is checked first, then the balance.
    pub fn transfer_from(&mut self, caller: u64, from: u64, to: u64, value: u64) -> (r: Result<
        (),
        Error,
    >)
        requires
            old(self).wf(),
            from != to ==> old(self).spec_balance_of(to) + value <= u64::MAX,
        ensures
            final(self).wf(),
            old(self).spec_allowance(from, caller) < value ==> r == Err::<(), Error>(
                Error::InSufficientAllowance,
            ) && *final(self) == *old(self),
            old(self).spec_allowance(from, caller) >= value && old(self).spec_balance_of(from)
                < value ==> r == Err::<(), Error>(Error::InSufficientBalance) && *final(self)
                == *old(self),
            old(self).spec_allowance(from, caller) >= value && old(self).spec_balance_of(from)
                >= value ==> {
                &&& r == Ok::<(), Error>(())
                &&& (from != to ==> final(self).spec_balance_of(from) == old(self).spec_balance_of(
                    from,
                ) - value && final(self).spec_balance_of(to) == old(self).spec_balance_of(to)
                    + value)
                &&& (from == to ==> final(self).spec_balance_of(from) == old(self).spec_balance_of(
                    from,
                ))
                &&& (forall|a: u64|
                    a != from && a != to ==> final(self).spec_balance_of(a) == old(
                        self,
                    ).spec_balance_of(a))
                &&& final(self).spec_allowance(from, caller) == old(self).spec_allowance(
                    from,
                    caller,
                ) - value
                &&& (forall|o: u64, sp: u64|
                    !(o == from && sp == caller) ==> final(self).spec_allowance(o, sp) == old(
                        self,
                    ).spec_allowance(o, sp))
                &&& final(self).spec_issuer() == old(self).spec_issuer()
                &&& final(self).spec_total_supply() == old(self).spec_total_supply()
                &&& final(self).spec_events() == old(self).spec_events().push(
                    Event::Transfer(Transfer { from, to, value }),
                )
            },
    {
        let granted = self.allowance(from, caller);
        if granted < value {
            return Err(Error::InSufficientAllowance);
        }
        match self.transfer_help(from, to, value) {
            Ok(_) => {
                self.set_allowance_entry(from, caller, granted - value);
                Ok(())
            },
            Err(e) => Err(e),
        }
    }

    /// Destroys `value` of the caller's balance, shrinking the total
    /// supply with it.
    pub fn burn(&mut self, caller: u64, value: u64) -> (r: Result<(), Error>)
        requires
            old(self).wf(),
            old(self).spec_balance_of(caller) >= value ==> value <= old(self).spec_total_supply(),
        ensures
            final(self).wf(),
            old(self).spec_balance_of(caller) < value ==> r == Err::<(), Error>(
                Error::InSufficientBalance,
            ) && *final(self) == *old(self),
            old(self).spec_balance_of(caller) >= value ==> {
                &&& r == Ok::<(), Error>(())
                &&& final(self).spec_balance_of(caller) == old(self).spec_balance_of(caller) - value
                &&& final(self).spec_total_supply() == old(self).spec_total_supply() - value
                &&& (forall|a: u64|
                    a != caller ==> final(self).spec_balance_of(a) == old(self).spec_balance_of(a))
                &&& (forall|o: u64, sp: u64|
                    final(self).spec_allowance(o, sp) == old(self).spec_allowance(o, sp))
                &&& final(self).spec_issuer() == old(self).spec_issuer()
                &&& final(self).spec_events() == old(self).spec_events()
            },
    {
        let from_balance = self.balance_of(caller);
        if from_balance < value {
            return Err(Error::InSufficientBalance);
        }
        self.set_balance(caller, from_balance - value);
        let total = self.total_supply;
        self.total_supply = total - value;
        Ok(())
    }

    /// Mints `value` of new supply onto the issuer's own balance; only
    /// the issuer may call this.
    pub fn issue(&mut self, caller: u64, value: u64) -> (r: Result<(), Error>)
        requires
            old(self).wf(),
            caller == old(self).spec_issuer() ==> old(self).spec_total_supply() + value <= u64::MAX
                && old(self).spec_balance_of(caller) + value <= u64::MAX,
        ensures
            final(self).wf(),
            caller != old(self).spec_issuer() ==> r == Err::<(), Error>(Error::IssuePermissionDenied)
                && *final(self) == *old(self),
            caller == old(self).spec_issuer() ==> {
                &&& r == Ok::<(), Error>(())
                &&& final(self).spec_balance_of(caller) == old(self).spec_balance_of(caller) + value
                &&& final(self).spec_total_supply() == old(self).spec_total_supply() + value
                &&& (forall|a: u64|
                    a != caller ==> final(self).spec_balance_of(a) == old(self).spec_balance_of(a))
                &&& (forall|o: u64, sp: u64|
                    final(self).spec_allowance(o, sp) == old(self).spec_allowance(o, sp))
                &&& final(self).spec_issuer() == old(self).spec_issuer()
                &&& final(self).spec_events() == old(self).spec_events()
            },
    {
        if caller != self.issuer {
            return Err(Error::IssuePermissionDenied);
        }
        let total = self.total_supply;
        self.total_supply = total + value;
        let balance = self.balance_of(caller);
        self.set_balance(caller, balance + value);
        Ok(())
    }
}

impl Currency for Erc20 {
    /// The ledger's map invariant.
    open spec fn inv(&self) -> bool {
        self.wf()
    }

    /// The ledger's recorded balance.
    open spec fn balance(&self, who: u64) -> u64 {
        self.spec_balance_of(who)
    }

    /// Settles a purchase against the ledger: debits `from`, credits
    /// `to`, and emits the transfer event. Fails with `InsufficientFunds`
    /// when `from`'s balance does not cover the amount — or, with only
    /// that error to report, when the credit would not fit in `to`'s
    /// balance — changing nothing in either case.
    fn transfer(&mut self, from: u64, to: u64, amount: u64) -> (r: Result<(), CurrencyError>) {
        let from_balance = self.balance_of(from);
        if from_balance < amount {
            return Err(CurrencyError::InsufficientFunds);
        }
        if from == to {
            self.events.push(Event::Transfer(Transfer { from, to, value: amount }));
            return Ok(());
        }
        let to_balance = self.balance_of(to);
        match to_balance.checked_add(amount) {
            Some(credited) => {
                self.set_balance(from, from_balance - amount);
                self.set_balance(to, credited);
                self.events.push(Event::Transfer(Transfer { from, to, value: amount }));
                Ok(())
            },
            None => Err(CurrencyError::InsufficientFunds),
        }
    }
}

} // verus!
