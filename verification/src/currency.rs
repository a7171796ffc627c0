//! The currency-transfer capability consumed by the marketplace.
//!
//! `buy` needs to move the listed price from the buyer to the seller, but
//! the balance ledger itself is a collaborator, not part of this core. A
//! purchase therefore takes any implementation of `Currency`; the `erc20`
//! module provides a verified one. The trait carries a real contract —
//! what each account's balance is after a successful move, and that a
//! failed one changes nothing — so `buy` can promise the same.

use vstd::prelude::*;

verus! {

/// Failure of a currency transfer: the payer's funds do not cover the
/// amount. The marketplace propagates it unchanged.
#[derive(Clone, Copy, Debug, PartialEq, Eq)]
pub enum CurrencyError {
    InsufficientFunds,
}

/// A capability that moves `amount` of currency from `from` to `to`,
/// atomically: on success `from` is debited and `to` credited by exactly
/// `amount` (a move to oneself changes no balance) and every other
/// account keeps its balance; on failure nothing at all has changed.
pub trait Currency: Sized {
    /// The implementation's own well-formedness condition, preserved by
    /// every transfer.
    spec fn inv(&self) -> bool;

    /// The balance the implementation records for `who`.
    spec fn balance(&self, who: u64) -> u64;

    /// Moves `amount` from `from` to `to`, or fails without doing so.
    fn transfer(&mut self, from: u64, to: u64, amount: u64) -> (r: Result<(), CurrencyError>)
        requires
            old(self).inv(),
        ensures
            final(self).inv(),
            r is Ok ==> old(self).balance(from) >= amount,
            r is Ok && from != to ==> final(self).balance(from) == old(self).balance(from)
                - amount && final(self).balance(to) == old(self).balance(to) + amount,
            r is Ok && from == to ==> final(self).balance(from) == old(self).balance(from),
            r is Ok ==> forall|a: u64|
                a != from && a != to ==> final(self).balance(a) == old(self).balance(a),
            r is Err ==> *final(self) == *old(self),
    ;
}

} // verus!
