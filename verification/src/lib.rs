//! A verified collectibles registry.
//!
//! Every owner gets an enumerable, order-preserving set of the items they
//! own, maintained as a circular doubly linked list embedded in a flat
//! key-value store (`store`, `link`). On top of that index sits the
//! collectible lifecycle — create, breed, transfer, list for sale, buy
//! (`registry`) — and a fungible-token ledger (`erc20`) that implements
//! the currency-transfer capability the marketplace consumes
//! (`currency`).

pub mod store;
pub mod link;
pub mod currency;
pub mod registry;
pub mod erc20;

pub use store::KvStore;
pub use link::{LinkedItem, LinkedList, lemma_empty_list_sentinel};
pub use currency::{Currency, CurrencyError};
pub use registry::{Error, Kitties, Kitty, Module, combine_dna, combine_dna_spec};
pub use registry::{breed_error, breed_post, buy_error, buy_post, paid_listed_price, transfer_post};
pub use registry::{lemma_breed_same_parent, lemma_owned_exclusive, lemma_owned_iff_owner, lemma_transfer_chain};
pub use erc20::Erc20;
