use kitties::{Error, Kitties, LinkedItem, LinkedList};

fn dna(seed: u8) -> [u8; 16] {
    let mut g = [0u8; 16];
    let mut i = 0;
    while i < 16 {
        g[i] = seed.wrapping_add(i as u8);
        i += 1;
    }
    g
}

#[test]
fn owned_kitties_can_append_values() {
    let mut list = LinkedList::new();
    list.append(0, 1);

    assert_eq!(
        list.read(0, None),
        Some(LinkedItem {
            prev: Some(1),
            next: Some(1),
        })
    );
}

#[test]
fn owned_kitties_can_remove_values() {
    let mut list = LinkedList::new();
    list.append(0, 1);
    list.append(0, 2);
    list.append(0, 3);

    list.remove(0, 2);

    assert_eq!(
        list.read(0, None),
        Some(LinkedItem {
            prev: Some(3),
            next: Some(1),
        })
    );
}

#[test]
fn owned_kitties_create() {
    let mut kitties = Kitties::new();
    assert_eq!(kitties.create(1, dna(10)), Ok(()));
}

#[test]
fn owned_kitties_breed() {
    let mut kitties = Kitties::new();
    assert_eq!(kitties.create(1, dna(10)), Ok(()));
    assert_eq!(kitties.create(1, dna(11)), Ok(()));
    assert_eq!(kitties.breed(1, 0, 1, dna(12)), Ok(()));
}

#[test]
fn owned_kitties_transfer() {
    let mut kitties = Kitties::new();
    assert_eq!(kitties.create(1, dna(10)), Ok(()));
    assert_eq!(kitties.transfer(1, 2, 0), Ok(()));
}

#[test]
fn owned_kitties_ask() {
    let mut kitties = Kitties::new();
    assert_eq!(kitties.create(1, dna(10)), Ok(()));
    assert_eq!(kitties.ask(1, 0, Some(100)), Ok(()));
}

#[test]
fn owned_kitties_buy() {
    let mut kitties = Kitties::new();
    let mut ledger = kitties::Erc20::new(1, 1000);
    assert_eq!(kitties.create(1, dna(10)), Ok(()));
    assert_eq!(kitties.ask(1, 0, Some(100)), Ok(()));
    assert_eq!(kitties.buy(&mut ledger, 1, 0, 110), Ok(()));
}

#[test]
fn emptied_list_sentinel_is_cleared() {
    let mut list = LinkedList::new();
    list.append(7, 1);
    list.append(7, 2);
    list.remove(7, 1);
    list.remove(7, 2);

    assert_eq!(
        list.read(7, None),
        Some(LinkedItem {
            prev: None,
            next: None,
        })
    );
    assert_eq!(list.read(7, Some(1)), None);
    assert_eq!(list.read(7, Some(2)), None);
    assert_eq!(list.enumerate(7), Vec::<u32>::new());
}

#[test]
fn enumeration_keeps_insertion_order_across_removal() {
    let mut list = LinkedList::new();
    list.append(0, 1);
    list.append(0, 2);
    list.append(0, 3);
    list.remove(0, 2);

    assert_eq!(list.enumerate(0), vec![1, 3]);
}

#[test]
fn item_never_in_two_enumerations() {
    let mut kitties = Kitties::new();
    assert_eq!(kitties.create(1, dna(10)), Ok(()));
    assert!(kitties.enumerate_owned(1).contains(&0));
    assert!(!kitties.enumerate_owned(2).contains(&0));

    assert_eq!(kitties.transfer(1, 2, 0), Ok(()));
    assert!(!kitties.enumerate_owned(1).contains(&0));
    assert!(kitties.enumerate_owned(2).contains(&0));
}

#[test]
fn breed_with_same_parent_fails() {
    let mut kitties = Kitties::new();
    assert_eq!(kitties.create(1, dna(10)), Ok(()));
    assert_eq!(
        kitties.breed(1, 0, 0, dna(12)),
        Err(Error::RequireDifferentParent)
    );
}

#[test]
fn breed_with_missing_parent_fails() {
    let mut kitties = Kitties::new();
    assert_eq!(kitties.create(1, dna(10)), Ok(()));
    assert_eq!(kitties.breed(1, 0, 5, dna(12)), Err(Error::InvalidKittyId));
}

#[test]
fn breed_with_foreign_parent_fails() {
    let mut kitties = Kitties::new();
    assert_eq!(kitties.create(1, dna(10)), Ok(()));
    assert_eq!(kitties.create(2, dna(11)), Ok(()));
    assert_eq!(kitties.breed(1, 0, 1, dna(12)), Err(Error::RequireOwner));
}

#[test]
fn transfer_by_non_owner_fails() {
    let mut kitties = Kitties::new();
    assert_eq!(kitties.create(1, dna(10)), Ok(()));
    assert_eq!(kitties.transfer(2, 3, 0), Err(Error::RequireOwner));
    assert_eq!(kitties.kitty_owner(0), Some(1));
}

#[test]
fn ask_by_non_owner_fails() {
    let mut kitties = Kitties::new();
    assert_eq!(kitties.create(1, dna(10)), Ok(()));
    assert_eq!(kitties.ask(2, 0, Some(100)), Err(Error::RequireOwner));
    assert_eq!(kitties.kitty_price(0), None);
}

#[test]
fn transfer_twice_lands_with_final_owner_only() {
    let mut kitties = Kitties::new();
    assert_eq!(kitties.create(1, dna(10)), Ok(()));
    assert_eq!(kitties.transfer(1, 2, 0), Ok(()));
    assert_eq!(kitties.transfer(2, 3, 0), Ok(()));

    assert_eq!(kitties.kitty_owner(0), Some(3));
    assert!(!kitties.enumerate_owned(1).contains(&0));
    assert!(!kitties.enumerate_owned(2).contains(&0));
    assert_eq!(kitties.enumerate_owned(3), vec![0]);
}

#[test]
fn ask_with_no_price_delists() {
    let mut kitties = Kitties::new();
    assert_eq!(kitties.create(1, dna(10)), Ok(()));
    assert_eq!(kitties.ask(1, 0, Some(100)), Ok(()));
    assert_eq!(kitties.kitty_price(0), Some(100));
    assert_eq!(kitties.ask(1, 0, None), Ok(()));
    assert_eq!(kitties.kitty_price(0), None);
}

#[test]
fn transfer_clears_listing() {
    let mut kitties = Kitties::new();
    assert_eq!(kitties.create(1, dna(10)), Ok(()));
    assert_eq!(kitties.ask(1, 0, Some(100)), Ok(()));
    assert_eq!(kitties.kitty_price(0), Some(100));

    assert_eq!(kitties.transfer(1, 2, 0), Ok(()));
    assert_eq!(kitties.kitty_owner(0), Some(2));
    assert_eq!(kitties.kitty_price(0), None);
}

#[test]
fn transfer_to_self_moves_item_to_tail() {
    let mut kitties = Kitties::new();
    assert_eq!(kitties.create(1, dna(10)), Ok(()));
    assert_eq!(kitties.create(1, dna(11)), Ok(()));
    assert_eq!(kitties.transfer(1, 1, 0), Ok(()));
    assert_eq!(kitties.kitty_owner(0), Some(1));
    assert_eq!(kitties.enumerate_owned(1), vec![1, 0]);
}

#[test]
fn buy_unlisted_item_fails() {
    let mut kitties = Kitties::new();
    let mut ledger = kitties::Erc20::new(2, 1000);
    assert_eq!(kitties.create(1, dna(10)), Ok(()));
    assert_eq!(kitties.buy(&mut ledger, 2, 0, 100), Err(Error::NotForSale));
}

#[test]
fn buy_missing_item_fails() {
    let mut kitties = Kitties::new();
    let mut ledger = kitties::Erc20::new(2, 1000);
    assert_eq!(
        kitties.buy(&mut ledger, 2, 9, 100),
        Err(Error::InvalidKittyId)
    );
}

#[test]
fn buy_below_listed_price_changes_nothing() {
    let mut kitties = Kitties::new();
    let mut ledger = kitties::Erc20::new(2, 1000);
    assert_eq!(kitties.create(1, dna(10)), Ok(()));
    assert_eq!(kitties.ask(1, 0, Some(100)), Ok(()));

    assert_eq!(kitties.buy(&mut ledger, 2, 0, 90), Err(Error::PriceTooLow));
    assert_eq!(kitties.kitty_owner(0), Some(1));
    assert_eq!(kitties.kitty_price(0), Some(100));
    assert_eq!(ledger.balance_of(2), 1000);
}

#[test]
fn buy_without_funds_changes_nothing() {
    let mut kitties = Kitties::new();
    let mut ledger = kitties::Erc20::new(3, 1000);
    assert_eq!(kitties.create(1, dna(10)), Ok(()));
    assert_eq!(kitties.ask(1, 0, Some(100)), Ok(()));

    assert_eq!(
        kitties.buy(&mut ledger, 2, 0, 100),
        Err(Error::InsufficientFunds)
    );
    assert_eq!(kitties.kitty_owner(0), Some(1));
    assert_eq!(kitties.kitty_price(0), Some(100));
    assert_eq!(ledger.balance_of(2), 0);
    assert_eq!(ledger.balance_of(3), 1000);
}

#[test]
fn combine_dna_picks_bits_by_selector() {
    assert_eq!(kitties::combine_dna(0xFF, 0x00, 0xF0), 0xF0);
    assert_eq!(kitties::combine_dna(0b1100_1100, 0b1010_1010, 0b0110_0110), 0b1100_1100);
    assert_eq!(kitties::combine_dna(0x12, 0x12, 0x55), 0x12);
}

#[test]
fn full_marketplace_round() {
    let g0 = dna(1);
    let g1 = dna(2);
    let selector = dna(3);

    let mut kitties = Kitties::new();
    let mut ledger = kitties::Erc20::new(6, 1000);
    assert_eq!(ledger.transfer(6, 5, 500), Ok(()));

    // owner 5 creates items 0 and 1, then breeds them
    assert_eq!(kitties.create(5, g0), Ok(()));
    assert_eq!(kitties.create(5, g1), Ok(()));
    assert_eq!(kitties.breed(5, 0, 1, selector), Ok(()));

    let child = kitties.kitties(2).unwrap();
    for i in 0..16 {
        assert_eq!(child.0[i], (selector[i] & g0[i]) | (!selector[i] & g1[i]));
    }
    assert_eq!(kitties.enumerate_owned(5), vec![0, 1, 2]);

    // item 0 moves to owner 6
    assert_eq!(kitties.transfer(5, 6, 0), Ok(()));
    assert_eq!(kitties.enumerate_owned(5), vec![1, 2]);
    assert_eq!(kitties.enumerate_owned(6), vec![0]);

    // item 2 is listed at 100; an offer of 90 is rejected without effect
    assert_eq!(kitties.ask(5, 2, Some(100)), Ok(()));
    assert_eq!(kitties.buy(&mut ledger, 6, 2, 90), Err(Error::PriceTooLow));
    assert_eq!(kitties.kitty_price(2), Some(100));
    assert_eq!(kitties.enumerate_owned(5), vec![1, 2]);

    // an offer of 110 buys it at the listed price of 100
    assert_eq!(kitties.buy(&mut ledger, 6, 2, 110), Ok(()));
    assert_eq!(ledger.balance_of(6), 500 - 100);
    assert_eq!(ledger.balance_of(5), 500 + 100);
    assert_eq!(kitties.kitty_price(2), None);
    assert_eq!(kitties.kitty_owner(2), Some(6));
    assert_eq!(kitties.enumerate_owned(5), vec![1]);
    assert_eq!(kitties.enumerate_owned(6), vec![0, 2]);
}

#[test]
fn store_get_put_remove() {
    let mut store: kitties::KvStore<u32> = kitties::KvStore::new();
    assert_eq!(store.get(1, None), None);
    store.put(1, None, 7);
    store.put(1, Some(4), 8);
    assert_eq!(store.get(1, None), Some(7));
    assert_eq!(store.get(1, Some(4)), Some(8));
    assert!(store.contains(1, Some(4)));
    assert!(!store.contains(2, Some(4)));
    store.put(1, Some(4), 9);
    assert_eq!(store.get(1, Some(4)), Some(9));
    store.remove(1, Some(4));
    assert_eq!(store.get(1, Some(4)), None);
    assert_eq!(store.get(1, None), Some(7));
}
