use offers::{
    validate_create_offer, validate_delete_link_offer_updates, validate_delete_offer,
    validate_update_offer, Action, ActionData, GetOffersForPairInput, LinkType, Offer, Record,
    Store, StoreError, UpdateOfferInput, ValidateCallbackResult,
};

fn offer_with(airport: &str, offered: &str, requested: &str, amount_micros: u64) -> Offer {
    Offer {
        amount_micros,
        offered_currency: offered.to_string(),
        requested_currency: requested.to_string(),
        available_from: 1674053334548000,
        available_until: 1674053334548000,
        airport: airport.to_string(),
    }
}

fn entry_address_of(record: &Record) -> usize {
    match record.action.data {
        ActionData::CreateEntry { entry } => entry,
        ActionData::UpdateEntry { entry, .. } => entry,
        _ => panic!("record action commits no entry"),
    }
}

// Idempotent hashing: byte-identical entry content stored twice yields one
// stored entry object (the two create actions commit the same entry
// address); reading either record sees the same content.
#[test]
fn idempotent_entry_hashing() {
    let mut store = Store::new();
    let offer = offer_with("FRA", "USD", "EUR", 500_000);
    let first = store.create_offer(1, 100, offer.clone());
    let len_after_first = store.len();
    let second = store.create_offer(2, 200, offer.clone());
    // The identical entry bytes collapsed to one stored object.
    assert_eq!(entry_address_of(&first), entry_address_of(&second));
    // The two creates are distinct actions for distinct logical records.
    assert_ne!(first.action_address, second.action_address);
    assert_eq!(store.get_offer(first.action_address).unwrap().offer, offer);
    assert_eq!(store.get_offer(second.action_address).unwrap().offer, offer);
    // Only the new action and index edges were stored, no second entry.
    assert!(store.len() > len_after_first);
    let all = store.get_all_offers();
    assert_eq!(all.len(), 2);
}

// The anchor for a key is materialized once: making it again is a no-op.
#[test]
fn anchor_materialization_idempotent() {
    let mut store = Store::new();
    let b1 = store.ensure_anchor("all_offers".to_string());
    let len1 = store.len();
    let b2 = store.ensure_anchor("all_offers".to_string());
    assert_eq!(b1, b2);
    assert_eq!(store.len(), len1);
}

// Resolver correctness: with updates at T1 < T2 < T3 linked from the same
// original, the record reads as the T3 version whatever order the updates
// were committed in.
#[test]
fn resolver_latest_timestamp_wins_in_any_order() {
    let t1: i64 = 1000;
    let t2: i64 = 2000;
    let t3: i64 = 3000;
    let orders: [[i64; 3]; 3] = [[t1, t2, t3], [t3, t1, t2], [t2, t3, t1]];
    for order in orders {
        let mut store = Store::new();
        let base = offer_with("FRA", "USD", "EUR", 500_000);
        let original = store.create_offer(1, 10, base).action_address;
        let mut latest_payload = None;
        for ts in order {
            let payload = offer_with("FRA", "USD", "EUR", ts as u64);
            let input = UpdateOfferInput {
                original_offer_hash: original,
                previous_offer_hash: original,
                updated_offer: payload.clone(),
            };
            store.update_offer(1, ts, input).unwrap();
            if ts == t3 {
                latest_payload = Some(payload);
            }
        }
        let current = store.get_offer(original).unwrap();
        assert_eq!(current.offer, latest_payload.unwrap());
        assert_eq!(current.action.timestamp, t3);
    }
}

// Update-chain immutability: deleting an update-chain link is always
// rejected, whoever authored the original create-link.
#[test]
fn update_chain_links_cannot_be_deleted() {
    let mut store = Store::new();
    let base = offer_with("FRA", "USD", "EUR", 500_000);
    let original = store.create_offer(1, 10, base).action_address;
    let input = UpdateOfferInput {
        original_offer_hash: original,
        previous_offer_hash: original,
        updated_offer: offer_with("FRA", "USD", "EUR", 600_000),
    };
    store.update_offer(1, 20, input).unwrap();
    let links = store.get_links(original, LinkType::OfferUpdates);
    assert_eq!(links.len(), 1);
    // Neither the link's author nor anyone else may retract it.
    for author in [1u64, 2u64] {
        match store.delete_link(author, 30, links[0].create_address) {
            Err(StoreError::ValidationRejected(reason)) => {
                assert_eq!(reason, "OfferUpdates links cannot be deleted");
            },
            other => panic!("expected rejection, got {:?}", other),
        }
    }
    // The link still resolves afterwards.
    assert_eq!(store.get_links(original, LinkType::OfferUpdates).len(), 1);
}

#[test]
fn delete_link_validator_always_rejects() {
    match validate_delete_link_offer_updates(0, 0) {
        ValidateCallbackResult::Invalid(reason) => {
            assert_eq!(reason, "OfferUpdates links cannot be deleted");
        },
        ValidateCallbackResult::Valid => panic!("delete of an update-chain link was accepted"),
    }
}

#[test]
fn structural_validators_accept() {
    let action = Action {
        author: 1,
        seq: 0,
        timestamp: 10,
        data: ActionData::CreateEntry { entry: 0 },
    };
    let offer = offer_with("FRA", "USD", "EUR", 500_000);
    assert_eq!(validate_create_offer(&action, &offer), ValidateCallbackResult::Valid);
    assert_eq!(
        validate_update_offer(&action, &offer, &action, &offer),
        ValidateCallbackResult::Valid
    );
    assert_eq!(validate_delete_offer(&action, &action, &offer), ValidateCallbackResult::Valid);
}

// Tombstone visibility: after a delete the record reads as absent, and an
// update referencing the retired record is refused (the documented policy
// for the update-versus-delete race).
#[test]
fn tombstone_hides_record_and_blocks_updates() {
    let mut store = Store::new();
    let original = store
        .create_offer(1, 10, offer_with("FRA", "USD", "EUR", 500_000))
        .action_address;
    store.delete_offer(1, 20, original).unwrap();
    assert!(store.get_offer(original).is_none());
    let input = UpdateOfferInput {
        original_offer_hash: original,
        previous_offer_hash: original,
        updated_offer: offer_with("FRA", "USD", "EUR", 600_000),
    };
    match store.update_offer(1, 30, input) {
        Err(StoreError::ValidationRejected(reason)) => {
            assert_eq!(reason, "Offer record has been deleted");
        },
        other => panic!("expected rejection, got {:?}", other),
    }
}

// Composite index isolation: offers filed under one airport's key do not
// appear under another's.
#[test]
fn composite_index_isolation() {
    let mut store = Store::new();
    let record_a = store.create_offer(1, 10, offer_with("AAA", "USD", "EUR", 500_000));
    let record_b = store.create_offer(1, 20, offer_with("BBB", "USD", "EUR", 500_000));
    let pair_b = GetOffersForPairInput {
        airport: "BBB".to_string(),
        offered_currency: "USD".to_string(),
        requested_currency: "EUR".to_string(),
    };
    let found_b = store.get_offers_for_currency_pair(pair_b);
    assert_eq!(found_b.len(), 1);
    assert_eq!(found_b[0], record_b);
    let pair_a = GetOffersForPairInput {
        airport: "AAA".to_string(),
        offered_currency: "USD".to_string(),
        requested_currency: "EUR".to_string(),
    };
    let found_a = store.get_offers_for_currency_pair(pair_a);
    assert_eq!(found_a.len(), 1);
    assert_eq!(found_a[0], record_a);
    let pair_none = GetOffersForPairInput {
        airport: "CCC".to_string(),
        offered_currency: "USD".to_string(),
        requested_currency: "EUR".to_string(),
    };
    assert!(store.get_offers_for_currency_pair(pair_none).is_empty());
}

// Listings hand each record out once, however many index edges point at
// it.
#[test]
fn listing_returns_each_record_once() {
    let mut store = Store::new();
    let record = store.create_offer(1, 10, offer_with("FRA", "USD", "EUR", 500_000));
    let root = store.find_anchor(&"all_offers".to_string()).unwrap();
    // A second index edge to the same record, by another author.
    store
        .create_link(2, 20, root, record.action_address, LinkType::AllOffers, Vec::new())
        .unwrap();
    let all = store.get_all_offers();
    assert_eq!(all.len(), 1);
    assert_eq!(all[0], record);
}

// End-to-end: create, list, update, read, delete, list again.
#[test]
fn end_to_end_offer_lifecycle() {
    let mut store = Store::new();
    let created = offer_with("ZRH", "XDR", "YER", 500_000);
    let record = store.create_offer(1, 10, created.clone());
    let original = record.action_address;

    let all = store.get_all_offers();
    assert_eq!(all.len(), 1);
    assert_eq!(all[0].offer, created);

    let updated = offer_with("ZRH", "XDR", "YER", 750_000);
    let input = UpdateOfferInput {
        original_offer_hash: original,
        previous_offer_hash: original,
        updated_offer: updated.clone(),
    };
    store.update_offer(1, 20, input).unwrap();
    let read = store.get_offer(original).unwrap();
    assert_eq!(read.offer, updated);
    assert_ne!(read.offer, created);

    store.delete_offer(1, 30, original).unwrap();
    assert!(store.get_offer(original).is_none());
    assert!(store.get_all_offers().is_empty());
}

// Error taxonomy: retrieval failures are distinct from validation
// rejections.
#[test]
fn retrieval_failures_are_not_found() {
    let mut store = Store::new();
    assert_eq!(store.get_offer(17), None);
    assert_eq!(store.delete_offer(1, 10, 17), Err(StoreError::NotFound));
    let input = UpdateOfferInput {
        original_offer_hash: 17,
        previous_offer_hash: 17,
        updated_offer: offer_with("FRA", "USD", "EUR", 1),
    };
    assert_eq!(store.update_offer(1, 10, input), Err(StoreError::NotFound));
    assert_eq!(
        store.create_link(1, 10, 17, 17, LinkType::OfferUpdates, Vec::new()),
        Err(StoreError::NotFound)
    );
}

#[test]
fn update_chain_link_needs_record_actions_at_both_ends() {
    let mut store = Store::new();
    let original = store
        .create_offer(1, 10, offer_with("FRA", "USD", "EUR", 500_000))
        .action_address;
    // A tombstone action commits no entry, so it cannot anchor an
    // update-chain link.
    let tombstone = store.delete_offer(1, 20, original).unwrap();
    match store.create_link(1, 30, tombstone, original, LinkType::OfferUpdates, Vec::new()) {
        Err(StoreError::ValidationRejected(reason)) => {
            assert_eq!(reason, "Linked action must reference an entry");
        },
        other => panic!("expected rejection, got {:?}", other),
    }
    // A tombstoned record action is still a valid link end (audit stays
    // possible).
    assert!(store
        .create_link(1, 40, original, original, LinkType::OfferUpdates, Vec::new())
        .is_ok());
}
