use offers::{Offer, Record, Store, UpdateOfferInput};

fn sample_offer_1() -> Offer {
    Offer {
        amount_micros: 500_000,
        offered_currency: "Lorem ipsum dolor sit amet, consectetur adipiscing elit.".to_string(),
        requested_currency: "Lorem ipsum dolor sit amet, consectetur adipiscing elit.".to_string(),
        available_from: 1674053334548000,
        available_until: 1674053334548000,
        airport: "Lorem ipsum dolor sit amet, consectetur adipiscing elit.".to_string(),
    }
}

fn sample_offer_2() -> Offer {
    Offer {
        amount_micros: 1_500_000,
        offered_currency: "Lorem ipsum 2".to_string(),
        requested_currency: "Lorem ipsum 2".to_string(),
        available_from: 1674059334548000,
        available_until: 1674059334548000,
        airport: "Lorem ipsum 2".to_string(),
    }
}

const ALICE: u64 = 1;

#[test]
fn create_offer_test() {
    let mut store = Store::new();
    let sample = sample_offer_1();
    let record: Record = store.create_offer(ALICE, 1674053334548000, sample.clone());
    let entry: Offer = record.offer.clone();
    assert!(entry.eq(&sample));
}

#[test]
fn create_and_read_offer() {
    let mut store = Store::new();
    let sample = sample_offer_1();
    let record: Record = store.create_offer(ALICE, 1674053334548000, sample.clone());
    let get_record: Option<Record> = store.get_offer(record.action_address);
    assert_eq!(record, get_record.unwrap());
}

#[test]
fn create_and_update_offer() {
    let mut store = Store::new();
    let sample_1 = sample_offer_1();
    let record: Record = store.create_offer(ALICE, 1674053334548000, sample_1.clone());
    let original_action_hash = record.action_address;

    let sample_2 = sample_offer_2();
    let input = UpdateOfferInput {
        original_offer_hash: original_action_hash,
        previous_offer_hash: original_action_hash,
        updated_offer: sample_2.clone(),
    };
    let update_record: Record = store.update_offer(ALICE, 1674059334548000, input).unwrap();
    let entry: Offer = update_record.offer.clone();
    assert_eq!(sample_2, entry);

    let get_record: Option<Record> = store.get_offer(original_action_hash);
    assert_eq!(update_record, get_record.unwrap());

    let input = UpdateOfferInput {
        original_offer_hash: original_action_hash,
        previous_offer_hash: update_record.action_address,
        updated_offer: sample_1.clone(),
    };
    let update_record: Record = store.update_offer(ALICE, 1674069334548000, input).unwrap();
    let entry: Offer = update_record.offer.clone();
    assert_eq!(sample_1, entry);

    let get_record: Option<Record> = store.get_offer(original_action_hash);
    assert_eq!(update_record, get_record.unwrap());
}

#[test]
fn create_and_delete_offer() {
    let mut store = Store::new();
    let sample_1 = sample_offer_1();
    let record: Record = store.create_offer(ALICE, 1674053334548000, sample_1);
    let original_action_hash = record.action_address;

    let _delete_action_hash: usize = store
        .delete_offer(ALICE, 1674059334548000, original_action_hash)
        .unwrap();

    let get_record: Option<Record> = store.get_offer(original_action_hash);
    assert!(get_record.is_none());
}
