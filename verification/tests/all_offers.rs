use offers::{Offer, Record, Store};

fn sample_offer_1() -> Offer {
    Offer {
        amount_micros: 500_000,
        offered_currency: "Lorem ipsum dolor sit amet, consectetur adipiscing elit.".to_string(),
        requested_currency: "Lorem ipsum dolor sit amet, consectetur adipiscing elit.".to_string(),
        available_from: 1674053334548000,
        available_until: 1674053334548000,
        airport: "Lorem ipsum dolor sit amet, consectetur adipiscing elit.".to_string(),
    }
}

#[test]
fn create_a_offer_and_get_all_offers() {
    let mut store = Store::new();
    let sample = sample_offer_1();
    let record: Record = store.create_offer(1, 1674053334548000, sample);

    let get_records: Vec<Record> = store.get_all_offers();
    assert_eq!(get_records.len(), 1);
    assert_eq!(get_records[0], record);
}
