use rustlink::error::Error;
use rustlink::round::{Round, Word256};
use rustlink::store::StoreSink;

fn round(id: &str, round_id: u128, answer: u128) -> Round {
    Round {
        identifier: id.to_string(),
        round_id,
        answered_in_round: round_id,
        started_at: Word256::from_u128(1_700_000_000 + round_id),
        updated_at: Word256::from_u128(1_700_000_030 + round_id),
        answer,
        decimals: 8,
    }
}

#[test]
fn never_written_identifier_is_not_found() {
    let store = StoreSink::new();
    assert_eq!(store.read("ETH"), Err(Error::NotFound));
}

#[test]
fn delivered_round_reads_back_exactly() {
    let mut store = StoreSink::new();
    let first = round("ETH", 10, 250_050_000_000);
    store.deliver(first.clone());
    assert_eq!(store.read("ETH"), Ok(first));
    assert_eq!(store.read("BTC"), Err(Error::NotFound));
}

#[test]
fn last_write_wins() {
    let mut store = StoreSink::new();
    store.deliver(round("ETH", 10, 250_050_000_000));
    store.deliver(round("BTC", 4, 6_000_000_000_000));
    let newer = round("ETH", 11, 251_000_000_000);
    store.deliver(newer.clone());
    assert_eq!(store.read("ETH"), Ok(newer));
    assert_eq!(store.read("BTC"), Ok(round("BTC", 4, 6_000_000_000_000)));
}
