use rustlink::fetcher::{Action, Configuration, Event, FetchLoop};
use rustlink::round::{Round, Word256};

fn configuration(ids: &[&str], interval: u64) -> Configuration {
    Configuration {
        fetch_interval_seconds: interval,
        contracts: ids
            .iter()
            .enumerate()
            .map(|(i, id)| (id.to_string(), format!("0x{:040x}", i + 1)))
            .collect(),
    }
}

fn round(id: &str, round_id: u128) -> Round {
    Round {
        identifier: id.to_string(),
        round_id,
        answered_in_round: round_id,
        started_at: Word256::from_u128(1_700_000_000),
        updated_at: Word256::from_u128(1_700_000_060),
        answer: 250_050_000_000,
        decimals: 8,
    }
}

#[test]
fn full_cycle_fetches_each_feed_once_in_order() {
    let mut machine = FetchLoop::new(configuration(&["BTC", "ETH", "LINK"], 5));
    let mut fetched = Vec::new();
    let outcomes = vec![Some(round("BTC", 1)), None, Some(round("LINK", 3))];
    for outcome in outcomes {
        match machine.step(Event::Tick) {
            Action::Fetch(i) => fetched.push(i),
            other => panic!("expected a fetch, got {:?}", other),
        }
        let event = match outcome {
            Some(r) => Event::Fetched(r),
            None => Event::FetchFailed,
        };
        let action = machine.step(event);
        assert!(!matches!(action, Action::Fetch(_)));
    }
    assert_eq!(fetched, vec![0, 1, 2]);
    // the next cycle starts again at the first feed
    assert_eq!(machine.step(Event::Tick), Action::Fetch(0));
}

#[test]
fn failed_feed_does_not_end_the_cycle() {
    let mut machine = FetchLoop::new(configuration(&["BTC", "ETH", "LINK"], 1));
    assert_eq!(machine.step(Event::Tick), Action::Fetch(0));
    assert_eq!(machine.step(Event::FetchFailed), Action::ReportFailure(0));
    assert_eq!(machine.step(Event::Tick), Action::Fetch(1));
    assert_eq!(machine.step(Event::FetchFailed), Action::ReportFailure(1));
    assert_eq!(machine.step(Event::Tick), Action::Fetch(2));
}

#[test]
fn nothing_is_delivered_after_cancellation() {
    let mut machine = FetchLoop::new(configuration(&["ETH"], 1));
    assert_eq!(machine.step(Event::Tick), Action::Fetch(0));
    assert_eq!(machine.step(Event::Cancelled), Action::Acknowledge);
    // a read that was in flight is dropped
    assert_eq!(machine.step(Event::Fetched(round("ETH", 7))), Action::Idle);
    let mut deliveries = 0;
    for _ in 0..10 {
        for event in [Event::Tick, Event::Fetched(round("ETH", 8)), Event::Cancelled] {
            if matches!(machine.step(event), Action::Deliver(_)) {
                deliveries += 1;
            }
        }
    }
    assert_eq!(deliveries, 0);
}

#[test]
fn cancellation_while_waiting_is_acknowledged() {
    let mut machine = FetchLoop::new(configuration(&["BTC", "ETH"], 1));
    assert_eq!(machine.step(Event::Cancelled), Action::Acknowledge);
    assert_eq!(machine.step(Event::Cancelled), Action::Idle);
    assert_eq!(machine.step(Event::Tick), Action::Idle);
}

#[test]
fn single_feed_round_is_delivered_unchanged() {
    let mut machine = FetchLoop::new(configuration(&["ETH"], 1));
    assert_eq!(machine.fetch_interval_seconds(), 1);
    assert_eq!(machine.step(Event::Tick), Action::Fetch(0));
    let (identifier, address) = machine.feed(0);
    assert_eq!(identifier, "ETH");
    assert_eq!(address, &format!("0x{:040x}", 1));
    let observed = round("ETH", 10);
    assert_eq!(
        machine.step(Event::Fetched(observed.clone())),
        Action::Deliver(observed)
    );
}

#[test]
fn alternating_outcomes_deliver_only_successes() {
    let mut machine = FetchLoop::new(configuration(&["ETH"], 1));
    let mut delivered = Vec::new();
    let mut reported = 0;
    let mut failed_calls = 0;
    for cycle in 0..8u128 {
        assert_eq!(machine.step(Event::Tick), Action::Fetch(0));
        let event = if cycle % 2 == 0 {
            Event::Fetched(round("ETH", cycle))
        } else {
            failed_calls += 1;
            Event::FetchFailed
        };
        match machine.step(event) {
            Action::Deliver(r) => delivered.push(r.round_id),
            Action::ReportFailure(0) => reported += 1,
            other => panic!("unexpected {:?}", other),
        }
    }
    assert_eq!(delivered, vec![0, 2, 4, 6]);
    assert_eq!(reported, failed_calls);
    assert_eq!(reported, 4);
}

#[test]
fn empty_feed_list_idles_until_cancelled() {
    let mut machine = FetchLoop::new(configuration(&[], 3));
    assert_eq!(machine.feed_count(), 0);
    assert_eq!(machine.step(Event::Tick), Action::Idle);
    assert_eq!(machine.step(Event::Tick), Action::Idle);
    assert_eq!(machine.step(Event::Cancelled), Action::Acknowledge);
}

#[test]
fn stray_events_are_ignored() {
    let mut machine = FetchLoop::new(configuration(&["BTC", "ETH"], 1));
    assert_eq!(machine.step(Event::FetchFailed), Action::Idle);
    assert_eq!(machine.step(Event::Fetched(round("BTC", 1))), Action::Idle);
    assert_eq!(machine.step(Event::Tick), Action::Fetch(0));
    assert_eq!(machine.step(Event::Tick), Action::Idle);
    assert_eq!(
        machine.step(Event::Fetched(round("BTC", 2))),
        Action::Deliver(round("BTC", 2))
    );
    assert_eq!(machine.step(Event::Tick), Action::Fetch(1));
}
