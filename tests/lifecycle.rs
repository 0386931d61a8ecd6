use rustlink::error::LifecycleError;
use rustlink::fetcher::{Action, Configuration, Event};
use rustlink::lifecycle::{Controller, Lifecycle};

fn configuration() -> Configuration {
    Configuration {
        fetch_interval_seconds: 2,
        contracts: vec![
            ("BTC".to_string(), "0xaaaa".to_string()),
            ("ETH".to_string(), "0xbbbb".to_string()),
        ],
    }
}

#[test]
fn start_hands_out_the_loop_once() {
    let mut controller = Controller::new(configuration());
    assert_eq!(controller.state(), Lifecycle::Idle);
    let mut machine = controller.start().ok().expect("first start succeeds");
    assert_eq!(controller.state(), Lifecycle::Running);
    assert_eq!(machine.feed_count(), 2);
    assert_eq!(machine.fetch_interval_seconds(), 2);
    assert_eq!(machine.step(Event::Tick), Action::Fetch(0));
    assert_eq!(controller.start().err(), Some(LifecycleError::AlreadyStarted));
    assert_eq!(controller.state(), Lifecycle::Running);
}

#[test]
fn stop_protocol_moves_forward_only() {
    let mut controller = Controller::new(configuration());
    assert_eq!(controller.stop(), Err(LifecycleError::NotRunning));
    assert_eq!(controller.confirm_stop(true), Err(LifecycleError::NotStopping));
    assert!(controller.start().is_ok());
    assert_eq!(controller.confirm_stop(true), Err(LifecycleError::NotStopping));
    assert_eq!(controller.stop(), Ok(()));
    assert_eq!(controller.state(), Lifecycle::Stopping);
    assert_eq!(controller.stop(), Err(LifecycleError::NotRunning));
    assert_eq!(controller.confirm_stop(true), Ok(()));
    assert_eq!(controller.state(), Lifecycle::Stopped);
    assert_eq!(controller.confirm_stop(true), Err(LifecycleError::NotStopping));
    assert_eq!(controller.start().err(), Some(LifecycleError::AlreadyStarted));
    assert_eq!(controller.state(), Lifecycle::Stopped);
}

#[test]
fn unacknowledged_stop_is_an_error() {
    let mut controller = Controller::new(configuration());
    assert!(controller.start().is_ok());
    assert_eq!(controller.stop(), Ok(()));
    assert_eq!(controller.confirm_stop(false), Err(LifecycleError::Unacknowledged));
    assert_eq!(controller.state(), Lifecycle::Stopped);
}
