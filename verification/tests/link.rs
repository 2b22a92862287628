use raspi_collector::config::MAX_RETRIES;
use raspi_collector::link::{Link, LinkAction, LinkEvent};

#[test]
fn first_poll_opens_then_exchanges() {
    let mut l = Link::new(false);
    assert!(!l.is_online());
    assert_eq!(l.start(), LinkAction::Open { backoff: false });
    assert_eq!(l.next(LinkEvent::Opened), LinkAction::Exchange { backoff: false });
    assert_eq!(l.next(LinkEvent::ExchangeSucceeded), LinkAction::Deliver { came_online: true });
    assert!(l.is_online());
    // next poll reuses the open handle and reports no transition
    assert_eq!(l.start(), LinkAction::Exchange { backoff: false });
    assert_eq!(l.next(LinkEvent::ExchangeSucceeded), LinkAction::Deliver { came_online: false });
}

#[test]
fn gives_up_after_max_retries_and_reports_offline_once() {
    let mut l = Link::new(false);
    l.start();
    l.next(LinkEvent::Opened);
    l.next(LinkEvent::ExchangeSucceeded);
    assert!(l.is_online());

    // every attempt fails: the handle is dropped on IO errors
    let mut a = l.start();
    assert_eq!(a, LinkAction::Exchange { backoff: false });
    let mut attempts = 1;
    loop {
        a = l.next(LinkEvent::ExchangeFailed { reconnect: true });
        match a {
            LinkAction::Open { backoff } => {
                assert!(backoff);
                attempts += 1;
                a = l.next(LinkEvent::OpenFailed);
                if let LinkAction::GiveUp { .. } = a {
                    break;
                }
                // after a failed open the next attempt opens again
                assert_eq!(a, LinkAction::Open { backoff: true });
                attempts += 1;
                a = l.next(LinkEvent::Opened);
                assert_eq!(a, LinkAction::Exchange { backoff: false });
            }
            LinkAction::GiveUp { .. } => break,
            other => panic!("unexpected {other:?}"),
        }
    }
    assert_eq!(attempts, MAX_RETRIES);
    assert_eq!(a, LinkAction::GiveUp { went_offline: true });
    assert!(!l.is_online());

    // a second failing poll reports no new transition
    assert_eq!(l.start(), LinkAction::Open { backoff: false });
    assert_eq!(l.next(LinkEvent::OpenFailed), LinkAction::Open { backoff: true });
    assert_eq!(l.next(LinkEvent::OpenFailed), LinkAction::Open { backoff: true });
    assert_eq!(l.next(LinkEvent::OpenFailed), LinkAction::GiveUp { went_offline: false });

    // recovery is reported once
    assert_eq!(l.start(), LinkAction::Open { backoff: false });
    assert_eq!(l.next(LinkEvent::Opened), LinkAction::Exchange { backoff: false });
    assert_eq!(l.next(LinkEvent::ExchangeSucceeded), LinkAction::Deliver { came_online: true });
}

#[test]
fn device_needing_init_is_initialised_after_each_open() {
    let mut l = Link::new(true);
    assert_eq!(l.start(), LinkAction::Open { backoff: false });
    assert_eq!(l.next(LinkEvent::Opened), LinkAction::Initialize { backoff: false });
    assert_eq!(l.next(LinkEvent::Initialized), LinkAction::Exchange { backoff: false });
    // busy: retry without reopening or re-initialising
    assert_eq!(l.next(LinkEvent::ExchangeFailed { reconnect: false }), LinkAction::Exchange { backoff: true });
    // read failure: reopen and initialise again
    assert_eq!(l.next(LinkEvent::ExchangeFailed { reconnect: true }), LinkAction::Open { backoff: true });
    assert_eq!(l.attempt_number(), 3);
}

#[test]
fn failed_init_drops_the_handle() {
    let mut l = Link::new(true);
    l.start();
    assert_eq!(l.next(LinkEvent::Opened), LinkAction::Initialize { backoff: false });
    assert_eq!(l.next(LinkEvent::InitFailed), LinkAction::Open { backoff: true });
    assert_eq!(l.attempt_number(), 2);
}
