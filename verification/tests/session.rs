use event_client::client::EventClient;
use event_client::error::{ClientError, ConnectionFault};
use event_client::queue::{Admission, RequestQueue};
use event_client::stream::{Phase, StreamItem};
use event_client::timer::IdleTimer;

#[test]
fn first_request_starts_and_later_ones_wait() {
    let mut queue = RequestQueue::new();
    assert_eq!(queue.active(), None);
    assert_eq!(queue.submit(), Admission::Start(0));
    assert_eq!(queue.submit(), Admission::Wait(1));
    assert_eq!(queue.submit(), Admission::Wait(2));
    assert_eq!(queue.active(), Some(0));
    assert_eq!(queue.waiting(), 2);
}

#[test]
fn waiting_requests_are_served_in_order() {
    let mut queue = RequestQueue::new();
    queue.submit();
    queue.submit();
    queue.submit();
    assert_eq!(queue.finish(), Some(1));
    assert_eq!(queue.submit(), Admission::Wait(3));
    assert_eq!(queue.finish(), Some(2));
    assert_eq!(queue.finish(), Some(3));
    assert_eq!(queue.finish(), None);
    assert_eq!(queue.active(), None);
    assert_eq!(queue.waiting(), 0);
    assert_eq!(queue.submit(), Admission::Start(4));
}

#[test]
fn finishing_an_idle_queue_changes_nothing() {
    let mut queue = RequestQueue::new();
    assert_eq!(queue.finish(), None);
    assert_eq!(queue.submit(), Admission::Start(0));
}

#[test]
fn timer_expires_after_its_limit() {
    let timer = IdleTimer::new(30, 100);
    assert!(!timer.expired(100));
    assert!(!timer.expired(129));
    assert!(timer.expired(130));
    assert!(timer.expired(u64::MAX));
    assert!(!timer.expired(99));
}

#[test]
fn timer_counts_from_the_last_arrival() {
    let mut timer = IdleTimer::new(30, 100);
    timer.touch(120);
    assert_eq!(timer, IdleTimer { limit: 30, last: 120 });
    assert!(!timer.expired(149));
    assert!(timer.expired(150));
    timer.touch(110);
    assert_eq!(timer.last, 120);
}

#[test]
fn timer_with_no_limit_expires_at_once() {
    assert!(IdleTimer::new(0, 5).expired(5));
    assert!(!IdleTimer::new(u64::MAX, 1).expired(u64::MAX));
    assert!(IdleTimer::new(u64::MAX, 0).expired(u64::MAX));
}

#[test]
fn silent_stream_times_out() {
    let client = EventClient::new("https://events.example:443".to_string()).unwrap();
    let mut stream = client.get_ttp_events(100, 200, vec![]).unwrap();
    let timer = IdleTimer::new(30, 0);
    stream.on_tick(&timer, 29);
    assert!(!stream.is_ended());
    assert_eq!(stream.next_event(), StreamItem::NeedInput);
    stream.on_tick(&timer, 30);
    assert!(stream.is_ended());
    assert_eq!(
        stream.next_event(),
        StreamItem::Failed(ClientError::ConnectionError(ConnectionFault::Timeout))
    );
    assert_eq!(stream.phase(), Phase::Errored);
}

#[test]
fn tick_after_the_end_changes_nothing() {
    let client = EventClient::new("https://events.example:443".to_string()).unwrap();
    let mut stream = client.get_ttp_events(100, 200, vec![]).unwrap();
    stream.on_close();
    stream.on_tick(&IdleTimer::new(1, 0), 1000);
    assert_eq!(stream.next_event(), StreamItem::Done);
}
