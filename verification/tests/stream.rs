use event_client::client::EventClient;
use event_client::decoder::{Decoded, StreamDecoder, FRAME_FINAL, FRAME_PART};
use event_client::error::{ClientError, ConnectionFault, ServerStatus};
use event_client::event::TokenTransferEvent;
use event_client::stream::{EventStream, Phase, StreamItem};

fn event(ledger: u32, source: &str, destination: &str, amount: u64) -> TokenTransferEvent {
    TokenTransferEvent {
        ledger,
        tx_hash: vec![ledger as u8; 32],
        source: source.as_bytes().to_vec(),
        destination: destination.as_bytes().to_vec(),
        asset: b"USDC".to_vec(),
        amount,
    }
}

fn frame(flag: u8, body: &[u8]) -> Vec<u8> {
    let mut out = vec![flag];
    out.extend_from_slice(&(body.len() as u32).to_be_bytes());
    out.extend_from_slice(body);
    out
}

fn event_frame(e: &TokenTransferEvent) -> Vec<u8> {
    frame(FRAME_FINAL, &e.encode().unwrap())
}

fn three_events() -> Vec<TokenTransferEvent> {
    vec![
        event(100, "GABC", "GDEF", 5),
        event(150, "GXYZ", "GKLM", 7),
        event(200, "GQRS", "GTUV", 9),
    ]
}

fn open(start: u32, end: u32, accounts: &[&str]) -> EventStream {
    let client = EventClient::new("https://events.example:443".to_string()).unwrap();
    let ids: Vec<String> = accounts.iter().map(|a| a.to_string()).collect();
    client.get_ttp_events(start, end, ids).unwrap()
}

#[test]
fn three_events_then_clean_completion() {
    let events = three_events();
    let mut stream = open(100, 200, &[]);
    for e in &events {
        stream.on_bytes(&event_frame(e));
    }
    stream.on_close();
    assert_eq!(stream.next_event(), StreamItem::Event(events[0].clone()));
    assert_eq!(stream.phase(), Phase::Yielding);
    assert_eq!(stream.next_event(), StreamItem::Event(events[1].clone()));
    assert_eq!(stream.next_event(), StreamItem::Event(events[2].clone()));
    assert_eq!(stream.next_event(), StreamItem::Done);
    assert_eq!(stream.phase(), Phase::Closed);
    assert_eq!(stream.next_event(), StreamItem::Done);
}

#[test]
fn only_the_matching_event_is_received() {
    let events = three_events();
    let mut stream = open(100, 200, &["GABC"]);
    for e in &events {
        stream.on_bytes(&event_frame(e));
    }
    stream.on_close();
    assert_eq!(stream.next_event(), StreamItem::Event(events[0].clone()));
    assert_eq!(stream.next_event(), StreamItem::Done);
}

#[test]
fn filter_matches_destination_too() {
    let events = three_events();
    let mut stream = open(100, 200, &["GKLM", "GNONE"]);
    for e in &events {
        stream.on_bytes(&event_frame(e));
    }
    assert_eq!(stream.next_event(), StreamItem::Event(events[1].clone()));
    assert_eq!(stream.next_event(), StreamItem::NeedInput);
    assert_eq!(stream.phase(), Phase::AwaitingHeader);
}

#[test]
fn filter_is_case_sensitive() {
    let events = three_events();
    let mut stream = open(100, 200, &["gabc"]);
    for e in &events {
        stream.on_bytes(&event_frame(e));
    }
    stream.on_close();
    assert_eq!(stream.next_event(), StreamItem::Done);
}

#[test]
fn no_event_outside_the_filter_is_yielded() {
    let accounts = ["GABC", "GTUV"];
    let mut stream = open(1, 1000, &accounts);
    for e in &three_events() {
        stream.on_bytes(&event_frame(e));
    }
    stream.on_close();
    let mut seen = 0;
    loop {
        match stream.next_event() {
            StreamItem::Event(e) => {
                let hit = accounts.iter().any(|a| {
                    a.as_bytes() == e.source.as_slice() || a.as_bytes() == e.destination.as_slice()
                });
                assert!(hit);
                seen += 1;
            }
            StreamItem::Done => break,
            other => panic!("unexpected item {:?}", other),
        }
    }
    assert_eq!(seen, 2);
}

#[test]
fn connection_dropped_after_first_event() {
    let events = three_events();
    let mut stream = open(100, 200, &[]);
    stream.on_bytes(&event_frame(&events[0]));
    let second = event_frame(&events[1]);
    stream.on_bytes(&second[..9]);
    assert_eq!(stream.next_event(), StreamItem::Event(events[0].clone()));
    assert_eq!(stream.next_event(), StreamItem::NeedInput);
    assert_eq!(stream.phase(), Phase::AwaitingBody);
    stream.on_fault(ConnectionFault::Dropped);
    let failed = StreamItem::Failed(ClientError::ConnectionError(ConnectionFault::Dropped));
    assert_eq!(stream.next_event(), failed);
    assert_eq!(stream.phase(), Phase::Errored);
    assert_eq!(stream.next_event(), failed);
}

#[test]
fn buffered_events_come_before_the_fault() {
    let events = three_events();
    let mut stream = open(100, 200, &[]);
    stream.on_bytes(&event_frame(&events[0]));
    stream.on_fault(ConnectionFault::Dropped);
    assert_eq!(stream.next_event(), StreamItem::Event(events[0].clone()));
    assert_eq!(
        stream.next_event(),
        StreamItem::Failed(ClientError::ConnectionError(ConnectionFault::Dropped))
    );
}

#[test]
fn timeout_and_refusal_are_connection_errors() {
    let mut stream = open(1, 2, &[]);
    stream.on_fault(ConnectionFault::Timeout);
    assert_eq!(
        stream.next_event(),
        StreamItem::Failed(ClientError::ConnectionError(ConnectionFault::Timeout))
    );
    let mut stream = open(1, 2, &[]);
    stream.on_fault(ConnectionFault::Refused);
    assert_eq!(
        stream.next_event(),
        StreamItem::Failed(ClientError::ConnectionError(ConnectionFault::Refused))
    );
}

#[test]
fn server_error_carries_code_and_message() {
    let events = three_events();
    let mut stream = open(100, 200, &[]);
    stream.on_bytes(&event_frame(&events[0]));
    stream.on_server_error(ServerStatus { code: 14, message: "unavailable".to_string() });
    assert_eq!(stream.next_event(), StreamItem::Event(events[0].clone()));
    let failed = StreamItem::Failed(ClientError::ServerError(ServerStatus {
        code: 14,
        message: "unavailable".to_string(),
    }));
    assert_eq!(stream.next_event(), failed);
    assert_eq!(stream.next_event(), failed);
}

#[test]
fn first_end_signal_wins() {
    let mut stream = open(1, 2, &[]);
    stream.on_close();
    stream.on_fault(ConnectionFault::Dropped);
    stream.on_server_error(ServerStatus { code: 2, message: "late".to_string() });
    assert!(stream.is_ended());
    assert_eq!(stream.next_event(), StreamItem::Done);
}

#[test]
fn bytes_after_the_end_are_ignored() {
    let events = three_events();
    let mut stream = open(100, 200, &[]);
    stream.on_close();
    stream.on_bytes(&event_frame(&events[0]));
    assert_eq!(stream.next_event(), StreamItem::Done);
}

#[test]
fn clean_close_inside_a_frame_is_a_decode_error() {
    let events = three_events();
    let mut stream = open(100, 200, &[]);
    let bytes = event_frame(&events[0]);
    stream.on_bytes(&bytes[..bytes.len() - 1]);
    stream.on_close();
    assert_eq!(stream.next_event(), StreamItem::Failed(ClientError::DecodeError));
    assert_eq!(stream.phase(), Phase::Errored);
}

#[test]
fn clean_close_between_parts_is_a_decode_error() {
    let body = three_events()[0].encode().unwrap();
    let mut stream = open(100, 200, &[]);
    stream.on_bytes(&frame(FRAME_PART, &body[..10]));
    stream.on_close();
    assert_eq!(stream.next_event(), StreamItem::Failed(ClientError::DecodeError));
}

#[test]
fn unknown_frame_kind_is_a_decode_error() {
    let events = three_events();
    let mut stream = open(100, 200, &[]);
    stream.on_bytes(&event_frame(&events[0]));
    stream.on_bytes(&frame(2, &events[1].encode().unwrap()));
    assert_eq!(stream.next_event(), StreamItem::Event(events[0].clone()));
    assert_eq!(stream.next_event(), StreamItem::Failed(ClientError::DecodeError));
    stream.on_bytes(&event_frame(&events[2]));
    assert_eq!(stream.next_event(), StreamItem::Failed(ClientError::DecodeError));
}

#[test]
fn oversized_frame_is_a_decode_error() {
    let mut stream = open(100, 200, &[]);
    stream.on_bytes(&[FRAME_FINAL, 0x00, 0x10, 0x00, 0x01]);
    assert_eq!(stream.next_event(), StreamItem::Failed(ClientError::DecodeError));
}

#[test]
fn largest_allowed_length_waits_for_its_body() {
    let mut stream = open(100, 200, &[]);
    stream.on_bytes(&[FRAME_FINAL, 0x00, 0x10, 0x00, 0x00]);
    assert_eq!(stream.next_event(), StreamItem::NeedInput);
    assert_eq!(stream.phase(), Phase::AwaitingBody);
}

#[test]
fn malformed_body_is_a_decode_error() {
    let mut body = three_events()[0].encode().unwrap();
    body.push(0);
    let mut stream = open(100, 200, &[]);
    stream.on_bytes(&frame(FRAME_FINAL, &body));
    assert_eq!(stream.next_event(), StreamItem::Failed(ClientError::DecodeError));
}

#[test]
fn event_in_several_parts() {
    let events = three_events();
    let body = events[1].encode().unwrap();
    let mut stream = open(100, 200, &[]);
    stream.on_bytes(&frame(FRAME_PART, &body[..7]));
    stream.on_bytes(&frame(FRAME_PART, &body[7..50]));
    assert_eq!(stream.next_event(), StreamItem::NeedInput);
    assert_eq!(stream.phase(), Phase::AwaitingHeader);
    stream.on_bytes(&frame(FRAME_FINAL, &body[50..]));
    stream.on_bytes(&event_frame(&events[2]));
    stream.on_close();
    assert_eq!(stream.next_event(), StreamItem::Event(events[1].clone()));
    assert_eq!(stream.next_event(), StreamItem::Event(events[2].clone()));
    assert_eq!(stream.next_event(), StreamItem::Done);
}

#[test]
fn parts_beyond_the_body_limit_are_a_decode_error() {
    let mut stream = open(100, 200, &[]);
    let half = vec![0u8; 0x8_0000];
    stream.on_bytes(&frame(FRAME_PART, &half));
    stream.on_bytes(&frame(FRAME_PART, &half));
    stream.on_bytes(&frame(FRAME_PART, &[0u8]));
    assert_eq!(stream.next_event(), StreamItem::Failed(ClientError::DecodeError));
}

#[test]
fn bytes_may_arrive_one_at_a_time() {
    let events = three_events();
    let mut bytes = Vec::new();
    for e in &events {
        bytes.extend_from_slice(&event_frame(e));
    }
    let mut stream = open(100, 200, &[]);
    let mut got = Vec::new();
    for b in &bytes {
        stream.on_bytes(&[*b]);
        loop {
            match stream.next_event() {
                StreamItem::Event(e) => got.push(e),
                StreamItem::NeedInput => break,
                other => panic!("unexpected item {:?}", other),
            }
        }
    }
    stream.on_close();
    assert_eq!(stream.next_event(), StreamItem::Done);
    assert_eq!(got, events);
}

#[test]
fn cancel_stops_the_stream() {
    let events = three_events();
    let mut stream = open(100, 200, &[]);
    stream.on_bytes(&event_frame(&events[0]));
    stream.on_bytes(&event_frame(&events[1]));
    assert_eq!(stream.next_event(), StreamItem::Event(events[0].clone()));
    stream.cancel();
    assert_eq!(stream.next_event(), StreamItem::Done);
    assert_eq!(stream.phase(), Phase::Closed);
}

#[test]
fn new_stream_awaits_a_header() {
    let mut stream = open(100, 200, &["GABC", "GABC"]);
    assert_eq!(stream.phase(), Phase::AwaitingHeader);
    assert!(!stream.is_ended());
    assert_eq!(stream.request().start_ledger(), 100);
    assert_eq!(stream.request().end_ledger(), 200);
    assert_eq!(stream.request().filter().len(), 1);
    assert_eq!(stream.next_event(), StreamItem::NeedInput);
}

#[test]
fn decoder_yields_frames_in_the_order_sent() {
    let events = three_events();
    let mut decoder = StreamDecoder::new();
    decoder.push(&event_frame(&events[2]));
    decoder.push(&event_frame(&events[0]));
    decoder.push(&event_frame(&events[1]));
    assert_eq!(decoder.next(), Decoded::Event(events[2].clone()));
    assert_eq!(decoder.next(), Decoded::Event(events[0].clone()));
    assert_eq!(decoder.next(), Decoded::Event(events[1].clone()));
    assert_eq!(decoder.next(), Decoded::NeedMore);
    assert_eq!(decoder.buffered(), 0);
    assert_eq!(decoder.partial_len(), 0);
}

#[test]
fn decoder_stops_in_front_of_a_malformed_frame() {
    let mut decoder = StreamDecoder::new();
    decoder.push(&[9, 0, 0, 0, 0, 1, 2]);
    assert_eq!(decoder.next(), Decoded::Malformed);
    assert_eq!(decoder.buffered(), 7);
    assert_eq!(decoder.next(), Decoded::Malformed);
}

#[test]
fn decoder_keeps_the_parts_of_the_event_under_way() {
    let body = three_events()[0].encode().unwrap();
    let mut decoder = StreamDecoder::new();
    decoder.push(&frame(FRAME_PART, &body[..20]));
    decoder.push(&[FRAME_FINAL, 0, 0]);
    assert_eq!(decoder.next(), Decoded::NeedMore);
    assert_eq!(decoder.partial_len(), 20);
    assert_eq!(decoder.buffered(), 3);
}
