use event_client::client::{account_bytes, check_address, filter_description, EventClient};
use event_client::error::ClientError;
use event_client::event::{decode_event, TokenTransferEvent};
use event_client::filter::{contains_id, dedup_ids, AccountFilter};
use event_client::request::EventRequest;
use event_client::wire::{push_range, push_u16, push_u32, push_u64, read_u16, read_u32, read_u64,
    same_bytes};

fn sample() -> TokenTransferEvent {
    TokenTransferEvent {
        ledger: 0x0102_0304,
        tx_hash: (0u8..32).collect(),
        source: b"GA".to_vec(),
        destination: b"GBC".to_vec(),
        asset: b"X".to_vec(),
        amount: 0x1122_3344_5566_7788,
    }
}

fn sample_bytes() -> Vec<u8> {
    let mut b = vec![1, 2, 3, 4];
    b.extend(0u8..32);
    b.extend_from_slice(&[0x11, 0x22, 0x33, 0x44, 0x55, 0x66, 0x77, 0x88]);
    b.extend_from_slice(&[0, 2, b'G', b'A']);
    b.extend_from_slice(&[0, 3, b'G', b'B', b'C']);
    b.extend_from_slice(&[0, 1, b'X']);
    b
}

#[test]
fn new_keeps_the_address() {
    let client = EventClient::new("https://events.example:443".to_string()).unwrap();
    assert_eq!(client.server_address(), "https://events.example:443");
}

#[test]
fn empty_address_is_invalid() {
    assert_eq!(EventClient::new(String::new()).err(), Some(ClientError::InvalidAddress));
}

#[test]
fn address_with_space_or_control_is_invalid() {
    for bad in ["events example", " events.example", "events.example\n", "a\tb", "a\u{7f}b", "\0"] {
        assert_eq!(EventClient::new(bad.to_string()).err(), Some(ClientError::InvalidAddress));
    }
}

#[test]
fn address_outside_ascii_is_accepted() {
    assert!(EventClient::new("https://événements.example".to_string()).is_ok());
    assert!(check_address(b"!"));
    assert!(!check_address(b""));
    assert!(!check_address(b" "));
}

#[test]
fn get_info_names_the_address() {
    let client = EventClient::new("https://events.example:443".to_string()).unwrap();
    assert_eq!(client.get_info(), "EventClient connected to: https://events.example:443");
}

#[test]
fn get_info_is_the_same_every_time() {
    let client = EventClient::new("localhost:50051".to_string()).unwrap();
    let first = client.get_info();
    for _ in 0..5 {
        assert_eq!(client.get_info(), first);
    }
    assert_eq!(client.server_address(), "localhost:50051");
}

#[test]
fn reversed_range_is_invalid() {
    let client = EventClient::new("https://events.example:443".to_string()).unwrap();
    assert_eq!(client.get_ttp_events(200, 100, vec![]).err(), Some(ClientError::InvalidRange));
    assert_eq!(
        client.get_ttp_events(1, 0, vec!["GABC".to_string()]).err(),
        Some(ClientError::InvalidRange)
    );
    assert_eq!(
        client.get_ttp_events(u32::MAX, u32::MAX - 1, vec![]).err(),
        Some(ClientError::InvalidRange)
    );
    assert_eq!(EventRequest::new(5, 4, &vec![]).err(), Some(ClientError::InvalidRange));
}

#[test]
fn single_ledger_range_is_valid() {
    let client = EventClient::new("https://events.example:443".to_string()).unwrap();
    assert!(client.get_ttp_events(7, 7, vec![]).is_ok());
    assert!(client.get_ttp_events(0, u32::MAX, vec![]).is_ok());
}

#[test]
fn request_drops_repeated_accounts_in_order() {
    let ids = vec![b"B".to_vec(), b"A".to_vec(), b"B".to_vec(), b"b".to_vec(), b"A".to_vec()];
    let request = EventRequest::new(1, 2, &ids).unwrap();
    assert_eq!(request.filter().ids(), &vec![b"B".to_vec(), b"A".to_vec(), b"b".to_vec()]);
    assert_eq!(dedup_ids(&ids), vec![b"B".to_vec(), b"A".to_vec(), b"b".to_vec()]);
    assert_eq!(dedup_ids(&vec![]), Vec::<Vec<u8>>::new());
}

#[test]
fn request_encodes_to_one_frame() {
    let ids = vec![b"GA".to_vec(), b"GBC".to_vec(), b"GA".to_vec()];
    let request = EventRequest::new(100, 200, &ids).unwrap();
    let expected: Vec<u8> = vec![
        0, 0, 0, 0, 21, 0, 0, 0, 100, 0, 0, 0, 200, 0, 0, 0, 2, 0, 2, b'G', b'A', 0, 3, b'G',
        b'B', b'C',
    ];
    assert_eq!(request.encode().unwrap(), expected);
}

#[test]
fn request_without_accounts_encodes_to_the_fixed_part() {
    let request = EventRequest::new(1, 0x0102_0304, &vec![]).unwrap();
    assert_eq!(request.encode().unwrap(), vec![0, 0, 0, 0, 12, 0, 0, 0, 1, 1, 2, 3, 4, 0, 0, 0, 0]);
}

#[test]
fn request_with_an_overlong_account_does_not_encode() {
    let request = EventRequest::new(1, 2, &vec![vec![b'G'; 0x1_0000]]).unwrap();
    assert_eq!(request.encode().err(), Some(ClientError::EncodingError));
    let request = EventRequest::new(1, 2, &vec![vec![b'G'; 0xFFFF]]).unwrap();
    assert_eq!(request.encode().unwrap().len(), 5 + 12 + 2 + 0xFFFF);
}

#[test]
fn request_over_the_body_limit_does_not_encode() {
    let ids: Vec<Vec<u8>> = (0u32..17).map(|i| {
        let mut id = vec![b'G'; 0xFFFF];
        id[0] = i as u8;
        id
    }).collect();
    let request = EventRequest::new(1, 2, &ids).unwrap();
    assert_eq!(request.encode().err(), Some(ClientError::EncodingError));
    let fits = EventRequest::new(1, 2, &ids[..15].to_vec()).unwrap();
    assert!(fits.encode().is_ok());
}

#[test]
fn event_encodes_to_the_body_layout() {
    assert_eq!(sample().encode().unwrap(), sample_bytes());
}

#[test]
fn event_decodes_from_the_body_layout() {
    assert_eq!(decode_event(&sample_bytes()), Ok(sample()));
}

#[test]
fn decoding_undoes_encoding() {
    let e = TokenTransferEvent {
        ledger: u32::MAX,
        tx_hash: vec![0xFF; 32],
        source: vec![],
        destination: vec![7; 0xFFFF],
        asset: b"native".to_vec(),
        amount: u64::MAX,
    };
    assert_eq!(decode_event(&e.encode().unwrap()), Ok(e));
}

#[test]
fn event_with_a_bad_hash_or_field_does_not_encode() {
    let mut e = sample();
    e.tx_hash.pop();
    assert_eq!(e.encode().err(), Some(ClientError::EncodingError));
    let mut e = sample();
    e.asset = vec![0; 0x1_0000];
    assert_eq!(e.encode().err(), Some(ClientError::EncodingError));
}

#[test]
fn short_or_long_bodies_do_not_decode() {
    let bytes = sample_bytes();
    for n in 0..bytes.len() {
        assert_eq!(decode_event(&bytes[..n]), Err(ClientError::DecodeError));
    }
    let mut long = bytes.clone();
    long.push(0);
    assert_eq!(decode_event(&long), Err(ClientError::DecodeError));
}

#[test]
fn filter_admits_by_source_or_destination() {
    let filter = AccountFilter::new(&vec![b"GA".to_vec(), b"GZ".to_vec()]);
    assert!(filter.admits(&sample()));
    let filter = AccountFilter::new(&vec![b"GBC".to_vec()]);
    assert!(filter.admits(&sample()));
    let filter = AccountFilter::new(&vec![b"X".to_vec(), b"ga".to_vec(), b"G".to_vec()]);
    assert!(!filter.admits(&sample()));
    assert_eq!(filter.len(), 3);
    assert!(!filter.is_empty());
}

#[test]
fn empty_filter_admits_everything() {
    let filter = AccountFilter::new(&vec![]);
    assert!(filter.is_empty());
    assert!(filter.admits(&sample()));
}

#[test]
fn contains_id_compares_whole_identifiers() {
    let ids = vec![b"GABC".to_vec(), vec![]];
    assert!(contains_id(&ids, b"GABC"));
    assert!(contains_id(&ids, b""));
    assert!(!contains_id(&ids, b"GAB"));
    assert!(!contains_id(&ids, b"GABCD"));
    assert!(!contains_id(&vec![], b""));
}

#[test]
fn filter_description_lists_the_accounts() {
    assert_eq!(filter_description(&vec![]), "all accounts");
    assert_eq!(filter_description(&vec!["GABC".to_string()]), "accounts: GABC");
    assert_eq!(
        filter_description(&vec!["GABC".to_string(), "GDEF".to_string(), "GABC".to_string()]),
        "accounts: GABC, GDEF, GABC"
    );
}

#[test]
fn account_bytes_are_utf8() {
    assert_eq!(
        account_bytes(&vec!["GA".to_string(), "é".to_string(), String::new()]),
        vec![b"GA".to_vec(), vec![0xC3, 0xA9], vec![]]
    );
}

#[test]
fn big_endian_reads() {
    let buf = [0xAA, 0x01, 0x02, 0x03, 0x04, 0x05, 0x06, 0x07, 0x08];
    assert_eq!(read_u16(&buf, 1), 0x0102);
    assert_eq!(read_u32(&buf, 1), 0x0102_0304);
    assert_eq!(read_u64(&buf, 1), 0x0102_0304_0506_0708);
    assert_eq!(read_u16(&[0xFF, 0xFF], 0), u16::MAX);
    assert_eq!(read_u32(&[0xFF; 4], 0), u32::MAX);
    assert_eq!(read_u64(&[0xFF; 8], 0), u64::MAX);
}

#[test]
fn big_endian_writes() {
    let mut out = vec![9];
    push_u16(&mut out, 0x0102);
    push_u32(&mut out, 0x0304_0506);
    push_u64(&mut out, 0x0708_090A_0B0C_0D0E);
    push_range(&mut out, &[1, 2, 3, 4], 1, 3);
    assert_eq!(out, vec![9, 1, 2, 3, 4, 5, 6, 7, 8, 9, 10, 11, 12, 13, 14, 2, 3]);
}

#[test]
fn same_bytes_compares_content() {
    assert!(same_bytes(b"", b""));
    assert!(same_bytes(b"abc", b"abc"));
    assert!(!same_bytes(b"abc", b"abd"));
    assert!(!same_bytes(b"abc", b"ab"));
}
