use zabbix::frame::{decode_frame, Decoded};
use zabbix::header::{parse_header, Header, HeaderParse};
use zabbix::log::{to_log_record, DEFAULT_LOG_DATA_MAX};
use zabbix::probe::{probe, Direction, ProbeResult};
use zabbix::state::{ParseError, ZabbixConfig, ZabbixState, DEFAULT_MAX_PAYLOAD};
use zabbix::transaction::Progress;

fn frame(flags: u8, payload: &[u8]) -> Vec<u8> {
    let mut v = b"ZBXD".to_vec();
    v.push(flags);
    v.extend_from_slice(&(payload.len() as u32).to_le_bytes());
    v.extend_from_slice(payload);
    v
}

fn large_frame(flags: u8, payload: &[u8]) -> Vec<u8> {
    let mut v = b"ZBXD".to_vec();
    v.push(flags | 4);
    v.extend_from_slice(&(payload.len() as u64).to_le_bytes());
    v.extend_from_slice(payload);
    v
}

fn new_flow() -> ZabbixState {
    ZabbixState::new(ZabbixConfig::default())
}

fn hello_bytes() -> Vec<u8> {
    let mut v = b"ZBXD".to_vec();
    v.extend_from_slice(&[0x01, 0x05, 0x00, 0x00, 0x00]);
    v.extend_from_slice(b"hello");
    v
}

#[test]
fn hello_in_one_chunk() {
    let mut st = new_flow();
    let r = st.parse(Direction::ToServer, &hello_bytes());
    assert_eq!(r.consumed, 14);
    assert!(r.error.is_none());
    assert_eq!(st.transaction_count(), 1);
    let tx = st.get_transaction(0).unwrap();
    assert_eq!(tx.id, 1);
    assert_eq!(tx.flags(), 1);
    assert_eq!(tx.data(), b"hello");
    assert!(!tx.complete);
    assert_eq!(tx.get_progress(), Progress::RequestOnly);
}

#[test]
fn hello_in_two_chunks() {
    let bytes = hello_bytes();
    let mut st = new_flow();
    let r1 = st.parse(Direction::ToServer, &bytes[..9]);
    assert_eq!(r1.consumed, 9);
    assert_eq!(st.transaction_count(), 0);
    assert_eq!(st.pending_len(Direction::ToServer), 9);
    let r2 = st.parse(Direction::ToServer, &bytes[9..]);
    assert_eq!(r2.consumed, 5);
    assert!(r2.error.is_none());
    assert_eq!(st.transaction_count(), 1);
    let tx = st.get_transaction(0).unwrap();
    assert_eq!(tx.id, 1);
    assert_eq!(tx.flags(), 1);
    assert_eq!(tx.data(), b"hello");
    assert_eq!(st.pending_len(Direction::ToServer), 0);
}

#[test]
fn magic_split_from_rest_of_header() {
    let bytes = frame(1, b"payload");
    let mut whole = new_flow();
    whole.parse(Direction::ToServer, &bytes);
    let mut split = new_flow();
    split.parse(Direction::ToServer, &bytes[..4]);
    split.parse(Direction::ToServer, &bytes[4..7]);
    split.parse(Direction::ToServer, &bytes[7..]);
    assert_eq!(whole.transaction_count(), split.transaction_count());
    let a = whole.get_transaction(0).unwrap();
    let b = split.get_transaction(0).unwrap();
    assert_eq!(a.id, b.id);
    assert_eq!(a.flags(), b.flags());
    assert_eq!(a.data(), b.data());
}

#[test]
fn many_frames_any_chunking() {
    let payloads: Vec<Vec<u8>> = (0..6u8).map(|i| (0..(i as usize * 7)).map(|j| j as u8 ^ i).collect()).collect();
    let mut stream = Vec::new();
    for (i, p) in payloads.iter().enumerate() {
        if i % 2 == 0 {
            stream.extend(frame(i as u8 & !4, p));
        } else {
            stream.extend(large_frame(i as u8, p));
        }
    }
    for step in [1usize, 2, 3, 5, 8, 13, 64, stream.len()] {
        let mut st = new_flow();
        for chunk in stream.chunks(step) {
            let r = st.parse(Direction::ToServer, chunk);
            assert_eq!(r.consumed, chunk.len());
            assert!(r.error.is_none());
        }
        assert_eq!(st.transaction_count(), payloads.len() as u64);
        for (i, p) in payloads.iter().enumerate() {
            let tx = st.get_transaction(i).unwrap();
            assert_eq!(tx.id, i as u64 + 1);
            assert_eq!(tx.data(), &p[..]);
            let expect_flags = if i % 2 == 0 { i as u8 & !4 } else { i as u8 | 4 };
            assert_eq!(tx.flags(), expect_flags);
        }
    }
}

#[test]
fn empty_payload_frame() {
    let mut st = new_flow();
    let r = st.parse(Direction::ToServer, &frame(1, b""));
    assert_eq!(r.consumed, 9);
    assert_eq!(st.transaction_count(), 1);
    assert_eq!(st.get_transaction(0).unwrap().data(), b"");
}

#[test]
fn oversized_length_is_malformed() {
    let mut st = ZabbixState::new(ZabbixConfig { max_payload: 10, max_transactions: 100 });
    st.parse(Direction::ToServer, &frame(1, b"ok"));
    let mut big = b"ZBXD".to_vec();
    big.push(1);
    big.extend_from_slice(&0xFFFF_FFFFu32.to_le_bytes());
    let r = st.parse(Direction::ToServer, &big);
    assert_eq!(r.error, Some(ParseError::Malformed));
    assert_eq!(r.consumed, 0);
    assert!(st.is_malformed());
    assert_eq!(st.transaction_count(), 1);
    assert_eq!(st.pending_len(Direction::ToServer), 0);
    let again = st.parse(Direction::ToServer, &frame(1, b"x"));
    assert_eq!(again.error, Some(ParseError::Malformed));
    assert_eq!(again.consumed, 0);
    assert_eq!(st.transaction_count(), 1);
}

#[test]
fn bad_magic_after_frame_is_malformed() {
    let mut st = new_flow();
    let mut bytes = frame(1, b"abc");
    bytes.extend_from_slice(b"HTTP/1.1 200 OK");
    let r = st.parse(Direction::ToServer, &bytes);
    assert_eq!(r.error, Some(ParseError::Malformed));
    assert_eq!(r.consumed, 12);
    assert_eq!(st.transaction_count(), 1);
}

#[test]
fn transaction_limit_is_malformed() {
    let mut st = ZabbixState::new(ZabbixConfig { max_payload: DEFAULT_MAX_PAYLOAD, max_transactions: 1 });
    let mut bytes = frame(1, b"a");
    bytes.extend(frame(1, b"b"));
    let r = st.parse(Direction::ToServer, &bytes);
    assert_eq!(r.error, Some(ParseError::Malformed));
    assert_eq!(r.consumed, 10);
    assert_eq!(st.transaction_count(), 1);
}

#[test]
fn response_without_request() {
    let mut st = new_flow();
    st.parse(Direction::ToClient, &frame(1, b"resp"));
    assert_eq!(st.transaction_count(), 1);
    let tx = st.get_transaction(0).unwrap();
    assert!(tx.complete);
    assert!(tx.request.is_none());
    assert_eq!(tx.get_progress(), Progress::ResponseOnly);
    assert_eq!(tx.data(), b"resp");
}

#[test]
fn responses_pair_in_order() {
    let mut st = new_flow();
    st.parse(Direction::ToServer, &frame(1, b"q1"));
    st.parse(Direction::ToServer, &frame(1, b"q2"));
    st.parse(Direction::ToClient, &frame(3, b"r1"));
    assert_eq!(st.transaction_count(), 2);
    let t1 = st.get_transaction(0).unwrap();
    assert!(t1.complete);
    assert_eq!(t1.get_progress(), Progress::Both);
    assert_eq!(t1.response.as_ref().unwrap().payload, b"r1".to_vec());
    assert_eq!(t1.data(), b"q1");
    assert_eq!(t1.flags(), 1);
    let t2 = st.get_transaction(1).unwrap();
    assert!(!t2.complete);
    st.parse(Direction::ToClient, &frame(3, b"r2"));
    st.parse(Direction::ToClient, &frame(3, b"r3"));
    assert_eq!(st.transaction_count(), 3);
    assert_eq!(st.get_transaction(1).unwrap().response.as_ref().unwrap().payload, b"r2".to_vec());
    let t3 = st.get_transaction(2).unwrap();
    assert_eq!(t3.id, 3);
    assert!(t3.request.is_none());
    assert!(st.get_transaction(3).is_none());
}

#[test]
fn teardown_completes_open_transactions() {
    let mut st = new_flow();
    st.parse(Direction::ToServer, &frame(1, b"q1"));
    st.parse(Direction::ToServer, &frame(1, b"q2"));
    st.parse(Direction::ToClient, &frame(1, b"r1"));
    st.finalize();
    assert_eq!(st.transaction_count(), 2);
    let t2 = st.get_transaction(1).unwrap();
    assert!(t2.complete);
    assert!(t2.response.is_none());
    assert_eq!(t2.data(), b"q2");
}

#[test]
fn header_parse_outcomes() {
    assert_eq!(parse_header(b"ZB"), HeaderParse::NeedMoreData(7));
    assert_eq!(parse_header(b"ABCD"), HeaderParse::NotThisProtocol);
    assert_eq!(parse_header(b"ZBXD"), HeaderParse::NeedMoreData(5));
    assert_eq!(parse_header(b"ZBXD\x04\x01"), HeaderParse::NeedMoreData(7));
    assert_eq!(
        parse_header(&hello_bytes()),
        HeaderParse::Complete { header: Header { flags: 1, payload_length: 5 }, header_size: 9 }
    );
    let big = large_frame(1, b"");
    let mut bytes = big[..5].to_vec();
    bytes.extend_from_slice(&0x0102_0304_0506_0708u64.to_le_bytes());
    assert_eq!(
        parse_header(&bytes),
        HeaderParse::Complete { header: Header { flags: 5, payload_length: 0x0102_0304_0506_0708 }, header_size: 13 }
    );
}

#[test]
fn decode_frame_outcomes() {
    let mut bytes = hello_bytes();
    bytes.extend_from_slice(b"ZB");
    match decode_frame(&bytes, 100) {
        Decoded::Frame { message, consumed } => {
            assert_eq!(consumed, 14);
            assert_eq!(message.payload, b"hello".to_vec());
            assert_eq!(message.header.payload_length, 5);
        }
        _ => panic!("expected a frame"),
    }
    assert!(matches!(decode_frame(&bytes[..12], 100), Decoded::NeedMoreData));
    assert!(matches!(decode_frame(&bytes, 4), Decoded::Malformed));
    assert!(matches!(decode_frame(b"XXXXXXXXX", 100), Decoded::Malformed));
}

#[test]
fn probe_outcomes() {
    assert_eq!(probe(b"ZBX", Direction::ToServer, 100), ProbeResult::NeedMoreData);
    assert_eq!(probe(b"GET / HTTP/1.1", Direction::ToServer, 100), ProbeResult::NotMatched);
    assert_eq!(probe(b"ZBXD\x01\x05", Direction::ToServer, 100), ProbeResult::NeedMoreData);
    assert_eq!(probe(&hello_bytes()[..9], Direction::ToServer, 100), ProbeResult::Matched);
    assert_eq!(probe(&hello_bytes(), Direction::ToClient, 4), ProbeResult::NotMatched);
}

#[test]
fn log_record_fields() {
    let mut st = new_flow();
    st.parse(Direction::ToServer, &frame(3, b"hello"));
    let rec = to_log_record(st.get_transaction(0).unwrap(), DEFAULT_LOG_DATA_MAX);
    assert_eq!(rec.flags, 3);
    assert_eq!(rec.data, "hello");
}

#[test]
fn log_record_truncates_and_replaces_invalid_bytes() {
    let mut st = new_flow();
    let mut payload = vec![0xFFu8];
    payload.extend(std::iter::repeat(b'a').take(300));
    st.parse(Direction::ToServer, &frame(1, &payload));
    let rec = to_log_record(st.get_transaction(0).unwrap(), DEFAULT_LOG_DATA_MAX);
    let expected: String = std::iter::once('\u{FFFD}').chain(std::iter::repeat('a').take(255)).collect();
    assert_eq!(rec.data, expected);
}

#[test]
fn log_prefix_of_short_and_long_data() {
    assert_eq!(zabbix::log::log_data_prefix(b"abc", 256), "abc");
    assert_eq!(zabbix::log::log_data_prefix(b"abcdef", 4), "abcd");
    assert_eq!(zabbix::log::log_data_prefix(b"", 4), "");
}
