use eth_codec::{DecodeError, LogEntry};
use ethereum_types::{H160, H256};
use rlp::RlpStream;

fn sample_log() -> LogEntry {
    LogEntry {
        address: [0xa1; 20],
        topics: vec![[0x01; 32], [0x02; 32], [0x03; 32]],
        data: vec![0xde, 0xad, 0xbe, 0xef],
    }
}

fn reference_encoding(log: &LogEntry) -> Vec<u8> {
    let topics: Vec<H256> = log.topics.iter().map(|t| H256::from(*t)).collect();
    let mut stream = RlpStream::new();
    stream.begin_list(3);
    stream.append(&H160::from(log.address));
    stream.append_list::<H256, _>(&topics);
    stream.append(&log.data);
    stream.out().to_vec()
}

fn list_of(members: &[Vec<u8>]) -> Vec<u8> {
    let mut stream = RlpStream::new_list(members.len());
    for member in members {
        stream.append_raw(member, 1);
    }
    stream.out().to_vec()
}

fn address_member() -> Vec<u8> {
    let mut out = vec![0x94];
    out.extend_from_slice(&[0xa1; 20]);
    out
}

fn topic_member(fill: u8) -> Vec<u8> {
    let mut out = vec![0xa0];
    out.extend_from_slice(&[fill; 32]);
    out
}

#[test]
fn log_the_default_log_has_the_expected_bytes() {
    let log = LogEntry::default();
    let mut expected = vec![0xd7, 0x94];
    expected.extend_from_slice(&[0; 20]);
    expected.push(0xc0);
    expected.push(0x80);
    assert_eq!(log.encode(), expected);
}

#[test]
fn log_encoding_agrees_with_the_rlp_crate() {
    let mut logs = vec![LogEntry::default(), sample_log()];
    let mut many = sample_log();
    many.topics = (0..40u8).map(|i| [i; 32]).collect();
    many.data = vec![0x7f; 300];
    logs.push(many);
    let mut single = sample_log();
    single.data = vec![0x05];
    logs.push(single);
    for log in &logs {
        assert_eq!(log.encode(), reference_encoding(log));
    }
}

#[test]
fn log_round_trip_keeps_every_field() {
    let log = sample_log();
    let decoded = LogEntry::decode(&log.encode()).expect("decodes");
    assert_eq!(decoded.address, log.address);
    assert_eq!(decoded.topics, log.topics);
    assert_eq!(decoded.data, log.data);
    assert_eq!(LogEntry::decode(&LogEntry::default().encode()), Ok(LogEntry::default()));
}

#[test]
fn log_topics_keep_their_order() {
    let mut log = sample_log();
    log.topics = vec![[9; 32], [1; 32], [5; 32], [1; 32]];
    let decoded = LogEntry::decode(&log.encode()).expect("decodes");
    assert_eq!(decoded.topics, vec![[9; 32], [1; 32], [5; 32], [1; 32]]);
    let mut swapped = log.clone();
    swapped.topics.swap(0, 1);
    assert_ne!(swapped.encode(), log.encode());
}

#[test]
fn log_rlp_append_appends() {
    let log = sample_log();
    let mut stream = vec![0x01];
    log.rlp_append(&mut stream);
    let mut expected = vec![0x01];
    expected.extend_from_slice(&log.encode());
    assert_eq!(stream, expected);
}

#[test]
fn log_payload_is_the_encoding_without_its_prefix() {
    let log = sample_log();
    let encoded = log.encode();
    let (item, used) = eth_codec::framing::read_item(&encoded).expect("an item");
    assert_eq!(used, encoded.len());
    assert_eq!(log.payload(), item.payload);
}

#[test]
fn log_from_item_reads_a_log_out_of_a_run() {
    let log = sample_log();
    let mut run = log.encode();
    run.extend_from_slice(&LogEntry::default().encode());
    let items = eth_codec::framing::read_items(&run).expect("two items");
    assert_eq!(LogEntry::from_item(&items[0]), Ok(log));
    assert_eq!(LogEntry::from_item(&items[1]), Ok(LogEntry::default()));
}

#[test]
fn log_the_rlp_crate_reads_our_encoding() {
    let log = sample_log();
    let encoded = log.encode();
    let rlp = rlp::Rlp::new(&encoded);
    assert_eq!(rlp.item_count(), Ok(3));
    assert_eq!(rlp.val_at::<H160>(0), Ok(H160::from(log.address)));
    let topics: Vec<H256> = log.topics.iter().map(|t| H256::from(*t)).collect();
    assert_eq!(rlp.list_at::<H256>(1), Ok(topics));
    assert_eq!(rlp.val_at::<Vec<u8>>(2), Ok(log.data.clone()));
}

#[test]
fn log_two_or_four_members_are_a_malformed_list() {
    let topics = list_of(&[topic_member(1)]);
    let two = list_of(&[address_member(), topics.clone()]);
    assert_eq!(LogEntry::decode(&two), Err(DecodeError::MalformedList));
    let four = list_of(&[address_member(), topics, vec![0x80], vec![0x80]]);
    assert_eq!(LogEntry::decode(&four), Err(DecodeError::MalformedList));
    assert_eq!(LogEntry::decode(&[0xc0]), Err(DecodeError::MalformedList));
}

#[test]
fn log_what_is_not_one_list_is_a_malformed_list() {
    assert_eq!(LogEntry::decode(&[]), Err(DecodeError::MalformedList));
    assert_eq!(LogEntry::decode(&[0x80]), Err(DecodeError::MalformedList));
    let mut trailing = sample_log().encode();
    trailing.push(0x80);
    assert_eq!(LogEntry::decode(&trailing), Err(DecodeError::MalformedList));
    let mut truncated = sample_log().encode();
    truncated.pop();
    assert_eq!(LogEntry::decode(&truncated), Err(DecodeError::MalformedList));
}

#[test]
fn log_a_misshapen_address_is_field_zero() {
    let topics = list_of(&[]);
    let mut short = vec![0x93];
    short.extend_from_slice(&[0xa1; 19]);
    let bytes = list_of(&[short, topics.clone(), vec![0x80]]);
    assert_eq!(LogEntry::decode(&bytes), Err(DecodeError::FieldShape { index: 0 }));
    let bytes = list_of(&[vec![0xc0], topics, vec![0x80]]);
    assert_eq!(LogEntry::decode(&bytes), Err(DecodeError::FieldShape { index: 0 }));
}

#[test]
fn log_misshapen_topics_are_field_one() {
    let mut short = vec![0x9f];
    short.extend_from_slice(&[1; 31]);
    let cases = vec![
        // a topic of 31 bytes
        list_of(&[topic_member(1), short]),
        // a list among the topics
        list_of(&[topic_member(1), vec![0xc0]]),
        // a payload that does not split into items
        vec![0xc2, 0x83, 0x01],
        // a string where the list belongs
        topic_member(1),
    ];
    for topics in cases {
        let bytes = list_of(&[address_member(), topics, vec![0x80]]);
        assert_eq!(LogEntry::decode(&bytes), Err(DecodeError::FieldShape { index: 1 }));
    }
}

#[test]
fn log_data_that_is_a_list_is_field_two() {
    let bytes = list_of(&[address_member(), list_of(&[]), vec![0xc0]]);
    assert_eq!(LogEntry::decode(&bytes), Err(DecodeError::FieldShape { index: 2 }));
}
