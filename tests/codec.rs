use flo_observer_store::cache::{decode_game_members, game_member, game_state_from_fields, seq_id_bytes};
use flo_observer_store::cache::{game_key, shard_key};
use flo_observer_store::error::Error;
use flo_observer_store::layout::{chunk_file_name, decimal_bytes};
use flo_observer_store::header::FileHeader;
use flo_observer_store::reader::parse_chunk_number;
use flo_observer_store::record::{is_whole_records, Record};

#[test]
fn record_encodings_are_exact() {
    let mut out = vec![];
    Record::GameEnd.encode(&mut out);
    Record::StopLag(0x01020304).encode(&mut out);
    Record::TickChecksum { tick: 1, checksum: 2 }.encode(&mut out);
    assert_eq!(out, vec![0, 1, 4, 3, 2, 1, 2, 1, 0, 0, 0, 2, 0, 0, 0]);
    assert_eq!(Record::StopLag(-1).encoded_size(), 5);
    assert_eq!(Record::GameEnd.encoded_size(), 1);
    assert_eq!(Record::TickChecksum { tick: 0, checksum: 0 }.encoded_size(), 9);
}

#[test]
fn record_decode_walks_and_rejects() {
    let buf = vec![1, 0xff, 0xff, 0xff, 0xff, 0];
    assert_eq!(Record::decode(&buf, 0), Ok((Record::StopLag(-1), 5)));
    assert_eq!(Record::decode(&buf, 5), Ok((Record::GameEnd, 6)));
    assert_eq!(Record::decode(&buf, 6), Err(Error::RecordDecode));
    assert_eq!(Record::decode(&vec![7], 0), Err(Error::RecordDecode));
    assert_eq!(Record::decode(&vec![2, 0, 0], 0), Err(Error::RecordDecode));
}

#[test]
fn header_bytes_and_decode() {
    let h = FileHeader::new(i32::MAX);
    let b = h.bytes();
    assert_eq!(b, vec![0x66, 0x6c, 0x6f, 0x01, 0xff, 0xff, 0xff, 0x7f]);
    assert_eq!(FileHeader::decode(&b), Ok(h));
    let mut t = b.clone();
    t[0] ^= 1;
    assert_eq!(FileHeader::decode(&t), Err(Error::DecodeArchiveHeader));
}

#[test]
fn chunk_names_parse() {
    assert_eq!(parse_chunk_number(&b"chunk_12".to_vec()), Some(12));
    assert_eq!(parse_chunk_number(&b"chunk_+3".to_vec()), Some(3));
    assert_eq!(parse_chunk_number(&b"chunk_".to_vec()), None);
    assert_eq!(parse_chunk_number(&b"chunk_+".to_vec()), None);
    assert_eq!(parse_chunk_number(&b"chunk_1a".to_vec()), None);
    assert_eq!(parse_chunk_number(&b"_chunk".to_vec()), None);
}

#[test]
fn game_members_round_trip() {
    let members = vec![game_member(0x11), game_member(0x22), vec![1, 2, 3], game_member(0x33)];
    assert_eq!(game_member(0x11), vec![0x11, 0, 0, 0]);
    assert_eq!(decode_game_members(&members), vec![0x11, 0x22, 0x33]);
    let members = vec![game_member(0x11), game_member(0x33)];
    assert_eq!(decode_game_members(&members), vec![0x11, 0x33]);
    assert!(decode_game_members(&vec![]).is_empty());
    assert_eq!(decode_game_members(&vec![game_member(-2)]), vec![-2]);
}

#[test]
fn game_state_needs_both_fields() {
    let s = game_state_from_fields(i32::MAX, Some("shard".to_string()), Some(seq_id_bytes(456))).unwrap();
    assert_eq!(s.id, i32::MAX);
    assert_eq!(s.shard_id, "shard");
    assert_eq!(s.finished_seq_id, 456);
    assert_eq!(seq_id_bytes(456), vec![0xc8, 0x01, 0, 0]);
    assert!(game_state_from_fields(1, Some("a".to_string()), None).is_none());
    assert!(game_state_from_fields(1, None, Some(seq_id_bytes(1))).is_none());
    assert!(game_state_from_fields(1, Some("a".to_string()), Some(vec![1, 2])).is_none());
}

#[test]
fn error_messages() {
    assert_eq!(Error::RecordTooLarge.message(), "record larger than a chunk");
    assert_eq!(Error::Io.message(), "i/o failure");
}

#[test]
fn cache_keys_are_exact() {
    assert_eq!(shard_key("FAKE"), b"flo_observer:shard:FAKE".to_vec());
    assert_eq!(game_key(i32::MAX), b"flo_observer:game:2147483647".to_vec());
    assert_eq!(game_key(i32::MIN), b"flo_observer:game:-2147483648".to_vec());
    assert_eq!(game_key(0x11), b"flo_observer:game:17".to_vec());
    assert_eq!(game_key(0), b"flo_observer:game:0".to_vec());
}

#[test]
fn chunk_file_names_are_exact() {
    assert_eq!(chunk_file_name(0), b"chunk_0".to_vec());
    assert_eq!(chunk_file_name(12), b"chunk_12".to_vec());
    assert_eq!(decimal_bytes(u64::MAX), u64::MAX.to_string().into_bytes());
    assert_eq!(parse_chunk_number(&chunk_file_name(4096)), Some(4096));
}

#[test]
fn whole_records_check() {
    assert!(is_whole_records(&vec![]));
    assert!(is_whole_records(&vec![0, 1, 1, 2, 3, 4, 0]));
    assert!(!is_whole_records(&vec![0, 1, 1, 2, 3]));
    assert!(!is_whole_records(&vec![9]));
}
