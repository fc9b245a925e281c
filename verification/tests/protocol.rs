use lanbeam::consts::{
    KIND_CONTROL, KIND_FILE_CHUNK, MAX_FILE_DATA, MAX_PLAINTEXT, TRANSFER_V1, TRANSFER_V2,
};
use lanbeam::error::LanBeamError;
use lanbeam::protocol::{decode, encode_control, encode_file_chunk, negotiate_version, Frame};
use serde_json::Value;

fn message(tag: &str, fields: Vec<(&str, Value)>) -> Vec<u8> {
    let mut m = serde_json::Map::new();
    m.insert("t".to_string(), Value::from(tag));
    for (k, v) in fields {
        m.insert(k.to_string(), v);
    }
    serde_json::to_vec(&Value::Object(m)).unwrap()
}

fn round_trips(json: &[u8]) {
    let enc = encode_control(json);
    assert_eq!(enc[0], KIND_CONTROL);
    assert_eq!(decode(&enc).unwrap(), Frame::Control(json.to_vec()));
}

#[test]
fn control_roundtrip() {
    round_trips(&message(
        "file_send_reply",
        vec![
            ("transfer_id", Value::from("t-1")),
            ("accept", Value::from(true)),
            ("reason", Value::Null),
            ("offsets", Value::Null),
        ],
    ));
}

#[test]
fn paged_manifest_roundtrip() {
    round_trips(&message(
        "file_list_begin",
        vec![
            ("transfer_id", Value::from("t-1")),
            ("total_size", Value::from(1234)),
            ("file_count", Value::from(2)),
        ],
    ));
    let mut file = serde_json::Map::new();
    file.insert("name".to_string(), Value::from("docs/a.txt"));
    file.insert("size".to_string(), Value::from(10));
    round_trips(&message("file_list_entry", vec![("file", Value::Object(file))]));
    round_trips(&message("file_list_end", vec![("transfer_id", Value::from("t-1"))]));
}

#[test]
fn file_chunk_roundtrip() {
    let bytes = vec![7u8; 1000];
    let enc = encode_file_chunk(42, &bytes).unwrap();
    assert_eq!(enc[0], KIND_FILE_CHUNK);
    assert_eq!(decode(&enc).unwrap(), Frame::FileChunk(42, bytes));
}

#[test]
fn a_chunk_index_is_big_endian() {
    let enc = encode_file_chunk(0x0102_0304, &[9]).unwrap();
    assert_eq!(enc, vec![2, 1, 2, 3, 4, 9]);
    assert_eq!(decode(&enc).unwrap(), Frame::FileChunk(0x0102_0304, vec![9]));
    let enc = encode_file_chunk(u32::MAX, &[]).unwrap();
    assert_eq!(decode(&enc).unwrap(), Frame::FileChunk(u32::MAX, vec![]));
}

#[test]
fn chunk_too_large_rejected() {
    assert!(encode_file_chunk(0, &vec![0u8; MAX_FILE_DATA + 1]).is_err());
}

#[test]
fn the_largest_chunk_fits_one_message() {
    let enc = encode_file_chunk(0, &vec![0u8; MAX_FILE_DATA]).unwrap();
    assert_eq!(enc.len(), MAX_PLAINTEXT);
    match encode_file_chunk(0, &vec![0u8; MAX_FILE_DATA + 1]) {
        Err(LanBeamError::Protocol(m)) => assert_eq!(m, "file chunk exceeds MAX_FILE_DATA"),
        other => panic!("{other:?}"),
    }
}

fn refusal(frame: &[u8]) -> String {
    match decode(frame) {
        Err(LanBeamError::Protocol(m)) => m,
        other => panic!("{other:?}"),
    }
}

#[test]
fn unknown_kind_is_error() {
    assert!(decode(&[0x09, 1, 2, 3]).is_err());
    assert!(decode(&[]).is_err());
}

#[test]
fn refusals_name_their_reason() {
    assert_eq!(refusal(&[0x09, 1, 2, 3]), "unknown frame kind 0x09");
    assert_eq!(refusal(&[0xFE]), "unknown frame kind 0xfe");
    assert_eq!(refusal(&[]), "empty frame");
    assert_eq!(refusal(&[KIND_FILE_CHUNK, 0, 0, 1]), "truncated file chunk header");
}

#[test]
fn hello_exchange_roundtrip_and_negotiation() {
    round_trips(&message(
        "hello",
        vec![("versions", Value::from(vec![Value::from(TRANSFER_V1), Value::from(TRANSFER_V2)]))],
    ));
    round_trips(&message(
        "device_info",
        vec![
            ("name", Value::from("Johns-PC")),
            ("platform", Value::from("windows")),
            ("app_version", Value::from("0.1.0")),
        ],
    ));
    round_trips(&message("bye", vec![]));
    assert_eq!(negotiate_version(&[TRANSFER_V1]), Some(TRANSFER_V1));
    assert_eq!(negotiate_version(&[TRANSFER_V1, 7]), Some(TRANSFER_V1));
    assert_eq!(negotiate_version(&[9]), None);
    assert_eq!(negotiate_version(&[]), None);
}

#[test]
fn negotiate_picks_highest_common_transfer_version() {
    assert_eq!(negotiate_version(&[TRANSFER_V1, TRANSFER_V2]), Some(TRANSFER_V2));
    assert_eq!(negotiate_version(&[TRANSFER_V1]), Some(TRANSFER_V1));
    assert_eq!(negotiate_version(&[TRANSFER_V2, TRANSFER_V1]), Some(TRANSFER_V2));
}

#[test]
fn pair_messages_roundtrip() {
    round_trips(&message("pair_request", vec![("code", Value::from("482913"))]));
    round_trips(&message(
        "pair_confirm",
        vec![
            ("accept", Value::from(true)),
            ("name", Value::from("Johns-PC")),
            ("reason", Value::Null),
        ],
    ));
    round_trips(&message(
        "pair_confirm",
        vec![
            ("accept", Value::from(false)),
            ("name", Value::from("Johns-PC")),
            ("reason", Value::from("code expired")),
        ],
    ));
}

#[test]
fn v2_control_variant_fits_one_frame() {
    let json = message(
        "text_send",
        vec![("text", Value::from("x".repeat(60_000))), ("to_clipboard", Value::from(true))],
    );
    let enc = encode_control(&json);
    assert_eq!(enc[0], KIND_CONTROL);
    assert!(
        enc.len() <= MAX_PLAINTEXT,
        "a v2 control frame must fit one Noise message ({} > {})",
        enc.len(),
        MAX_PLAINTEXT
    );
    round_trips(&json);
}
