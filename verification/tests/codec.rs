use replikv::codec::{decode, encode, parse_u16, DecodeError};
use replikv::message::{Command, Message};

#[test]
fn encode_exact_frame() {
    let m = Message::new(Command::Put, "x".to_string(), "1".to_string(), 7);
    let frame = encode(&m);
    assert_eq!(
        frame,
        format!("p{:020}{:020}{:020}{}{}", 7, 1, 1, "x", "1")
    );
}

#[test]
fn round_trip_put() {
    let m = Message::new(Command::Put, "key".to_string(), "value".to_string(), 123456789);
    let frame = encode(&m);
    let d = decode(&frame).expect("frame must decode");
    assert_eq!(d.command, Command::Put);
    assert_eq!(d.key, "key");
    assert_eq!(d.value, "value");
    assert_eq!(d.timestamp, 123456789);
}

#[test]
fn round_trip_empty_fields() {
    let m = Message::new(Command::NewConnection, String::new(), String::new(), 0);
    let d = decode(&encode(&m)).expect("frame must decode");
    assert_eq!(d.command, Command::NewConnection);
    assert_eq!(d.key, "");
    assert_eq!(d.value, "");
    assert_eq!(d.timestamp, 0);
}

#[test]
fn round_trip_awkward_characters() {
    let key = "clé avec espaces\net sauts";
    let value = "v=1 'quoted' \"double\" \u{1F600}";
    let m = Message::new(Command::Replicate, key.to_string(), value.to_string(), u64::MAX);
    let d = decode(&encode(&m)).expect("frame must decode");
    assert_eq!(d.command, Command::Replicate);
    assert_eq!(d.key, key);
    assert_eq!(d.value, value);
    assert_eq!(d.timestamp, u64::MAX);
}

#[test]
fn round_trip_every_command() {
    for command in [
        Command::NewConnection,
        Command::Put,
        Command::Get,
        Command::Register,
        Command::Replicate,
    ] {
        let m = Message::new(command, "k".to_string(), "v".to_string(), 42);
        let d = decode(&encode(&m)).expect("frame must decode");
        assert_eq!(d.command, command);
    }
}

#[test]
fn decode_rejects_short_frames() {
    assert_eq!(decode(""), Err(DecodeError::Malformed));
    assert_eq!(decode("p123"), Err(DecodeError::Malformed));
}

#[test]
fn decode_rejects_nondigit_header() {
    let frame = format!("p{:020}{:020}{}{}{}", 7, 1, "000000000000000000ab", "x", "1");
    assert_eq!(decode(&frame), Err(DecodeError::Malformed));
}

#[test]
fn decode_rejects_length_mismatch() {
    let frame = format!("p{:020}{:020}{:020}{}{}", 7, 1, 1, "x", "1trailing");
    assert_eq!(decode(&frame), Err(DecodeError::Malformed));
}

#[test]
fn decode_reports_unknown_command() {
    let frame = format!("z{:020}{:020}{:020}{}{}", 5, 1, 1, "k", "v");
    assert_eq!(decode(&frame), Err(DecodeError::UnknownCommand));
}

#[test]
fn unknown_command_needs_well_formed_frame() {
    // A bad tag on a frame that is itself broken is a malformed frame,
    // not an unknown command.
    assert_eq!(decode("zshort"), Err(DecodeError::Malformed));
}

#[test]
fn parse_u16_accepts_ports() {
    assert_eq!(parse_u16("80"), Some(80));
    assert_eq!(parse_u16("+80"), Some(80));
    assert_eq!(parse_u16("000080"), Some(80));
    assert_eq!(parse_u16("65535"), Some(65535));
    assert_eq!(parse_u16("0"), Some(0));
}

#[test]
fn parse_u16_rejects_nonports() {
    assert_eq!(parse_u16(""), None);
    assert_eq!(parse_u16("+"), None);
    assert_eq!(parse_u16("65536"), None);
    assert_eq!(parse_u16("99999999999999999999999"), None);
    assert_eq!(parse_u16("1a"), None);
    assert_eq!(parse_u16("-1"), None);
    assert_eq!(parse_u16(" 80"), None);
}
