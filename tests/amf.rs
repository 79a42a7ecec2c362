use scuffed::amf::{find_string_property, parse_command, publish_stream_key, skip_value, AmfError};

fn string(v: &mut Vec<u8>, s: &str) {
    v.push(2);
    v.extend_from_slice(&(s.len() as u16).to_be_bytes());
    v.extend_from_slice(s.as_bytes());
}

fn number(v: &mut Vec<u8>, x: f64) {
    v.push(0);
    v.extend_from_slice(&x.to_bits().to_be_bytes());
}

fn key(v: &mut Vec<u8>, s: &str) {
    v.extend_from_slice(&(s.len() as u16).to_be_bytes());
    v.extend_from_slice(s.as_bytes());
}

fn connect() -> Vec<u8> {
    let mut v = Vec::new();
    string(&mut v, "connect");
    number(&mut v, 1.0);
    v.push(3);
    key(&mut v, "flashVer");
    string(&mut v, "FMLE/3.0");
    key(&mut v, "capabilities");
    number(&mut v, 15.0);
    key(&mut v, "fpad");
    v.extend_from_slice(&[1, 0]);
    key(&mut v, "app");
    string(&mut v, "live");
    v.extend_from_slice(&[0, 0, 9]);
    v
}

#[test]
fn connect_command_and_app() {
    let msg = connect();
    let c = parse_command(&msg).unwrap();
    assert_eq!(c.name, b"connect".to_vec());
    assert_eq!(f64::from_bits(c.transaction_id), 1.0);
    assert_eq!(find_string_property(&msg, c.rest, b"app"), Some(b"live".to_vec()));
    assert_eq!(find_string_property(&msg, c.rest, b"fpad"), None);
    assert_eq!(find_string_property(&msg, c.rest, b"tcUrl"), None);
    assert_eq!(skip_value(&msg, c.rest), Some(msg.len()));
}

#[test]
fn publish_command_key() {
    let mut msg = Vec::new();
    string(&mut msg, "publish");
    number(&mut msg, 5.0);
    msg.push(5);
    string(&mut msg, "abc123");
    string(&mut msg, "live");
    let c = parse_command(&msg).unwrap();
    assert_eq!(c.name, b"publish".to_vec());
    assert_eq!(f64::from_bits(c.transaction_id), 5.0);
    assert_eq!(publish_stream_key(&msg, &c), Ok(b"abc123".to_vec()));
}

#[test]
fn malformed_commands() {
    assert_eq!(parse_command(&[]).err(), Some(AmfError::Truncated));
    assert_eq!(parse_command(&[0, 1, 2]).err(), Some(AmfError::UnexpectedType(0)));
    let mut v = Vec::new();
    string(&mut v, "play");
    v.extend_from_slice(&[0, 1, 2]);
    assert_eq!(parse_command(&v).err(), Some(AmfError::Truncated));
    let mut w = Vec::new();
    string(&mut w, "publish");
    number(&mut w, 2.0);
    w.push(5);
    number(&mut w, 3.0);
    let c = parse_command(&w).unwrap();
    assert_eq!(publish_stream_key(&w, &c), Err(AmfError::UnexpectedType(0)));
    assert_eq!(skip_value(&[0x0a, 0, 0], 0), None);
}

#[test]
fn metadata_numbers() {
    let mut v = Vec::new();
    string(&mut v, "onMetaData");
    v.push(8);
    v.extend_from_slice(&2u32.to_be_bytes());
    key(&mut v, "width");
    number(&mut v, 1280.0);
    key(&mut v, "height");
    number(&mut v, 720.0);
    v.extend_from_slice(&[0, 0, 9]);
    let start = 13 + 5;
    let w = scuffed::amf::find_number_property(&v, start, b"width").unwrap();
    assert_eq!(f64::from_bits(w), 1280.0);
    let h = scuffed::amf::find_number_property(&v, start, b"height").unwrap();
    assert_eq!(f64::from_bits(h), 720.0);
    assert_eq!(scuffed::amf::find_number_property(&v, start, b"framerate"), None);
}
