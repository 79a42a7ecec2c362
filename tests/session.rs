use scuffed::ingest::MESSAGE_VIDEO;
use scuffed::session::{on_command, on_status, result, write_single_chunk, SessionAction, SessionState, STREAM_ID_ONE};

fn string(v: &mut Vec<u8>, s: &str) {
    v.push(2);
    v.extend_from_slice(&(s.len() as u16).to_be_bytes());
    v.extend_from_slice(s.as_bytes());
}

fn command(name: &str, txid: f64, rest: &[u8]) -> Vec<u8> {
    let mut v = Vec::new();
    string(&mut v, name);
    v.push(0);
    v.extend_from_slice(&txid.to_bits().to_be_bytes());
    v.extend_from_slice(rest);
    v
}

#[test]
fn command_sequence_of_a_publisher() {
    let (s, a) = on_command(SessionState::AwaitingConnect, &command("connect", 1.0, &[3, 0, 0, 9]));
    assert_eq!(s, SessionState::Connected);
    assert!(matches!(a, SessionAction::AcceptConnect { transaction_id } if f64::from_bits(transaction_id) == 1.0));
    let (s, a) = on_command(s, &command("releaseStream", 2.0, &[5]));
    assert_eq!(s, SessionState::Connected);
    assert!(matches!(a, SessionAction::Nothing));
    let (s, a) = on_command(s, &command("createStream", 4.0, &[5]));
    assert!(matches!(a, SessionAction::AcceptCreateStream { transaction_id } if f64::from_bits(transaction_id) == 4.0));
    let mut args = vec![5];
    string(&mut args, "key42");
    string(&mut args, "live");
    let (s, a) = on_command(s, &command("publish", 5.0, &args));
    assert_eq!(s, SessionState::Publishing);
    match a {
        SessionAction::Publish { key } => assert_eq!(key, b"key42".to_vec()),
        _ => panic!("expected publish"),
    }
}

#[test]
fn commands_out_of_turn_change_nothing() {
    let (s, a) = on_command(SessionState::AwaitingConnect, &command("publish", 5.0, &[5]));
    assert_eq!(s, SessionState::AwaitingConnect);
    assert!(matches!(a, SessionAction::Nothing));
    let (s, a) = on_command(SessionState::Publishing, &command("connect", 1.0, &[5]));
    assert_eq!(s, SessionState::Publishing);
    assert!(matches!(a, SessionAction::Nothing));
    let (s, a) = on_command(SessionState::Connected, &[1, 2, 3]);
    assert_eq!(s, SessionState::Connected);
    assert!(matches!(a, SessionAction::Nothing));
}

#[test]
fn replies_and_chunks() {
    let r = result(1.0f64.to_bits(), Some(STREAM_ID_ONE));
    let mut expected = Vec::new();
    string(&mut expected, "_result");
    expected.push(0);
    expected.extend_from_slice(&1.0f64.to_bits().to_be_bytes());
    expected.push(5);
    expected.push(0);
    expected.extend_from_slice(&1.0f64.to_bits().to_be_bytes());
    assert_eq!(r, expected);
    let c = result(1.0f64.to_bits(), None);
    assert!(c.windows(29).any(|w| w == b"NetConnection.Connect.Success"));
    let st = on_status(true, b"NetStream.Publish.BadName", b"taken");
    assert!(st.starts_with(&[2, 0, 8]));
    assert!(st.windows(5).any(|w| w == b"error"));
    assert!(st.ends_with(&[0, 0, 9]));
    let chunk = write_single_chunk(3, MESSAGE_VIDEO, 1, &[7, 8, 9]);
    assert_eq!(chunk, vec![3, 0, 0, 0, 0, 0, 3, 9, 1, 0, 0, 0, 7, 8, 9]);
}
