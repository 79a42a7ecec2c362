use scuffed::account::{encode_stream_key, get_new_stream_key, AccountInfo, WebPushKeys};

#[test]
fn stream_key_is_base64_of_secret() {
    assert_eq!(encode_stream_key(b"hello"), "aGVsbG8=");
    assert_eq!(encode_stream_key(&[0u8; 32]), "AAAAAAAAAAAAAAAAAAAAAAAAAAAAAAAAAAAAAAAAAAA=");
}

#[test]
fn new_stream_keys_are_fresh() {
    let a = get_new_stream_key();
    let b = get_new_stream_key();
    assert_eq!(a.len(), 44);
    assert!(a.ends_with('='));
    assert_ne!(a, b);
    let info = AccountInfo { name: "alice".to_string(), stream_key: a.clone() };
    assert_eq!(info.stream_key, a);
}

#[test]
fn web_push_keys_need_both_halves() {
    let k = WebPushKeys::from_values(Some("pub".to_string()), Some("priv".to_string())).unwrap();
    assert_eq!((k.public_key.as_str(), k.private_key.as_str()), ("pub", "priv"));
    assert!(WebPushKeys::from_values(Some("pub".to_string()), None).is_none());
    assert!(WebPushKeys::from_values(None, Some("priv".to_string())).is_none());
}
