use zk::error::ZkError;

const EMPTY_SHA256: &str = "e3b0c44298fc1c149afbf4c8996fb92427ae41e4649b934ca495991b7852b855";
const ABC_SHA256: &str = "ba7816bf8f01cfea414140de5dae2223b00361a396177a9cb410ff61f20015ad";

#[test]
fn digest_of_known_inputs() {
    assert_eq!(zk::hash::Hash::compute(b"").to_string(), EMPTY_SHA256);
    assert_eq!(zk::hash::Hash::compute(b"abc").to_string(), ABC_SHA256);
    assert_eq!(zk::hash::Hash::compute(b"abc").as_bytes().len(), 32);
}

#[test]
fn text_round_trip() {
    for data in [&b""[..], b"abc", b"helloworld", &[0u8, 255, 16, 1][..]] {
        let d = zk::hash::Hash::compute(data);
        let back = zk::hash::Hash::from_text(&d.to_string()).unwrap();
        assert!(back == d);
        assert_eq!(back.to_string(), d.to_string());
    }
}

#[test]
fn text_form_is_lowercase_hex() {
    let bytes: Vec<u8> = (0u8..32).map(|i| i * 8 + 7).collect();
    let d = zk::hash::Hash::from_raw_hash(&bytes);
    let text = d.to_string();
    assert_eq!(text.len(), 64);
    assert!(text.starts_with("070f171f"));
    assert!(text.chars().all(|c| c.is_ascii_digit() || ('a'..='f').contains(&c)));
    assert_eq!(d.as_bytes(), &bytes[..]);
}

#[test]
fn from_text_accepts_upper_case() {
    let d = zk::hash::Hash::from_text(&ABC_SHA256.to_uppercase()).unwrap();
    assert_eq!(d.to_string(), ABC_SHA256);
    let e = zk::hash::Hash::from_str(ABC_SHA256).unwrap();
    assert!(d == e);
}

#[test]
fn from_text_rejects_bad_text() {
    assert_eq!(zk::hash::Hash::from_text(&ABC_SHA256[..63]).err(), Some(ZkError::InvalidFormat));
    let longer = format!("{}0", ABC_SHA256);
    assert_eq!(zk::hash::Hash::from_text(&longer).err(), Some(ZkError::InvalidFormat));
    let bad = format!("{}g", &ABC_SHA256[..63]);
    assert_eq!(zk::hash::Hash::from_text(&bad).err(), Some(ZkError::InvalidFormat));
    assert_eq!(zk::hash::Hash::from_text("").err(), Some(ZkError::InvalidFormat));
}

#[test]
fn different_bytes_give_different_digests() {
    let a = zk::hash::Hash::compute(b"one");
    let b = zk::hash::Hash::compute(b"two");
    assert!(a != b);
    assert!(a.clone() == a);
}
