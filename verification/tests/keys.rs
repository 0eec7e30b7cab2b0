//! The key codec: encode, decode, and the range builders.

use changefeed::cf::reader::show;
use changefeed::key::cf::{self, Cf};
use changefeed::key::tt::{self, Tt};
use changefeed::vs::{
    to_u128_be, to_u64_be, u128_to_versionstamp, u64_to_versionstamp,
};

#[test]
fn cf_key() {
    let val = Cf::new(
        "test".to_string(),
        "test".to_string(),
        u128_to_versionstamp(12345),
        "test".to_string(),
    );
    let enc = val.encode().unwrap();
    println!("enc={}", show(&enc));
    let dec = Cf::decode(&enc).unwrap();
    assert_eq!(val, dec);
}

#[test]
fn versionstamp_conversions() {
    let a = u64_to_versionstamp(12345);
    let b = to_u64_be(a);
    assert_eq!(12345, b);

    let a = u128_to_versionstamp(12345);
    let b = to_u128_be(a);
    assert_eq!(12345, b);
}

#[test]
fn tt_key() {
    let val = Tt::new("test".to_string(), "test".to_string());
    let enc = val.encode().unwrap();
    let dec = Tt::decode(&enc).unwrap();
    assert_eq!(val, dec);
}

#[test]
fn decode_rejects_malformed_keys() {
    assert!(Cf::decode(b"").is_err());
    assert!(Cf::decode(b"/*ns").is_err());
    let val = Cf::new(
        "ns".to_string(),
        "db".to_string(),
        u64_to_versionstamp(7),
        "tb".to_string(),
    );
    let mut enc = val.encode().unwrap();
    // truncating an encoded key breaks it
    enc.pop();
    assert!(Cf::decode(&enc).is_err());
    // a trailing byte after the terminator breaks it too
    let mut enc2 = val.encode().unwrap();
    enc2.push(7);
    assert!(Cf::decode(&enc2).is_err());
    assert!(Tt::decode(b"/*x").is_err());
}

#[test]
fn encode_rejects_invalid_segments() {
    let val = Cf::new(
        "n\u{0}s".to_string(),
        "db".to_string(),
        u64_to_versionstamp(7),
        "tb".to_string(),
    );
    assert!(val.encode().is_err());
    assert!(cf::prefix("ok", "d\u{0}b").is_err());
}

#[test]
fn keys_order_by_versionstamp() {
    let k1 = Cf::new(
        "ns".to_string(),
        "db".to_string(),
        u64_to_versionstamp(1),
        "tb".to_string(),
    )
    .encode()
    .unwrap();
    let k2 = Cf::new(
        "ns".to_string(),
        "db".to_string(),
        u64_to_versionstamp(2),
        "tb".to_string(),
    )
    .encode()
    .unwrap();
    assert!(changefeed::key::key_lt(&k1, &k2));
    assert!(!changefeed::key::key_lt(&k2, &k1));
    // every key of the scope lies between the scope's bounds
    let lo = cf::prefix("ns", "db").unwrap();
    let hi = cf::suffix("ns", "db").unwrap();
    assert!(changefeed::key::key_lt(&lo, &k1));
    assert!(changefeed::key::key_lt(&k2, &hi));
}

#[test]
fn range_builders_agree_with_encoded_keys() {
    let k = Cf::new(
        "ns".to_string(),
        "db".to_string(),
        u64_to_versionstamp(5),
        "tb".to_string(),
    )
    .encode()
    .unwrap();
    let at5 = cf::ts_prefix("ns", "db", u64_to_versionstamp(5)).unwrap();
    let at6 = cf::ts_prefix("ns", "db", u64_to_versionstamp(6)).unwrap();
    assert!(!changefeed::key::key_lt(&k, &at5));
    assert!(changefeed::key::key_lt(&k, &at6));
    let root = cf::versionstamped_key_prefix("ns", "db").unwrap();
    let sfx = cf::versionstamped_key_suffix("tb").unwrap();
    let mut rebuilt = root.clone();
    rebuilt.extend_from_slice(&u64_to_versionstamp(5));
    rebuilt.extend_from_slice(&sfx);
    assert_eq!(k, rebuilt);
    let ttk = tt::new("ns", "db").encode().unwrap();
    assert!(Tt::decode(&ttk).is_ok());
}
