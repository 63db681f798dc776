use quickfetch::codec::{put_bytes, put_text, FieldReader};
use quickfetch::package::{Config, GHPackage, Mode, SimplePackage};
use quickfetch::traits::{Entry, EntryKey, EntryValue};
use quickfetch::val::{GHValue, SimpleValue};

fn text(s: &str) -> String {
    s.to_string()
}

fn simple_bytes(version: &str, url: &str, payload: &[u8]) -> Vec<u8> {
    let mut out = Vec::new();
    out.extend_from_slice(&(version.len() as u64).to_le_bytes());
    out.extend_from_slice(version.as_bytes());
    out.extend_from_slice(&(url.len() as u64).to_le_bytes());
    out.extend_from_slice(url.as_bytes());
    out.extend_from_slice(&(payload.len() as u64).to_le_bytes());
    out.extend_from_slice(payload);
    out
}

#[test]
fn put_bytes_writes_length_then_content() {
    let mut out = vec![0xAAu8];
    put_bytes(&mut out, &[1, 2, 3]);
    assert_eq!(out, vec![0xAA, 3, 0, 0, 0, 0, 0, 0, 0, 1, 2, 3]);
}

#[test]
fn put_bytes_of_nothing_is_a_zero_length() {
    let mut out = Vec::new();
    put_bytes(&mut out, &[]);
    assert_eq!(out, vec![0u8; 8]);
}

#[test]
fn put_text_writes_utf8_length_then_utf8() {
    let mut out = Vec::new();
    put_text(&mut out, "h\u{e9}");
    assert_eq!(out, vec![3, 0, 0, 0, 0, 0, 0, 0, b'h', 0xC3, 0xA9]);
}

#[test]
fn long_field_length_is_little_endian() {
    let content = vec![7u8; 258];
    let mut out = Vec::new();
    put_bytes(&mut out, &content);
    assert_eq!(&out[..8], &[2, 1, 0, 0, 0, 0, 0, 0]);
    assert_eq!(out.len(), 8 + 258);
}

#[test]
fn reader_takes_fields_in_order() {
    let mut bytes = Vec::new();
    put_text(&mut bytes, "abc");
    put_bytes(&mut bytes, &[9, 8]);
    put_text(&mut bytes, "");
    let mut reader = FieldReader::new(&bytes);
    assert_eq!(reader.take_text(), Some(text("abc")));
    assert_eq!(reader.take_bytes(), Some(vec![9, 8]));
    assert_eq!(reader.take_text(), Some(text("")));
    assert_eq!(reader.take_bytes(), None);
    assert_eq!(reader.take_text(), None);
}

#[test]
fn reader_refuses_a_short_prefix() {
    let bytes = vec![1u8, 0, 0, 0, 0, 0, 0];
    let mut reader = FieldReader::new(&bytes);
    assert_eq!(reader.take_bytes(), None);
    assert_eq!(reader.take_text(), None);
}

#[test]
fn reader_refuses_a_cut_field() {
    let bytes = vec![3u8, 0, 0, 0, 0, 0, 0, 0, b'a', b'b'];
    let mut reader = FieldReader::new(&bytes);
    assert_eq!(reader.take_text(), None);
    assert_eq!(reader.take_bytes(), None);
}

#[test]
fn reader_refuses_a_huge_length() {
    let mut bytes = vec![0xFFu8; 8];
    bytes.extend_from_slice(b"abc");
    let mut reader = FieldReader::new(&bytes);
    assert_eq!(reader.take_bytes(), None);
    assert_eq!(reader.take_text(), None);
}

#[test]
fn reader_refuses_text_that_is_not_utf8_but_reads_it_as_bytes() {
    let bytes = vec![2u8, 0, 0, 0, 0, 0, 0, 0, 0xFF, 0xFE, 1];
    let mut reader = FieldReader::new(&bytes);
    assert_eq!(reader.take_text(), None);
    assert_eq!(reader.take_bytes(), Some(vec![0xFF, 0xFE]));
    assert_eq!(reader.take_bytes(), None);
}

#[test]
fn reader_does_not_move_on_failure() {
    let mut bytes = vec![2u8, 0, 0, 0, 0, 0, 0, 0, 0xFF, 0xFE];
    put_text(&mut bytes, "x");
    let mut reader = FieldReader::new(&bytes);
    assert_eq!(reader.take_text(), None);
    assert_eq!(reader.take_bytes(), Some(vec![0xFF, 0xFE]));
    assert_eq!(reader.take_text(), Some(text("x")));
}

#[test]
fn simple_value_bytes_are_the_three_fields() {
    let mut value = SimpleValue::new(text("1.0.0"), text("http://m/a"));
    value.set_response(&[0xCA, 0xFE]);
    assert_eq!(value.bytes(), simple_bytes("1.0.0", "http://m/a", &[0xCA, 0xFE]));
    assert_eq!(
        value.bytes(),
        vec![
            5, 0, 0, 0, 0, 0, 0, 0, b'1', b'.', b'0', b'.', b'0', 10, 0, 0, 0, 0, 0, 0, 0, b'h',
            b't', b't', b'p', b':', b'/', b'/', b'm', b'/', b'a', 2, 0, 0, 0, 0, 0, 0, 0, 0xCA,
            0xFE
        ]
    );
}

#[test]
fn simple_value_bytes_are_what_bincode_gives_the_struct() {
    let mut value = SimpleValue::new(text("2.3.4-rc1"), text("https://example.org/x/y.tar.gz"));
    value.set_response(&[0, 1, 2, 3, 255]);
    let fields = (text("2.3.4-rc1"), text("https://example.org/x/y.tar.gz"), vec![0u8, 1, 2, 3, 255]);
    assert_eq!(value.bytes(), bincode::serialize(&fields).unwrap());
}

#[test]
fn simple_value_starts_with_an_empty_payload() {
    let value = SimpleValue::new(text("1"), text("u"));
    assert_eq!(value.response(), &[] as &[u8]);
    assert_eq!(value.url(), text("u"));
    assert_eq!(value.bytes(), simple_bytes("1", "u", &[]));
}

#[test]
fn simple_value_round_trip() {
    let mut value = SimpleValue::new(text("1.0.0"), text("http://m/a"));
    value.set_response(&[1, 2, 3]);
    let back = SimpleValue::from_bytes(&value.bytes()).unwrap();
    assert_eq!(back.url(), text("http://m/a"));
    assert_eq!(back.response(), &[1u8, 2, 3][..]);
    assert!(back.is_same(&value));
    assert_eq!(back.bytes(), value.bytes());
}

#[test]
fn simple_value_reads_what_bincode_wrote() {
    let fields = (text("9.9.9"), text("http://h/p"), vec![4u8, 5]);
    let value = SimpleValue::from_bytes(&bincode::serialize(&fields).unwrap()).unwrap();
    assert_eq!(value.url(), text("http://h/p"));
    assert_eq!(value.response(), &[4u8, 5][..]);
    assert!(value.is_same(&SimpleValue::new(text("9.9.9"), text("other"))));
}

#[test]
fn simple_value_ignores_trailing_bytes() {
    let mut bytes = simple_bytes("1", "u", &[7]);
    bytes.extend_from_slice(&[1, 2, 3]);
    let value = SimpleValue::from_bytes(&bytes).unwrap();
    assert_eq!(value.response(), &[7u8][..]);
}

#[test]
fn simple_value_refuses_cut_bytes() {
    let bytes = simple_bytes("1.0.0", "http://m/a", &[1, 2, 3]);
    for cut in 0..bytes.len() {
        assert!(SimpleValue::from_bytes(&bytes[..cut]).is_none());
    }
    assert!(SimpleValue::from_bytes(&bytes).is_some());
}

#[test]
fn simple_value_refuses_bad_utf8() {
    let mut bytes = simple_bytes("1.0.0", "http://m/a", &[]);
    bytes[8] = 0xFF;
    assert!(SimpleValue::from_bytes(&bytes).is_none());
}

#[test]
fn simple_value_identity_is_the_version() {
    let a = SimpleValue::new(text("1.0.0"), text("http://m/a"));
    let mut b = SimpleValue::new(text("1.0.0"), text("http://other/b"));
    b.set_response(&[1]);
    let c = SimpleValue::new(text("1.0.1"), text("http://m/a"));
    assert!(a.is_same(&a));
    assert!(a.is_same(&b));
    assert!(b.is_same(&a));
    assert!(!a.is_same(&c));
    assert!(!c.is_same(&b));
}

#[test]
fn set_response_replaces_the_payload_only() {
    let mut value = SimpleValue::new(text("1.0.0"), text("http://m/a"));
    let before = value.clone();
    value.set_response(&[1, 2]);
    value.set_response(&[3]);
    assert_eq!(value.response(), &[3u8][..]);
    assert_eq!(value.url(), before.url());
    assert!(value.is_same(&before));
}

#[test]
fn gh_value_url_is_the_release_download() {
    let value = GHValue::new(text("Mustafif"), text("MufiZ"), text("v0.6.0"), text("mufiz.zip"));
    assert_eq!(
        value.fmt_url(),
        text("https://github.com/Mustafif/MufiZ/releases/download/v0.6.0/mufiz.zip")
    );
    assert_eq!(value.url(), value.fmt_url());
}

#[test]
fn gh_value_bytes_are_the_five_fields() {
    let mut value = GHValue::new(text("o"), text("re"), text("t"), text("as"));
    value.set_response(&[0xBE, 0xEF]);
    let fields = (text("o"), text("re"), text("t"), text("as"), vec![0xBEu8, 0xEF]);
    assert_eq!(value.bytes(), bincode::serialize(&fields).unwrap());
    assert_eq!(
        value.bytes(),
        vec![
            1, 0, 0, 0, 0, 0, 0, 0, b'o', 2, 0, 0, 0, 0, 0, 0, 0, b'r', b'e', 1, 0, 0, 0, 0, 0, 0,
            0, b't', 2, 0, 0, 0, 0, 0, 0, 0, b'a', b's', 2, 0, 0, 0, 0, 0, 0, 0, 0xBE, 0xEF
        ]
    );
}

#[test]
fn gh_value_round_trip() {
    let mut value = GHValue::new(text("o"), text("r"), text("t"), text("a"));
    value.set_response(&[5, 6, 7]);
    let back = GHValue::from_bytes(&value.bytes()).unwrap();
    assert!(back.is_same(&value));
    assert_eq!(back.response(), &[5u8, 6, 7][..]);
    assert_eq!(back.url(), value.url());
    assert!(GHValue::from_bytes(&value.bytes()[..value.bytes().len() - 1]).is_none());
}

#[test]
fn gh_value_identity_is_all_four_fields() {
    let base = GHValue::new(text("o"), text("r"), text("t"), text("a"));
    let mut same = GHValue::new(text("o"), text("r"), text("t"), text("a"));
    same.set_response(&[1]);
    assert!(base.is_same(&same));
    assert!(!base.is_same(&GHValue::new(text("x"), text("r"), text("t"), text("a"))));
    assert!(!base.is_same(&GHValue::new(text("o"), text("x"), text("t"), text("a"))));
    assert!(!base.is_same(&GHValue::new(text("o"), text("r"), text("x"), text("a"))));
    assert!(!base.is_same(&GHValue::new(text("o"), text("r"), text("t"), text("x"))));
}

#[test]
fn a_simple_value_is_no_gh_value() {
    let value = SimpleValue::new(text("1"), text("u"));
    assert!(GHValue::from_bytes(&value.bytes()).is_none());
}

#[test]
fn string_key_bytes_are_utf8() {
    let key = text("na\u{ef}ve");
    assert_eq!(EntryKey::bytes(&key), "na\u{ef}ve".as_bytes().to_vec());
    assert_eq!(key.label(), key);
    assert_eq!(<String as EntryKey>::from_bytes(&EntryKey::bytes(&key)), Some(key));
}

#[test]
fn string_key_refuses_bad_utf8() {
    assert_eq!(<String as EntryKey>::from_bytes(&[0xC3]), None);
    assert_eq!(<String as EntryKey>::from_bytes(&[0xFF, 0x41]), None);
    assert_eq!(<String as EntryKey>::from_bytes(&[]), Some(String::new()));
    assert_eq!(<String as EntryKey>::from_bytes(b"abc"), Some(text("abc")));
}

#[test]
fn simple_package_key_and_value() {
    let package = SimplePackage::new(text("a"), text("1.0.0"), text("http://m/a"));
    assert_eq!(package.key(), text("a"));
    assert_eq!(package.name(), "a");
    assert_eq!(package.version(), "1.0.0");
    assert_eq!(package.url(), "http://m/a");
    let value = package.value();
    assert_eq!(value.url(), text("http://m/a"));
    assert_eq!(value.response(), &[] as &[u8]);
    assert!(value.is_same(&SimpleValue::new(text("1.0.0"), text("x"))));
}

#[test]
fn gh_package_key_and_value() {
    let package = GHPackage::new(text("Mustafif"), text("MufiZ"), text("v0.6.0"), text("mufiz.zip"));
    assert_eq!(package.key(), text("mufiz.zip Mustafif/MufiZ [v0.6.0]"));
    assert_eq!(package.owner(), "Mustafif");
    assert_eq!(package.repo(), "MufiZ");
    assert_eq!(package.tag(), "v0.6.0");
    assert_eq!(package.asset(), "mufiz.zip");
    let value = package.value();
    assert_eq!(
        value.url(),
        text("https://github.com/Mustafif/MufiZ/releases/download/v0.6.0/mufiz.zip")
    );
    assert_eq!(value.response(), &[] as &[u8]);
}

#[test]
fn semantic_versions_are_told_apart() {
    let valid = ["1.0.0", "0.0.0", "1.2.3-alpha.1", "1.2.3+build.5", "1.0.0-rc.1+sha.abc", "10.20.30"];
    for version in valid {
        let package = SimplePackage::new(text("a"), text(version), text("u"));
        assert!(package.verify_valid_version());
    }
    let invalid = [
        "", "1", "1.0", "1.0.0.0", "01.0.0", "1.0.01", "1.0.unknown", "1.0.0-", "1.0.0+",
        "1.0.0-alpha_123", "23456789999999999999.0.0", "v1.0.0", " 1.0.0",
    ];
    for version in invalid {
        let package = SimplePackage::new(text("a"), text(version), text("u"));
        assert!(!package.verify_valid_version());
    }
}

#[test]
fn config_keeps_the_order_of_its_packages() {
    let packages = vec![
        SimplePackage::new(text("b"), text("1.0.0"), text("http://m/b")),
        SimplePackage::new(text("a"), text("2.0.0"), text("http://m/a")),
    ];
    let config = Config::new(packages);
    assert_eq!(config.packages().len(), 2);
    assert_eq!(config.packages()[0].name(), "b");
    assert_eq!(config.packages()[1].name(), "a");
    let owned = config.packages_owned();
    assert_eq!(owned.len(), 2);
    assert_eq!(owned[0].name(), "b");
    assert_eq!(owned[1].version(), "2.0.0");
}

#[test]
fn empty_config() {
    let config: Config<GHPackage> = Config::new(Vec::new());
    assert!(config.packages().is_empty());
    assert!(config.packages_owned().is_empty());
}

#[test]
fn modes_are_distinct() {
    assert_ne!(Mode::Json, Mode::Toml);
    assert_eq!(Mode::Json, Mode::Json);
}
