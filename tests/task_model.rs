use ekvsb::size::{parse_size, parse_size_u64};
use ekvsb::task::{Error, Existence, Key, ValueSpec};

#[test]
fn key_from_utf8_keeps_the_text() {
    let key = Key::from_utf8(b"abc9Z".to_vec()).unwrap();
    assert_eq!(key.as_str(), "abc9Z");
    assert_eq!(key.as_bytes(), b"abc9Z");
}

#[test]
fn key_from_utf8_decodes_multibyte_characters() {
    let key = Key::from_utf8("héllo".as_bytes().to_vec()).unwrap();
    assert_eq!(key.as_str(), "héllo");
    assert_eq!(key.as_bytes().len(), 6);
}

#[test]
fn key_from_utf8_rejects_invalid_bytes() {
    assert_eq!(Key::from_utf8(vec![0x61, 0xff]).unwrap_err(), Error::InvalidUtf8);
}

#[test]
fn key_new_keeps_the_string() {
    let key = Key::new("k-1".to_string());
    assert_eq!(key.as_str(), "k-1");
}

#[test]
fn existence_is_three_valued() {
    assert_eq!(Existence::new(true).as_option(), Some(true));
    assert_eq!(Existence::new(false).as_option(), Some(false));
    assert_eq!(Existence::unknown().as_option(), None);
    assert_ne!(Existence::new(false), Existence::unknown());
}

#[test]
fn value_spec_generates_the_requested_size() {
    assert_eq!(ValueSpec::Random { size: 0 }.generate().len(), 0);
    assert_eq!(ValueSpec::Random { size: 1024 }.generate().len(), 1024);
}

#[test]
fn value_spec_payloads_are_random() {
    let spec = ValueSpec::Random { size: 64 };
    assert_ne!(spec.generate(), spec.generate());
}

#[test]
fn sizes_parse_with_units() {
    assert_eq!(parse_size("1KiB"), Ok(1024));
    assert_eq!(parse_size("8 k"), Ok(8000));
    assert_eq!(parse_size("0GiB"), Ok(0));
    assert_eq!(parse_size("12"), Ok(12));
    assert_eq!(parse_size_u64("1GiB"), Ok(1024 * 1024 * 1024));
}

#[test]
fn malformed_sizes_are_refused() {
    assert_eq!(parse_size("lots"), Err(Error::InvalidSize));
    assert_eq!(parse_size_u64(""), Err(Error::InvalidSize));
    assert_eq!(parse_size_u64("100000 EiB"), Err(Error::InvalidSize));
}
