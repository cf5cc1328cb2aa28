use ekvsb::kvs::{
    bytes_equal, bytes_to_lump_id, copy_bytes, key_location, CannyLsOptions, KeyValueStore,
    MemoryKvs,
};
use ekvsb::task::Error;

#[test]
fn memory_put_reports_prior_existence() {
    let mut kvs = MemoryKvs::new();
    assert_eq!(kvs.put(b"a", b"1").unwrap().as_option(), Some(false));
    assert_eq!(kvs.put(b"a", b"2").unwrap().as_option(), Some(true));
    assert_eq!(kvs.get(b"a").unwrap(), Some(b"2".to_vec()));
}

#[test]
fn memory_get_of_never_put_key_is_absent() {
    let mut kvs = MemoryKvs::new();
    kvs.put(b"a", b"1").unwrap();
    assert_eq!(kvs.get(b"b").unwrap(), None);
}

#[test]
fn memory_delete_reports_prior_existence() {
    let mut kvs = MemoryKvs::new();
    kvs.put(b"a", b"1").unwrap();
    kvs.put(b"b", b"2").unwrap();
    assert_eq!(kvs.delete(b"a").unwrap().as_option(), Some(true));
    assert_eq!(kvs.delete(b"a").unwrap().as_option(), Some(false));
    assert_eq!(kvs.get(b"a").unwrap(), None);
    assert_eq!(kvs.get(b"b").unwrap(), Some(b"2".to_vec()));
}

#[test]
fn memory_keys_are_compared_by_all_bytes() {
    let mut kvs = MemoryKvs::new();
    kvs.put(b"ab", b"1").unwrap();
    assert_eq!(kvs.get(b"a").unwrap(), None);
    assert_eq!(kvs.get(b"abc").unwrap(), None);
    assert_eq!(kvs.put(b"", b"e").unwrap().as_option(), Some(false));
    assert_eq!(kvs.get(b"").unwrap(), Some(b"e".to_vec()));
}

#[test]
fn byte_helpers() {
    assert_eq!(copy_bytes(b"xyz"), b"xyz".to_vec());
    assert!(bytes_equal(b"xy", b"xy"));
    assert!(!bytes_equal(b"xy", b"xz"));
    assert!(!bytes_equal(b"xy", b"x"));
}

#[test]
fn lump_id_packs_bytes_big_endian() {
    assert_eq!(bytes_to_lump_id(b""), Ok(0));
    assert_eq!(bytes_to_lump_id(&[1, 2]), Ok(0x0102));
    assert_eq!(bytes_to_lump_id(b"a"), Ok(0x61));
    assert_eq!(bytes_to_lump_id(&[0xff; 16]), Ok(u128::MAX));
}

#[test]
fn lump_id_rejects_keys_over_sixteen_bytes() {
    assert_eq!(bytes_to_lump_id(&[0; 17]), Err(Error::KeyTooLong { len: 17 }));
    assert_eq!(bytes_to_lump_id(b"abcdefghijklmnopq"), Err(Error::KeyTooLong { len: 17 }));
}

#[test]
fn key_location_percent_encodes_the_file_name() {
    let (_, name) = key_location(b"a b?{}#");
    assert_eq!(name, "a%20b%3F%7B%7D%23");
    let (_, name) = key_location(&[0x00, 0x7f, 0xc3, 0xa9, b'Z']);
    assert_eq!(name, "%00%7F%C3%A9Z");
    let (_, name) = key_location(b"plain-Key_0.~");
    assert_eq!(name, "plain-Key_0.~");
}

#[test]
fn key_location_shard_depends_on_the_name_only() {
    let (shard1, _) = key_location(b"same key");
    let (shard2, _) = key_location(b"same key");
    assert_eq!(shard1, shard2);
    let shards: std::collections::HashSet<u16> =
        (0..64u8).map(|i| key_location(&[b'k', i + b'0']).0).collect();
    assert!(shards.len() > 1);
}

#[test]
fn cannyls_options_default() {
    let options = CannyLsOptions::default();
    assert_eq!(options.capacity, 1024 * 1024 * 1024);
    assert_eq!(options.journal_sync_interval, 4096);
}
