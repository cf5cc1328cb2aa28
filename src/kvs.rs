//! The storage interface every backend satisfies, the in-memory reference
//! store, and the key encodings of the fixed-width and file-system stores.

use percent_encoding::{percent_encode, DEFAULT_ENCODE_SET};
use siphasher::sip::SipHasher13;
use std::hash::{Hash, Hasher};
use vstd::prelude::*;

use crate::task::{Error, Existence};

verus! {

/// A key-value store under benchmark. `put` and `delete` report what is known
/// of the key's existence before the call; reporting it unknown is always
/// allowed. Any operation may fail, with a message, except on a store that
/// declares its exact contents: such a store answers every call and reports
/// existence exactly.
pub trait KeyValueStore {
    type OwnedValue;

    /// The contents of a store that answers every call and reports existence
    /// exactly; `None` for a store that makes no such claim.
    open spec fn exact_contents(&self) -> Option<Map<Seq<u8>, Seq<u8>>> {
        None
    }

    fn put(&mut self, key: &[u8], value: &[u8]) -> (r: Result<Existence, String>)
        ensures
            old(self).exact_contents() matches Some(m) ==> {
                &&& r matches Ok(e) && e@ == Some(m.dom().contains(key@))
                &&& final(self).exact_contents() == Some(m.insert(key@, value@))
            },
    ;

    fn get(&mut self, key: &[u8]) -> (r: Result<Option<Self::OwnedValue>, String>)
        ensures
            old(self).exact_contents() matches Some(m) ==> {
                &&& r matches Ok(v) && (v is Some <==> m.dom().contains(key@))
                &&& final(self).exact_contents() == Some(m)
            },
    ;

    fn delete(&mut self, key: &[u8]) -> (r: Result<Existence, String>)
        ensures
            old(self).exact_contents() matches Some(m) ==> {
                &&& r matches Ok(e) && e@ == Some(m.dom().contains(key@))
                &&& final(self).exact_contents() == Some(m.remove(key@))
            },
    ;
}

/// An owned copy of the bytes.
pub fn copy_bytes(bytes: &[u8]) -> (r: Vec<u8>)
    ensures
        r@ == bytes@,
{
    let mut r: Vec<u8> = Vec::new();
    let mut i: usize = 0;
    while i < bytes.len()
        invariant
            i <= bytes@.len(),
            r@ == bytes@.subrange(0, i as int),
        decreases bytes@.len() - i,
    {
        r.push(bytes[i]);
        i = i + 1;
        assert(r@ =~= bytes@.subrange(0, i as int));
    }
    assert(r@ =~= bytes@);
    r
}

/// Whether two byte strings are equal.
pub fn bytes_equal(a: &[u8], b: &[u8]) -> (r: bool)
    ensures
        r == (a@ == b@),
{
    if a.len() != b.len() {
        return false;
    }
    let mut i: usize = 0;
    while i < a.len()
        invariant
            a@.len() == b@.len(),
            i <= a@.len(),
            forall|j: int| 0 <= j < i ==> a@[j] == b@[j],
        decreases a@.len() - i,
    {
        if a[i] != b[i] {
            return false;
        }
        i = i + 1;
    }
    assert(a@ =~= b@);
    true
}

/// Parallel key and value lists hold exactly the map: keys distinct, each
/// key's value at its index, every key of the map listed.
pub open spec fn entries_match(
    keys: Seq<Vec<u8>>,
    values: Seq<Vec<u8>>,
    contents: Map<Seq<u8>, Seq<u8>>,
) -> bool {
    &&& keys.len() == values.len()
    &&& forall|i: int, j: int| 0 <= i < j < keys.len() ==> #[trigger] keys[i]@ != #[trigger] keys[j]@
    &&& forall|i: int|
        0 <= i < keys.len() ==> contents.dom().contains(#[trigger] keys[i]@) && contents[keys[i]@]
            == values[i]@
    &&& forall|k: Seq<u8>|
        #[trigger] contents.dom().contains(k) ==> exists|i: int|
            0 <= i < keys.len() && #[trigger] keys[i]@ == k
}

/// An in-memory store that knows exactly whether each key exists.
pub struct MemoryKvs {
    keys: Vec<Vec<u8>>,
    values: Vec<Vec<u8>>,
    contents: Ghost<Map<Seq<u8>, Seq<u8>>>,
}

impl View for MemoryKvs {
    type V = Map<Seq<u8>, Seq<u8>>;

    closed spec fn view(&self) -> Map<Seq<u8>, Seq<u8>> {
        self.contents@
    }
}

impl MemoryKvs {
    #[verifier::type_invariant]
    closed spec fn inv(self) -> bool {
        entries_match(self.keys@, self.values@, self.contents@)
    }

    pub fn new() -> (r: MemoryKvs)
        ensures
            r@ == Map::<Seq<u8>, Seq<u8>>::empty(),
    {
        MemoryKvs { keys: Vec::new(), values: Vec::new(), contents: Ghost(Map::empty()) }
    }

    fn assemble(
        keys: Vec<Vec<u8>>,
        values: Vec<Vec<u8>>,
        contents: Ghost<Map<Seq<u8>, Seq<u8>>>,
    ) -> (r: MemoryKvs)
        requires
            entries_match(keys@, values@, contents@),
        ensures
            r@ == contents@,
    {
        MemoryKvs { keys, values, contents }
    }

    fn position(&self, key: &[u8]) -> (r: Option<usize>)
        ensures
            r matches Some(i) ==> i < self.keys@.len() && self.keys@[i as int]@ == key@,
            r is None ==> forall|i: int| 0 <= i < self.keys@.len() ==> self.keys@[i]@ != key@,
    {
        let mut i: usize = 0;
        while i < self.keys.len()
            invariant
                i <= self.keys@.len(),
                forall|j: int| 0 <= j < i ==> self.keys@[j]@ != key@,
            decreases self.keys@.len() - i,
        {
            if bytes_equal(self.keys[i].as_slice(), key) {
                return Some(i);
            }
            i = i + 1;
        }
        None
    }
}

impl KeyValueStore for MemoryKvs {
    type OwnedValue = Vec<u8>;

    open spec fn exact_contents(&self) -> Option<Map<Seq<u8>, Seq<u8>>> {
        Some(self@)
    }

    fn put(&mut self, key: &[u8], value: &[u8]) -> (r: Result<Existence, String>)
        ensures
            final(self)@ == old(self)@.insert(key@, value@),
            r matches Ok(e) && e@ == Some(old(self)@.dom().contains(key@)),
    {
        proof {
            use_type_invariant(&*self);
        }
        let found = self.position(key);
        let ghost before = self@;
        let mut taken = MemoryKvs::new();
        std::mem::swap(self, &mut taken);
        let MemoryKvs { mut keys, mut values, contents } = taken;
        let ghost after = contents@.insert(key@, value@);
        let existed = match found {
            Some(i) => {
                let ghost old_values = values@;
                values.set(i, copy_bytes(value));
                assert forall|j: int| 0 <= j < keys@.len() implies after.dom().contains(
                    #[trigger] keys@[j]@,
                ) && after[keys@[j]@] == values@[j]@ by {
                    if j != i {
                        assert(keys@[j]@ != keys@[i as int]@);
                        assert(values@[j] == old_values[j]);
                    }
                }
                assert forall|k: Seq<u8>| #[trigger] after.dom().contains(k) implies exists|j: int|
                    0 <= j < keys@.len() && #[trigger] keys@[j]@ == k by {
                    if k == key@ {
                        assert(keys@[i as int]@ == k);
                    } else {
                        assert(contents@.dom().contains(k));
                    }
                }
                true
            },
            None => {
                let ghost n = keys@.len();
                let ghost old_keys = keys@;
                keys.push(copy_bytes(key));
                let ghost old_values = values@;
                values.push(copy_bytes(value));
                assert(!before.dom().contains(key@));
                assert forall|j: int| 0 <= j < keys@.len() implies after.dom().contains(
                    #[trigger] keys@[j]@,
                ) && after[keys@[j]@] == values@[j]@ by {
                    if j < n {
                        assert(keys@[j] == old_keys[j]);
                        assert(values@[j] == old_values[j]);
                    }
                }
                assert forall|a: int, b: int| 0 <= a < b < keys@.len() implies #[trigger] keys@[a]@
                    != #[trigger] keys@[b]@ by {
                    assert(keys@[a] == old_keys[a]);
                    if b < n {
                        assert(keys@[b] == old_keys[b]);
                    }
                }
                assert forall|k: Seq<u8>| #[trigger] after.dom().contains(k) implies exists|j: int|
                    0 <= j < keys@.len() && #[trigger] keys@[j]@ == k by {
                    if k == key@ {
                        assert(keys@[n as int]@ == k);
                    } else {
                        assert(contents@.dom().contains(k));
                        let j = choose|j: int| 0 <= j < n && #[trigger] old_keys[j]@ == k;
                        assert(keys@[j]@ == k);
                    }
                }
                false
            },
        };
        *self = MemoryKvs::assemble(keys, values, Ghost(after));
        Ok(Existence::new(existed))
    }

    fn get(&mut self, key: &[u8]) -> (r: Result<Option<Vec<u8>>, String>)
        ensures
            final(self)@ == old(self)@,
            r matches Ok(v) && (v is Some <==> old(self)@.dom().contains(key@)),
            r matches Ok(Some(v)) ==> v@ == old(self)@[key@],
    {
        proof {
            use_type_invariant(&*self);
        }
        match self.position(key) {
            Some(i) => Ok(Some(copy_bytes(self.values[i].as_slice()))),
            None => Ok(None),
        }
    }

    fn delete(&mut self, key: &[u8]) -> (r: Result<Existence, String>)
        ensures
            final(self)@ == old(self)@.remove(key@),
            r matches Ok(e) && e@ == Some(old(self)@.dom().contains(key@)),
    {
        proof {
            use_type_invariant(&*self);
        }
        let found = self.position(key);
        let mut taken = MemoryKvs::new();
        std::mem::swap(self, &mut taken);
        let MemoryKvs { mut keys, mut values, contents } = taken;
        let ghost after = contents@.remove(key@);
        let existed = match found {
            Some(i) => {
                let ghost old_keys = keys@;
                let ghost old_values = values@;
                keys.remove(i);
                values.remove(i);
                assert(keys@.len() == values@.len());
                assert forall|j: int| 0 <= j < keys@.len() implies after.dom().contains(
                    #[trigger] keys@[j]@,
                ) && after[keys@[j]@] == values@[j]@ by {
                    if j < i {
                        assert(keys@[j] == old_keys[j]);
                        assert(old_keys[j]@ != old_keys[i as int]@);
                    } else {
                        assert(keys@[j] == old_keys[j + 1]);
                        assert(old_keys[j + 1]@ != old_keys[i as int]@);
                    }
                }
                assert forall|a: int, b: int| 0 <= a < b < keys@.len() implies #[trigger] keys@[a]@
                    != #[trigger] keys@[b]@ by {
                    let a0 = if a < i { a } else { a + 1 };
                    let b0 = if b < i { b } else { b + 1 };
                    assert(keys@[a] == old_keys[a0]);
                    assert(keys@[b] == old_keys[b0]);
                }
                assert forall|k: Seq<u8>| #[trigger] after.dom().contains(k) implies exists|j: int|
                    0 <= j < keys@.len() && #[trigger] keys@[j]@ == k by {
                    assert(contents@.dom().contains(k));
                    let j0 = choose|j0: int| 0 <= j0 < old_keys.len() && #[trigger] old_keys[j0]@ == k;
                    if j0 < i {
                        assert(keys@[j0]@ == k);
                    } else {
                        assert(j0 != i);
                        assert(keys@[j0 - 1]@ == k);
                    }
                }
                true
            },
            None => {
                assert(after =~= contents@);
                false
            },
        };
        *self = MemoryKvs::assemble(keys, values, Ghost(after));
        Ok(Existence::new(existed))
    }
}

/// Settings of a log-structured object store: the size of its storage file
/// and how many journal records pass between syncs.
#[derive(Debug)]
pub struct CannyLsOptions {
    pub capacity: u64,
    pub journal_sync_interval: usize,
}

impl Default for CannyLsOptions {
    /// One gibibyte, synced every 4096 journal records.
    fn default() -> (r: CannyLsOptions)
        ensures
            r.capacity == 1024 * 1024 * 1024,
            r.journal_sync_interval == 4096,
    {
        CannyLsOptions { capacity: 1024 * 1024 * 1024, journal_sync_interval: 4096 }
    }
}

/// The number a key packs into, read as a big-endian unsigned integer.
pub open spec fn big_endian_value(bytes: Seq<u8>) -> nat
    decreases bytes.len(),
{
    if bytes.len() == 0 {
        0
    } else {
        (big_endian_value(bytes.drop_last()) * 256 + bytes.last()) as nat
    }
}

proof fn lemma_big_endian_bound(bytes: Seq<u8>)
    ensures
        big_endian_value(bytes) < pow256(bytes.len()),
    decreases bytes.len(),
{
    if bytes.len() > 0 {
        lemma_big_endian_bound(bytes.drop_last());
        let v = big_endian_value(bytes.drop_last());
        let p = pow256((bytes.len() - 1) as nat);
        assert(v * 256 + bytes.last() < p * 256) by (nonlinear_arith)
            requires
                v < p,
                bytes.last() < 256,
        ;
    }
}

/// 256 to the power `n`.
pub open spec fn pow256(n: nat) -> nat
    decreases n,
{
    if n == 0 {
        1
    } else {
        (pow256((n - 1) as nat) * 256) as nat
    }
}

proof fn lemma_pow256_monotone(a: nat, b: nat)
    requires
        a <= b,
    ensures
        pow256(a) <= pow256(b),
    decreases b,
{
    if a < b {
        lemma_pow256_monotone(a, (b - 1) as nat);
    }
}

/// The identifier of a key in a store addressed by 128-bit numbers: up to 16
/// key bytes, read big-endian. A longer key is refused, never truncated.
pub fn bytes_to_lump_id(bytes: &[u8]) -> (r: Result<u128, Error>)
    ensures
        r is Ok <==> bytes@.len() <= 16,
        r matches Ok(id) ==> id == big_endian_value(bytes@),
        r matches Err(e) ==> e == (Error::KeyTooLong { len: bytes@.len() as usize }),
{
    if bytes.len() > 16 {
        return Err(Error::KeyTooLong { len: bytes.len() });
    }
    let mut id: u128 = 0;
    let mut i: usize = 0;
    while i < bytes.len()
        invariant
            i <= bytes@.len() <= 16,
            id == big_endian_value(bytes@.subrange(0, i as int)),
        decreases bytes@.len() - i,
    {
        proof {
            let prefix = bytes@.subrange(0, i as int);
            lemma_big_endian_bound(prefix);
            lemma_pow256_monotone(i as nat, 15);
            assert(pow256(15) == 0x1_0000_0000_0000_0000_0000_0000_0000_00) by {
                reveal_with_fuel(pow256, 16);
            }
            assert(bytes@.subrange(0, i + 1).drop_last() =~= prefix);
        }
        id = id * 256 + bytes[i] as u128;
        i = i + 1;
    }
    assert(bytes@.subrange(0, i as int) =~= bytes@);
    Ok(id)
}

/// Bytes a file name cannot hold as they are: controls, non-ASCII, and
/// ` "#<>`?{}` (space included).
pub open spec fn needs_escape(b: u8) -> bool {
    b < 0x20 || b > 0x7e || b == 0x20 || b == 0x22 || b == 0x23 || b == 0x3c || b == 0x3e
        || b == 0x60 || b == 0x3f || b == 0x7b || b == 0x7d
}

/// An upper-case hexadecimal digit.
pub open spec fn hex_digit(d: int) -> char {
    if d < 10 {
        (d + 0x30) as char
    } else {
        (d - 10 + 0x41) as char
    }
}

/// Percent-encoding: each byte that needs escaping becomes `%` and two
/// upper-case hex digits, every other byte stands as its ASCII character.
pub open spec fn percent_encoded(bytes: Seq<u8>) -> Seq<char>
    decreases bytes.len(),
{
    if bytes.len() == 0 {
        Seq::empty()
    } else {
        let b = bytes[0];
        let head = if needs_escape(b) {
            seq!['%', hex_digit(b as int / 16), hex_digit(b as int % 16)]
        } else {
            seq![b as char]
        };
        head + percent_encoded(bytes.drop_first())
    }
}

/// The SipHash-1-3 digest, with zero keys, of a string as `Hash` feeds it.
pub uninterp spec fn sip13_digest(s: Seq<char>) -> u64;

/// Relies on `percent_encoding::percent_encode` with `DEFAULT_ENCODE_SET`
/// (percent-encoding 1.0): the escaped set and the upper-case `%XX` form
/// stated by `percent_encoded`.
#[verifier::external_body]
fn escape_key(key: &[u8]) -> (r: String)
    ensures
        r@ == percent_encoded(key@),
{
    percent_encode(key, DEFAULT_ENCODE_SET).to_string()
}

/// Relies on `siphasher::sip::SipHasher13`: `new` (zero keys), fed by the
/// string's `Hash` impl, then `finish`.
#[verifier::external_body]
fn sip13_of(name: &str) -> (r: u64)
    ensures
        r == sip13_digest(name@),
{
    let mut hasher = SipHasher13::new();
    name.hash(&mut hasher);
    hasher.finish()
}

/// Where a file-system store keeps a key: in the shard directory numbered by
/// the low 16 bits of the digest of the file name, under the file name that
/// percent-encodes the key.
pub fn key_location(key: &[u8]) -> (r: (u16, String))
    ensures
        r.1@ == percent_encoded(key@),
        r.0 == sip13_digest(percent_encoded(key@)) % 0x1_0000,
{
    let name = escape_key(key);
    let digest = sip13_of(name.as_str());
    ((digest % 0x1_0000) as u16, name)
}

} // verus!
