//! Cache keys. Both cache tables key their entries by the asset's type
//! identity (an erased 64-bit tag) together with either the identifier or
//! the path, so two asset types requested at the same path stay distinct.
//! A deterministic hash over the key picks the shard.

use vstd::prelude::*;

use crate::id::AssetId;

verus! {

/// A request key: either a path or an identifier.
#[derive(Clone, Debug)]
pub enum Key {
    Path(String),
    Id(AssetId),
}

/// Key of an id-keyed cache entry: type tag and identifier.
#[derive(Clone, Copy, PartialEq, Eq, Structural, Debug)]
pub struct TypeKey {
    pub type_id: u64,
    pub id: AssetId,
}

impl TypeKey {
    pub fn new(type_id: u64, id: AssetId) -> (r: TypeKey)
        ensures
            r.type_id == type_id && r.id == id,
    {
        TypeKey { type_id, id }
    }

    /// Does this key match the given type tag and identifier?
    pub fn eq_key_erased(&self, type_id: u64, id: AssetId) -> (r: bool)
        ensures
            r == (self.type_id == type_id && self.id == id),
    {
        self.type_id == type_id && self.id == id
    }
}

/// Key of a path-keyed cache entry: type tag and path.
#[derive(Clone, Debug)]
pub struct PathKey {
    pub type_id: u64,
    pub path: String,
}

impl PathKey {
    pub fn new(type_id: u64, path: String) -> (r: PathKey)
        ensures
            r.type_id == type_id && r.path@ == path@,
    {
        PathKey { type_id, path }
    }

    /// Does this key match the given type tag and path?
    pub fn eq_key_erased(&self, type_id: u64, path: &str) -> (r: bool)
        ensures
            r == (self.type_id == type_id && self.path@ == path@),
    {
        self.type_id == type_id && str_eq(self.path.as_str(), path)
    }
}

/// Character-wise string equality.
pub fn str_eq(a: &str, b: &str) -> (r: bool)
    ensures
        r == (a@ == b@),
{
    let na = a.unicode_len();
    let nb = b.unicode_len();
    if na != nb {
        return false;
    }
    let mut i: usize = 0;
    while i < na
        invariant
            na == a@.len(),
            na == b@.len(),
            i <= na,
            forall|j: int| 0 <= j < i ==> a@[j] == b@[j],
        decreases na - i,
    {
        if a.get_char(i) != b.get_char(i) {
            return false;
        }
        i += 1;
    }
    proof {
        assert(a@ =~= b@);
    }
    true
}

/// Deterministic mix of two words, used to hash keys.
pub open spec fn spec_mix(h: u64, x: u64) -> u64 {
    (h ^ x).wrapping_mul(0x100000001b3u64).wrapping_add(h >> 29u64)
}

/// Hash of an id key from its erased parts.
pub open spec fn spec_hash_id_key(type_id: u64, id_value: u64) -> u64 {
    spec_mix(spec_mix(0xcbf29ce484222325u64, type_id), id_value)
}

/// Fold of `spec_mix` over a byte string.
pub open spec fn spec_hash_bytes(h: u64, s: Seq<u8>) -> u64
    decreases s.len(),
{
    if s.len() == 0 {
        h
    } else {
        spec_mix(spec_hash_bytes(h, s.drop_last()), s.last() as u64)
    }
}

/// Hash of a path key from its erased parts.
pub open spec fn spec_hash_path_key(type_id: u64, path: Seq<char>) -> u64 {
    spec_hash_bytes(
        spec_mix(0xcbf29ce484222325u64, type_id),
        vstd::utf8::encode_utf8(path),
    )
}

fn mix(h: u64, x: u64) -> (r: u64)
    ensures
        r == spec_mix(h, x),
{
    (h ^ x).wrapping_mul(0x100000001b3u64).wrapping_add(h >> 29u64)
}

/// Hashes a type tag and identifier to pick a shard of the id table.
/// Deterministic: equal keys always land in the same shard.
pub fn hash_id_key_erased(type_id: u64, id: AssetId) -> (r: u64)
    ensures
        r == spec_hash_id_key(type_id, id.spec_value()),
{
    mix(mix(0xcbf29ce484222325u64, type_id), id.value())
}

/// Hashes a type tag and path to pick a shard of the path table.
/// Deterministic: equal keys always land in the same shard.
pub fn hash_path_key_erased(type_id: u64, path: &str) -> (r: u64)
    ensures
        r == spec_hash_path_key(type_id, path@),
{
    let bytes = path.as_bytes();
    let mut h = mix(0xcbf29ce484222325u64, type_id);
    let n = bytes.len();
    let mut i: usize = 0;
    while i < n
        invariant
            n == bytes@.len(),
            i <= n,
            h == spec_hash_bytes(spec_mix(0xcbf29ce484222325u64, type_id), bytes@.take(i as int)),
        decreases n - i,
    {
        proof {
            assert(bytes@.take(i as int + 1).drop_last() =~= bytes@.take(i as int));
        }
        h = mix(h, bytes[i] as u64);
        i += 1;
    }
    proof {
        assert(bytes@.take(n as int) =~= bytes@);
    }
    h
}

/// Is `n` a power of two?
pub open spec fn is_pow2(n: int) -> bool
    decreases n,
{
    if n <= 0 {
        false
    } else if n == 1 {
        true
    } else {
        n % 2 == 0 && is_pow2(n / 2)
    }
}

/// A power of two less than twice another power of two is at most the other.
proof fn lemma_pow2_le(n: int, m: int)
    requires
        is_pow2(n),
        is_pow2(m),
        n < 2 * m,
    ensures
        n <= m,
    decreases n,
{
    if n > 1 {
        lemma_pow2_le(n / 2, m / 2);
    }
}

/// Rounds a requested shard count up to the next power of two, capped at 512.
pub fn shard_count(requested: usize) -> (r: usize)
    ensures
        is_pow2(r as int),
        1 <= r <= 512,
        requested >= 512 ==> r == 512,
        requested < 512 ==> r >= requested,
        r > 1 ==> r / 2 < requested,
{
    let mut p: usize = 1;
    while p < requested && p < 512
        invariant
            is_pow2(p as int),
            1 <= p <= 512,
            p > 1 ==> p / 2 < requested,
        decreases 512 - p,
    {
        proof {
            assert(is_pow2(256)) by {
                reveal_with_fuel(is_pow2, 10);
            }
            lemma_pow2_le(p as int, 256);
        }
        p = p * 2;
    }
    p
}

/// Selects the shard for a key hash; always below the shard count.
pub fn shard_index(hash: u64, num_shards: usize) -> (r: usize)
    requires
        num_shards > 0,
    ensures
        r < num_shards,
        r == hash as int % num_shards as int,
{
    (hash % (num_shards as u64)) as usize
}

} // verus!
