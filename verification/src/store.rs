//! Leaves of the offline store that the loader's artifacts come from:
//! content hashes and their hex form, artifact file naming by hash prefix
//! (extended on collision, suffixed as a last resort), the store's
//! configuration record, and the local id generator.

use vstd::prelude::*;

use crate::id::{
    all_hex_digits, hex_char, hex_digit_value, hex_digit_value_exec, is_hex_digit,
    push_hex_digit, AssetId, ParseAssetIdError,
};
use vstd::array::ArrayAdditionalExecFns;

verus! {

/// Names the 32-byte digest that sha2's SHA-256 computes over a byte
/// string; a function of the bytes alone.
pub uninterp spec fn sha256_of(data: Seq<u8>) -> Seq<u8>;

/// Relies on sha2::Sha256 (through the Digest trait): a 32-byte digest
/// that depends on the input bytes alone.
#[verifier::external_body]
fn sha256_digest(data: &Vec<u8>) -> (r: [u8; 32])
    ensures
        r@ == sha256_of(data@),
        r@.len() == 32,
{
    let digest = <sha2::Sha256 as sha2::Digest>::digest(data.as_slice());
    let mut out = [0u8; 32];
    out.copy_from_slice(&digest);
    out
}

/// The nibble at position `p` (0 high, 1 low) of a byte.
pub open spec fn byte_nibble(b: u8, p: int) -> int {
    if p == 0 {
        (b >> 4u8) as int
    } else {
        (b & 0xf) as int
    }
}

/// The lowercase hex form of a byte string: two digits per byte.
pub open spec fn hex_of_bytes(b: Seq<u8>) -> Seq<char> {
    Seq::new(b.len() * 2, |k: int| hex_char(byte_nibble(b[k / 2], k % 2)))
}

/// A SHA-256 content hash.
#[derive(Clone, Copy, PartialEq, Eq, Debug)]
pub struct Sha256Hash {
    bytes: [u8; 32],
}

impl Sha256Hash {
    /// The digest bytes.
    pub closed spec fn spec_bytes(&self) -> Seq<u8> {
        self.bytes@
    }

    /// Hashes a byte string.
    pub fn new(data: &Vec<u8>) -> (r: Sha256Hash)
        ensures
            r.spec_bytes() == sha256_of(data@),
            r.spec_bytes().len() == 32,
    {
        Sha256Hash { bytes: sha256_digest(data) }
    }

    /// The 64-character lowercase hex form of the hash.
    pub fn to_hex(&self) -> (r: String)
        ensures
            r@ == hex_of_bytes(self.spec_bytes()),
            r@.len() == 64,
    {
        let mut out = String::new();
        let mut i: usize = 0;
        while i < 32
            invariant
                i <= 32,
                out@ =~= hex_of_bytes(self.bytes@).take(2 * i as int),
            decreases 32 - i,
        {
            let b = self.bytes[i];
            proof {
                assert(b >> 4u8 < 16) by (bit_vector);
                assert(b & 0xf < 16) by (bit_vector);
            }
            push_hex_digit(&mut out, (b >> 4u8) as u64);
            push_hex_digit(&mut out, (b & 0xf) as u64);
            proof {
                let h = hex_of_bytes(self.bytes@);
                assert(h[2 * i as int] == hex_char(byte_nibble(self.bytes@[i as int], 0)));
                assert(h[2 * i as int + 1] == hex_char(byte_nibble(self.bytes@[i as int], 1)));
                assert(out@ =~= h.take(2 * (i as int + 1)));
            }
            i += 1;
        }
        proof {
            assert(hex_of_bytes(self.bytes@).take(64) =~= hex_of_bytes(self.bytes@));
        }
        out
    }
}

/// The nibble at position `j` of the 64-nibble form of a hex string that
/// was front-padded with zeroes to 64 digits.
pub open spec fn padded_nibble(s: Seq<char>, j: int) -> int {
    if j < 64 - s.len() {
        0
    } else {
        hex_digit_value(s[j - (64 - s.len())])
    }
}

/// A hex string front-padded with zeroes to 64 digits and lowered.
pub open spec fn pad64_lower(s: Seq<char>) -> Seq<char> {
    Seq::new(64, |j: int| hex_char(padded_nibble(s, j)))
}

/// A byte built from two nibbles takes them apart again.
proof fn lemma_byte_nibbles(hi: u8, lo: u8, b: u8)
    requires
        hi < 16,
        lo < 16,
        b == 16 * hi + lo,
    ensures
        byte_nibble(b, 0) == hi,
        byte_nibble(b, 1) == lo,
{
    assert((hi < 16 && lo < 16 && b == hi * 16 + lo) ==> (b >> 4u8 == hi && b & 0xf == lo))
        by (bit_vector);
}

/// The padded nibble at position `j`, computed.
fn padded_nibble_exec(s: &str, lead: usize, j: usize) -> (d: u64)
    requires
        s@.len() <= 64,
        lead == 64 - s@.len(),
        j < 64,
        all_hex_digits(s@),
    ensures
        d == padded_nibble(s@, j as int),
        d < 16,
{
    if j < lead {
        0
    } else {
        hex_digit_value_exec(s.get_char(j - lead))
    }
}

impl Sha256Hash {
    /// Parses a hash out of up to 64 hex digits of either case, the
    /// missing leading digits read as zero: the parsed hash's hex form is
    /// the input padded to 64 digits and lowered.
    pub fn from_str(s: &str) -> (r: Result<Sha256Hash, ParseAssetIdError>)
        ensures
            match r {
                Ok(h) => 0 < s@.len() <= 64 && all_hex_digits(s@) && hex_of_bytes(h.spec_bytes())
                    == pad64_lower(s@),
                Err(ParseAssetIdError::Empty) => s@.len() == 0,
                Err(ParseAssetIdError::InvalidDigit) => s@.len() > 0 && !all_hex_digits(s@),
                Err(ParseAssetIdError::Overflow) => s@.len() > 64 && all_hex_digits(s@),
                Err(ParseAssetIdError::ZeroId) => false,
            },
    {
        let n = s.unicode_len();
        if n == 0 {
            return Err(ParseAssetIdError::Empty);
        }
        let mut i: usize = 0;
        while i < n
            invariant
                n == s@.len(),
                i <= n,
                forall|j: int| 0 <= j < i ==> is_hex_digit(#[trigger] s@[j]),
            decreases n - i,
        {
            if !crate::id::is_hex_digit_exec(s.get_char(i)) {
                return Err(ParseAssetIdError::InvalidDigit);
            }
            i += 1;
        }
        if n > 64 {
            return Err(ParseAssetIdError::Overflow);
        }
        let lead = 64 - n;
        let mut bytes = [0u8; 32];
        let mut i: usize = 0;
        while i < 32
            invariant
                n == s@.len(),
                0 < n <= 64,
                lead == 64 - n,
                all_hex_digits(s@),
                i <= 32,
                forall|j: int|
                    0 <= j < i ==> bytes@[j] == 16 * padded_nibble(s@, 2 * j) + padded_nibble(
                        s@,
                        2 * j + 1,
                    ),
            decreases 32 - i,
        {
            let hi = padded_nibble_exec(s, lead, 2 * i);
            let lo = padded_nibble_exec(s, lead, 2 * i + 1);
            let b = 16 * (hi as u8) + (lo as u8);
            bytes.set(i, b);
            i += 1;
        }
        let h = Sha256Hash { bytes };
        proof {
            assert forall|k: int| 0 <= k < 64 implies hex_of_bytes(h.spec_bytes())[k]
                == pad64_lower(s@)[k] by {
                let b = h.spec_bytes()[k / 2];
                let hi = padded_nibble(s@, 2 * (k / 2));
                let lo = padded_nibble(s@, 2 * (k / 2) + 1);
                assert(0 <= hi < 16 && 0 <= lo < 16);
                lemma_byte_nibbles(hi as u8, lo as u8, b);
                if k % 2 == 0 {
                    assert(2 * (k / 2) == k);
                } else {
                    assert(2 * (k / 2) + 1 == k);
                }
            }
            assert(hex_of_bytes(h.spec_bytes()) =~= pad64_lower(s@));
        }
        Ok(h)
    }
}

/// The store's configuration record: where artifacts, external metadata
/// and temporaries live, and which importer libraries to load. Paths are
/// relative to the store's base directory.
pub struct StoreInfo {
    pub artifacts: Option<String>,
    pub external: Option<String>,
    pub temp: Option<String>,
    pub importers: Vec<String>,
}

impl StoreInfo {
    pub fn new(
        artifacts: Option<String>,
        external: Option<String>,
        temp: Option<String>,
        importers: Vec<String>,
    ) -> (r: StoreInfo)
        ensures
            r.artifacts == artifacts,
            r.external == external,
            r.temp == temp,
            r.importers == importers,
    {
        StoreInfo { artifacts, external, temp, importers }
    }
}

impl Default for StoreInfo {
    /// All defaults: every location unset, no importers.
    fn default() -> (r: StoreInfo)
        ensures
            r.artifacts is None,
            r.external is None,
            r.temp is None,
            r.importers@.len() == 0,
    {
        StoreInfo { artifacts: None, external: None, temp: None, importers: Vec::new() }
    }
}

/// The starting length of an artifact's hash-prefix file name.
pub const PREFIX_STARTING_LEN: usize = 8;

/// Is this prefix length the default (and so left out of the metadata)?
pub fn prefix_is_default(prefix: &usize) -> (r: bool)
    ensures
        r == (*prefix == PREFIX_STARTING_LEN),
{
    *prefix == PREFIX_STARTING_LEN
}

/// The default prefix length.
pub fn default_prefix() -> (r: usize)
    ensures
        r == PREFIX_STARTING_LEN,
{
    PREFIX_STARTING_LEN
}

/// Is this suffix the default zero (and so left out of the metadata)?
pub fn suffix_is_zero(suffix: &u64) -> (r: bool)
    ensures
        r == (*suffix == 0),
{
    *suffix == 0
}

/// Is `c` a decimal digit?
pub open spec fn is_dec_digit(c: char) -> bool {
    '0' <= c && c <= '9'
}

/// Numeric value of a decimal string, most significant digit first.
pub open spec fn dec_value(s: Seq<char>) -> int
    decreases s.len(),
{
    if s.len() == 0 {
        0
    } else {
        dec_value(s.drop_last()) * 10 + (s.last() as int - '0' as int)
    }
}

/// The decimal character for `d` (0 <= d < 10).
pub open spec fn dec_char(d: int) -> char {
    if d == 0 { '0' } else if d == 1 { '1' } else if d == 2 { '2' } else if d == 3 { '3' }
    else if d == 4 { '4' } else if d == 5 { '5' } else if d == 6 { '6' } else if d == 7 { '7' }
    else if d == 8 { '8' } else { '9' }
}

/// Appends the decimal digit `d`.
fn push_dec_digit(out: &mut String, d: u64)
    requires
        d < 10,
    ensures
        final(out)@ == old(out)@.push(dec_char(d as int)),
{
    proof {
        reveal_strlit("0");
        reveal_strlit("1");
        reveal_strlit("2");
        reveal_strlit("3");
        reveal_strlit("4");
        reveal_strlit("5");
        reveal_strlit("6");
        reveal_strlit("7");
        reveal_strlit("8");
        reveal_strlit("9");
    }
    let ghost pre = out@;
    if d == 0 { out.append("0"); } else if d == 1 { out.append("1"); }
    else if d == 2 { out.append("2"); } else if d == 3 { out.append("3"); }
    else if d == 4 { out.append("4"); } else if d == 5 { out.append("5"); }
    else if d == 6 { out.append("6"); } else if d == 7 { out.append("7"); }
    else if d == 8 { out.append("8"); } else { out.append("9"); }
    proof {
        assert(out@ =~= pre.push(dec_char(d as int)));
    }
}

/// Ten to the `k`.
pub open spec fn spec_pow10(k: nat) -> int
    decreases k,
{
    if k == 0 {
        1
    } else {
        10 * spec_pow10((k - 1) as nat)
    }
}

/// Writes `v` in decimal, most significant digit first, no leading zero.
pub fn u64_to_decimal(v: u64) -> (r: String)
    ensures
        r@.len() >= 1,
        forall|i: int| 0 <= i < r@.len() ==> is_dec_digit(#[trigger] r@[i]),
        dec_value(r@) == v,
        r@.len() > 1 ==> r@[0] != '0',
{
    let mut out = String::new();
    if v == 0 {
        push_dec_digit(&mut out, 0);
        proof {
            assert(out@.len() == 1);
            assert(out@.drop_last() =~= Seq::<char>::empty());
            assert(out@.last() == dec_char(0));
            assert(dec_value(Seq::<char>::empty()) == 0);
            assert(dec_value(out@) == 0);
        }
        return out;
    }
    // The largest power of ten not above `v`.
    let mut div: u64 = 1;
    let ghost mut k: nat = 0nat;
    while div <= v / 10
        invariant
            v > 0,
            1 <= div <= v,
            div == spec_pow10(k),
        decreases v - div,
    {
        proof {
            vstd::arithmetic::div_mod::lemma_fundamental_div_mod(v as int, 10);
            assert(spec_pow10(k + 1) == 10 * spec_pow10(k));
            k = k + 1;
        }
        div = div * 10;
    }
    proof {
        vstd::arithmetic::div_mod::lemma_fundamental_div_mod(v as int, 10);
        vstd::arithmetic::div_mod::lemma_basic_div(v as int, div as int * 10);
    }
    // Now div <= v < 10 * div: emit digits from the highest position down.
    let mut cur = div;
    while cur > 0
        invariant
            v > 0,
            div <= v,
            (v as int) < 10 * (div as int),
            cur <= div,
            cur == spec_pow10(k) || cur == 0,
            cur > 0 ==> dec_value(out@) == v as int / (cur as int * 10),
            cur == 0 ==> dec_value(out@) == v,
            out@.len() == 0 ==> cur == div,
            out@.len() > 0 ==> out@[0] != '0',
            forall|i: int| 0 <= i < out@.len() ==> is_dec_digit(#[trigger] out@[i]),
        decreases cur,
    {
        let d = (v / cur) % 10;
        let ghost pre = out@;
        let ghost q = v as int / (cur as int);
        proof {
            vstd::arithmetic::div_mod::lemma_fundamental_div_mod(q, 10);
            vstd::arithmetic::div_mod::lemma_div_denominator(v as int, cur as int, 10);
            assert(q / 10 == v as int / (cur as int * 10));
            if out@.len() == 0 {
                // The first digit: div <= v < 10 * div makes it non-zero.
                assert(q >= 1) by {
                    vstd::arithmetic::div_mod::lemma_div_non_zero(v as int, cur as int);
                };
                assert(q <= 9) by {
                    assert(v as int / (cur as int * 10) == 0);
                };
                assert(d == q);
            }
        }
        push_dec_digit(&mut out, d);
        proof {
            assert(out@.drop_last() =~= pre);
            assert(dec_value(out@) == dec_value(pre) * 10 + d);
            assert(dec_value(out@) == q);
        }
        if cur == 1 {
            cur = 0;
            proof {
                assert(v as int / 1 == v);
            }
        } else {
            proof {
                assert(spec_pow10(k) == cur);
                assert(k != 0) by {
                    if k == 0 {
                        assert(spec_pow10(0nat) == 1);
                    }
                };
                let ghost km1 = (k - 1) as nat;
                assert(cur as int == 10 * spec_pow10(km1));
                assert(spec_pow10(km1) >= 1) by {
                    lemma_pow10_pos(km1);
                };
                assert((10 * spec_pow10(km1)) / 10 == spec_pow10(km1)) by (nonlinear_arith)
                    requires
                        spec_pow10(km1) >= 0,
                ;
                k = km1;
            }
            cur = cur / 10;
            proof {
                assert(cur == spec_pow10(k));
            }
        }
    }
    out
}

/// Powers of ten are positive.
proof fn lemma_pow10_pos(k: nat)
    ensures
        spec_pow10(k) >= 1,
    decreases k,
{
    if k > 0 {
        lemma_pow10_pos((k - 1) as nat);
    }
}

/// `s` is the canonical decimal form of `v`.
pub open spec fn is_decimal_repr(s: Seq<char>, v: int) -> bool {
    &&& s.len() >= 1
    &&& (forall|i: int| 0 <= i < s.len() ==> is_dec_digit(#[trigger] s[i]))
    &&& dec_value(s) == v
    &&& (s.len() > 1 ==> s[0] != '0')
}

/// The artifact file name for a hash: the first `prefix` hex characters,
/// with `:suffix` appended when a whole-hash collision forced a suffix.
pub fn artifact_name(hex: &str, prefix: usize, suffix: u64) -> (r: String)
    requires
        0 < prefix <= hex@.len(),
    ensures
        suffix == 0 ==> r@ == hex@.take(prefix as int),
        suffix != 0 ==> {
            &&& r@.len() > prefix + 1
            &&& r@.take(prefix as int) == hex@.take(prefix as int)
            &&& r@[prefix as int] == ':'
            &&& is_decimal_repr(r@.skip(prefix as int + 1), suffix as int)
        },
{
    let prefix_str = hex.substring_char(0, prefix);
    let mut out = prefix_str.to_owned();
    if suffix == 0 {
        proof {
            assert(out@ =~= hex@.take(prefix as int));
        }
        return out;
    }
    proof {
        reveal_strlit(":");
    }
    out.append(":");
    let dec = u64_to_decimal(suffix);
    out.append(dec.as_str());
    proof {
        assert(out@.take(prefix as int) =~= hex@.take(prefix as int));
        assert(out@[prefix as int] == ':');
        assert(out@.skip(prefix as int + 1) =~= dec@);
    }
    out
}

/// The `attempt`-th candidate file name for an artifact with this hash:
/// first the hash prefixes from the starting length up to the whole hash
/// (each tried when the previous collided), then the whole hash with
/// suffix 0, 1, 2, ... Returns the candidate's prefix length, suffix and
/// name.
pub fn with_path_candidates(hex: &str, attempt: u64) -> (r: (usize, u64, String))
    requires
        hex@.len() >= PREFIX_STARTING_LEN,
    ensures
        attempt <= hex@.len() - PREFIX_STARTING_LEN ==> {
            &&& r.0 == PREFIX_STARTING_LEN + attempt
            &&& r.1 == 0
            &&& r.2@ == hex@.take(r.0 as int)
        },
        attempt > hex@.len() - PREFIX_STARTING_LEN ==> {
            &&& r.0 == hex@.len()
            &&& r.1 == attempt - (hex@.len() - PREFIX_STARTING_LEN) - 1
            &&& r.2@.len() > r.0 + 1
            &&& r.2@.take(r.0 as int) == hex@.take(r.0 as int)
            &&& r.2@[r.0 as int] == ':'
            &&& is_decimal_repr(r.2@.skip(r.0 as int + 1), r.1 as int)
        },
{
    let len = hex.unicode_len();
    let span = (len - PREFIX_STARTING_LEN) as u64;
    if attempt <= span {
        let prefix = PREFIX_STARTING_LEN + (attempt as usize);
        let name = artifact_name(hex, prefix, 0);
        (prefix, 0, name)
    } else {
        let suffix = attempt - span - 1;
        let name = artifact_name(hex, len, suffix);
        if suffix == 0 {
            // A zero suffix names the bare whole hash, which the previous
            // candidate already was: step to suffix form explicitly.
            let mut out = artifact_name(hex, len, 0);
            proof {
                reveal_strlit(":");
                reveal_strlit("0");
            }
            out.append(":");
            out.append("0");
            proof {
                assert(out@.take(len as int) =~= hex@.take(len as int));
                assert(out@[len as int] == ':');
                assert(out@.skip(len as int + 1) =~= seq!['0']);
                assert(out@.skip(len as int + 1).drop_last() =~= Seq::<char>::empty());
                assert(dec_value(Seq::<char>::empty()) == 0);
                assert(dec_value(out@.skip(len as int + 1)) == 0);
            }
            return (len, 0, out);
        }
        (len, suffix, name)
    }
}

// ---------------------------------------------------------------------------
// The local id generator.
// ---------------------------------------------------------------------------

/// Seconds between the Unix epoch and this generator's own epoch.
pub const STARTING_EPOCH: u64 = 1672520400;

/// Largest per-second counter value.
pub const MAX_COUNTER: u16 = 1024;

/// An id is composed of 22 bits of a random seed, 10 bits of a per-second
/// counter, and 32 bits of seconds since the generator's epoch. No
/// coordination between peers, a low collision probability.
pub open spec fn spec_compose_id(seed: u32, counter: u16, seconds: u64) -> u64 {
    ((seed as u64) << 42u64) | ((counter as u64) << 32u64) | seconds
}

/// Local id generator: unique per process as long as the counter keeps up.
pub struct IdGen {
    /// Seconds (since the generator epoch) of the last id handed out;
    /// never goes backwards.
    pub last_seconds: u64,
    /// Ids handed out within `last_seconds`.
    pub counter: u16,
    /// Random seed drawn at construction.
    pub seed: u32,
}

impl IdGen {
    /// The counter stays in range and the clock field stays in 32 bits.
    pub open spec fn wf(&self) -> bool {
        1 <= self.counter <= MAX_COUNTER && self.last_seconds < 0x1_0000_0000
    }

    /// A fresh generator around the caller's randomly drawn seed.
    pub fn new(seed: u32) -> (r: IdGen)
        ensures
            r.wf(),
            r.seed == seed,
            r.counter == 1,
            r.last_seconds == 0,
    {
        IdGen { last_seconds: 0, counter: 1, seed }
    }

    /// Composes the next id for the current time (in seconds since the
    /// generator epoch, monotonised against the last time used). `None`
    /// when the counter for this second is exhausted: retry after a
    /// moment.
    pub fn new_id(&mut self, now_seconds: u64) -> (r: Option<AssetId>)
        requires
            old(self).wf(),
            now_seconds < 0x1_0000_0000,
        ensures
            final(self).wf(),
            final(self).seed == old(self).seed,
            final(self).last_seconds >= old(self).last_seconds,
            match r {
                None => old(self).counter == MAX_COUNTER && now_seconds <= old(
                    self,
                ).last_seconds && *final(self) == *old(self),
                Some(id) => {
                    &&& id.spec_value() == spec_compose_id(
                        final(self).seed,
                        final(self).counter,
                        final(self).last_seconds,
                    )
                    &&& if now_seconds <= old(self).last_seconds {
                        final(self).last_seconds == old(self).last_seconds && final(self).counter
                            == old(self).counter + 1
                    } else {
                        final(self).last_seconds == now_seconds && final(self).counter == 1
                    }
                },
            },
    {
        let st = if now_seconds > self.last_seconds {
            now_seconds
        } else {
            self.last_seconds
        };
        if st == self.last_seconds {
            if self.counter >= MAX_COUNTER {
                return None;
            }
            self.counter = self.counter + 1;
        } else {
            self.last_seconds = st;
            self.counter = 1;
        }
        let seed = self.seed;
        let counter = self.counter;
        let seconds = self.last_seconds;
        let id = ((seed as u64) << 42u64) | ((counter as u64) << 32u64) | seconds;
        proof {
            let c = counter;
            let sd = seed;
            let sec = seconds;
            assert(1 <= c && c <= 1024 ==> (((sd as u64) << 42u64) | ((c as u64) << 32u64) | sec)
                != 0) by (bit_vector);
        }
        match AssetId::new(id) {
            Some(asset_id) => Some(asset_id),
            None => unreached(),
        }
    }
}

} // verus!