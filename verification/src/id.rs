//! 64-bit asset identifier with zero reserved as "none", and its
//! human-readable hex encoding: exactly 16 lowercase hex digits.
//! Parsing accepts digits of either case and rejects the zero value.

use vstd::prelude::*;

verus! {

/// Is `c` a hexadecimal digit of either case?
pub open spec fn is_hex_digit(c: char) -> bool {
    ('0' <= c && c <= '9') || ('a' <= c && c <= 'f') || ('A' <= c && c <= 'F')
}

/// Numeric value of a hex digit (meaningful only when `is_hex_digit(c)`).
pub open spec fn hex_digit_value(c: char) -> int {
    if '0' <= c && c <= '9' {
        c as int - '0' as int
    } else if 'a' <= c && c <= 'f' {
        c as int - 'a' as int + 10
    } else {
        c as int - 'A' as int + 10
    }
}

/// Every character of `s` is a hex digit.
pub open spec fn all_hex_digits(s: Seq<char>) -> bool {
    forall|i: int| 0 <= i < s.len() ==> is_hex_digit(#[trigger] s[i])
}

/// Numeric value of a hex string, most significant digit first.
pub open spec fn hex_value(s: Seq<char>) -> int
    decreases s.len(),
{
    if s.len() == 0 {
        0
    } else {
        hex_value(s.drop_last()) * 16 + hex_digit_value(s.last())
    }
}

/// The lowercase character for the nibble `d` (0 <= d < 16).
pub open spec fn hex_char(d: int) -> char {
    if d == 0 { '0' } else if d == 1 { '1' } else if d == 2 { '2' } else if d == 3 { '3' }
    else if d == 4 { '4' } else if d == 5 { '5' } else if d == 6 { '6' } else if d == 7 { '7' }
    else if d == 8 { '8' } else if d == 9 { '9' } else if d == 10 { 'a' } else if d == 11 { 'b' }
    else if d == 12 { 'c' } else if d == 13 { 'd' } else if d == 14 { 'e' } else { 'f' }
}

/// The nibble of `v` written at position `i` of its hex encoding
/// (position 0 carries the most significant four bits).
pub open spec fn nibble_at(v: u64, i: int) -> u64 {
    (v >> ((60 - 4 * i) as u64)) & 0xf
}

/// The 16-character lowercase hex encoding of `v`.
pub open spec fn hex_encoding(v: u64) -> Seq<char> {
    Seq::new(16, |i: int| hex_char(nibble_at(v, i) as int))
}

/// Is `c` a character that the lowercase encoding can produce?
pub open spec fn is_lower_hex_digit(c: char) -> bool {
    ('0' <= c && c <= '9') || ('a' <= c && c <= 'f')
}

/// Error from parsing an [`AssetId`] out of its hex form.
#[derive(Clone, Copy, PartialEq, Eq, Structural, Debug)]
pub enum ParseAssetIdError {
    /// The input was empty.
    Empty,
    /// Some character was not a hex digit.
    InvalidDigit,
    /// The value does not fit in 64 bits.
    Overflow,
    /// The identifier value zero is reserved.
    ZeroId,
}

/// Error for conversions handed the reserved zero value.
#[derive(Clone, Copy, PartialEq, Eq, Structural, Debug)]
pub struct ZeroIDError;

/// 64-bit identifier of an asset; the value zero is reserved as "none"
/// and no `AssetId` carries it.
#[derive(Clone, Copy, PartialEq, Eq, PartialOrd, Ord, Hash, Structural, Debug)]
pub struct AssetId {
    value: u64,
}

impl AssetId {
    /// The identifier as a number.
    pub closed spec fn spec_value(&self) -> u64 {
        self.value
    }

    #[verifier::type_invariant]
    spec fn inv(&self) -> bool {
        self.value != 0
    }

    /// Accepts exactly the non-zero values.
    pub fn new(value: u64) -> (r: Option<AssetId>)
        ensures
            value == 0 ==> r is None,
            value != 0 ==> (r matches Some(id) && id.spec_value() == value),
    {
        if value == 0 {
            None
        } else {
            Some(AssetId { value })
        }
    }

    /// The numeric value; never zero.
    pub fn value(&self) -> (r: u64)
        ensures
            r == self.spec_value(),
            r != 0,
    {
        proof {
            use_type_invariant(self);
        }
        self.value
    }

    /// Parses a hex string of either case; rejects the zero value.
    pub fn from_str(s: &str) -> (r: Result<AssetId, ParseAssetIdError>)
        ensures
            match r {
                Ok(id) => s@.len() > 0 && all_hex_digits(s@) && id.spec_value() == hex_value(s@)
                    && hex_value(s@) != 0,
                Err(ParseAssetIdError::Empty) => s@.len() == 0,
                Err(ParseAssetIdError::InvalidDigit) => s@.len() > 0 && !all_hex_digits(s@),
                Err(ParseAssetIdError::Overflow) => s@.len() > 0 && all_hex_digits(s@)
                    && hex_value(s@) > u64::MAX,
                Err(ParseAssetIdError::ZeroId) => s@.len() > 0 && all_hex_digits(s@)
                    && hex_value(s@) == 0,
            },
    {
        let n = s.unicode_len();
        if n == 0 {
            return Err(ParseAssetIdError::Empty);
        }
        let mut i: usize = 0;
        while i < n
            invariant
                n == s@.len(),
                i <= n,
                forall|j: int| 0 <= j < i ==> is_hex_digit(#[trigger] s@[j]),
            decreases n - i,
        {
            if !is_hex_digit_exec(s.get_char(i)) {
                return Err(ParseAssetIdError::InvalidDigit);
            }
            i += 1;
        }
        let mut acc: u64 = 0;
        let mut i: usize = 0;
        while i < n
            invariant
                n == s@.len(),
                i <= n,
                all_hex_digits(s@),
                acc == hex_value(s@.take(i as int)),
            decreases n - i,
        {
            let d = hex_digit_value_exec(s.get_char(i));
            proof {
                lemma_hex_value_nonneg(s@.take(i as int));
                assert(s@.take(i as int + 1).drop_last() =~= s@.take(i as int));
                assert(s@.take(i as int + 1).last() == s@[i as int]);
            }
            if acc > (u64::MAX - d) / 16 {
                proof {
                    lemma_hex_value_prefix_le(s@, i as int + 1);
                }
                return Err(ParseAssetIdError::Overflow);
            }
            acc = acc * 16 + d;
            i += 1;
        }
        proof {
            assert(s@.take(n as int) =~= s@);
        }
        if acc == 0 {
            Err(ParseAssetIdError::ZeroId)
        } else {
            Ok(AssetId { value: acc })
        }
    }

    /// Encodes the identifier as exactly 16 lowercase hex digits.
    pub fn to_hex(&self) -> (r: String)
        ensures
            r@ == hex_encoding(self.spec_value()),
    {
        let v = self.value;
        let mut out = String::new();
        let mut i: usize = 0;
        while i < 16
            invariant
                i <= 16,
                out@ =~= hex_encoding(v).take(i as int),
            decreases 16 - i,
        {
            let shift: u64 = 60 - 4 * (i as u64);
            let d: u64 = (v >> shift) & 0xf;
            proof {
                lemma_nibble_lt(v, i as int);
                assert(d == nibble_at(v, i as int));
            }
            push_hex_digit(&mut out, d);
            proof {
                assert(out@ =~= hex_encoding(v).take(i as int + 1));
            }
            i += 1;
        }
        proof {
            assert(hex_encoding(v).take(16) =~= hex_encoding(v));
        }
        out
    }
}

/// Decides `is_hex_digit`.
pub fn is_hex_digit_exec(c: char) -> (b: bool)
    ensures
        b == is_hex_digit(c),
{
    ('0' <= c && c <= '9') || ('a' <= c && c <= 'f') || ('A' <= c && c <= 'F')
}

/// Computes `hex_digit_value`.
pub(crate) fn hex_digit_value_exec(c: char) -> (d: u64)
    requires
        is_hex_digit(c),
    ensures
        d == hex_digit_value(c),
        d < 16,
{
    if '0' <= c && c <= '9' {
        (c as u32 - '0' as u32) as u64
    } else if 'a' <= c && c <= 'f' {
        (c as u32 - 'a' as u32 + 10) as u64
    } else {
        (c as u32 - 'A' as u32 + 10) as u64
    }
}

/// Appends the lowercase hex digit `d` to `out`.
pub(crate) fn push_hex_digit(out: &mut String, d: u64)
    requires
        d < 16,
    ensures
        final(out)@ == old(out)@.push(hex_char(d as int)),
{
    proof {
        reveal_strlit("0");
        reveal_strlit("1");
        reveal_strlit("2");
        reveal_strlit("3");
        reveal_strlit("4");
        reveal_strlit("5");
        reveal_strlit("6");
        reveal_strlit("7");
        reveal_strlit("8");
        reveal_strlit("9");
        reveal_strlit("a");
        reveal_strlit("b");
        reveal_strlit("c");
        reveal_strlit("d");
        reveal_strlit("e");
        reveal_strlit("f");
    }
    let ghost pre = out@;
    if d == 0 { out.append("0"); } else if d == 1 { out.append("1"); }
    else if d == 2 { out.append("2"); } else if d == 3 { out.append("3"); }
    else if d == 4 { out.append("4"); } else if d == 5 { out.append("5"); }
    else if d == 6 { out.append("6"); } else if d == 7 { out.append("7"); }
    else if d == 8 { out.append("8"); } else if d == 9 { out.append("9"); }
    else if d == 10 { out.append("a"); } else if d == 11 { out.append("b"); }
    else if d == 12 { out.append("c"); } else if d == 13 { out.append("d"); }
    else if d == 14 { out.append("e"); } else { out.append("f"); }
    proof {
        assert(out@ =~= pre.push(hex_char(d as int)));
    }
}

/// A hex string's value is non-negative.
proof fn lemma_hex_value_nonneg(s: Seq<char>)
    requires
        all_hex_digits(s),
    ensures
        hex_value(s) >= 0,
    decreases s.len(),
{
    if s.len() > 0 {
        assert(all_hex_digits(s.drop_last()));
        lemma_hex_value_nonneg(s.drop_last());
    }
}

/// A prefix of a hex string never has a larger value than the whole.
proof fn lemma_hex_value_prefix_le(s: Seq<char>, j: int)
    requires
        all_hex_digits(s),
        0 <= j <= s.len(),
    ensures
        hex_value(s.take(j)) <= hex_value(s),
    decreases s.len() - j,
{
    if j < s.len() {
        lemma_hex_value_prefix_le(s, j + 1);
        assert(s.take(j + 1).drop_last() =~= s.take(j));
        lemma_hex_value_nonneg(s.take(j));
        assert(is_hex_digit(s[j]));
        assert(hex_value(s.take(j + 1)) == hex_value(s.take(j)) * 16 + hex_digit_value(s[j]));
    } else {
        assert(s.take(j) =~= s);
    }
}

/// The encoding of any value consists of lowercase hex digits, and the digit
/// characters decode to the nibbles they were made from.
proof fn lemma_hex_char_value(d: int)
    requires
        0 <= d < 16,
    ensures
        is_hex_digit(hex_char(d)),
        is_lower_hex_digit(hex_char(d)),
        hex_digit_value(hex_char(d)) == d,
{
}

/// Every nibble is below 16.
proof fn lemma_nibble_lt(v: u64, i: int)
    requires
        0 <= i < 16,
    ensures
        nibble_at(v, i) < 16,
{
    let s = (60 - 4 * i) as u64;
    assert((v >> s) & 0xf < 16) by (bit_vector);
    assert(nibble_at(v, i) == (v >> s) & 0xf);
}

/// Helper for the round trip: the value of the first `j` encoded nibbles
/// is `v` shifted right by the remaining positions.
proof fn lemma_hex_prefix_value(v: u64, j: int)
    requires
        1 <= j <= 16,
    ensures
        hex_value(hex_encoding(v).take(j)) == v >> ((64 - 4 * j) as u64),
    decreases j,
{
    let e = hex_encoding(v);
    if j == 1 {
        assert(e.take(1).drop_last() =~= e.take(0));
        assert(e.take(1).last() == e[0]);
        lemma_nibble_lt(v, 0);
        lemma_hex_char_value(nibble_at(v, 0) as int);
        assert(e[0] == hex_char(nibble_at(v, 0) as int));
        assert(hex_value(e.take(0)) == 0);
        assert(hex_value(e.take(1)) == nibble_at(v, 0));
        assert((v >> 60u64) & 0xf == v >> 60u64) by (bit_vector);
    } else {
        lemma_hex_prefix_value(v, j - 1);
        assert(e.take(j).drop_last() =~= e.take(j - 1));
        assert(e.take(j).last() == e[j - 1]);
        lemma_nibble_lt(v, j - 1);
        lemma_hex_char_value(nibble_at(v, j - 1) as int);
        assert(hex_value(e.take(j)) == hex_value(e.take(j - 1)) * 16 + nibble_at(v, j - 1));
        let a = (64 - 4 * (j - 1)) as u64;
        let b = (64 - 4 * j) as u64;
        assert(b + 4 == a && 4 <= a <= 60 ==> v >> b == (v >> a) * 16 + ((v >> b) & 0xf))
            by (bit_vector);
    }
}

/// Round trip: the 16-character lowercase encoding of a value parses back to
/// the same value, and every produced character is a lowercase hex digit.
pub proof fn lemma_hex_round_trip(v: u64)
    ensures
        hex_encoding(v).len() == 16,
        all_hex_digits(hex_encoding(v)),
        hex_value(hex_encoding(v)) == v,
        forall|i: int| 0 <= i < 16 ==> is_lower_hex_digit(#[trigger] hex_encoding(v)[i]),
{
    let e = hex_encoding(v);
    assert forall|i: int| 0 <= i < 16 implies is_hex_digit(#[trigger] e[i])
        && is_lower_hex_digit(e[i]) by {
        lemma_nibble_lt(v, i);
        lemma_hex_char_value(nibble_at(v, i) as int);
    }
    lemma_hex_prefix_value(v, 16);
    assert(e.take(16) =~= e);
    assert(v >> 0u64 == v) by (bit_vector);
}

} // verus!
