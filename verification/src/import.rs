//! The importer plugin boundary: the constants, fixed-width descriptor
//! records and length-prefixed byte layout through which a host exchanges
//! "missing sources and dependencies" with an importer across a C ABI.
//! Every length is a little-endian `u32`; a requires-payload is a counted
//! list of byte strings followed by a counted list of byte-string pairs.

use vstd::prelude::*;

use crate::id::AssetId;

verus! {

/// Return code: the importer needs more sources or dependencies.
pub const REQUIRES: i32 = 1;

/// Return code: success.
pub const SUCCESS: i32 = 0;

/// Return code: entity not found.
pub const NOT_FOUND: i32 = -1;

/// Return code: a string was not UTF-8.
pub const NOT_UTF8: i32 = -2;

/// Return code: the host buffer is too small; retry larger.
pub const BUFFER_IS_TOO_SMALL: i32 = -3;

/// Return code: any other failure; the buffer holds the reason.
pub const OTHER_ERROR: i32 = -6;

/// Magic value plugins export: ASCII "TRES", little endian.
pub const MAGIC: u32 = 0x53455254;

/// Minor version of this boundary's layout.
pub const FFI_VERSION_MINOR: u32 = 1;

/// The boundary's minor version, which hosts and plugins must agree on.
pub fn version() -> (r: u32)
    ensures
        r == FFI_VERSION_MINOR,
{
    FFI_VERSION_MINOR
}

/// One dependency of an asset being imported.
#[derive(Debug)]
pub struct Dependency {
    /// Source path.
    pub source: String,
    /// Target format.
    pub target: String,
}

/// Access to asset dependencies, converting source and target to an id.
/// Implemented by the host.
pub trait Dependencies {
    /// The dependency's id, or `None` when it is not available yet.
    fn get(&mut self, source: &str, target: &str) -> (r: Option<AssetId>);

    /// As `get`, but an unavailable dependency is appended to the missing
    /// list (and only then).
    fn get_or_append(&mut self, source: &str, target: &str, missing: &mut Vec<Dependency>) -> (r:
        Option<AssetId>)
        ensures
            match r {
                Some(_) => final(missing)@ == old(missing)@,
                None => {
                    &&& final(missing)@.len() == old(missing)@.len() + 1
                    &&& final(missing)@.drop_last() == old(missing)@
                    &&& final(missing)@.last().source@ == source@
                    &&& final(missing)@.last().target@ == target@
                },
            },
    {
        match self.get(source, target) {
            None => {
                missing.push(Dependency { source: source.to_owned(), target: target.to_owned() });
                proof {
                    assert(missing@.drop_last() =~= old(missing)@);
                }
                None
            }
            Some(id) => Some(id),
        }
    }
}

/// Access to source files by name. Implemented by the host.
pub trait Sources {
    /// The fetched file's path for a source name; `Ok(None)` when the
    /// source is not available yet.
    fn get(&mut self, source: &str) -> (r: Result<Option<String>, String>);

    /// As `get`, but an unavailable source is appended to the missing
    /// list (and only then). An error is passed through.
    fn get_or_append(&mut self, source: &str, missing: &mut Vec<String>) -> (r: Result<
        Option<String>,
        String,
    >)
        ensures
            match r {
                Ok(Some(_)) => final(missing)@ == old(missing)@,
                Err(_) => final(missing)@ == old(missing)@,
                Ok(None) => {
                    &&& final(missing)@.len() == old(missing)@.len() + 1
                    &&& final(missing)@.drop_last() == old(missing)@
                    &&& final(missing)@.last()@ == source@
                },
            },
    {
        match self.get(source) {
            Err(err) => Err(err),
            Ok(Some(path)) => Ok(Some(path)),
            Ok(None) => {
                missing.push(source.to_owned());
                proof {
                    assert(missing@.drop_last() =~= old(missing)@);
                }
                Ok(None)
            }
        }
    }
}

/// Failure of an import.
pub enum ImportError {
    /// The importer needs these sources and dependencies first.
    Requires { sources: Vec<String>, dependencies: Vec<Dependency> },
    /// The import failed for this reason.
    Other { reason: String },
}

/// Emits an error exactly when sources or dependencies are missing.
pub fn ensure(sources: Vec<String>, dependencies: Vec<Dependency>) -> (r: Result<(), ImportError>)
    ensures
        match r {
            Ok(()) => sources@.len() == 0 && dependencies@.len() == 0,
            Err(e) => (sources@.len() > 0 || dependencies@.len() > 0) && (e matches
                ImportError::Requires { sources: s2, dependencies: d2 } && s2 == sources && d2
                == dependencies),
        },
{
    if sources.is_empty() && dependencies.is_empty() {
        Ok(())
    } else {
        Err(ImportError::Requires { sources, dependencies })
    }
}

// ---------------------------------------------------------------------------
// The length-prefixed byte layout.
// ---------------------------------------------------------------------------

/// The four little-endian bytes of a 32-bit length.
pub open spec fn spec_le_bytes(v: u32) -> Seq<u8> {
    seq![
        (v & 0xff) as u8,
        ((v >> 8u32) & 0xff) as u8,
        ((v >> 16u32) & 0xff) as u8,
        ((v >> 24u32) & 0xff) as u8,
    ]
}

/// The 32-bit value written in four little-endian bytes.
pub open spec fn spec_u32_of_le(b: Seq<u8>) -> u32
    recommends
        b.len() == 4,
{
    (b[0] as u32) | ((b[1] as u32) << 8u32) | ((b[2] as u32) << 16u32) | ((b[3] as u32) << 24u32)
}

/// A length-prefixed byte string.
pub open spec fn spec_write_slice(b: Seq<u8>) -> Seq<u8> {
    spec_le_bytes(b.len() as u32) + b
}

/// A counted list of length-prefixed byte strings.
pub open spec fn spec_write_list(items: Seq<Seq<u8>>) -> Seq<u8>
    decreases items.len(),
{
    if items.len() == 0 {
        Seq::empty()
    } else {
        spec_write_slice(items.first()) + spec_write_list(items.drop_first())
    }
}

/// A counted list of length-prefixed byte-string pairs.
pub open spec fn spec_write_pairs(items: Seq<(Seq<u8>, Seq<u8>)>) -> Seq<u8>
    decreases items.len(),
{
    if items.len() == 0 {
        Seq::empty()
    } else {
        spec_write_slice(items.first().0) + spec_write_slice(items.first().1) + spec_write_pairs(
            items.drop_first(),
        )
    }
}

/// The whole requires-payload: the count and list of missing source
/// names, then the count and list of (source, target) dependency pairs.
pub open spec fn spec_encode_requires(
    sources: Seq<Seq<u8>>,
    dependencies: Seq<(Seq<u8>, Seq<u8>)>,
) -> Seq<u8> {
    spec_le_bytes(sources.len() as u32) + spec_write_list(sources) + spec_le_bytes(
        dependencies.len() as u32,
    ) + spec_write_pairs(dependencies)
}

/// Appends a 32-bit length, little endian.
pub fn write_u32(buffer: &mut Vec<u8>, value: u32)
    ensures
        final(buffer)@ == old(buffer)@ + spec_le_bytes(value),
{
    buffer.push((value & 0xff) as u8);
    buffer.push(((value >> 8u32) & 0xff) as u8);
    buffer.push(((value >> 16u32) & 0xff) as u8);
    buffer.push(((value >> 24u32) & 0xff) as u8);
    proof {
        assert(final(buffer)@ =~= old(buffer)@ + spec_le_bytes(value));
    }
}

/// Appends a length-prefixed byte string.
pub fn write_slice(buffer: &mut Vec<u8>, value: &Vec<u8>)
    requires
        value@.len() <= u32::MAX,
    ensures
        final(buffer)@ == old(buffer)@ + spec_write_slice(value@),
{
    write_u32(buffer, value.len() as u32);
    let n = value.len();
    let mut i: usize = 0;
    while i < n
        invariant
            n == value@.len(),
            i <= n,
            buffer@ == old(buffer)@ + spec_le_bytes(value@.len() as u32) + value@.take(i as int),
        decreases n - i,
    {
        buffer.push(value[i]);
        proof {
            assert(buffer@ =~= old(buffer)@ + spec_le_bytes(value@.len() as u32) + value@.take(
                i as int + 1,
            ));
        }
        i += 1;
    }
    proof {
        assert(value@.take(n as int) =~= value@);
        assert(buffer@ =~= old(buffer)@ + spec_write_slice(value@));
    }
}

/// Reads a 32-bit little-endian value at `offset`; `None` when fewer than
/// four bytes remain.
pub fn read_u32(buffer: &Vec<u8>, offset: usize) -> (r: Option<(u32, usize)>)
    ensures
        match r {
            Some((v, off2)) => {
                &&& offset + 4 <= buffer@.len()
                &&& off2 == offset + 4
                &&& v == spec_u32_of_le(buffer@.subrange(offset as int, offset as int + 4))
            },
            None => offset + 4 > buffer@.len(),
        },
{
    if offset > buffer.len() || buffer.len() - offset < 4 {
        return None;
    }
    let b0 = buffer[offset] as u32;
    let b1 = buffer[offset + 1] as u32;
    let b2 = buffer[offset + 2] as u32;
    let b3 = buffer[offset + 3] as u32;
    let v = b0 | (b1 << 8u32) | (b2 << 16u32) | (b3 << 24u32);
    proof {
        let s = buffer@.subrange(offset as int, offset as int + 4);
        assert(s[0] == buffer@[offset as int]);
        assert(s[1] == buffer@[offset as int + 1]);
        assert(s[2] == buffer@[offset as int + 2]);
        assert(s[3] == buffer@[offset as int + 3]);
    }
    Some((v, offset + 4))
}

/// Reads a length-prefixed byte string at `offset`; `None` when the
/// prefix or the bytes run past the buffer.
pub fn read_slice(buffer: &Vec<u8>, offset: usize) -> (r: Option<(Vec<u8>, usize)>)
    ensures
        match r {
            Some((v, off2)) => {
                &&& offset + 4 <= buffer@.len()
                &&& spec_u32_of_le(buffer@.subrange(offset as int, offset as int + 4)) == v@.len()
                &&& off2 == offset + 4 + v@.len()
                &&& off2 <= buffer@.len()
                &&& v@ == buffer@.subrange(offset as int + 4, off2 as int)
            },
            None => offset + 4 > buffer@.len() || offset + 4 + spec_u32_of_le(
                buffer@.subrange(offset as int, offset as int + 4),
            ) > buffer@.len(),
        },
{
    let (len, mid) = match read_u32(buffer, offset) {
        Some(x) => x,
        None => {
            return None;
        }
    };
    let len = len as usize;
    if len > buffer.len() - mid || mid > buffer.len() {
        return None;
    }
    let blen = buffer.len();
    let mut out: Vec<u8> = Vec::new();
    let mut i: usize = 0;
    while i < len
        invariant
            blen == buffer@.len(),
            mid + len <= blen,
            i <= len,
            out@.len() == i,
            out@ == buffer@.subrange(mid as int, mid as int + i as int),
        decreases len - i,
    {
        out.push(buffer[mid + i]);
        proof {
            assert(out@ =~= buffer@.subrange(mid as int, mid as int + i as int + 1));
        }
        i += 1;
    }
    Some((out, mid + len))
}

// ---------------------------------------------------------------------------
// The requires-payload: encoding, decoding, and their round trip.
// ---------------------------------------------------------------------------

/// The views of a list of byte vectors.
pub open spec fn byte_views(items: Seq<Vec<u8>>) -> Seq<Seq<u8>> {
    items.map_values(|v: Vec<u8>| v@)
}

/// The views of a list of byte-vector pairs.
pub open spec fn pair_views(items: Seq<(Vec<u8>, Vec<u8>)>) -> Seq<(Seq<u8>, Seq<u8>)> {
    items.map_values(|p: (Vec<u8>, Vec<u8>)| (p.0@, p.1@))
}

/// Reading four little-endian bytes and the following rest.
pub open spec fn spec_take_u32(b: Seq<u8>) -> Option<(u32, Seq<u8>)> {
    if b.len() >= 4 {
        Some((spec_u32_of_le(b.take(4)), b.skip(4)))
    } else {
        None
    }
}

/// Reading one length-prefixed byte string and the rest.
pub open spec fn spec_take_slice(b: Seq<u8>) -> Option<(Seq<u8>, Seq<u8>)> {
    match spec_take_u32(b) {
        Some((n, rest)) => if rest.len() >= n {
            Some((rest.take(n as int), rest.skip(n as int)))
        } else {
            None
        },
        None => None,
    }
}

/// Reading `n` length-prefixed byte strings and the rest.
pub open spec fn spec_take_list(b: Seq<u8>, n: nat) -> Option<(Seq<Seq<u8>>, Seq<u8>)>
    decreases n,
{
    if n == 0 {
        Some((Seq::empty(), b))
    } else {
        match spec_take_slice(b) {
            Some((x, rest)) => match spec_take_list(rest, (n - 1) as nat) {
                Some((xs, rest2)) => Some((seq![x] + xs, rest2)),
                None => None,
            },
            None => None,
        }
    }
}

/// Reading `n` pairs of length-prefixed byte strings and the rest.
pub open spec fn spec_take_pairs(b: Seq<u8>, n: nat) -> Option<(Seq<(Seq<u8>, Seq<u8>)>, Seq<u8>)>
    decreases n,
{
    if n == 0 {
        Some((Seq::empty(), b))
    } else {
        match spec_take_slice(b) {
            Some((x, rest)) => match spec_take_slice(rest) {
                Some((y, rest2)) => match spec_take_pairs(rest2, (n - 1) as nat) {
                    Some((xs, rest3)) => Some((seq![(x, y)] + xs, rest3)),
                    None => None,
                },
                None => None,
            },
            None => None,
        }
    }
}

/// Reading a whole requires-payload; the buffer must hold exactly it.
pub open spec fn spec_decode_requires(b: Seq<u8>) -> Option<
    (Seq<Seq<u8>>, Seq<(Seq<u8>, Seq<u8>)>),
> {
    match spec_take_u32(b) {
        Some((ns, rest)) => match spec_take_list(rest, ns as nat) {
            Some((ss, rest2)) => match spec_take_u32(rest2) {
                Some((nd, rest3)) => match spec_take_pairs(rest3, nd as nat) {
                    Some((dd, rest4)) => if rest4.len() == 0 {
                        Some((ss, dd))
                    } else {
                        None
                    },
                    None => None,
                },
                None => None,
            },
            None => None,
        },
        None => None,
    }
}

/// Encodes a requires-payload, exactly as `spec_encode_requires` lays it
/// out.
pub fn encode_requires(sources: &Vec<Vec<u8>>, dependencies: &Vec<(Vec<u8>, Vec<u8>)>) -> (r: Vec<
    u8,
>)
    requires
        sources@.len() <= u32::MAX,
        dependencies@.len() <= u32::MAX,
        forall|i: int| 0 <= i < sources@.len() ==> (#[trigger] sources@[i])@.len() <= u32::MAX,
        forall|i: int|
            0 <= i < dependencies@.len() ==> (#[trigger] dependencies@[i]).0@.len() <= u32::MAX
                && dependencies@[i].1@.len() <= u32::MAX,
    ensures
        r@ == spec_encode_requires(byte_views(sources@), pair_views(dependencies@)),
{
    let mut out: Vec<u8> = Vec::new();
    write_u32(&mut out, sources.len() as u32);
    let n = sources.len();
    let mut i: usize = 0;
    while i < n
        invariant
            n == sources@.len(),
            n <= u32::MAX,
            i <= n,
            forall|j: int| 0 <= j < n ==> (#[trigger] sources@[j])@.len() <= u32::MAX,
            out@ == spec_le_bytes(n as u32) + spec_write_list(byte_views(sources@.take(i as int))),
        decreases n - i,
    {
        write_slice(&mut out, &sources[i]);
        proof {
            lemma_write_list_push(byte_views(sources@.take(i as int)), sources@[i as int]@);
            assert(byte_views(sources@.take(i as int + 1)) =~= byte_views(
                sources@.take(i as int),
            ).push(sources@[i as int]@));
        }
        i += 1;
    }
    proof {
        assert(sources@.take(n as int) =~= sources@);
    }
    write_u32(&mut out, dependencies.len() as u32);
    let m = dependencies.len();
    let mut k: usize = 0;
    while k < m
        invariant
            m == dependencies@.len(),
            m <= u32::MAX,
            k <= m,
            forall|j: int|
                0 <= j < m ==> (#[trigger] dependencies@[j]).0@.len() <= u32::MAX
                    && dependencies@[j].1@.len() <= u32::MAX,
            out@ == spec_le_bytes(sources@.len() as u32) + spec_write_list(byte_views(sources@))
                + spec_le_bytes(m as u32) + spec_write_pairs(
                pair_views(dependencies@.take(k as int)),
            ),
        decreases m - k,
    {
        write_slice(&mut out, &dependencies[k].0);
        write_slice(&mut out, &dependencies[k].1);
        proof {
            lemma_write_pairs_push(
                pair_views(dependencies@.take(k as int)),
                (dependencies@[k as int].0@, dependencies@[k as int].1@),
            );
            assert(pair_views(dependencies@.take(k as int + 1)) =~= pair_views(
                dependencies@.take(k as int),
            ).push((dependencies@[k as int].0@, dependencies@[k as int].1@)));
            assert(out@ =~= spec_le_bytes(sources@.len() as u32) + spec_write_list(
                byte_views(sources@),
            ) + spec_le_bytes(m as u32) + spec_write_pairs(
                pair_views(dependencies@.take(k as int + 1)),
            ));
        }
        k += 1;
    }
    proof {
        assert(dependencies@.take(m as int) =~= dependencies@);
        assert(out@ =~= spec_encode_requires(byte_views(sources@), pair_views(dependencies@)));
    }
    out
}

/// A list encoding grows at the end by one length-prefixed string.
proof fn lemma_write_list_push(items: Seq<Seq<u8>>, x: Seq<u8>)
    ensures
        spec_write_list(items.push(x)) == spec_write_list(items) + spec_write_slice(x),
    decreases items.len(),
{
    if items.len() == 0 {
        assert(items.push(x).first() == x);
        assert(items.push(x).drop_first() =~= Seq::<Seq<u8>>::empty());
        assert(spec_write_list(items.push(x).drop_first()) == Seq::<u8>::empty());
        assert(spec_write_list(items.push(x)) == spec_write_slice(x) + Seq::<u8>::empty());
        assert(spec_write_slice(x) + Seq::<u8>::empty() =~= spec_write_slice(x));
        assert(spec_write_list(items) + spec_write_slice(x) =~= spec_write_slice(x));
    } else {
        assert(items.push(x).first() == items.first());
        assert(items.push(x).drop_first() =~= items.drop_first().push(x));
        lemma_write_list_push(items.drop_first(), x);
        assert(spec_write_list(items.push(x)) =~= spec_write_list(items) + spec_write_slice(x));
    }
}

/// A pair-list encoding grows at the end by one pair.
proof fn lemma_write_pairs_push(items: Seq<(Seq<u8>, Seq<u8>)>, x: (Seq<u8>, Seq<u8>))
    ensures
        spec_write_pairs(items.push(x)) == spec_write_pairs(items) + spec_write_slice(x.0)
            + spec_write_slice(x.1),
    decreases items.len(),
{
    if items.len() == 0 {
        assert(items.push(x).first() == x);
        assert(items.push(x).drop_first() =~= Seq::<(Seq<u8>, Seq<u8>)>::empty());
        assert(spec_write_pairs(items.push(x).drop_first()) == Seq::<u8>::empty());
        assert(spec_write_pairs(items.push(x)) == spec_write_slice(x.0) + spec_write_slice(x.1)
            + Seq::<u8>::empty());
        assert(spec_write_slice(x.0) + spec_write_slice(x.1) + Seq::<u8>::empty()
            =~= spec_write_slice(x.0) + spec_write_slice(x.1));
        assert(spec_write_pairs(items) + spec_write_slice(x.0) + spec_write_slice(x.1)
            =~= spec_write_slice(x.0) + spec_write_slice(x.1));
    } else {
        assert(items.push(x).first() == items.first());
        assert(items.push(x).drop_first() =~= items.drop_first().push(x));
        lemma_write_pairs_push(items.drop_first(), x);
        assert(spec_write_pairs(items.push(x)) =~= spec_write_pairs(items) + spec_write_slice(x.0)
            + spec_write_slice(x.1));
    }
}

/// Shifted decoding: what remains to decode relates to the whole.
pub open spec fn take_list_shift(
    whole: Option<(Seq<Seq<u8>>, Seq<u8>)>,
    done: Seq<Seq<u8>>,
    sub: Option<(Seq<Seq<u8>>, Seq<u8>)>,
) -> bool {
    match sub {
        Some((xs, rest)) => whole == Some((done + xs, rest)),
        None => whole is None,
    }
}

/// Shifted decoding for pairs.
pub open spec fn take_pairs_shift(
    whole: Option<(Seq<(Seq<u8>, Seq<u8>)>, Seq<u8>)>,
    done: Seq<(Seq<u8>, Seq<u8>)>,
    sub: Option<(Seq<(Seq<u8>, Seq<u8>)>, Seq<u8>)>,
) -> bool {
    match sub {
        Some((xs, rest)) => whole == Some((done + xs, rest)),
        None => whole is None,
    }
}

/// A successful offset read is the spec reading of the suffix.
proof fn lemma_take_u32_at(b: Seq<u8>, off: int, v: u32)
    requires
        0 <= off,
        off + 4 <= b.len(),
        v == spec_u32_of_le(b.subrange(off, off + 4)),
    ensures
        spec_take_u32(b.skip(off)) == Some((v, b.skip(off + 4))),
{
    let s = b.skip(off);
    assert(s.take(4) =~= b.subrange(off, off + 4));
    assert(s.skip(4) =~= b.skip(off + 4));
}

/// A successful offset slice read is the spec reading of the suffix.
proof fn lemma_take_slice_at(b: Seq<u8>, off: int, v: Seq<u8>, off2: int)
    requires
        0 <= off,
        off + 4 <= b.len(),
        spec_u32_of_le(b.subrange(off, off + 4)) == v.len(),
        off2 == off + 4 + v.len(),
        off2 <= b.len(),
        v == b.subrange(off + 4, off2),
    ensures
        spec_take_slice(b.skip(off)) == Some((v, b.skip(off2))),
{
    let s = b.skip(off);
    lemma_take_u32_at(b, off, (v.len() as u32));
    let rest = s.skip(4);
    assert(rest =~= b.skip(off + 4));
    assert(rest.take(v.len() as int) =~= b.subrange(off + 4, off2));
    assert(rest.skip(v.len() as int) =~= b.skip(off2));
}

/// A failed offset slice read means the spec reading fails too.
proof fn lemma_take_slice_none(b: Seq<u8>, off: int)
    requires
        0 <= off <= b.len(),
        off + 4 > b.len() || off + 4 + spec_u32_of_le(b.subrange(off, off + 4)) > b.len(),
    ensures
        spec_take_slice(b.skip(off)) is None,
{
    let s = b.skip(off);
    if off + 4 > b.len() {
        assert(s.len() < 4);
    } else {
        assert(s.take(4) =~= b.subrange(off, off + 4));
        assert(s.skip(4).len() < spec_u32_of_le(b.subrange(off, off + 4)));
    }
}

/// Decodes `count` length-prefixed byte strings starting at `offset`.
fn decode_list(buffer: &Vec<u8>, offset: usize, count: u32) -> (r: Option<(Vec<Vec<u8>>, usize)>)
    requires
        offset <= buffer@.len(),
    ensures
        match r {
            Some((items, off2)) => off2 <= buffer@.len() && spec_take_list(
                buffer@.skip(offset as int),
                count as nat,
            ) == Some((byte_views(items@), buffer@.skip(off2 as int))),
            None => spec_take_list(buffer@.skip(offset as int), count as nat) is None,
        },
{
    let mut items: Vec<Vec<u8>> = Vec::new();
    let mut cur: usize = offset;
    let mut i: u32 = 0;
    while i < count
        invariant
            offset <= buffer@.len(),
            cur <= buffer@.len(),
            i <= count,
            take_list_shift(
                spec_take_list(buffer@.skip(offset as int), count as nat),
                byte_views(items@),
                spec_take_list(buffer@.skip(cur as int), (count - i) as nat),
            ),
        decreases count - i,
    {
        let (v, cur2) = match read_slice(buffer, cur) {
            Some(x) => x,
            None => {
                proof {
                    lemma_take_slice_none(buffer@, cur as int);
                }
                return None;
            }
        };
        proof {
            lemma_take_slice_at(buffer@, cur as int, v@, cur2 as int);
            let sub = spec_take_list(buffer@.skip(cur as int), (count - i) as nat);
            let sub2 = spec_take_list(buffer@.skip(cur2 as int), (count - i - 1) as nat);
            match sub2 {
                Some((xs2, rest2)) => {
                    assert(sub == Some((seq![v@] + xs2, rest2)));
                    assert(byte_views(items@.push(v)) =~= byte_views(items@).push(v@));
                    assert(byte_views(items@) + (seq![v@] + xs2) =~= byte_views(items@).push(v@)
                        + xs2);
                }
                None => {
                    assert(sub is None);
                }
            }
        }
        items.push(v);
        cur = cur2;
        i += 1;
    }
    proof {
        assert(spec_take_list(buffer@.skip(cur as int), 0) == Some((
            Seq::<Seq<u8>>::empty(),
            buffer@.skip(cur as int),
        )));
        assert(byte_views(items@) + Seq::<Seq<u8>>::empty() =~= byte_views(items@));
    }
    Some((items, cur))
}

/// Decodes `count` pairs of length-prefixed byte strings.
fn decode_pairs(buffer: &Vec<u8>, offset: usize, count: u32) -> (r: Option<(
    Vec<(Vec<u8>, Vec<u8>)>,
    usize,
)>)
    requires
        offset <= buffer@.len(),
    ensures
        match r {
            Some((items, off2)) => off2 <= buffer@.len() && spec_take_pairs(
                buffer@.skip(offset as int),
                count as nat,
            ) == Some((pair_views(items@), buffer@.skip(off2 as int))),
            None => spec_take_pairs(buffer@.skip(offset as int), count as nat) is None,
        },
{
    let mut items: Vec<(Vec<u8>, Vec<u8>)> = Vec::new();
    let mut cur: usize = offset;
    let mut i: u32 = 0;
    while i < count
        invariant
            offset <= buffer@.len(),
            cur <= buffer@.len(),
            i <= count,
            take_pairs_shift(
                spec_take_pairs(buffer@.skip(offset as int), count as nat),
                pair_views(items@),
                spec_take_pairs(buffer@.skip(cur as int), (count - i) as nat),
            ),
        decreases count - i,
    {
        let (x, mid) = match read_slice(buffer, cur) {
            Some(p) => p,
            None => {
                proof {
                    lemma_take_slice_none(buffer@, cur as int);
                }
                return None;
            }
        };
        proof {
            lemma_take_slice_at(buffer@, cur as int, x@, mid as int);
        }
        let (y, cur2) = match read_slice(buffer, mid) {
            Some(p) => p,
            None => {
                proof {
                    lemma_take_slice_none(buffer@, mid as int);
                }
                return None;
            }
        };
        proof {
            lemma_take_slice_at(buffer@, mid as int, y@, cur2 as int);
            let sub = spec_take_pairs(buffer@.skip(cur as int), (count - i) as nat);
            let sub2 = spec_take_pairs(buffer@.skip(cur2 as int), (count - i - 1) as nat);
            match sub2 {
                Some((xs2, rest2)) => {
                    assert(sub == Some((seq![(x@, y@)] + xs2, rest2)));
                    assert(pair_views(items@.push((x, y))) =~= pair_views(items@).push((x@, y@)));
                    assert(pair_views(items@) + (seq![(x@, y@)] + xs2) =~= pair_views(
                        items@,
                    ).push((x@, y@)) + xs2);
                }
                None => {
                    assert(sub is None);
                }
            }
        }
        items.push((x, y));
        cur = cur2;
        i += 1;
    }
    proof {
        assert(spec_take_pairs(buffer@.skip(cur as int), 0) == Some((
            Seq::<(Seq<u8>, Seq<u8>)>::empty(),
            buffer@.skip(cur as int),
        )));
        assert(pair_views(items@) + Seq::<(Seq<u8>, Seq<u8>)>::empty() =~= pair_views(items@));
    }
    Some((items, cur))
}

/// Decodes a whole requires-payload, exactly as `spec_decode_requires`
/// reads it; the buffer must hold exactly one payload.
pub fn decode_requires(buffer: &Vec<u8>) -> (r: Option<(Vec<Vec<u8>>, Vec<(Vec<u8>, Vec<u8>)>)>)
    ensures
        match r {
            Some((ss, dd)) => spec_decode_requires(buffer@) == Some((
                byte_views(ss@),
                pair_views(dd@),
            )),
            None => spec_decode_requires(buffer@) is None,
        },
{
    proof {
        assert(buffer@.skip(0) =~= buffer@);
    }
    let (ns, off1) = match read_u32(buffer, 0) {
        Some(x) => x,
        None => {
            return None;
        }
    };
    proof {
        lemma_take_u32_at(buffer@, 0, ns);
    }
    let (ss, off2) = match decode_list(buffer, off1, ns) {
        Some(x) => x,
        None => {
            return None;
        }
    };
    let (nd, off3) = match read_u32(buffer, off2) {
        Some(x) => x,
        None => {
            proof {
                assert(buffer@.skip(off2 as int).len() < 4);
            }
            return None;
        }
    };
    proof {
        lemma_take_u32_at(buffer@, off2 as int, nd);
    }
    let (dd, off4) = match decode_pairs(buffer, off3, nd) {
        Some(x) => x,
        None => {
            return None;
        }
    };
    if off4 != buffer.len() {
        proof {
            assert(buffer@.skip(off4 as int).len() != 0);
        }
        return None;
    }
    proof {
        assert(buffer@.skip(off4 as int).len() == 0);
    }
    Some((ss, dd))
}

// ---------------------------------------------------------------------------
// Round trip: decoding an encoded payload yields it back.
// ---------------------------------------------------------------------------

/// The four little-endian bytes of a value read back as that value.
proof fn lemma_le_round_trip(v: u32)
    ensures
        spec_u32_of_le(spec_le_bytes(v)) == v,
{
    let b0 = (v & 0xff) as u8;
    let b1 = ((v >> 8u32) & 0xff) as u8;
    let b2 = ((v >> 16u32) & 0xff) as u8;
    let b3 = ((v >> 24u32) & 0xff) as u8;
    assert((b0 == (v & 0xff) as u8 && b1 == ((v >> 8u32) & 0xff) as u8 && b2 == ((v >> 16u32)
        & 0xff) as u8 && b3 == ((v >> 24u32) & 0xff) as u8) ==> ((b0 as u32) | ((b1 as u32)
        << 8u32) | ((b2 as u32) << 16u32) | ((b3 as u32) << 24u32)) == v) by (bit_vector);
}

/// Reading a written length yields it back, leaving the rest.
proof fn lemma_take_u32_of(v: u32, rest: Seq<u8>)
    ensures
        spec_take_u32(spec_le_bytes(v) + rest) == Some((v, rest)),
{
    let b = spec_le_bytes(v) + rest;
    assert(b.take(4) =~= spec_le_bytes(v));
    assert(b.skip(4) =~= rest);
    lemma_le_round_trip(v);
}

/// Reading a written byte string yields it back, leaving the rest.
proof fn lemma_take_slice_of(x: Seq<u8>, rest: Seq<u8>)
    requires
        x.len() <= u32::MAX,
    ensures
        spec_take_slice(spec_write_slice(x) + rest) == Some((x, rest)),
{
    let b = spec_write_slice(x) + rest;
    assert(b =~= spec_le_bytes(x.len() as u32) + (x + rest));
    lemma_take_u32_of(x.len() as u32, x + rest);
    assert((x + rest).take(x.len() as int) =~= x);
    assert((x + rest).skip(x.len() as int) =~= rest);
}

/// Reading a written list yields it back, leaving the rest.
#[verifier::rlimit(100)]
#[verifier::spinoff_prover]
proof fn lemma_take_list_of(items: Seq<Seq<u8>>, rest: Seq<u8>)
    requires
        forall|i: int| 0 <= i < items.len() ==> (#[trigger] items[i]).len() <= u32::MAX,
    ensures
        spec_take_list(spec_write_list(items) + rest, items.len()) == Some((items, rest)),
    decreases items.len(),
{
    if items.len() == 0 {
        assert(spec_write_list(items) + rest =~= rest);
    } else {
        let b = spec_write_list(items) + rest;
        assert(b =~= spec_write_slice(items.first()) + (spec_write_list(items.drop_first())
            + rest));
        lemma_take_slice_of(items.first(), spec_write_list(items.drop_first()) + rest);
        assert(forall|i: int|
            0 <= i < items.drop_first().len() ==> (#[trigger] items.drop_first()[i]).len()
                <= u32::MAX);
        lemma_take_list_of(items.drop_first(), rest);
        assert(seq![items.first()] + items.drop_first() =~= items);
    }
}

/// Reading a written pair list yields it back, leaving the rest.
#[verifier::rlimit(100)]
#[verifier::spinoff_prover]
proof fn lemma_take_pairs_of(items: Seq<(Seq<u8>, Seq<u8>)>, rest: Seq<u8>)
    requires
        forall|i: int|
            0 <= i < items.len() ==> (#[trigger] items[i]).0.len() <= u32::MAX
                && items[i].1.len() <= u32::MAX,
    ensures
        spec_take_pairs(spec_write_pairs(items) + rest, items.len()) == Some((items, rest)),
    decreases items.len(),
{
    if items.len() == 0 {
        assert(spec_write_pairs(items) + rest =~= rest);
    } else {
        let b = spec_write_pairs(items) + rest;
        let tail = spec_write_pairs(items.drop_first()) + rest;
        assert(b =~= spec_write_slice(items.first().0) + (spec_write_slice(items.first().1)
            + tail));
        lemma_take_slice_of(items.first().0, spec_write_slice(items.first().1) + tail);
        lemma_take_slice_of(items.first().1, tail);
        assert(forall|i: int|
            0 <= i < items.drop_first().len() ==> (#[trigger] items.drop_first()[i]).0.len()
                <= u32::MAX && items.drop_first()[i].1.len() <= u32::MAX);
        lemma_take_pairs_of(items.drop_first(), rest);
        assert(seq![(items.first().0, items.first().1)] + items.drop_first() =~= items);
    }
}

/// Round trip: a requires-payload laid out by `spec_encode_requires` reads
/// back as exactly the source list and dependency pairs it was made from.
pub proof fn lemma_requires_round_trip(
    sources: Seq<Seq<u8>>,
    dependencies: Seq<(Seq<u8>, Seq<u8>)>,
)
    requires
        sources.len() <= u32::MAX,
        dependencies.len() <= u32::MAX,
        forall|i: int| 0 <= i < sources.len() ==> (#[trigger] sources[i]).len() <= u32::MAX,
        forall|i: int|
            0 <= i < dependencies.len() ==> (#[trigger] dependencies[i]).0.len() <= u32::MAX
                && dependencies[i].1.len() <= u32::MAX,
    ensures
        spec_decode_requires(spec_encode_requires(sources, dependencies)) == Some((
            sources,
            dependencies,
        )),
{
    let b = spec_encode_requires(sources, dependencies);
    let tail1 = spec_write_list(sources) + (spec_le_bytes(dependencies.len() as u32)
        + spec_write_pairs(dependencies));
    assert(b =~= spec_le_bytes(sources.len() as u32) + tail1);
    lemma_take_u32_of(sources.len() as u32, tail1);
    let tail2 = spec_le_bytes(dependencies.len() as u32) + spec_write_pairs(dependencies);
    assert(tail1 =~= spec_write_list(sources) + tail2);
    lemma_take_list_of(sources, tail2);
    lemma_take_u32_of(dependencies.len() as u32, spec_write_pairs(dependencies));
    assert(spec_write_pairs(dependencies) =~= spec_write_pairs(dependencies)
        + Seq::<u8>::empty());
    lemma_take_pairs_of(dependencies, Seq::<u8>::empty());
    assert(spec_take_pairs(spec_write_pairs(dependencies), dependencies.len()) == Some((
        dependencies,
        Seq::<u8>::empty(),
    )));
}

// ---------------------------------------------------------------------------
// The fixed-width importer descriptor.
// ---------------------------------------------------------------------------

/// Longest extension, in bytes (strictly; room is left for a terminator).
pub const MAX_EXTENSION_LEN: usize = 16;

/// Most extensions an importer may declare (strictly).
pub const MAX_EXTENSION_COUNT: usize = 16;

/// Longest name, format or target, in bytes.
pub const MAX_FFI_NAME_LEN: usize = 64;

/// Most formats an importer may declare.
pub const MAX_FORMATS_COUNT: usize = 32;

/// No embedded NUL byte.
pub open spec fn no_nul(s: Seq<u8>) -> bool {
    forall|i: int| 0 <= i < s.len() ==> s[i] != 0
}

/// `out` is `src` written into an `n`-byte field, NUL-padded.
pub open spec fn nul_padded(src: Seq<u8>, n: int, out: Seq<u8>) -> bool {
    &&& out.len() == n
    &&& out.take(src.len() as int) == src
    &&& forall|i: int| src.len() <= i < n ==> out[i] == 0
}

/// An importer descriptor is exportable: names fit their fixed-width
/// fields, nothing is empty that must not be, and no string carries an
/// embedded NUL.
pub open spec fn valid_descriptor(
    name: Seq<u8>,
    formats: Seq<Seq<u8>>,
    target: Seq<u8>,
    extensions: Seq<Seq<u8>>,
) -> bool {
    &&& 0 < name.len() <= MAX_FFI_NAME_LEN && no_nul(name)
    &&& 0 < formats.len() <= MAX_FORMATS_COUNT
    &&& forall|i: int|
        0 <= i < formats.len() ==> (#[trigger] formats[i]).len() <= MAX_FFI_NAME_LEN && no_nul(
            formats[i],
        )
    &&& 0 < target.len() <= MAX_FFI_NAME_LEN && no_nul(target)
    &&& extensions.len() < MAX_EXTENSION_COUNT
    &&& forall|i: int|
        0 <= i < extensions.len() ==> (#[trigger] extensions[i]).len() < MAX_EXTENSION_LEN
            && no_nul(extensions[i])
}

/// An importer described for export across the boundary: fixed-width,
/// NUL-padded fields.
pub struct ImporterFFI {
    /// Importer name, 64 bytes.
    pub name: Vec<u8>,
    /// Declared source formats, 32 fields of 64 bytes.
    pub formats: Vec<Vec<u8>>,
    /// Target format, 64 bytes.
    pub target: Vec<u8>,
    /// Source extensions, 16 fields of 16 bytes.
    pub extensions: Vec<Vec<u8>>,
}

/// Does `v` contain no NUL byte?
fn check_no_nul(v: &Vec<u8>) -> (r: bool)
    ensures
        r == no_nul(v@),
{
    let n = v.len();
    let mut i: usize = 0;
    while i < n
        invariant
            n == v@.len(),
            i <= n,
            forall|j: int| 0 <= j < i ==> v@[j] != 0,
        decreases n - i,
    {
        if v[i] == 0 {
            return false;
        }
        i += 1;
    }
    true
}

/// Writes `src` into a fresh `n`-byte NUL-padded field.
fn pad_field(src: &Vec<u8>, n: usize) -> (r: Vec<u8>)
    requires
        src@.len() <= n,
    ensures
        nul_padded(src@, n as int, r@),
{
    let mut out: Vec<u8> = Vec::new();
    let m = src.len();
    let mut i: usize = 0;
    while i < m
        invariant
            m == src@.len(),
            i <= m,
            out@ =~= src@.take(i as int),
        decreases m - i,
    {
        out.push(src[i]);
        i += 1;
    }
    let mut k: usize = m;
    while k < n
        invariant
            m <= k <= n,
            out@.len() == k,
            out@.take(m as int) =~= src@,
            forall|j: int| m <= j < k ==> out@[j] == 0,
        decreases n - k,
    {
        out.push(0);
        k += 1;
    }
    out
}

impl ImporterFFI {
    /// Packs an importer's descriptor into its fixed-width form; accepts
    /// exactly the valid descriptors.
    pub fn new(name: &Vec<u8>, formats: &Vec<Vec<u8>>, target: &Vec<u8>, extensions: &Vec<
        Vec<u8>,
    >) -> (r: Option<ImporterFFI>)
        ensures
            (r is Some) == valid_descriptor(name@, byte_views(formats@), target@, byte_views(
                extensions@,
            )),
            r matches Some(ffi) ==> {
                &&& nul_padded(name@, MAX_FFI_NAME_LEN as int, ffi.name@)
                &&& ffi.formats@.len() == MAX_FORMATS_COUNT
                &&& forall|i: int|
                    0 <= i < formats@.len() ==> nul_padded(
                        formats@[i]@,
                        MAX_FFI_NAME_LEN as int,
                        (#[trigger] ffi.formats@[i])@,
                    )
                &&& forall|i: int|
                    formats@.len() <= i < MAX_FORMATS_COUNT ==> nul_padded(
                        Seq::empty(),
                        MAX_FFI_NAME_LEN as int,
                        (#[trigger] ffi.formats@[i])@,
                    )
                &&& nul_padded(target@, MAX_FFI_NAME_LEN as int, ffi.target@)
                &&& ffi.extensions@.len() == MAX_EXTENSION_COUNT
                &&& forall|i: int|
                    0 <= i < extensions@.len() ==> nul_padded(
                        extensions@[i]@,
                        MAX_EXTENSION_LEN as int,
                        (#[trigger] ffi.extensions@[i])@,
                    )
                &&& forall|i: int|
                    extensions@.len() <= i < MAX_EXTENSION_COUNT ==> nul_padded(
                        Seq::empty(),
                        MAX_EXTENSION_LEN as int,
                        (#[trigger] ffi.extensions@[i])@,
                    )
            },
    {
        if name.len() == 0 || name.len() > MAX_FFI_NAME_LEN || !check_no_nul(name) {
            return None;
        }
        if formats.len() == 0 || formats.len() > MAX_FORMATS_COUNT {
            return None;
        }
        if target.len() == 0 || target.len() > MAX_FFI_NAME_LEN || !check_no_nul(target) {
            return None;
        }
        if extensions.len() >= MAX_EXTENSION_COUNT {
            return None;
        }
        let nf = formats.len();
        let mut i: usize = 0;
        while i < nf
            invariant
                nf == formats@.len(),
                i <= nf,
                forall|j: int|
                    0 <= j < i ==> (#[trigger] formats@[j])@.len() <= MAX_FFI_NAME_LEN && no_nul(
                        formats@[j]@,
                    ),
            decreases nf - i,
        {
            if formats[i].len() > MAX_FFI_NAME_LEN || !check_no_nul(&formats[i]) {
                proof {
                    assert(byte_views(formats@)[i as int] == formats@[i as int]@);
                }
                return None;
            }
            i += 1;
        }
        let ne = extensions.len();
        let mut i: usize = 0;
        while i < ne
            invariant
                ne == extensions@.len(),
                i <= ne,
                forall|j: int|
                    0 <= j < i ==> (#[trigger] extensions@[j])@.len() < MAX_EXTENSION_LEN
                        && no_nul(extensions@[j]@),
            decreases ne - i,
        {
            if extensions[i].len() >= MAX_EXTENSION_LEN || !check_no_nul(&extensions[i]) {
                proof {
                    assert(byte_views(extensions@)[i as int] == extensions@[i as int]@);
                }
                return None;
            }
            i += 1;
        }
        let empty: Vec<u8> = Vec::new();
        let mut formats_buf: Vec<Vec<u8>> = Vec::new();
        let mut i: usize = 0;
        while i < MAX_FORMATS_COUNT
            invariant
                nf == formats@.len(),
                nf <= MAX_FORMATS_COUNT,
                i <= MAX_FORMATS_COUNT,
                formats_buf@.len() == i,
                empty@.len() == 0,
                forall|j: int|
                    0 <= j < i && j < nf ==> nul_padded(
                        formats@[j]@,
                        MAX_FFI_NAME_LEN as int,
                        (#[trigger] formats_buf@[j])@,
                    ),
                forall|j: int|
                    nf <= j < i ==> nul_padded(
                        Seq::empty(),
                        MAX_FFI_NAME_LEN as int,
                        (#[trigger] formats_buf@[j])@,
                    ),
                forall|j: int|
                    0 <= j < nf ==> (#[trigger] formats@[j])@.len() <= MAX_FFI_NAME_LEN,
            decreases MAX_FORMATS_COUNT - i,
        {
            if i < nf {
                formats_buf.push(pad_field(&formats[i], MAX_FFI_NAME_LEN));
            } else {
                formats_buf.push(pad_field(&empty, MAX_FFI_NAME_LEN));
                proof {
                    assert(empty@ =~= Seq::<u8>::empty());
                }
            }
            i += 1;
        }
        let mut extensions_buf: Vec<Vec<u8>> = Vec::new();
        let mut i: usize = 0;
        while i < MAX_EXTENSION_COUNT
            invariant
                ne == extensions@.len(),
                ne < MAX_EXTENSION_COUNT,
                i <= MAX_EXTENSION_COUNT,
                extensions_buf@.len() == i,
                empty@.len() == 0,
                forall|j: int|
                    0 <= j < i && j < ne ==> nul_padded(
                        extensions@[j]@,
                        MAX_EXTENSION_LEN as int,
                        (#[trigger] extensions_buf@[j])@,
                    ),
                forall|j: int|
                    ne <= j < i ==> nul_padded(
                        Seq::empty(),
                        MAX_EXTENSION_LEN as int,
                        (#[trigger] extensions_buf@[j])@,
                    ),
                forall|j: int|
                    0 <= j < ne ==> (#[trigger] extensions@[j])@.len() < MAX_EXTENSION_LEN,
            decreases MAX_EXTENSION_COUNT - i,
        {
            if i < ne {
                extensions_buf.push(pad_field(&extensions[i], MAX_EXTENSION_LEN));
            } else {
                extensions_buf.push(pad_field(&empty, MAX_EXTENSION_LEN));
                proof {
                    assert(empty@ =~= Seq::<u8>::empty());
                }
            }
            i += 1;
        }
        proof {
            assert forall|j: int| 0 <= j < formats@.len() implies (#[trigger] byte_views(
                formats@,
            )[j]) == formats@[j]@ by {}
            assert forall|j: int| 0 <= j < extensions@.len() implies (#[trigger] byte_views(
                extensions@,
            )[j]) == extensions@[j]@ by {}
        }
        Some(
            ImporterFFI {
                name: pad_field(name, MAX_FFI_NAME_LEN),
                formats: formats_buf,
                target: pad_field(target, MAX_FFI_NAME_LEN),
                extensions: extensions_buf,
            },
        )
    }
}

} // verus!
