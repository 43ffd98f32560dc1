//! Byte codec for the persisted memory-state descriptor: a count
//! followed by one `(base_address, size)` entry per region, all fields
//! little-endian 64-bit, so that a descriptor round-trips through
//! serialization without reordering.

use vstd::prelude::*;

use crate::snapshot::GuestMemoryRegionState;
use crate::snapshot::GuestMemoryState;

verus! {

/// Error raised when decoding a memory-state descriptor.
#[derive(Debug, PartialEq, Eq)]
pub enum MemoryStateCodecError {
    /// The bytes are not a descriptor of the expected shape.
    Malformed,
    /// An entry's size does not fit the machine's address space.
    OversizedRegion,
}

/// The eight little-endian bytes of `x`.
pub open spec fn spec_u64_le(x: u64) -> Seq<u8> {
    Seq::new(8, |i: int| ((x >> ((8 * i) as u64)) & 0xff) as u8)
}

/// The 64-bit value read from eight little-endian bytes.
pub open spec fn spec_u64_from_le(b: Seq<u8>) -> u64
    recommends
        b.len() == 8,
{
    (b[0] as u64) | ((b[1] as u64) << 8u64) | ((b[2] as u64) << 16u64) | ((b[3] as u64)
        << 24u64) | ((b[4] as u64) << 32u64) | ((b[5] as u64) << 40u64) | ((b[6] as u64)
        << 48u64) | ((b[7] as u64) << 56u64)
}

/// Reading back the little-endian bytes of `x` gives `x`.
pub proof fn lemma_u64_le_round_trip(x: u64)
    ensures
        spec_u64_from_le(spec_u64_le(x)) == x,
{
    let s = spec_u64_le(x);
    assert(s[0] == ((x >> 0u64) & 0xff) as u8);
    assert(s[1] == ((x >> 8u64) & 0xff) as u8);
    assert(s[2] == ((x >> 16u64) & 0xff) as u8);
    assert(s[3] == ((x >> 24u64) & 0xff) as u8);
    assert(s[4] == ((x >> 32u64) & 0xff) as u8);
    assert(s[5] == ((x >> 40u64) & 0xff) as u8);
    assert(s[6] == ((x >> 48u64) & 0xff) as u8);
    assert(s[7] == ((x >> 56u64) & 0xff) as u8);
    assert(((((x >> 0u64) & 0xff) as u8) as u64) | (((((x >> 8u64) & 0xff) as u8) as u64)
        << 8u64) | (((((x >> 16u64) & 0xff) as u8) as u64) << 16u64) | (((((x >> 24u64)
        & 0xff) as u8) as u64) << 24u64) | (((((x >> 32u64) & 0xff) as u8) as u64) << 32u64) | ((((
    (x >> 40u64) & 0xff) as u8) as u64) << 40u64) | (((((x >> 48u64) & 0xff) as u8) as u64)
        << 48u64) | (((((x >> 56u64) & 0xff) as u8) as u64) << 56u64) == x) by (bit_vector);
}

/// The encoded entries of the first `n` pairs, 16 bytes each.
pub open spec fn spec_entries(rs: Seq<(u64, u64)>, n: int) -> Seq<u8>
    decreases n,
{
    if n <= 0 {
        Seq::empty()
    } else {
        spec_entries(rs, n - 1) + spec_u64_le(rs[n - 1].0) + spec_u64_le(rs[n - 1].1)
    }
}

/// The encoding of a descriptor: entry count, then the entries.
pub open spec fn spec_serialize_pairs(rs: Seq<(u64, u64)>) -> Seq<u8> {
    spec_u64_le(rs.len() as u64) + spec_entries(rs, rs.len() as int)
}

/// Each entry takes 16 bytes.
pub proof fn lemma_entries_len(rs: Seq<(u64, u64)>, n: int)
    requires
        n >= 0,
    ensures
        spec_entries(rs, n).len() == 16 * n,
    decreases n,
{
    if n > 0 {
        lemma_entries_len(rs, n - 1);
    }
}

/// Within the encoded entries, entry `i` holds the little-endian bytes
/// of its pair at offsets `16 i` and `16 i + 8`.
pub proof fn lemma_entries_extract(rs: Seq<(u64, u64)>, n: int, i: int)
    requires
        0 <= i < n,
    ensures
        spec_entries(rs, n).subrange(16 * i, 16 * i + 8) == spec_u64_le(rs[i].0),
        spec_entries(rs, n).subrange(16 * i + 8, 16 * i + 16) == spec_u64_le(rs[i].1),
    decreases n,
{
    lemma_entries_len(rs, n - 1);
    if i == n - 1 {
        assert(spec_entries(rs, n).subrange(16 * i, 16 * i + 8) =~= spec_u64_le(rs[i].0));
        assert(spec_entries(rs, n).subrange(16 * i + 8, 16 * i + 16) =~= spec_u64_le(rs[i].1));
    } else {
        lemma_entries_extract(rs, n - 1, i);
        lemma_entries_len(rs, n);
        assert(spec_entries(rs, n).subrange(16 * i, 16 * i + 8) =~= spec_entries(
            rs,
            n - 1,
        ).subrange(16 * i, 16 * i + 8));
        assert(spec_entries(rs, n).subrange(16 * i + 8, 16 * i + 16) =~= spec_entries(
            rs,
            n - 1,
        ).subrange(16 * i + 8, 16 * i + 16));
    }
}

/// The pairs read back from an encoded descriptor: entry `i` is decoded
/// from the 16 bytes at offset `8 + 16 i`.
pub open spec fn spec_parse_entries(bytes: Seq<u8>, n: int) -> Seq<(u64, u64)>
    decreases n,
{
    if n <= 0 {
        Seq::empty()
    } else {
        spec_parse_entries(bytes, n - 1).push(
            (
                spec_u64_from_le(bytes.subrange(8 + 16 * (n - 1), 16 + 16 * (n - 1))),
                spec_u64_from_le(bytes.subrange(16 + 16 * (n - 1), 24 + 16 * (n - 1))),
            ),
        )
    }
}

/// Decodes a descriptor: the count must be followed by exactly that
/// many 16-byte entries.
pub open spec fn spec_parse(bytes: Seq<u8>) -> Option<Seq<(u64, u64)>> {
    if bytes.len() < 8 {
        None
    } else {
        let count = spec_u64_from_le(bytes.subrange(0, 8)) as int;
        if bytes.len() == 8 + 16 * count {
            Some(spec_parse_entries(bytes, count))
        } else {
            None
        }
    }
}

/// Parsing picks up each encoded entry unchanged.
proof fn lemma_parse_entries_of_serialized(rs: Seq<(u64, u64)>, n: int)
    requires
        0 <= n <= rs.len(),
    ensures
        spec_parse_entries(spec_serialize_pairs(rs), n) == rs.subrange(0, n),
    decreases n,
{
    let bytes = spec_serialize_pairs(rs);
    if n == 0 {
        assert(spec_parse_entries(bytes, 0) =~= rs.subrange(0, 0));
    } else {
        lemma_parse_entries_of_serialized(rs, n - 1);
        lemma_entries_len(rs, rs.len() as int);
        lemma_entries_extract(rs, rs.len() as int, n - 1);
        assert(bytes.subrange(8 + 16 * (n - 1), 16 + 16 * (n - 1)) =~= spec_entries(
            rs,
            rs.len() as int,
        ).subrange(16 * (n - 1), 16 * (n - 1) + 8));
        assert(bytes.subrange(16 + 16 * (n - 1), 24 + 16 * (n - 1)) =~= spec_entries(
            rs,
            rs.len() as int,
        ).subrange(16 * (n - 1) + 8, 16 * (n - 1) + 16));
        lemma_u64_le_round_trip(rs[n - 1].0);
        lemma_u64_le_round_trip(rs[n - 1].1);
        assert(spec_parse_entries(bytes, n) =~= rs.subrange(0, n));
    }
}

/// A memory-state descriptor decodes to exactly the pairs it was
/// encoded from: the codec round-trips.
pub proof fn lemma_memory_state_round_trip(rs: Seq<(u64, u64)>)
    requires
        rs.len() <= u64::MAX,
    ensures
        spec_parse(spec_serialize_pairs(rs)) == Some(rs),
{
    let bytes = spec_serialize_pairs(rs);
    lemma_entries_len(rs, rs.len() as int);
    assert(bytes.subrange(0, 8) =~= spec_u64_le(rs.len() as u64));
    lemma_u64_le_round_trip(rs.len() as u64);
    lemma_parse_entries_of_serialized(rs, rs.len() as int);
    assert(rs.subrange(0, rs.len() as int) =~= rs);
}

/// The pairs a descriptor stands for: each region as its base address
/// and its size widened to 64 bits.
pub open spec fn spec_state_pairs(st: GuestMemoryState) -> Seq<(u64, u64)> {
    st.regions@.map(|i: int, r: GuestMemoryRegionState| (r.base_address, r.size as u64))
}

/// Appends the eight little-endian bytes of `x` to `out`.
fn push_u64_le(out: &mut Vec<u8>, x: u64)
    ensures
        final(out)@ == old(out)@ + spec_u64_le(x),
{
    let mut i: usize = 0;
    while i < 8
        invariant
            i <= 8,
            out@.len() == old(out)@.len() + i,
            forall|k: int| 0 <= k < old(out)@.len() ==> #[trigger] out@[k] == old(out)@[k],
            forall|k: int|
                old(out)@.len() <= k < out@.len() ==> #[trigger] out@[k] == spec_u64_le(x)[k
                    - old(out)@.len()],
        decreases 8 - i,
    {
        let sh: u64 = (8 * i) as u64;
        let b: u64 = (x >> sh) & 0xff;
        proof {
            assert(b < 256) by (bit_vector)
                requires
                    b == (x >> sh) & 0xff,
            ;
        }
        out.push(b as u8);
        i = i + 1;
    }
    assert(out@ =~= old(out)@ + spec_u64_le(x));
}

/// Reads the 64-bit value stored little-endian at `offset`.
fn read_u64_le(bytes: &Vec<u8>, offset: usize) -> (r: u64)
    requires
        offset + 8 <= bytes@.len(),
    ensures
        r == spec_u64_from_le(bytes@.subrange(offset as int, offset + 8)),
{
    let total: usize = bytes.len();
    let b0: u64 = bytes[offset] as u64;
    let b1: u64 = bytes[offset + 1] as u64;
    let b2: u64 = bytes[offset + 2] as u64;
    let b3: u64 = bytes[offset + 3] as u64;
    let b4: u64 = bytes[offset + 4] as u64;
    let b5: u64 = bytes[offset + 5] as u64;
    let b6: u64 = bytes[offset + 6] as u64;
    let b7: u64 = bytes[offset + 7] as u64;
    let r: u64 = b0 | (b1 << 8u64) | (b2 << 16u64) | (b3 << 24u64) | (b4 << 32u64) | (b5
        << 40u64) | (b6 << 48u64) | (b7 << 56u64);
    proof {
        let s = bytes@.subrange(offset as int, offset + 8);
        assert(s[0] == bytes@[offset as int]);
        assert(s[1] == bytes@[offset + 1]);
        assert(s[2] == bytes@[offset + 2]);
        assert(s[3] == bytes@[offset + 3]);
        assert(s[4] == bytes@[offset + 4]);
        assert(s[5] == bytes@[offset + 5]);
        assert(s[6] == bytes@[offset + 6]);
        assert(s[7] == bytes@[offset + 7]);
    }
    r
}

/// Encodes a memory-state descriptor as bytes.
pub fn serialize_memory_state(st: &GuestMemoryState) -> (r: Vec<u8>)
    ensures
        r@ == spec_serialize_pairs(spec_state_pairs(*st)),
{
    let n: usize = st.regions.len();
    let mut out: Vec<u8> = Vec::new();
    push_u64_le(&mut out, n as u64);
    proof {
        assert(spec_state_pairs(*st).len() == n);
        assert(out@ =~= spec_u64_le(n as u64) + spec_entries(spec_state_pairs(*st), 0));
    }
    let mut i: usize = 0;
    while i < n
        invariant
            i <= n,
            n == st.regions@.len(),
            n == spec_state_pairs(*st).len(),
            out@ == spec_u64_le(n as u64) + spec_entries(spec_state_pairs(*st), i as int),
        decreases n - i,
    {
        let entry = &st.regions[i];
        push_u64_le(&mut out, entry.base_address);
        push_u64_le(&mut out, entry.size as u64);
        proof {
            assert(spec_state_pairs(*st)[i as int] == (
                st.regions@[i as int].base_address,
                st.regions@[i as int].size as u64,
            ));
            assert(out@ =~= spec_u64_le(n as u64) + spec_entries(
                spec_state_pairs(*st),
                i + 1,
            ));
        }
        i = i + 1;
    }
    out
}

/// Decodes a memory-state descriptor.  Succeeds exactly on byte strings
/// of the descriptor shape; an entry whose size exceeds the machine's
/// address space is rejected as `OversizedRegion`.
#[verifier::rlimit(30)]
pub fn deserialize_memory_state(bytes: &Vec<u8>) -> (r: Result<
    GuestMemoryState,
    MemoryStateCodecError,
>)
    ensures
        match r {
            Ok(st) => spec_parse(bytes@) == Some(spec_state_pairs(st)),
            Err(e) => match e {
                MemoryStateCodecError::Malformed => spec_parse(bytes@) is None,
                MemoryStateCodecError::OversizedRegion => match spec_parse(bytes@) {
                    Some(rs) => exists|i: int|
                        0 <= i < rs.len() && (#[trigger] rs[i]).1 > usize::MAX as u64,
                    None => false,
                },
            },
        },
{
    let total: usize = bytes.len();
    if total < 8 {
        return Err(MemoryStateCodecError::Malformed);
    }
    let count64: u64 = read_u64_le(bytes, 0);
    if count64 > ((usize::MAX - 8) / 16) as u64 {
        proof {
            crate::lemma_mul_le_iff_div(count64 as int, usize::MAX as int - 8, 16);
        }
        return Err(MemoryStateCodecError::Malformed);
    }
    let count: usize = count64 as usize;
    if total != 8 + 16 * count {
        return Err(MemoryStateCodecError::Malformed);
    }
    let mut regions: Vec<GuestMemoryRegionState> = Vec::new();
    let mut i: usize = 0;
    while i < count
        invariant
            i <= count,
            count == count64,
            total == bytes@.len(),
            bytes@.len() == 8 + 16 * count,
            spec_u64_from_le(bytes@.subrange(0, 8)) == count64,
            regions@.len() == i,
            forall|k: int|
                0 <= k < i ==> (#[trigger] regions@[k]).base_address == spec_parse_entries(
                    bytes@,
                    count as int,
                )[k].0 && regions@[k].size as u64 == spec_parse_entries(
                    bytes@,
                    count as int,
                )[k].1,
        decreases count - i,
    {
        let base: u64 = read_u64_le(bytes, 8 + 16 * i);
        let size64: u64 = read_u64_le(bytes, 16 + 16 * i);
        proof {
            lemma_parse_entry_fields(bytes@, count as int, i as int);
        }
        if size64 > usize::MAX as u64 {
            proof {
                lemma_parse_entries_len(bytes@, count as int);
                let rs = spec_parse_entries(bytes@, count as int);
                assert(spec_parse(bytes@) == Some(rs));
                assert(spec_parse(bytes@) is Some);
                assert(0 <= i < spec_parse(bytes@).unwrap().len());
                assert((spec_parse(bytes@).unwrap())[i as int].1 > usize::MAX as u64);
            }
            return Err(MemoryStateCodecError::OversizedRegion);
        }
        regions.push(GuestMemoryRegionState { base_address: base, size: size64 as usize });
        i = i + 1;
    }
    let st = GuestMemoryState { regions };
    proof {
        lemma_parse_entries_len(bytes@, count as int);
        assert(spec_parse(bytes@) == Some(spec_parse_entries(bytes@, count as int)));
        assert(spec_state_pairs(st) =~= spec_parse_entries(bytes@, count as int));
    }
    Ok(st)
}

/// Entry `i` of a parsed descriptor is decoded from the 16 bytes at
/// offset `8 + 16 i`.
proof fn lemma_parse_entry_fields(bytes: Seq<u8>, n: int, i: int)
    requires
        0 <= i < n,
    ensures
        spec_parse_entries(bytes, n)[i] == (
            spec_u64_from_le(bytes.subrange(8 + 16 * i, 16 + 16 * i)),
            spec_u64_from_le(bytes.subrange(16 + 16 * i, 24 + 16 * i)),
        ),
        spec_parse_entries(bytes, n).len() == n,
    decreases n,
{
    if i < n - 1 {
        lemma_parse_entry_fields(bytes, n - 1, i);
    } else {
        if n - 1 > 0 {
            lemma_parse_entries_len(bytes, n - 1);
        }
    }
    lemma_parse_entries_len(bytes, n);
}

proof fn lemma_parse_entries_len(bytes: Seq<u8>, n: int)
    requires
        n >= 0,
    ensures
        spec_parse_entries(bytes, n).len() == n,
    decreases n,
{
    if n > 0 {
        lemma_parse_entries_len(bytes, n - 1);
    }
}

} // verus!
