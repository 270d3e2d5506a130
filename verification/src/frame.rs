//! The fixed-size header and checksum trailer of an IPC frame: a 20-byte
//! header (magic, schema version, channel tag, flags, reserved field,
//! sequence number and payload length, integers little-endian), the
//! payload, and a CRC-32C of header and payload.

use vstd::prelude::*;

verus! {

/// Eight shift steps of a reflected CRC-32C register: each shifts right by
/// one and, when the bit shifted out is set, xors in the reversed
/// Castagnoli polynomial 0x82F63B78.
pub open spec fn crc32c_shift(reg: u32, k: nat) -> u32
    decreases k,
{
    if k == 0 {
        reg
    } else {
        let r = crc32c_shift(reg, (k - 1) as nat);
        if r & 1u32 == 1u32 {
            (r >> 1u32) ^ 0x82F6_3B78u32
        } else {
            r >> 1u32
        }
    }
}

/// The CRC-32C register after `data`: all ones at first, then each byte
/// xored into the low bits and shifted through.
pub open spec fn crc32c_register(data: Seq<u8>) -> u32
    decreases data.len(),
{
    if data.len() == 0 {
        0xFFFF_FFFFu32
    } else {
        crc32c_shift(crc32c_register(data.drop_last()) ^ (data.last() as u32), 8)
    }
}

/// The CRC-32C (Castagnoli) checksum of `data`: the final register with
/// every bit inverted.
pub open spec fn crc32c_of(data: Seq<u8>) -> u32 {
    crc32c_register(data) ^ 0xFFFF_FFFFu32
}

/// Calls `crc32c::crc32c`, which computes the CRC-32C checksum of `data`
/// (`crc32c_of`) with a lookup table or the processor's CRC instruction.
#[verifier::external_body]
fn crc32c_checksum(data: &[u8]) -> (r: u32)
    ensures
        r == crc32c_of(data@),
{
    crc32c::crc32c(data)
}

/// The unsigned integer that bytes encode little-endian.
pub open spec fn le_value(b: Seq<u8>) -> int
    decreases b.len(),
{
    if b.len() == 0 {
        0
    } else {
        b[0] as int + 256 * le_value(b.drop_first())
    }
}

/// Why a frame is refused.
#[derive(Debug, Clone, Copy, PartialEq, Eq)]
pub enum FrameError {
    InvalidMagic([u8; 2]),
    UnsupportedVersion(u16),
    InvalidChannelTag(u8),
    InvalidReserved(u16),
    PayloadTooLarge(u32),
    ChecksumMismatch { expected: u32, calculated: u32 },
}

/// The fields a valid frame header carries.
#[derive(Debug, Clone, Copy, PartialEq, Eq, Structural)]
pub struct FrameHeaderFields {
    pub channel_tag: u8,
    pub flags: u8,
    pub sequence_number: u64,
    pub payload_len: u32,
}

/// The checks on a frame header, in order: the magic bytes, the schema
/// version, a channel tag the protocol defines, a zero reserved field, and
/// a payload no longer than the protocol allows.
pub open spec fn header_verdict(
    h: Seq<u8>,
    magic: Seq<u8>,
    schema_version: u16,
    channel_tags: Seq<u8>,
    max_payload_size: int,
) -> Result<FrameHeaderFields, FrameError> {
    let version = le_value(h.subrange(2, 4));
    let reserved = le_value(h.subrange(6, 8));
    let len = le_value(h.subrange(16, 20));
    if h.subrange(0, 2) != magic {
        Err(FrameError::InvalidMagic([h[0], h[1]]))
    } else if version != schema_version {
        Err(FrameError::UnsupportedVersion(version as u16))
    } else if !channel_tags.contains(h[4]) {
        Err(FrameError::InvalidChannelTag(h[4]))
    } else if reserved != 0 {
        Err(FrameError::InvalidReserved(reserved as u16))
    } else if len > max_payload_size {
        Err(FrameError::PayloadTooLarge(len as u32))
    } else {
        Ok(
            FrameHeaderFields {
                channel_tag: h[4],
                flags: h[5],
                sequence_number: le_value(h.subrange(8, 16)) as u64,
                payload_len: len as u32,
            },
        )
    }
}

proof fn lemma_le_step(b: Seq<u8>, i: int, j: int)
    requires
        0 <= i < j <= b.len(),
    ensures
        le_value(b.subrange(i, j)) == b[i] as int + 256 * le_value(b.subrange(i + 1, j)),
{
    assert(b.subrange(i, j).drop_first() =~= b.subrange(i + 1, j));
}

proof fn lemma_le_empty(b: Seq<u8>, i: int)
    requires
        0 <= i <= b.len(),
    ensures
        le_value(b.subrange(i, i)) == 0,
{
    assert(b.subrange(i, i) =~= Seq::<u8>::empty());
}

fn le_u16(b: &[u8; 20], i: usize) -> (r: u16)
    requires
        i + 2 <= 20,
    ensures
        r as int == le_value(b@.subrange(i as int, i + 2)),
{
    proof {
        lemma_le_step(b@, i as int, i + 2);
        lemma_le_step(b@, i + 1, i + 2);
        lemma_le_empty(b@, i + 2);
    }
    (b[i] as u16) + 256 * (b[i + 1] as u16)
}

fn le_u32(b: &[u8; 20], i: usize) -> (r: u32)
    requires
        i + 4 <= 20,
    ensures
        r as int == le_value(b@.subrange(i as int, i + 4)),
{
    proof {
        lemma_le_step(b@, i as int, i + 4);
        lemma_le_step(b@, i + 1, i + 4);
        lemma_le_step(b@, i + 2, i + 4);
        lemma_le_step(b@, i + 3, i + 4);
        lemma_le_empty(b@, i + 4);
    }
    let hi: u32 = (b[i + 2] as u32) + 256 * (b[i + 3] as u32);
    let mid: u32 = (b[i + 1] as u32) + 256 * hi;
    (b[i] as u32) + 256 * mid
}

fn le_u64(b: &[u8; 20], i: usize) -> (r: u64)
    requires
        i + 8 <= 20,
    ensures
        r as int == le_value(b@.subrange(i as int, i + 8)),
{
    proof {
        lemma_le_step(b@, i as int, i + 8);
        lemma_le_step(b@, i + 1, i + 8);
        lemma_le_step(b@, i + 2, i + 8);
        lemma_le_step(b@, i + 3, i + 8);
        lemma_le_step(b@, i + 4, i + 8);
        lemma_le_step(b@, i + 5, i + 8);
        lemma_le_step(b@, i + 6, i + 8);
        lemma_le_step(b@, i + 7, i + 8);
        lemma_le_empty(b@, i + 8);
    }
    let v7: u64 = b[i + 7] as u64;
    let v6: u64 = (b[i + 6] as u64) + 256 * v7;
    let v5: u64 = (b[i + 5] as u64) + 256 * v6;
    let v4: u64 = (b[i + 4] as u64) + 256 * v5;
    let v3: u64 = (b[i + 3] as u64) + 256 * v4;
    let v2: u64 = (b[i + 2] as u64) + 256 * v3;
    let v1: u64 = (b[i + 1] as u64) + 256 * v2;
    (b[i] as u64) + 256 * v1
}

/// Decodes and checks a frame header (see `header_verdict`) against the
/// protocol's magic bytes, schema version, channel tags and payload limit.
pub fn decode_frame_header(
    header: &[u8; 20],
    magic: [u8; 2],
    schema_version: u16,
    channel_tags: &[u8],
    max_payload_size: usize,
) -> (r: Result<FrameHeaderFields, FrameError>)
    ensures
        r == header_verdict(header@, magic@, schema_version, channel_tags@, max_payload_size as int),
{
    let ghost h = header@;
    if header[0] != magic[0] || header[1] != magic[1] {
        proof {
            if h.subrange(0, 2) == magic@ {
                assert(h.subrange(0, 2)[0] == h[0]);
                assert(h.subrange(0, 2)[1] == h[1]);
            }
        }
        return Err(FrameError::InvalidMagic([header[0], header[1]]));
    }
    proof {
        assert(h.subrange(0, 2) =~= magic@);
    }
    let version = le_u16(header, 2);
    if version != schema_version {
        return Err(FrameError::UnsupportedVersion(version));
    }
    let tag: u8 = header[4];
    let mut known: bool = false;
    let mut k: usize = 0;
    while k < channel_tags.len()
        invariant
            k <= channel_tags@.len(),
            known == exists|j: int| 0 <= j < k && channel_tags@[j] == tag,
        decreases channel_tags@.len() - k,
    {
        if channel_tags[k] == tag {
            known = true;
        }
        k += 1;
    }
    if !known {
        return Err(FrameError::InvalidChannelTag(tag));
    }
    let reserved = le_u16(header, 6);
    if reserved != 0 {
        return Err(FrameError::InvalidReserved(reserved));
    }
    let len = le_u32(header, 16);
    if len as usize > max_payload_size {
        return Err(FrameError::PayloadTooLarge(len));
    }
    let seq = le_u64(header, 8);
    Ok(FrameHeaderFields { channel_tag: tag, flags: header[5], sequence_number: seq, payload_len: len })
}

/// Checks a frame's trailer: the CRC-32C of header and payload must be the
/// little-endian value of the trailer's four bytes.
pub fn check_frame_checksum(header: &[u8; 20], payload: &[u8], trailer: [u8; 4]) -> (r: Result<
    (),
    FrameError,
>)
    ensures
        ({
            let expected = le_value(trailer@);
            let calculated = crc32c_of(header@ + payload@);
            &&& expected == calculated ==> r == Ok::<(), FrameError>(())
            &&& expected != calculated ==> r == Err::<(), FrameError>(
                FrameError::ChecksumMismatch { expected: expected as u32, calculated },
            )
        }),
{
    let mut data: Vec<u8> = Vec::new();
    let mut i: usize = 0;
    while i < 20
        invariant
            i <= 20,
            data@ == header@.subrange(0, i as int),
        decreases 20 - i,
    {
        data.push(header[i]);
        proof {
            assert(header@.subrange(0, i + 1) =~= header@.subrange(0, i as int).push(header@[i as int]));
        }
        i += 1;
    }
    let mut j: usize = 0;
    while j < payload.len()
        invariant
            j <= payload@.len(),
            data@ == header@ + payload@.subrange(0, j as int),
        decreases payload@.len() - j,
    {
        data.push(payload[j]);
        proof {
            assert(payload@.subrange(0, j + 1) =~= payload@.subrange(0, j as int).push(payload@[j as int]));
            assert(header@ + payload@.subrange(0, j + 1) =~= (header@ + payload@.subrange(0, j as int)).push(payload@[j as int]));
        }
        j += 1;
    }
    proof {
        assert(header@.subrange(0, 20) =~= header@);
        assert(payload@.subrange(0, payload@.len() as int) =~= payload@);
        let t = trailer@;
        let x = t.drop_first().drop_first().drop_first();
        assert(t.len() == 4);
        assert(x.len() == 1);
        assert(x[0] == t[3]);
        assert(x.drop_first() =~= Seq::<u8>::empty());
        assert(le_value(x.drop_first()) == 0);
        assert(le_value(x) == t[3] as int);
        assert(le_value(t.drop_first().drop_first()) == t[2] as int + 256 * (t[3] as int));
        assert(le_value(t.drop_first()) == t[1] as int + 256 * (t[2] as int + 256 * (t[3] as int)));
        assert(le_value(t) == t[0] as int + 256 * (t[1] as int + 256 * (t[2] as int + 256 * (
        t[3] as int))));
    }
    let calculated = crc32c_checksum(data.as_slice());
    let hi: u32 = (trailer[2] as u32) + 256 * (trailer[3] as u32);
    let mid: u32 = (trailer[1] as u32) + 256 * hi;
    let expected: u32 = (trailer[0] as u32) + 256 * mid;
    if expected != calculated {
        return Err(FrameError::ChecksumMismatch { expected, calculated });
    }
    Ok(())
}

} // verus!
