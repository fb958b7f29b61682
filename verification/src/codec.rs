use vstd::prelude::*;
use crate::record::IdentityVault;
use crate::record::OwnerId;

verus! {

/// Total size of one encoded record: a 32-byte owner key followed by four
/// 8-byte little-endian fields.
pub const RECORD_BYTES: usize = 64;

/// The eight little-endian bytes of a 64-bit unsigned value.
pub open spec fn u64_le_bytes(x: u64) -> Seq<u8> {
    Seq::new(8, |i: int| (((x >> ((8 * i) as u64)) & 0xff) as u8))
}

/// The eight little-endian bytes of a 64-bit signed value: its two's
/// complement bit pattern.
pub open spec fn i64_le_bytes(x: i64) -> Seq<u8> {
    u64_le_bytes(x as u64)
}

/// The 64-byte wire image of a record: owner key, creation time, last update
/// time, update count, lifecycle score, in that order.
pub open spec fn encoded_record(r: IdentityVault) -> Seq<u8> {
    r.owner.bytes@ + i64_le_bytes(r.created_at) + i64_le_bytes(r.last_update) + u64_le_bytes(
        r.update_count,
    ) + u64_le_bytes(r.lifecycle_score)
}

/// Append the eight little-endian bytes of `x`.
fn push_u64_le(out: &mut Vec<u8>, x: u64)
    ensures
        final(out)@ == old(out)@ + u64_le_bytes(x),
{
    let mut k: usize = 0;
    while k < 8
        invariant
            k <= 8,
            out@ == old(out)@ + u64_le_bytes(x).take(k as int),
        decreases 8 - k,
    {
        let shift: u64 = 8 * (k as u64);
        proof {
            assert((x >> shift) & 0xff < 256) by (bit_vector);
        }
        let b: u8 = ((x >> shift) & 0xff) as u8;
        out.push(b);
        proof {
            assert(b == u64_le_bytes(x)[k as int]);
            assert(u64_le_bytes(x).take(k as int + 1) =~= u64_le_bytes(x).take(k as int).push(b));
        }
        k += 1;
    }
    proof {
        assert(u64_le_bytes(x).take(8) =~= u64_le_bytes(x));
    }
}

/// Append the eight little-endian bytes of a signed value's bit pattern.
fn push_i64_le(out: &mut Vec<u8>, x: i64)
    ensures
        final(out)@ == old(out)@ + i64_le_bytes(x),
{
    push_u64_le(out, #[verifier::truncate] (x as u64));
}

/// Read eight little-endian bytes starting at `off` back into a value.
fn read_u64_le(bytes: &Vec<u8>, off: usize) -> (x: u64)
    requires
        off + 8 <= bytes@.len(),
    ensures
        u64_le_bytes(x) == bytes@.subrange(off as int, off as int + 8),
{
    let n = bytes.len();
    let b0 = bytes[off];
    let b1 = bytes[off + 1];
    let b2 = bytes[off + 2];
    let b3 = bytes[off + 3];
    let b4 = bytes[off + 4];
    let b5 = bytes[off + 5];
    let b6 = bytes[off + 6];
    let b7 = bytes[off + 7];
    let x: u64 = (b0 as u64) | ((b1 as u64) << 8u64) | ((b2 as u64) << 16u64) | ((b3 as u64)
        << 24u64) | ((b4 as u64) << 32u64) | ((b5 as u64) << 40u64) | ((b6 as u64) << 48u64) | ((
    b7 as u64) << 56u64);
    proof {
        assert(((x >> 0u64) & 0xff) == b0 as u64 && ((x >> 8u64) & 0xff) == b1 as u64 && ((x
            >> 16u64) & 0xff) == b2 as u64 && ((x >> 24u64) & 0xff) == b3 as u64 && ((x >> 32u64)
            & 0xff) == b4 as u64 && ((x >> 40u64) & 0xff) == b5 as u64 && ((x >> 48u64) & 0xff)
            == b6 as u64 && ((x >> 56u64) & 0xff) == b7 as u64) by (bit_vector)
            requires
                x == (b0 as u64) | ((b1 as u64) << 8u64) | ((b2 as u64) << 16u64) | ((b3 as u64)
                    << 24u64) | ((b4 as u64) << 32u64) | ((b5 as u64) << 40u64) | ((b6 as u64)
                    << 48u64) | ((b7 as u64) << 56u64),
        ;
        assert(u64_le_bytes(x)[0] == b0);
        assert(u64_le_bytes(x)[1] == b1);
        assert(u64_le_bytes(x)[2] == b2);
        assert(u64_le_bytes(x)[3] == b3);
        assert(u64_le_bytes(x)[4] == b4);
        assert(u64_le_bytes(x)[5] == b5);
        assert(u64_le_bytes(x)[6] == b6);
        assert(u64_le_bytes(x)[7] == b7);
        assert(u64_le_bytes(x) =~= bytes@.subrange(off as int, off as int + 8));
    }
    x
}

/// Encode `rec` into its fixed 64-byte wire image.
pub fn encode_record(rec: &IdentityVault) -> (out: Vec<u8>)
    ensures
        out@ == encoded_record(*rec),
        out@.len() == RECORD_BYTES,
{
    let mut out: Vec<u8> = Vec::new();
    let mut i: usize = 0;
    while i < 32
        invariant
            i <= 32,
            out@ == rec.owner.bytes@.take(i as int),
        decreases 32 - i,
    {
        out.push(rec.owner.bytes[i]);
        proof {
            assert(rec.owner.bytes@.take(i as int + 1) =~= rec.owner.bytes@.take(i as int).push(
                rec.owner.bytes@[i as int],
            ));
        }
        i += 1;
    }
    proof {
        assert(rec.owner.bytes@.take(32) =~= rec.owner.bytes@);
    }
    push_i64_le(&mut out, rec.created_at);
    push_i64_le(&mut out, rec.last_update);
    push_u64_le(&mut out, rec.update_count);
    push_u64_le(&mut out, rec.lifecycle_score);
    proof {
        assert(out@ =~= encoded_record(*rec));
    }
    out
}

/// Decode a 64-byte wire image back into a record. Returns the record whose
/// image the buffer is; rejects exactly the buffers of the wrong length.
pub fn decode_record(bytes: &Vec<u8>) -> (r: Option<IdentityVault>)
    ensures
        match r {
            Some(rec) => bytes@.len() == RECORD_BYTES && bytes@ == encoded_record(rec),
            None => bytes@.len() != RECORD_BYTES,
        },
{
    if bytes.len() != RECORD_BYTES {
        return None;
    }
    let mut owner_bytes: [u8; 32] = [0u8; 32];
    let mut i: usize = 0;
    while i < 32
        invariant
            i <= 32,
            bytes@.len() == 64,
            forall|j: int| 0 <= j < i ==> owner_bytes@[j] == bytes@[j],
        decreases 32 - i,
    {
        owner_bytes[i] = bytes[i];
        i += 1;
    }
    let created_bits = read_u64_le(bytes, 32);
    let last_bits = read_u64_le(bytes, 40);
    let update_count = read_u64_le(bytes, 48);
    let lifecycle_score = read_u64_le(bytes, 56);
    let created_at: i64 = #[verifier::truncate] (created_bits as i64);
    let last_update: i64 = #[verifier::truncate] (last_bits as i64);
    let rec = IdentityVault {
        owner: OwnerId { bytes: owner_bytes },
        created_at,
        last_update,
        update_count,
        lifecycle_score,
    };
    proof {
        assert((created_at as u64) == created_bits) by (bit_vector)
            requires
                created_at == created_bits as i64,
        ;
        assert((last_update as u64) == last_bits) by (bit_vector)
            requires
                last_update == last_bits as i64,
        ;
        assert(rec.owner.bytes@ =~= bytes@.subrange(0, 32));
        assert(bytes@ =~= encoded_record(rec));
    }
    Some(rec)
}

/// The wire image pins the record: two records with the same 64-byte image
/// agree on every field.
pub proof fn lemma_encoding_injective(a: IdentityVault, b: IdentityVault)
    requires
        encoded_record(a) == encoded_record(b),
    ensures
        a.owner@ == b.owner@,
        a.created_at == b.created_at,
        a.last_update == b.last_update,
        a.update_count == b.update_count,
        a.lifecycle_score == b.lifecycle_score,
{
    assert forall|i: int| 0 <= i < 32 implies a.owner.bytes@[i] == b.owner.bytes@[i] by {
        assert(encoded_record(a)[i] == a.owner.bytes@[i]);
        assert(encoded_record(b)[i] == b.owner.bytes@[i]);
    }
    assert(a.owner.bytes@ =~= b.owner.bytes@);
    lemma_le_bytes_pin(a.created_at as u64, b.created_at as u64, encoded_record(a), 32);
    lemma_le_bytes_pin(a.last_update as u64, b.last_update as u64, encoded_record(a), 40);
    lemma_le_bytes_pin(a.update_count, b.update_count, encoded_record(a), 48);
    lemma_le_bytes_pin(a.lifecycle_score, b.lifecycle_score, encoded_record(a), 56);
    let ca = a.created_at;
    let cb = b.created_at;
    let la = a.last_update;
    let lb = b.last_update;
    assert(ca == cb) by (bit_vector)
        requires
            ca as u64 == cb as u64,
    ;
    assert(la == lb) by (bit_vector)
        requires
            la as u64 == lb as u64,
    ;
}

/// Two values whose little-endian bytes both stand at offset `off` of the
/// same sequence are equal.
proof fn lemma_le_bytes_pin(x: u64, y: u64, s: Seq<u8>, off: int)
    requires
        forall|i: int| 0 <= i < 8 ==> u64_le_bytes(x)[i] == s[off + i],
        forall|i: int| 0 <= i < 8 ==> u64_le_bytes(y)[i] == s[off + i],
    ensures
        x == y,
{
    assert forall|i: int| 0 <= i < 8 implies u64_le_bytes(x)[i] == u64_le_bytes(y)[i] by {}
    lemma_u64_le_bytes_injective(x, y);
}

/// A 64-bit value is recovered exactly from its eight little-endian bytes.
proof fn lemma_u64_le_bytes_injective(x: u64, y: u64)
    requires
        forall|i: int| 0 <= i < 8 ==> u64_le_bytes(x)[i] == u64_le_bytes(y)[i],
    ensures
        x == y,
{
    assert(u64_le_bytes(x)[0] == u64_le_bytes(y)[0]);
    assert(u64_le_bytes(x)[1] == u64_le_bytes(y)[1]);
    assert(u64_le_bytes(x)[2] == u64_le_bytes(y)[2]);
    assert(u64_le_bytes(x)[3] == u64_le_bytes(y)[3]);
    assert(u64_le_bytes(x)[4] == u64_le_bytes(y)[4]);
    assert(u64_le_bytes(x)[5] == u64_le_bytes(y)[5]);
    assert(u64_le_bytes(x)[6] == u64_le_bytes(y)[6]);
    assert(u64_le_bytes(x)[7] == u64_le_bytes(y)[7]);
    assert(x == y) by (bit_vector)
        requires
            ((x >> 0u64) & 0xff) as u8 == ((y >> 0u64) & 0xff) as u8,
            ((x >> 8u64) & 0xff) as u8 == ((y >> 8u64) & 0xff) as u8,
            ((x >> 16u64) & 0xff) as u8 == ((y >> 16u64) & 0xff) as u8,
            ((x >> 24u64) & 0xff) as u8 == ((y >> 24u64) & 0xff) as u8,
            ((x >> 32u64) & 0xff) as u8 == ((y >> 32u64) & 0xff) as u8,
            ((x >> 40u64) & 0xff) as u8 == ((y >> 40u64) & 0xff) as u8,
            ((x >> 48u64) & 0xff) as u8 == ((y >> 48u64) & 0xff) as u8,
            ((x >> 56u64) & 0xff) as u8 == ((y >> 56u64) & 0xff) as u8,
    ;
}

} // verus!
