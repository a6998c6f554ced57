//! Little-endian field encoding for the archive's binary records:
//! specification forms of the 2- and 4-byte fields, executable
//! emitters proved against them, and the bounded in-place rewrite
//! used to patch a record after its payload is known.
use vstd::prelude::*;

verus! {

/// The two bytes of `v`, least significant first.
pub open spec fn le16(v: u16) -> Seq<u8> {
    seq![(v & 0xFF) as u8, ((v >> 8) & 0xFF) as u8]
}

/// The four bytes of `v`, least significant first.
pub open spec fn le32(v: u32) -> Seq<u8> {
    seq![
        (v & 0xFF) as u8,
        ((v >> 8) & 0xFF) as u8,
        ((v >> 16) & 0xFF) as u8,
        ((v >> 24) & 0xFF) as u8,
    ]
}

/// `n` reduced to the 16 bits a 2-byte field can hold.
pub open spec fn trunc16(n: int) -> u16 {
    (n % 0x10000) as u16
}

/// `n` reduced to the 32 bits a 4-byte field can hold.
pub open spec fn trunc32(n: int) -> u32 {
    (n % 0x100000000) as u32
}

/// Appends the two little-endian bytes of `v`.
pub fn push_le16(out: &mut Vec<u8>, v: u16)
    ensures
        final(out)@ == old(out)@ + le16(v),
{
    proof {
        assert(v & 0xFF < 256 && (v >> 8) & 0xFF < 256) by (bit_vector);
    }
    out.push((v & 0xFF) as u8);
    out.push(((v >> 8) & 0xFF) as u8);
    proof {
        assert(out@ =~= old(out)@ + le16(v));
    }
}

/// Appends the four little-endian bytes of `v`.
pub fn push_le32(out: &mut Vec<u8>, v: u32)
    ensures
        final(out)@ == old(out)@ + le32(v),
{
    proof {
        assert(v & 0xFF < 256 && (v >> 8) & 0xFF < 256 && (v >> 16) & 0xFF < 256 && (v >> 24)
            & 0xFF < 256) by (bit_vector);
    }
    out.push((v & 0xFF) as u8);
    out.push(((v >> 8) & 0xFF) as u8);
    out.push(((v >> 16) & 0xFF) as u8);
    out.push(((v >> 24) & 0xFF) as u8);
    proof {
        assert(out@ =~= old(out)@ + le32(v));
    }
}

/// Appends a copy of `src`.
pub fn push_bytes(out: &mut Vec<u8>, src: &Vec<u8>)
    ensures
        final(out)@ == old(out)@ + src@,
{
    let ghost base = out@;
    let mut i: usize = 0;
    while i < src.len()
        invariant
            i <= src@.len(),
            out@ == base + src@.take(i as int),
        decreases src@.len() - i,
    {
        out.push(src[i]);
        i = i + 1;
        proof {
            assert(base + src@.take(i - 1).push(src@[i as int - 1]) =~= base + src@.take(i as int));
        }
    }
    proof {
        assert(base + src@.take(src@.len() as int) =~= base + src@);
    }
}

/// Rewrites the eight bytes at `pos` with the little-endian bytes of
/// `a` then `b`, leaving everything else in place: the bounded
/// in-place patch that fills a record's checksum and size fields
/// after its payload has been produced.
pub fn patch_le32_pair(out: &mut Vec<u8>, pos: usize, a: u32, b: u32)
    requires
        pos + 8 <= old(out)@.len(),
    ensures
        final(out)@ == old(out)@.subrange(0, pos as int) + le32(a) + le32(b) + old(
            out,
        )@.subrange(pos as int + 8, old(out)@.len() as int),
{
    let olen = out.len();
    proof {
        assert(a & 0xFF < 256 && (a >> 8) & 0xFF < 256 && (a >> 16) & 0xFF < 256 && (a >> 24)
            & 0xFF < 256) by (bit_vector);
        assert(b & 0xFF < 256 && (b >> 8) & 0xFF < 256 && (b >> 16) & 0xFF < 256 && (b >> 24)
            & 0xFF < 256) by (bit_vector);
    }
    out[pos] = (a & 0xFF) as u8;
    out[pos + 1] = ((a >> 8) & 0xFF) as u8;
    out[pos + 2] = ((a >> 16) & 0xFF) as u8;
    out[pos + 3] = ((a >> 24) & 0xFF) as u8;
    out[pos + 4] = (b & 0xFF) as u8;
    out[pos + 5] = ((b >> 8) & 0xFF) as u8;
    out[pos + 6] = ((b >> 16) & 0xFF) as u8;
    out[pos + 7] = ((b >> 24) & 0xFF) as u8;
    proof {
        assert(out@ =~= old(out)@.subrange(0, pos as int) + le32(a) + le32(b) + old(
            out,
        )@.subrange(pos as int + 8, old(out)@.len() as int));
    }
}

} // verus!
