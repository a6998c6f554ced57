//! Differential and known-vector tests of the checksum engine.
use simzip::update_fast_16;
use simzip::update_slow;

fn pattern(len: usize) -> Vec<u8> {
    let mut v = Vec::with_capacity(len);
    for i in 0..len {
        v.push((i.wrapping_mul(7).wrapping_add(3) % 251) as u8);
    }
    v
}

#[test]
fn reference_empty_is_zero() {
    assert_eq!(update_slow(0, &[]), 0);
}

#[test]
fn reference_empty_keeps_previous() {
    assert_eq!(update_slow(0x12345678, &[]), 0x12345678);
    assert_eq!(update_fast_16(0xDEADBEEF, &[]), 0xDEADBEEF);
}

#[test]
fn reference_known_vector() {
    assert_eq!(update_slow(0, b"123456789"), 0xCBF43926);
}

#[test]
fn unrolled_known_vector() {
    assert_eq!(update_fast_16(0, b"123456789"), 0xCBF43926);
}

#[test]
fn agree_on_boundary_lengths() {
    for len in [0usize, 1, 15, 16, 17, 63, 64, 65, 127, 128, 129, 200] {
        let data = pattern(len);
        assert_eq!(
            update_slow(0, &data),
            update_fast_16(0, &data),
            "length {len}"
        );
    }
}

#[test]
fn agree_with_nonzero_previous() {
    let data = pattern(100);
    for prev in [1u32, 0xFFFFFFFF, 0xCBF43926] {
        assert_eq!(update_slow(prev, &data), update_fast_16(prev, &data));
    }
}

#[test]
fn known_vector_long() {
    // 64 'a' bytes followed by the digits: exercises one whole
    // unrolled block plus a remainder in the fast path.
    let mut data = vec![b'a'; 64];
    data.extend_from_slice(b"123456789");
    assert_eq!(update_slow(0, &data), update_fast_16(0, &data));
}
