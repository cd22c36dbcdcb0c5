use pshred_router::{
    validate_cycle_bounds, PshredHeader, MU, OFF_COMMITMENT, OFF_CYCLE, OFF_EPOCH, OFF_MERKLE,
    OFF_PROPOSER, OFF_PSLICE, OFF_SHRED_IDX, OFF_SIG, PSHRED_FIXED_LEN,
};

#[test]
fn fixed_len_is_158() {
    assert_eq!(PSHRED_FIXED_LEN, 158);
    // offsets are contiguous and non-overlapping
    assert_eq!(OFF_CYCLE, OFF_EPOCH + 8);
    assert_eq!(OFF_PROPOSER, OFF_CYCLE + 8);
    assert_eq!(OFF_PSLICE, OFF_PROPOSER + 2);
    assert_eq!(OFF_SHRED_IDX, OFF_PSLICE + 8);
    assert_eq!(OFF_COMMITMENT, OFF_SHRED_IDX + 4);
    assert_eq!(OFF_MERKLE, OFF_COMMITMENT + 32);
    assert_eq!(OFF_SIG, OFF_MERKLE + 32);
}

#[test]
fn eq1_toy_values() {
    assert!(validate_cycle_bounds(1, 1));
    assert!(validate_cycle_bounds(1, 4));
    assert!(!validate_cycle_bounds(1, 0));
    assert!(!validate_cycle_bounds(1, 5));
    assert!(validate_cycle_bounds(2, 5));
    assert!(validate_cycle_bounds(2, 8));
    assert!(!validate_cycle_bounds(2, 4));
}

#[test]
fn eq1_realistic_values() {
    // A real cycle ~ unix_nanos / 5e7. Use a mid-2026 value.
    let c: u64 = 1_780_000_000_000_000_000 / 50_000_000; // ~3.56e10
    assert!(c > u32::MAX as u64, "cycle must not fit in u32");
    // valid window is ((c-1)*4, c*4]
    assert!(validate_cycle_bounds(c, c * MU)); // upper bound inclusive
    assert!(validate_cycle_bounds(c, (c - 1) * MU + 1)); // lower bound exclusive +1
    assert!(!validate_cycle_bounds(c, (c - 1) * MU)); // lower bound itself: invalid
    assert!(!validate_cycle_bounds(c, c * MU + 1)); // past upper bound
    let t = c * MU;
    assert!(
        t > u32::MAX as u64,
        "pslice index must not fit in u32 either"
    );
}

#[test]
fn encode_decode_roundtrip() {
    let h = PshredHeader {
        epoch: 731,
        cycle: 35_600_000_000,
        proposer_index: 7,
        pslice_index: 35_600_000_000 * MU,
        shred_index: 42,
        commitment: [0xAB; 32],
        merkle_root: [0xCD; 32],
        signature: [0xEF; 64],
    };
    let bytes = h.encode();
    assert_eq!(bytes.len(), PSHRED_FIXED_LEN);
    let back = PshredHeader::decode(&bytes).unwrap();
    assert_eq!(h, back);
    assert!(validate_cycle_bounds(back.cycle, back.pslice_index));
}

#[test]
fn decode_rejects_short() {
    assert!(PshredHeader::decode(&[0u8; PSHRED_FIXED_LEN - 1]).is_none());
}

fn sample() -> PshredHeader {
    let mut commitment = [0u8; 32];
    let mut merkle_root = [0u8; 32];
    let mut signature = [0u8; 64];
    for i in 0..32 {
        commitment[i] = i as u8;
        merkle_root[i] = 100 + i as u8;
    }
    for i in 0..64 {
        signature[i] = 255 - i as u8;
    }
    PshredHeader {
        epoch: 0x0102_0304_0506_0708,
        cycle: 0x1112_1314_1516_1718,
        proposer_index: 0x2122,
        pslice_index: 0x3132_3334_3536_3738,
        shred_index: 0x4142_4344,
        commitment,
        merkle_root,
        signature,
    }
}

#[test]
fn encode_lays_fields_out_little_endian() {
    let b = sample().encode();
    assert_eq!(b[0..8], [8, 7, 6, 5, 4, 3, 2, 1]);
    assert_eq!(b[8..16], [0x18, 0x17, 0x16, 0x15, 0x14, 0x13, 0x12, 0x11]);
    assert_eq!(b[16..18], [0x22, 0x21]);
    assert_eq!(b[18..26], [0x38, 0x37, 0x36, 0x35, 0x34, 0x33, 0x32, 0x31]);
    assert_eq!(b[26..30], [0x44, 0x43, 0x42, 0x41]);
    assert_eq!(b[30..62], sample().commitment);
    assert_eq!(b[62..94], sample().merkle_root);
    assert_eq!(b[94..158], sample().signature);
}

#[test]
fn decode_ignores_what_follows_the_header() {
    let mut payload = sample().encode().to_vec();
    payload.extend_from_slice(&[9u8; 50]);
    assert_eq!(PshredHeader::decode(&payload), Some(sample()));
}

#[test]
fn encode_of_decode_gives_the_bytes_back() {
    let mut payload = [0u8; PSHRED_FIXED_LEN];
    for (i, b) in payload.iter_mut().enumerate() {
        *b = (i * 7 + 3) as u8;
    }
    assert_eq!(PshredHeader::decode(&payload).unwrap().encode(), payload);
}

#[test]
fn decode_accepts_exactly_the_fixed_length() {
    assert!(PshredHeader::decode(&[0u8; PSHRED_FIXED_LEN]).is_some());
    assert!(PshredHeader::decode(&[]).is_none());
}

#[test]
fn different_headers_have_different_bytes() {
    let mut other = sample();
    other.shred_index += 1;
    assert_ne!(sample().encode(), other.encode());
}

#[test]
fn eq1_at_the_extremes() {
    // cycle 0 has no pslices
    assert!(!validate_cycle_bounds(0, 0));
    assert!(!validate_cycle_bounds(0, 1));
    // c * mu saturates, the window does not move
    let c = u64::MAX / MU + 1;
    assert!(validate_cycle_bounds(c, u64::MAX));
    assert!(!validate_cycle_bounds(c, (c - 1) * MU));
    // (c - 1) * mu saturates: no index is above it
    assert!(!validate_cycle_bounds(u64::MAX, u64::MAX));
}

#[test]
fn every_pslice_has_one_cycle() {
    for t in 1..=40u64 {
        let cycles: Vec<u64> = (0..=20).filter(|c| validate_cycle_bounds(*c, t)).collect();
        assert_eq!(cycles, vec![(t + MU - 1) / MU]);
    }
    for c in 1..=10u64 {
        let n = (0..=100).filter(|t| validate_cycle_bounds(c, *t)).count();
        assert_eq!(n as u64, MU);
    }
    assert!((0..=20).all(|c| !validate_cycle_bounds(c, 0)));
}
