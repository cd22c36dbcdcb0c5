//! pshred wire format.
//!
//! The fixed header is the tuple `(e, c, j, t, i, h, rt, sigma_t)` of the
//! Solana Constellation white paper v0.9, Definition 3:
//!
//! | sym     | field          | here                  |
//! |---------|----------------|-----------------------|
//! | e       | epoch          | `epoch: u64`          |
//! | c       | cycle          | `cycle: u64`          |
//! | j       | proposer index | `proposer_index: u16` |
//! | t       | pslice index   | `pslice_index: u64`   |
//! | i       | shred index    | `shred_index: u32`    |
//! | h       | tx commitment  | `commitment: [u8;32]` |
//! | rt      | Merkle root    | `merkle_root: [u8;32]`|
//! | sigma_t | Ed25519 sig    | `signature: [u8;64]`  |
//!
//! The signature stands before the variable-length erasure tail, so that the
//! whole fixed header is one contiguous block at fixed offsets. Integers are
//! little-endian. Cycle and pslice index are 64 bits wide: a cycle is a
//! nanosecond timestamp divided by 50,000,000, far past `u32::MAX`.

use crate::bytes::{get_array, get_le, put_array, put_le};
#[allow(unused_imports)]
use crate::bytes::{
    law_le_bytes_are_the_digits, law_le_value_has_the_digits, le_bytes, le_value, lemma_le_bound,
    lemma_le_read_of_write, lemma_le_write_of_read, lemma_pow256_values, pow256,
};
#[allow(unused_imports)]
use vstd::arithmetic::power::pow;
use vstd::prelude::*;

verus! {

/// White paper p ~= 16: number of concurrent proposers. proposer index `j` is
/// 1-indexed, `1 <= j <= MAX_PROPOSERS`.
pub const MAX_PROPOSERS: u16 = 16;

/// White paper Gamma_p = q ~= 256: pshreds per pslice / number of attesters.
pub const GAMMA_P: u32 = 256;

/// Well-known UDP destination port for pshred traffic (lab convention).
pub const PSHRED_UDP_PORT: u16 = 9000;

pub const OFF_EPOCH: usize = 0;

pub const OFF_CYCLE: usize = 8;

pub const OFF_PROPOSER: usize = 16;

pub const OFF_PSLICE: usize = 18;

pub const OFF_SHRED_IDX: usize = 26;

pub const OFF_COMMITMENT: usize = 30;

pub const OFF_MERKLE: usize = 62;

pub const OFF_SIG: usize = 94;

/// Total length of the fixed header (epoch .. signature), in bytes.
pub const PSHRED_FIXED_LEN: usize = OFF_SIG + 64;

/// Logical view of the fixed header.
#[derive(Clone, Copy, Debug, PartialEq, Eq)]
pub struct PshredHeader {
    pub epoch: u64,
    pub cycle: u64,
    pub proposer_index: u16,
    pub pslice_index: u64,
    pub shred_index: u32,
    pub commitment: [u8; 32],
    pub merkle_root: [u8; 32],
    pub signature: [u8; 64],
}

/// What a header says, in numbers and byte strings.
#[verifier::ext_equal]
pub struct HeaderFields {
    pub epoch: nat,
    pub cycle: nat,
    pub proposer_index: nat,
    pub pslice_index: nat,
    pub shred_index: nat,
    pub commitment: Seq<u8>,
    pub merkle_root: Seq<u8>,
    pub signature: Seq<u8>,
}

impl HeaderFields {
    /// Every field fits its place on the wire.
    pub open spec fn fits(self) -> bool {
        &&& self.epoch <= u64::MAX
        &&& self.cycle <= u64::MAX
        &&& self.proposer_index <= u16::MAX
        &&& self.pslice_index <= u64::MAX
        &&& self.shred_index <= u32::MAX
        &&& self.commitment.len() == 32
        &&& self.merkle_root.len() == 32
        &&& self.signature.len() == 64
    }

    /// The fields one after the other, integers little-endian.
    pub open spec fn wire(self) -> Seq<u8> {
        le_bytes(self.epoch, 8) + le_bytes(self.cycle, 8) + le_bytes(self.proposer_index, 2)
            + le_bytes(self.pslice_index, 8) + le_bytes(self.shred_index, 4) + self.commitment
            + self.merkle_root + self.signature
    }

    /// The fields that stand at the fixed offsets of a payload.
    pub open spec fn at(payload: Seq<u8>) -> HeaderFields {
        HeaderFields {
            epoch: le_value(field(payload, OFF_EPOCH, 8)),
            cycle: le_value(field(payload, OFF_CYCLE, 8)),
            proposer_index: le_value(field(payload, OFF_PROPOSER, 2)),
            pslice_index: le_value(field(payload, OFF_PSLICE, 8)),
            shred_index: le_value(field(payload, OFF_SHRED_IDX, 4)),
            commitment: field(payload, OFF_COMMITMENT, 32),
            merkle_root: field(payload, OFF_MERKLE, 32),
            signature: field(payload, OFF_SIG, 64),
        }
    }
}

/// The `len` bytes at offset `off` of a payload.
pub open spec fn field(payload: Seq<u8>, off: usize, len: int) -> Seq<u8> {
    payload.subrange(off as int, off + len)
}

impl View for PshredHeader {
    type V = HeaderFields;

    open spec fn view(&self) -> HeaderFields {
        HeaderFields {
            epoch: self.epoch as nat,
            cycle: self.cycle as nat,
            proposer_index: self.proposer_index as nat,
            pslice_index: self.pslice_index as nat,
            shred_index: self.shred_index as nat,
            commitment: self.commitment@,
            merkle_root: self.merkle_root@,
            signature: self.signature@,
        }
    }
}

impl PshredHeader {
    /// Serialise the fixed header to its little-endian wire form.
    pub fn encode(&self) -> (r: [u8; PSHRED_FIXED_LEN])
        ensures
            r@ == self@.wire(),
            forall|k: int|
                #![trigger r@[OFF_EPOCH + k]]
                0 <= k < 8 ==> r@[OFF_EPOCH + k] as int == (self.epoch as int / pow(256, k as nat)) % 256,
            forall|k: int|
                #![trigger r@[OFF_CYCLE + k]]
                0 <= k < 8 ==> r@[OFF_CYCLE + k] as int == (self.cycle as int / pow(256, k as nat)) % 256,
            forall|k: int|
                #![trigger r@[OFF_PROPOSER + k]]
                0 <= k < 2 ==> r@[OFF_PROPOSER + k] as int == (self.proposer_index as int / pow(256, k as nat)) % 256,
            forall|k: int|
                #![trigger r@[OFF_PSLICE + k]]
                0 <= k < 8 ==> r@[OFF_PSLICE + k] as int == (self.pslice_index as int / pow(256, k as nat)) % 256,
            forall|k: int|
                #![trigger r@[OFF_SHRED_IDX + k]]
                0 <= k < 4 ==> r@[OFF_SHRED_IDX + k] as int == (self.shred_index as int / pow(256, k as nat)) % 256,
            forall|k: int|
                #![trigger r@[OFF_COMMITMENT + k]]
                0 <= k < 32 ==> r@[OFF_COMMITMENT + k] == self.commitment[k],
            forall|k: int|
                #![trigger r@[OFF_MERKLE + k]]
                0 <= k < 32 ==> r@[OFF_MERKLE + k] == self.merkle_root[k],
            forall|k: int|
                #![trigger r@[OFF_SIG + k]]
                0 <= k < 64 ==> r@[OFF_SIG + k] == self.signature[k],
    {
        let mut b: [u8; PSHRED_FIXED_LEN] = [0u8; PSHRED_FIXED_LEN];
        assert(b@.take(0) =~= Seq::<u8>::empty());
        put_le(&mut b, OFF_EPOCH, self.epoch, 8);
        assert(b@.take(8) =~= le_bytes(self.epoch as nat, 8));
        put_le(&mut b, OFF_CYCLE, self.cycle, 8);
        put_le(&mut b, OFF_PROPOSER, self.proposer_index as u64, 2);
        put_le(&mut b, OFF_PSLICE, self.pslice_index, 8);
        put_le(&mut b, OFF_SHRED_IDX, self.shred_index as u64, 4);
        put_array(&mut b, OFF_COMMITMENT, &self.commitment);
        put_array(&mut b, OFF_MERKLE, &self.merkle_root);
        put_array(&mut b, OFF_SIG, &self.signature);
        assert(b@.take(158) =~= b@);
        proof {
            law_wire_form(*self);
        }
        b
    }

    /// Parse the fixed header from a little-endian payload. Returns `None` if
    /// the slice is shorter than the fixed header.
    pub fn decode(payload: &[u8]) -> (r: Option<Self>)
        ensures
            r is Some <==> payload@.len() >= PSHRED_FIXED_LEN,
            r matches Some(h) ==> h@ == HeaderFields::at(payload@),
            r matches Some(h) ==> {
                &&& forall|k: int|
                    #![trigger payload@[OFF_EPOCH + k]]
                    0 <= k < 8 ==> payload@[OFF_EPOCH + k] as int == (h.epoch as int / pow(
                        256,
                        k as nat,
                    )) % 256
                &&& forall|k: int|
                    #![trigger payload@[OFF_CYCLE + k]]
                    0 <= k < 8 ==> payload@[OFF_CYCLE + k] as int == (h.cycle as int / pow(
                        256,
                        k as nat,
                    )) % 256
                &&& forall|k: int|
                    #![trigger payload@[OFF_PROPOSER + k]]
                    0 <= k < 2 ==> payload@[OFF_PROPOSER + k] as int == (h.proposer_index as int / pow(
                        256,
                        k as nat,
                    )) % 256
                &&& forall|k: int|
                    #![trigger payload@[OFF_PSLICE + k]]
                    0 <= k < 8 ==> payload@[OFF_PSLICE + k] as int == (h.pslice_index as int / pow(
                        256,
                        k as nat,
                    )) % 256
                &&& forall|k: int|
                    #![trigger payload@[OFF_SHRED_IDX + k]]
                    0 <= k < 4 ==> payload@[OFF_SHRED_IDX + k] as int == (h.shred_index as int / pow(
                        256,
                        k as nat,
                    )) % 256
                &&& forall|k: int|
                    #![trigger payload@[OFF_COMMITMENT + k]]
                    0 <= k < 32 ==> payload@[OFF_COMMITMENT + k] == h.commitment[k]
                &&& forall|k: int|
                    #![trigger payload@[OFF_MERKLE + k]]
                    0 <= k < 32 ==> payload@[OFF_MERKLE + k] == h.merkle_root[k]
                &&& forall|k: int|
                    #![trigger payload@[OFF_SIG + k]]
                    0 <= k < 64 ==> payload@[OFF_SIG + k] == h.signature[k]
            },
    {
        if payload.len() < PSHRED_FIXED_LEN {
            return None;
        }
        proof {
            lemma_pow256_values();
        }
        let h = PshredHeader {
            epoch: get_le(payload, OFF_EPOCH, 8),
            cycle: get_le(payload, OFF_CYCLE, 8),
            proposer_index: get_le(payload, OFF_PROPOSER, 2) as u16,
            pslice_index: get_le(payload, OFF_PSLICE, 8),
            shred_index: get_le(payload, OFF_SHRED_IDX, 4) as u32,
            commitment: get_array(payload, OFF_COMMITMENT),
            merkle_root: get_array(payload, OFF_MERKLE),
            signature: get_array(payload, OFF_SIG),
        };
        proof {
            law_payload_form(h, payload@);
        }
        Some(h)
    }
}

/// Where the fields stand, and how long the header is, in bytes; and the limits
/// of the protocol.
pub proof fn law_layout()
    ensures
        OFF_EPOCH == 0,
        OFF_CYCLE == 8,
        OFF_PROPOSER == 16,
        OFF_PSLICE == 18,
        OFF_SHRED_IDX == 26,
        OFF_COMMITMENT == 30,
        OFF_MERKLE == 62,
        OFF_SIG == 94,
        PSHRED_FIXED_LEN == 158,
        MAX_PROPOSERS == 16,
        GAMMA_P == 256,
        PSHRED_UDP_PORT == 9000,
{
}

/// The wire form byte by byte. Byte `k` of an integer field is the field divided
/// by `256^k`, modulo 256; byte `k` of a byte field is its `k`-th byte.
pub proof fn law_wire_form(h: PshredHeader)
    ensures
        h@.wire().len() == 158,
        forall|k: int|
            #![trigger h@.wire()[OFF_EPOCH + k]]
            0 <= k < 8 ==> h@.wire()[OFF_EPOCH + k] as int == (h.epoch as int / pow(256, k as nat)) % 256,
        forall|k: int|
            #![trigger h@.wire()[OFF_CYCLE + k]]
            0 <= k < 8 ==> h@.wire()[OFF_CYCLE + k] as int == (h.cycle as int / pow(256, k as nat)) % 256,
        forall|k: int|
            #![trigger h@.wire()[OFF_PROPOSER + k]]
            0 <= k < 2 ==> h@.wire()[OFF_PROPOSER + k] as int == (h.proposer_index as int / pow(256, k as nat)) % 256,
        forall|k: int|
            #![trigger h@.wire()[OFF_PSLICE + k]]
            0 <= k < 8 ==> h@.wire()[OFF_PSLICE + k] as int == (h.pslice_index as int / pow(256, k as nat)) % 256,
        forall|k: int|
            #![trigger h@.wire()[OFF_SHRED_IDX + k]]
            0 <= k < 4 ==> h@.wire()[OFF_SHRED_IDX + k] as int == (h.shred_index as int / pow(256, k as nat)) % 256,
        forall|k: int|
            #![trigger h@.wire()[OFF_COMMITMENT + k]]
            0 <= k < 32 ==> h@.wire()[OFF_COMMITMENT + k] == h.commitment[k],
        forall|k: int|
            #![trigger h@.wire()[OFF_MERKLE + k]]
            0 <= k < 32 ==> h@.wire()[OFF_MERKLE + k] == h.merkle_root[k],
        forall|k: int|
            #![trigger h@.wire()[OFF_SIG + k]]
            0 <= k < 64 ==> h@.wire()[OFF_SIG + k] == h.signature[k],
{
    law_view_determines_header(h, h);
    law_decode_of_encode(h@, Seq::empty());
    let w = h@.wire();
    lemma_le_lens(h@);
    assert forall|k: int| #![trigger w[OFF_EPOCH + k]] 0 <= k < 8 implies w[OFF_EPOCH + k] as int == (
    h.epoch as int / pow(256, k as nat)) % 256 by {
        law_le_bytes_are_the_digits(h.epoch as nat, 8, k);
        assert(w[OFF_EPOCH + k] == le_bytes(h.epoch as nat, 8)[k]);
    }
    assert forall|k: int| #![trigger w[OFF_CYCLE + k]] 0 <= k < 8 implies w[OFF_CYCLE + k] as int == (
    h.cycle as int / pow(256, k as nat)) % 256 by {
        law_le_bytes_are_the_digits(h.cycle as nat, 8, k);
        assert(w[OFF_CYCLE + k] == le_bytes(h.cycle as nat, 8)[k]);
    }
    assert forall|k: int| #![trigger w[OFF_PROPOSER + k]] 0 <= k < 2 implies w[OFF_PROPOSER + k] as int == (
    h.proposer_index as int / pow(256, k as nat)) % 256 by {
        law_le_bytes_are_the_digits(h.proposer_index as nat, 2, k);
        assert(w[OFF_PROPOSER + k] == le_bytes(h.proposer_index as nat, 2)[k]);
    }
    assert forall|k: int| #![trigger w[OFF_PSLICE + k]] 0 <= k < 8 implies w[OFF_PSLICE + k] as int == (
    h.pslice_index as int / pow(256, k as nat)) % 256 by {
        law_le_bytes_are_the_digits(h.pslice_index as nat, 8, k);
        assert(w[OFF_PSLICE + k] == le_bytes(h.pslice_index as nat, 8)[k]);
    }
    assert forall|k: int| #![trigger w[OFF_SHRED_IDX + k]] 0 <= k < 4 implies w[OFF_SHRED_IDX + k] as int == (
    h.shred_index as int / pow(256, k as nat)) % 256 by {
        law_le_bytes_are_the_digits(h.shred_index as nat, 4, k);
        assert(w[OFF_SHRED_IDX + k] == le_bytes(h.shred_index as nat, 4)[k]);
    }
}

proof fn lemma_le_lens(h: HeaderFields)
    requires
        h.fits(),
    ensures
        le_bytes(h.epoch, 8).len() == 8,
        le_bytes(h.cycle, 8).len() == 8,
        le_bytes(h.proposer_index, 2).len() == 2,
        le_bytes(h.pslice_index, 8).len() == 8,
        le_bytes(h.shred_index, 4).len() == 4,
{
    law_le_bytes_are_the_digits(h.epoch, 8, 0);
    law_le_bytes_are_the_digits(h.cycle, 8, 0);
    law_le_bytes_are_the_digits(h.proposer_index, 2, 0);
    law_le_bytes_are_the_digits(h.pslice_index, 8, 0);
    law_le_bytes_are_the_digits(h.shred_index, 4, 0);
}

/// The decoded header byte by byte: every byte of the payload's first 158 is the
/// byte of the field that stands there.
pub proof fn law_payload_form(h: PshredHeader, payload: Seq<u8>)
    requires
        payload.len() >= 158,
        h@ == HeaderFields::at(payload),
    ensures
        forall|k: int|
            #![trigger payload[OFF_EPOCH + k]]
            0 <= k < 8 ==> payload[OFF_EPOCH + k] as int == (h.epoch as int / pow(256, k as nat)) % 256,
        forall|k: int|
            #![trigger payload[OFF_CYCLE + k]]
            0 <= k < 8 ==> payload[OFF_CYCLE + k] as int == (h.cycle as int / pow(256, k as nat)) % 256,
        forall|k: int|
            #![trigger payload[OFF_PROPOSER + k]]
            0 <= k < 2 ==> payload[OFF_PROPOSER + k] as int == (h.proposer_index as int / pow(256, k as nat)) % 256,
        forall|k: int|
            #![trigger payload[OFF_PSLICE + k]]
            0 <= k < 8 ==> payload[OFF_PSLICE + k] as int == (h.pslice_index as int / pow(256, k as nat)) % 256,
        forall|k: int|
            #![trigger payload[OFF_SHRED_IDX + k]]
            0 <= k < 4 ==> payload[OFF_SHRED_IDX + k] as int == (h.shred_index as int / pow(256, k as nat)) % 256,
        forall|k: int|
            #![trigger payload[OFF_COMMITMENT + k]]
            0 <= k < 32 ==> payload[OFF_COMMITMENT + k] == h.commitment[k],
        forall|k: int|
            #![trigger payload[OFF_MERKLE + k]]
            0 <= k < 32 ==> payload[OFF_MERKLE + k] == h.merkle_root[k],
        forall|k: int|
            #![trigger payload[OFF_SIG + k]]
            0 <= k < 64 ==> payload[OFF_SIG + k] == h.signature[k],
{
    lemma_field_digits(payload, OFF_EPOCH, 8);
    assert forall|k: int| #![trigger payload[OFF_EPOCH + k]] 0 <= k < 8 implies payload[OFF_EPOCH + k]
        as int == (h.epoch as int / pow(256, k as nat)) % 256 by {
        assert(field(payload, OFF_EPOCH, 8)[k] == payload[OFF_EPOCH + k]);
        assert(h@.epoch == h.epoch);
    }
    lemma_field_digits(payload, OFF_CYCLE, 8);
    assert forall|k: int| #![trigger payload[OFF_CYCLE + k]] 0 <= k < 8 implies payload[OFF_CYCLE + k]
        as int == (h.cycle as int / pow(256, k as nat)) % 256 by {
        assert(field(payload, OFF_CYCLE, 8)[k] == payload[OFF_CYCLE + k]);
        assert(h@.cycle == h.cycle);
    }
    lemma_field_digits(payload, OFF_PROPOSER, 2);
    assert forall|k: int| #![trigger payload[OFF_PROPOSER + k]] 0 <= k < 2 implies payload[OFF_PROPOSER + k]
        as int == (h.proposer_index as int / pow(256, k as nat)) % 256 by {
        assert(field(payload, OFF_PROPOSER, 2)[k] == payload[OFF_PROPOSER + k]);
        assert(h@.proposer_index == h.proposer_index);
    }
    lemma_field_digits(payload, OFF_PSLICE, 8);
    assert forall|k: int| #![trigger payload[OFF_PSLICE + k]] 0 <= k < 8 implies payload[OFF_PSLICE + k]
        as int == (h.pslice_index as int / pow(256, k as nat)) % 256 by {
        assert(field(payload, OFF_PSLICE, 8)[k] == payload[OFF_PSLICE + k]);
        assert(h@.pslice_index == h.pslice_index);
    }
    lemma_field_digits(payload, OFF_SHRED_IDX, 4);
    assert forall|k: int| #![trigger payload[OFF_SHRED_IDX + k]] 0 <= k < 4 implies payload[OFF_SHRED_IDX + k]
        as int == (h.shred_index as int / pow(256, k as nat)) % 256 by {
        assert(field(payload, OFF_SHRED_IDX, 4)[k] == payload[OFF_SHRED_IDX + k]);
        assert(h@.shred_index == h.shred_index);
    }
    assert forall|k: int| #![trigger payload[OFF_COMMITMENT + k]] 0 <= k < 32 implies payload[OFF_COMMITMENT + k]
        == h.commitment[k] by {
        assert(h@.commitment[k] == payload[OFF_COMMITMENT + k]);
    }
    assert forall|k: int| #![trigger payload[OFF_MERKLE + k]] 0 <= k < 32 implies payload[OFF_MERKLE + k]
        == h.merkle_root[k] by {
        assert(h@.merkle_root[k] == payload[OFF_MERKLE + k]);
    }
    assert forall|k: int| #![trigger payload[OFF_SIG + k]] 0 <= k < 64 implies payload[OFF_SIG + k]
        == h.signature[k] by {
        assert(h@.signature[k] == payload[OFF_SIG + k]);
    }
}

proof fn lemma_field_digits(payload: Seq<u8>, off: usize, len: int)
    requires
        0 <= len,
        off + len <= payload.len(),
    ensures
        ({
            let x = le_value(field(payload, off, len)) as int;
            forall|k: int|
                #![trigger field(payload, off, len)[k]]
                0 <= k < len ==> field(payload, off, len)[k] as int == (x / pow(256, k as nat))
                    % 256
        }),
{
    law_le_value_has_the_digits(field(payload, off, len));
}

/// A header's view determines the header, and what it holds fits the wire.
pub proof fn law_view_determines_header(a: PshredHeader, b: PshredHeader)
    ensures
        a@.fits(),
        a@ == b@ ==> a == b,
{
    if a@ == b@ {
        assert forall|i: int| 0 <= i < 32 implies a.commitment[i] == b.commitment[i] by {
            assert(a@.commitment[i] == b@.commitment[i]);
        }
        assert forall|i: int| 0 <= i < 32 implies a.merkle_root[i] == b.merkle_root[i] by {
            assert(a@.merkle_root[i] == b@.merkle_root[i]);
        }
        assert forall|i: int| 0 <= i < 64 implies a.signature[i] == b.signature[i] by {
            assert(a@.signature[i] == b@.signature[i]);
        }
        assert(a.commitment =~= b.commitment);
        assert(a.merkle_root =~= b.merkle_root);
        assert(a.signature =~= b.signature);
    }
}

/// Decoding what was encoded gives the header back, whatever follows it in the
/// payload.
pub proof fn law_decode_of_encode(h: HeaderFields, tail: Seq<u8>)
    requires
        h.fits(),
    ensures
        h.wire().len() == PSHRED_FIXED_LEN,
        HeaderFields::at(h.wire() + tail) == h,
{
    lemma_pow256_values();
    lemma_le_read_of_write(h.epoch, 8);
    lemma_le_read_of_write(h.cycle, 8);
    lemma_le_read_of_write(h.proposer_index, 2);
    lemma_le_read_of_write(h.pslice_index, 8);
    lemma_le_read_of_write(h.shred_index, 4);
    let p = h.wire() + tail;
    assert(field(p, OFF_EPOCH, 8) =~= le_bytes(h.epoch, 8));
    assert(field(p, OFF_CYCLE, 8) =~= le_bytes(h.cycle, 8));
    assert(field(p, OFF_PROPOSER, 2) =~= le_bytes(h.proposer_index, 2));
    assert(field(p, OFF_PSLICE, 8) =~= le_bytes(h.pslice_index, 8));
    assert(field(p, OFF_SHRED_IDX, 4) =~= le_bytes(h.shred_index, 4));
    assert(field(p, OFF_COMMITMENT, 32) =~= h.commitment);
    assert(field(p, OFF_MERKLE, 32) =~= h.merkle_root);
    assert(field(p, OFF_SIG, 64) =~= h.signature);
}

/// A header that was encoded and decoded again is the same header, whatever
/// follows it in the payload.
pub proof fn law_header_survives_the_wire(h: PshredHeader, tail: Seq<u8>, back: PshredHeader)
    requires
        back@ == HeaderFields::at(h@.wire() + tail),
    ensures
        back == h,
{
    law_view_determines_header(h, back);
    law_decode_of_encode(h@, tail);
}

/// Encoding what was decoded gives the first `PSHRED_FIXED_LEN` bytes of the
/// payload back: every byte string of that length is the wire form of one
/// header.
pub proof fn law_encode_of_decode(payload: Seq<u8>)
    requires
        payload.len() >= PSHRED_FIXED_LEN,
    ensures
        HeaderFields::at(payload).fits(),
        HeaderFields::at(payload).wire() == payload.take(PSHRED_FIXED_LEN as int),
{
    lemma_pow256_values();
    lemma_field_le(payload, OFF_EPOCH, 8);
    lemma_field_le(payload, OFF_CYCLE, 8);
    lemma_field_le(payload, OFF_PROPOSER, 2);
    lemma_field_le(payload, OFF_PSLICE, 8);
    lemma_field_le(payload, OFF_SHRED_IDX, 4);
    assert(HeaderFields::at(payload).wire() =~= payload.take(158));
}

proof fn lemma_field_le(payload: Seq<u8>, off: usize, len: int)
    requires
        0 <= len,
        off + len <= payload.len(),
    ensures
        le_bytes(le_value(field(payload, off, len)), len as nat) == field(payload, off, len),
        le_value(field(payload, off, len)) < pow256(len as nat),
{
    lemma_le_write_of_read(field(payload, off, len));
    lemma_le_bound(field(payload, off, len));
}

/// Two headers with the same wire form are the same header.
pub proof fn law_encode_is_injective(a: HeaderFields, b: HeaderFields)
    requires
        a.fits(),
        b.fits(),
        a.wire() == b.wire(),
    ensures
        a == b,
{
    law_decode_of_encode(a, Seq::empty());
    law_decode_of_encode(b, Seq::empty());
}

/// Only the first `PSHRED_FIXED_LEN` bytes of a payload matter: the erasure
/// tail is never read.
pub proof fn law_decode_ignores_tail(payload: Seq<u8>, other: Seq<u8>)
    requires
        payload.len() >= PSHRED_FIXED_LEN,
        other.len() >= PSHRED_FIXED_LEN,
        payload.take(PSHRED_FIXED_LEN as int) == other.take(PSHRED_FIXED_LEN as int),
    ensures
        HeaderFields::at(payload) == HeaderFields::at(other),
{
    assert forall|i: int| 0 <= i < PSHRED_FIXED_LEN implies payload[i] == other[i] by {
        let n = PSHRED_FIXED_LEN as int;
        assert(payload.take(n)[i] == payload[i]);
        assert(other.take(n)[i] == other[i]);
    }
    assert(HeaderFields::at(payload) =~= HeaderFields::at(other)) by {
        assert(field(payload, OFF_EPOCH, 8) =~= field(other, OFF_EPOCH, 8));
        assert(field(payload, OFF_CYCLE, 8) =~= field(other, OFF_CYCLE, 8));
        assert(field(payload, OFF_PROPOSER, 2) =~= field(other, OFF_PROPOSER, 2));
        assert(field(payload, OFF_PSLICE, 8) =~= field(other, OFF_PSLICE, 8));
        assert(field(payload, OFF_SHRED_IDX, 4) =~= field(other, OFF_SHRED_IDX, 4));
    }
}

} // verus!
