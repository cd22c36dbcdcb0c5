//! The demultiplexing decision for one frame.
//!
//! Action policy:
//!   * non-IPv4 / non-UDP / wrong port / short frame -> pass (not ours)
//!   * pshred port, but no complete pshred header    -> pass (+total)
//!   * Eq.(1) violation                              -> drop (+counter)
//!   * proposer out of range (j == 0 or j > p)       -> drop (+counter)
//!   * valid pshred, socket bound at j               -> redirect
//!   * valid pshred, no socket bound at j            -> pass (don't blackhole)

use crate::bytes::get_le;
#[allow(unused_imports)]
use crate::bytes::{law_le_value_is_determined, le_value, lemma_pow256_values};
#[allow(unused_imports)]
use crate::cycle::in_cycle;
use crate::cycle::validate_cycle_bounds;
#[allow(unused_imports)]
use crate::packet::be16;
use crate::packet::{
    ether_type, ip_header_len, ip_proto, ip_version, udp_dst_port, ETHER_TYPE_IPV4, ETH_LEN,
    IPV4_LEN, IP_PROTO_UDP, UDP_LEN,
};
use crate::stats::{EQ1_DROP, NO_SOCKET, RANGE_DROP, REDIRECTED};
#[allow(unused_imports)]
use crate::wire::{field, law_decode_ignores_tail, law_decode_of_encode, HeaderFields};
use crate::wire::{
    MAX_PROPOSERS, OFF_CYCLE, OFF_PROPOSER, OFF_PSLICE, PSHRED_FIXED_LEN, PSHRED_UDP_PORT,
};
#[allow(unused_imports)]
use vstd::arithmetic::power::pow;
use vstd::prelude::*;

verus! {

/// XDP action: drop the frame.
pub const XDP_DROP: u32 = 1;

/// XDP action: hand the frame to the network stack.
pub const XDP_PASS: u32 = 2;

/// Slots of the socket map. It is keyed by proposer index `j`, which counts
/// from 1, so slot 0 is left unused.
pub const XSKS_ENTRIES: u32 = 17;

/// What became of a frame: whether it was a packet to the pshred port, for a
/// pshred the counter of its fate, and the action to return.
#[derive(Clone, Copy, Debug, PartialEq, Eq)]
pub struct Outcome {
    pub seen: bool,
    pub counter: Option<u32>,
    pub action: u32,
}

impl Outcome {
    /// The counter, if any, is one of the four fates of a pshred, and every
    /// pshred is a packet to the pshred port.
    pub open spec fn is_valid(self) -> bool {
        self.counter matches Some(c) ==> self.seen && (c == REDIRECTED || c == EQ1_DROP || c
            == RANGE_DROP || c == NO_SOCKET)
    }
}

/// What to do with a frame.
#[derive(Clone, Copy, Debug, PartialEq, Eq)]
pub enum Decision {
    /// The outcome is settled.
    Settled(Outcome),
    /// A valid pshred: redirect it into this slot of the socket map, with
    /// `flags` as the action on an empty slot. The result goes to
    /// [`redirected`].
    Redirect { slot: u32, flags: u64 },
}

/// The outcome for a frame that is no packet to the pshred port: pass it on,
/// count nothing.
pub open spec fn not_ours() -> Decision {
    Decision::Settled(Outcome { seen: false, counter: None, action: XDP_PASS })
}

/// The outcome for a packet to the pshred port without a complete pshred header:
/// it has been seen, and is passed on.
pub open spec fn too_short() -> Decision {
    Decision::Settled(Outcome { seen: true, counter: None, action: XDP_PASS })
}

/// The policy for a pshred with this header.
pub open spec fn policy(h: HeaderFields) -> Decision {
    if !in_cycle(h.cycle as int, h.pslice_index as int) {
        Decision::Settled(Outcome { seen: true, counter: Some(EQ1_DROP), action: XDP_DROP })
    } else if !(1 <= h.proposer_index <= MAX_PROPOSERS) {
        Decision::Settled(Outcome { seen: true, counter: Some(RANGE_DROP), action: XDP_DROP })
    } else {
        Decision::Redirect { slot: h.proposer_index as u32, flags: XDP_PASS as u64 }
    }
}

/// The outcome of a redirect that the socket map answered with `result`.
pub open spec fn redirect_outcome(result: Result<u32, u32>) -> Outcome {
    match result {
        Ok(action) => Outcome { seen: true, counter: Some(REDIRECTED), action },
        Err(_) => Outcome { seen: true, counter: Some(NO_SOCKET), action: XDP_PASS },
    }
}

/// What becomes of a frame where the socket map, if asked, answers `result`.
pub open spec fn outcome(frame: Seq<u8>, result: Result<u32, u32>) -> Outcome {
    match decision(frame) {
        Decision::Settled(outcome) => outcome,
        Decision::Redirect { .. } => redirect_outcome(result),
    }
}

/// An untagged frame that carries IPv4, with room for the fixed IPv4 header.
pub open spec fn is_ipv4_frame(frame: Seq<u8>) -> bool {
    &&& frame.len() >= ETH_LEN + IPV4_LEN
    &&& be16(frame, 12) == ETHER_TYPE_IPV4
}

/// A well-formed IPv4 header of a UDP datagram.
pub open spec fn is_udp_frame(frame: Seq<u8>) -> bool {
    &&& is_ipv4_frame(frame)
    &&& frame[ETH_LEN as int] / 16 == 4
    &&& frame[ETH_LEN + 9] == IP_PROTO_UDP
    &&& ip_len(frame) >= IPV4_LEN
}

/// Length of the IPv4 header, options included.
pub open spec fn ip_len(frame: Seq<u8>) -> int {
    4 * (frame[ETH_LEN as int] % 16)
}

/// Where the UDP header starts. With IPv4 options it stands further back.
pub open spec fn udp_offset(frame: Seq<u8>) -> int {
    ETH_LEN + ip_len(frame)
}

/// What follows the UDP header.
pub open spec fn udp_payload(frame: Seq<u8>) -> Seq<u8> {
    frame.skip(udp_offset(frame) + UDP_LEN)
}

/// A packet to the pshred port: a UDP datagram with that destination.
pub open spec fn is_port_packet(frame: Seq<u8>) -> bool {
    &&& is_udp_frame(frame)
    &&& frame.len() >= udp_offset(frame) + UDP_LEN
    &&& be16(frame, udp_offset(frame) + 2) == PSHRED_UDP_PORT
}

/// A frame that is treated as a pshred: a packet to the pshred port with a
/// complete fixed header.
pub open spec fn is_pshred(frame: Seq<u8>) -> bool {
    &&& is_port_packet(frame)
    &&& udp_payload(frame).len() >= PSHRED_FIXED_LEN
}

/// The decision for a frame.
pub open spec fn decision(frame: Seq<u8>) -> Decision {
    if is_pshred(frame) {
        policy(HeaderFields::at(udp_payload(frame)))
    } else if is_port_packet(frame) {
        too_short()
    } else {
        not_ours()
    }
}

/// A link, network or transport header that should be there is cut off.
pub open spec fn is_cut_off(frame: Seq<u8>) -> bool {
    ||| frame.len() < ETH_LEN
    ||| frame.len() < ETH_LEN + IPV4_LEN && be16(frame, 12) == ETHER_TYPE_IPV4
    ||| is_udp_frame(frame) && frame.len() < udp_offset(frame) + UDP_LEN
}

/// Bounds-checked view of `size` bytes of the frame at `offset`. `Err(())`
/// means the read would run past the end.
fn ptr_at(frame: &[u8], offset: usize, size: usize) -> (r: Result<&[u8], ()>)
    ensures
        r is Ok <==> offset + size <= frame@.len(),
        r matches Ok(bytes) ==> bytes@ == frame@.subrange(offset as int, offset + size),
{
    if size > frame.len() || offset > frame.len() - size {
        return Err(());
    }
    Ok(vstd::slice::slice_subrange(frame, offset, offset + size))
}

/// The 2-byte little-endian integer at `offset`.
fn read_u16_le(frame: &[u8], offset: usize) -> (r: Result<u16, ()>)
    ensures
        r is Ok <==> offset + 2 <= frame@.len(),
        r matches Ok(x) ==> x == le_value(frame@.subrange(offset as int, offset + 2)),
{
    let bytes = ptr_at(frame, offset, 2)?;
    proof {
        lemma_pow256_values();
        assert(bytes@.subrange(0, 2) =~= bytes@);
    }
    Ok(get_le(bytes, 0, 2) as u16)
}

/// The 8-byte little-endian integer at `offset`.
fn read_u64_le(frame: &[u8], offset: usize) -> (r: Result<u64, ()>)
    ensures
        r is Ok <==> offset + 8 <= frame@.len(),
        r matches Ok(x) ==> x == le_value(frame@.subrange(offset as int, offset + 8)),
{
    let bytes = ptr_at(frame, offset, 8)?;
    assert(bytes@.subrange(0, 8) =~= bytes@);
    Ok(get_le(bytes, 0, 8))
}

/// Decide about a frame. `Err(())` means a header is cut off.
pub fn try_pshred_router(frame: &[u8]) -> (r: Result<Decision, ()>)
    ensures
        r is Err <==> is_cut_off(frame@),
        r matches Ok(d) ==> d == decision(frame@),
{
    let pass = Decision::Settled(Outcome { seen: false, counter: None, action: XDP_PASS });

    let eth = ptr_at(frame, 0, ETH_LEN)?;
    match ether_type(eth) {
        Ok(id) => {
            assert(id@[0] == frame@[12] && id@[1] == frame@[13]);
            if id[0] as u16 * 256 + id[1] as u16 != ETHER_TYPE_IPV4 {
                return Ok(pass);
            }
        },
        Err(_) => {
            return Ok(pass);
        },
    }

    let ip = ptr_at(frame, ETH_LEN, IPV4_LEN)?;
    if ip_version(ip) != 4 {
        return Ok(pass);
    }
    match ip_proto(ip) {
        Ok(id) => {
            if id != IP_PROTO_UDP {
                return Ok(pass);
            }
        },
        Err(_) => {
            return Ok(pass);
        },
    }

    // Honour the IHL: with IPv4 options the header is longer than 20 bytes, so
    // the UDP header is not at a fixed offset. Anything below the 20-byte
    // minimum is malformed. (VLAN-tagged frames are out of scope: the EtherType
    // check above only matches untagged IPv4.)
    let ihl: usize = ip_header_len(ip) as usize;
    if ihl < IPV4_LEN {
        return Ok(pass);
    }
    let udp_off: usize = ETH_LEN + ihl;
    let udp = ptr_at(frame, udp_off, UDP_LEN)?;
    if udp_dst_port(udp) != PSHRED_UDP_PORT {
        return Ok(pass);
    }

    let payload: usize = udp_off + UDP_LEN;

    // Require a complete fixed header before we treat this as a pshred.
    if ptr_at(frame, payload, PSHRED_FIXED_LEN).is_err() {
        return Ok(Decision::Settled(Outcome { seen: true, counter: None, action: XDP_PASS }));
    }

    let proposer: u16 = read_u16_le(frame, payload + OFF_PROPOSER)?;
    let cycle: u64 = read_u64_le(frame, payload + OFF_CYCLE)?;
    let pslice: u64 = read_u64_le(frame, payload + OFF_PSLICE)?;
    proof {
        let p = udp_payload(frame@);
        assert(field(p, OFF_PROPOSER, 2) =~= frame@.subrange(payload + 16, payload + 18));
        assert(field(p, OFF_CYCLE, 8) =~= frame@.subrange(payload + 8, payload + 16));
        assert(field(p, OFF_PSLICE, 8) =~= frame@.subrange(payload + 18, payload + 26));
    }

    if !validate_cycle_bounds(cycle, pslice) {
        return Ok(Decision::Settled(Outcome { seen: true, counter: Some(EQ1_DROP), action: XDP_DROP }));
    }

    // proposer index is 1-indexed: 1 <= j <= p
    if proposer == 0 || proposer > MAX_PROPOSERS {
        return Ok(Decision::Settled(Outcome { seen: true, counter: Some(RANGE_DROP), action: XDP_DROP }));
    }

    // The low bits of the flags are the action on an empty slot: an unbound
    // proposer's frame is handed back to the stack rather than blackholed.
    Ok(Decision::Redirect { slot: proposer as u32, flags: XDP_PASS as u64 })
}

/// Decide about a frame. One whose headers are cut off is not a pshred we own,
/// and is passed on.
pub fn pshred_router(frame: &[u8]) -> (r: Decision)
    ensures
        r == decision(frame@),
{
    match try_pshred_router(frame) {
        Ok(d) => d,
        Err(_) => Decision::Settled(Outcome { seen: false, counter: None, action: XDP_PASS }),
    }
}

/// The outcome of a redirect, from what the socket map answered: on a hit the
/// action that it gave, on a miss the frame is passed on.
pub fn redirected(result: Result<u32, u32>) -> (r: Outcome)
    ensures
        r == redirect_outcome(result),
        result matches Ok(a) ==> r.seen && r.counter == Some(1u32) && r.action == a,
        result is Err ==> r.seen && r.counter == Some(4u32) && r.action == 2,
{
    match result {
        Ok(action) => Outcome { seen: true, counter: Some(REDIRECTED), action },
        Err(_) => Outcome { seen: true, counter: Some(NO_SOCKET), action: XDP_PASS },
    }
}

/// A packet to the pshred port, byte by byte: EtherType 0x0800, IP version 4, an
/// IPv4 header of at least five words, protocol 17, and behind that header
/// destination port 9000. Whatever is no such packet is passed on and counted
/// nowhere.
pub proof fn law_other_frames_are_passed(frame: Seq<u8>)
    requires
        ({
            let u = 14 + 4 * (frame[14] % 16);
            !(frame.len() >= 34 && frame[12] == 8 && frame[13] == 0 && frame[14] / 16 == 4
                && frame[14] % 16 >= 5 && frame[23] == 17 && frame.len() >= u + 8 && frame[u + 2]
                * 256 + frame[u + 3] == 9000)
        }),
    ensures
        decision(frame) == Decision::Settled(Outcome { seen: false, counter: None, action: 2 }),
{
}

/// A packet to the pshred port with fewer than 158 bytes of payload is counted as
/// seen and passed on.
pub proof fn law_short_packets_are_passed(frame: Seq<u8>)
    requires
        frame.len() >= 34,
        frame[12] == 8,
        frame[13] == 0,
        frame[14] / 16 == 4,
        frame[14] % 16 >= 5,
        frame[23] == 17,
        ({
            let u = 14 + 4 * (frame[14] % 16);
            &&& u + 8 <= frame.len() < u + 166
            &&& frame[u + 2] * 256 + frame[u + 3] == 9000
        }),
    ensures
        decision(frame) == Decision::Settled(Outcome { seen: true, counter: None, action: 2 }),
{
}

/// Every other packet to the pshred port is decided by three numbers alone: the
/// cycle `c` in bytes 8 to 15 of the payload, the proposer index `j` in bytes 16
/// and 17, and the pslice index `t` in bytes 18 to 25, each little-endian. It is
/// dropped and counted under 2 where `4(c - 1) < t <= 4c` fails or `c` is 0, else
/// dropped and counted under 3 where `j` is not from 1 to 16, else redirected to
/// slot `j`, to be passed on where that slot is empty.
pub proof fn law_pshreds_are_decided_by_three_numbers(frame: Seq<u8>, c: u64, j: u16, t: u64)
    requires
        frame.len() >= 34,
        frame[12] == 8,
        frame[13] == 0,
        frame[14] / 16 == 4,
        frame[14] % 16 >= 5,
        frame[23] == 17,
        ({
            let u = 14 + 4 * (frame[14] % 16);
            &&& frame.len() >= u + 166
            &&& frame[u + 2] * 256 + frame[u + 3] == 9000
            &&& forall|k: int|
                #![trigger frame[u + 16 + k]]
                0 <= k < 8 ==> frame[u + 16 + k] as int == (c as int / pow(256, k as nat)) % 256
            &&& frame[u + 24] == j % 256
            &&& frame[u + 25] == j / 256
            &&& forall|k: int|
                #![trigger frame[u + 26 + k]]
                0 <= k < 8 ==> frame[u + 26 + k] as int == (t as int / pow(256, k as nat)) % 256
        }),
    ensures
        !(c >= 1 && 4 * c - 4 < t && t <= 4 * c) ==> decision(frame) == Decision::Settled(
            Outcome { seen: true, counter: Some(2), action: 1 },
        ),
        c >= 1 && 4 * c - 4 < t && t <= 4 * c && !(1 <= j <= 16) ==> decision(frame)
            == Decision::Settled(Outcome { seen: true, counter: Some(3), action: 1 }),
        c >= 1 && 4 * c - 4 < t && t <= 4 * c && 1 <= j <= 16 ==> decision(frame)
            == (Decision::Redirect { slot: j as u32, flags: 2 }),
{
    let u = 14 + 4 * (frame[14] % 16);
    let p = udp_payload(frame);
    let h = HeaderFields::at(p);
    let cycle = field(p, OFF_CYCLE, 8);
    let proposer = field(p, OFF_PROPOSER, 2);
    let pslice = field(p, OFF_PSLICE, 8);
    assert forall|k: int| 0 <= k < 8 implies (#[trigger] cycle[k]) as int == (c as int / pow(
        256,
        k as nat,
    )) % 256 by {
        assert(cycle[k] == frame[u + 16 + k]);
    }
    assert forall|k: int| 0 <= k < 8 implies (#[trigger] pslice[k]) as int == (t as int / pow(
        256,
        k as nat,
    )) % 256 by {
        assert(pslice[k] == frame[u + 26 + k]);
    }
    lemma_powers();
    assert forall|k: int| 0 <= k < 2 implies (#[trigger] proposer[k]) as int == (j as int / pow(
        256,
        k as nat,
    )) % 256 by {
        assert(proposer[k] == frame[u + 24 + k]);
        assert(j as int / 1 == j);
        assert((j as int / 256) % 256 == j / 256);
        assert(k == 0 || k == 1);
    }
    law_le_value_is_determined(cycle, c as nat);
    law_le_value_is_determined(proposer, j as nat);
    law_le_value_is_determined(pslice, t as nat);
    assert(is_pshred(frame));
    assert(h.cycle == c && h.proposer_index == j && h.pslice_index == t);
}

proof fn lemma_powers()
    ensures
        pow(256, 0) == 1,
        pow(256, 1) == 0x100,
        pow(256, 2) == 0x1_0000,
        pow(256, 8) == 0x1_0000_0000_0000_0000,
{
    reveal_with_fuel(pow, 9);
}

/// Of the link and IPv4 headers only the EtherType, the version, the header
/// length and the protocol count: two frames of one length that agree in these,
/// and from the UDP header on, are decided alike, whatever else the headers hold.
pub proof fn law_other_header_bytes_do_not_count(frame: Seq<u8>, other: Seq<u8>)
    requires
        frame.len() == other.len(),
        forall|i: int|
            0 <= i < frame.len() && (i == 12 || i == 13 || i == 14 || i == 23 || i >= 14 + 4 * (
            frame[14] % 16)) ==> #[trigger] frame[i] == other[i],
    ensures
        decision(frame) == decision(other),
        is_cut_off(frame) == is_cut_off(other),
{
    if frame.len() >= 34 {
        let u = 14 + 4 * (frame[14] % 16);
        assert(frame[12] == other[12] && frame[13] == other[13] && frame[14] == other[14]
            && frame[23] == other[23]);
        if is_udp_frame(frame) && frame.len() >= u + 8 {
            assert(frame[u + 2] == other[u + 2] && frame[u + 3] == other[u + 3]);
            assert(udp_payload(frame) =~= udp_payload(other));
        }
    } else if frame.len() >= 14 {
        assert(frame[12] == other[12] && frame[13] == other[13]);
    }
}

/// A frame is cut off if it ends within the 14 bytes of its link header, within
/// the first 20 bytes of the IPv4 header that the link header announces, or
/// within the 8 bytes of the UDP header that a sound IPv4 header announces.
pub proof fn law_where_a_frame_is_cut_off(frame: Seq<u8>)
    ensures
        is_cut_off(frame) <==> {
            ||| frame.len() < 14
            ||| frame.len() < 34 && frame[12] == 8 && frame[13] == 0
            ||| frame.len() >= 34 && frame[12] == 8 && frame[13] == 0 && frame[14] / 16 == 4
                && frame[23] == 17 && frame[14] % 16 >= 5 && frame.len() < 14 + 4 * (frame[14] % 16)
                + 8
        },
{
}

/// A settled decision is the outcome. A redirect that the socket map took is
/// counted under 1 and ends with the map's action; one that it did not take is
/// counted under 4 and passed on.
pub proof fn law_outcome_of_a_decision(frame: Seq<u8>, result: Result<u32, u32>)
    ensures
        decision(frame) matches Decision::Settled(o) ==> outcome(frame, result) == o,
        decision(frame) is Redirect ==> (result matches Ok(a) ==> outcome(frame, result) == (
        Outcome { seen: true, counter: Some(1), action: a })),
        decision(frame) is Redirect ==> (result is Err ==> outcome(frame, result) == (Outcome {
            seen: true,
            counter: Some(4),
            action: 2,
        })),
{
}

/// An outcome is valid if it has no counter, or has been seen and has one of the
/// counters 1 to 4.
pub proof fn law_valid_outcomes(o: Outcome)
    ensures
        o.is_valid() <==> o.counter is None || (o.seen && 1 <= o.counter->0 <= 4),
{
}

/// The action codes, and the size of the socket map: one slot for each of the
/// sixteen proposers, beside slot 0.
pub proof fn law_codes()
    ensures
        XDP_DROP == 1,
        XDP_PASS == 2,
        XSKS_ENTRIES == 17,
{
}

/// A frame is counted as seen if and only if it is a packet to the pshred port,
/// and it meets one of the four fates if and only if it is a pshred. Any frame
/// that is no pshred is passed on.
pub proof fn law_what_is_counted(frame: Seq<u8>, result: Result<u32, u32>)
    ensures
        outcome(frame, result).is_valid(),
        outcome(frame, result).seen <==> is_port_packet(frame),
        outcome(frame, result).counter is Some <==> is_pshred(frame),
        !is_pshred(frame) ==> outcome(frame, result).action == XDP_PASS,
{
}

/// A frame with a header cut off is no packet to the pshred port and is passed
/// on.
pub proof fn law_cut_off_frames_pass(frame: Seq<u8>)
    requires
        is_cut_off(frame),
    ensures
        !is_port_packet(frame),
        decision(frame) == not_ours(),
{
}

/// A frame is dropped without asking the socket map if and only if it is a
/// pshred that breaks Equation (1) or names a proposer out of range.
pub proof fn law_drops(frame: Seq<u8>)
    ensures
        ({
            let h = HeaderFields::at(udp_payload(frame));
            (decision(frame) matches Decision::Settled(outcome) && outcome.action == XDP_DROP)
                <==> is_pshred(frame) && !(in_cycle(h.cycle as int, h.pslice_index as int) && 1
                <= h.proposer_index <= MAX_PROPOSERS)
        }),
{
}

/// A redirect goes to the slot of the proposer that the header names, which is
/// a slot of the socket map other than 0, and asks for a pass where that slot
/// is empty.
pub proof fn law_redirect_slot(frame: Seq<u8>)
    ensures
        decision(frame) matches Decision::Redirect { slot, flags } ==> {
            &&& slot == HeaderFields::at(udp_payload(frame)).proposer_index
            &&& 1 <= slot <= MAX_PROPOSERS
            &&& slot < XSKS_ENTRIES
            &&& flags == XDP_PASS
        },
{
}

/// A frame whose socket map slot is empty is not lost: it is passed on.
pub proof fn law_unbound_proposer_is_passed(frame: Seq<u8>, miss: u32)
    requires
        decision(frame) is Redirect,
    ensures
        outcome(frame, Err(miss)).action == XDP_PASS,
        outcome(frame, Err(miss)).counter == Some(NO_SOCKET),
{
}

/// The router reads the same header as the decoder: a pshred frame that carries
/// the wire form of a header is decided by that header, whatever follows it.
pub proof fn law_router_agrees_with_encoder(frame: Seq<u8>, h: HeaderFields)
    requires
        is_pshred(frame),
        h.fits(),
        udp_payload(frame).take(PSHRED_FIXED_LEN as int) == h.wire(),
    ensures
        decision(frame) == policy(h),
{
    let p = udp_payload(frame);
    let n = PSHRED_FIXED_LEN as int;
    law_decode_of_encode(h, p.skip(n));
    assert(p =~= h.wire() + p.skip(n));
}

/// Only the headers count: frames that agree up to the end of the pshred header
/// are decided alike.
pub proof fn law_router_ignores_tail(frame: Seq<u8>, other: Seq<u8>)
    requires
        is_pshred(frame),
        ({
            let n = udp_offset(frame) + UDP_LEN + PSHRED_FIXED_LEN;
            other.len() >= n && other.take(n) == frame.take(n)
        }),
    ensures
        decision(other) == decision(frame),
{
    let n = udp_offset(frame) + UDP_LEN + PSHRED_FIXED_LEN;
    assert forall|i: int| 0 <= i < n implies frame[i] == other[i] by {
        assert(frame.take(n)[i] == frame[i]);
        assert(other.take(n)[i] == other[i]);
    }
    let k = PSHRED_FIXED_LEN as int;
    assert(udp_payload(frame).take(k) =~= udp_payload(other).take(k));
    law_decode_ignores_tail(udp_payload(frame), udp_payload(other));
}

/// A UDP frame without IPv4 options, with `options` put in: the header length
/// says so, and what follows the header moves back.
pub open spec fn with_options(frame: Seq<u8>, options: Seq<u8>) -> Seq<u8> {
    let n = (ETH_LEN + IPV4_LEN) as int;
    frame.take(n).update(ETH_LEN as int, (frame[ETH_LEN as int] + options.len() / 4) as u8)
        + options + frame.skip(n)
}

/// IPv4 options make no difference: the router looks behind them.
pub proof fn law_ip_options_are_skipped(frame: Seq<u8>, options: Seq<u8>)
    requires
        is_udp_frame(frame),
        ip_len(frame) == IPV4_LEN,
        options.len() % 4 == 0,
        options.len() <= 40,
    ensures
        ip_len(with_options(frame, options)) == IPV4_LEN + options.len(),
        frame.len() >= udp_offset(frame) + UDP_LEN ==> udp_payload(with_options(frame, options))
            == udp_payload(frame),
        decision(with_options(frame, options)) == decision(frame),
{
    let g = with_options(frame, options);
    let n = (ETH_LEN + IPV4_LEN) as int;
    assert forall|i: int| n <= i < frame.len() implies frame[i] == g[i + options.len()] by {
        assert(frame.skip(n)[i - n] == frame[i]);
    }
    assert(g[12] == frame[12] && g[13] == frame[13] && g[23] == frame[23]);
    if frame.len() >= n + UDP_LEN {
        assert(udp_payload(g) =~= udp_payload(frame));
        assert(be16(g, udp_offset(g) + 2) == be16(frame, udp_offset(frame) + 2)) by {
            let i = udp_offset(frame) + 2;
            assert(frame[i] == g[i + options.len()]);
            assert(frame[i + 1] == g[i + 1 + options.len()]);
        }
    }
}

} // verus!
