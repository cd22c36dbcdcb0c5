use network_types::eth::{EthHdr, EtherType};
use network_types::ip::{IpProto, Ipv4Hdr};
use network_types::udp::UdpHdr;
use pshred_router::packet::{ETHER_TYPE_IPV4, ETH_LEN, IPV4_LEN, IP_PROTO_UDP, UDP_LEN};
use pshred_router::router::{
    pshred_router, redirected, try_pshred_router, Decision, Outcome, XDP_DROP, XDP_PASS,
    XSKS_ENTRIES,
};
use pshred_router::stats::{EQ1_DROP, NO_SOCKET, RANGE_DROP, REDIRECTED};
use pshred_router::{PshredHeader, MAX_PROPOSERS, PSHRED_FIXED_LEN, PSHRED_UDP_PORT};

const PASS: Decision = Decision::Settled(Outcome {
    seen: false,
    counter: None,
    action: XDP_PASS,
});

const SHORT: Decision = Decision::Settled(Outcome {
    seen: true,
    counter: None,
    action: XDP_PASS,
});

fn header(proposer_index: u16, cycle: u64, pslice_index: u64) -> PshredHeader {
    PshredHeader {
        epoch: 731,
        cycle,
        proposer_index,
        pslice_index,
        shred_index: 42,
        commitment: [0xAB; 32],
        merkle_root: [0xCD; 32],
        signature: [0xEF; 64],
    }
}

/// An Ethernet + IPv4 + UDP frame with `words` 32-bit words of IPv4 header.
fn frame_with_ihl(words: u8, payload: &[u8]) -> Vec<u8> {
    let mut f = vec![0u8; 12];
    f.extend_from_slice(&[0x08, 0x00]);
    let mut ip = vec![0u8; 20.max(words as usize * 4)];
    ip[0] = 0x40 | words;
    ip[9] = 17;
    f.extend_from_slice(&ip);
    f.extend_from_slice(&[0x30, 0x39]);
    f.extend_from_slice(&PSHRED_UDP_PORT.to_be_bytes());
    f.extend_from_slice(&[0, 0, 0, 0]);
    f.extend_from_slice(payload);
    f
}

fn frame(h: &PshredHeader) -> Vec<u8> {
    frame_with_ihl(5, &h.encode())
}

fn to(slot: u32) -> Decision {
    Decision::Redirect {
        slot,
        flags: XDP_PASS as u64,
    }
}

#[test]
fn header_constants_are_those_of_network_types() {
    assert_eq!(ETH_LEN, EthHdr::LEN);
    assert_eq!(IPV4_LEN, Ipv4Hdr::LEN);
    assert_eq!(UDP_LEN, UdpHdr::LEN);
    assert_eq!(ETHER_TYPE_IPV4.to_be(), u16::from(EtherType::Ipv4));
    assert_eq!(IP_PROTO_UDP, u8::from(IpProto::Udp));
}

#[test]
fn valid_pshred_goes_to_its_proposer() {
    for j in 1..=MAX_PROPOSERS {
        let f = frame(&header(j, 35_600_000_000, 35_600_000_000 * 4));
        assert_eq!(try_pshred_router(&f), Ok(to(j as u32)));
        assert_eq!(pshred_router(&f), to(j as u32));
    }
    assert_eq!(XSKS_ENTRIES, MAX_PROPOSERS as u32 + 1);
}

#[test]
fn equation_1_violation_is_dropped() {
    let dropped = Decision::Settled(Outcome {
        seen: true,
        counter: Some(EQ1_DROP),
        action: XDP_DROP,
    });
    assert_eq!(pshred_router(&frame(&header(3, 2, 4))), dropped);
    assert_eq!(pshred_router(&frame(&header(3, 2, 9))), dropped);
    // checked before the proposer index
    assert_eq!(pshred_router(&frame(&header(0, 2, 9))), dropped);
}

#[test]
fn proposer_out_of_range_is_dropped() {
    let dropped = Decision::Settled(Outcome {
        seen: true,
        counter: Some(RANGE_DROP),
        action: XDP_DROP,
    });
    assert_eq!(pshred_router(&frame(&header(0, 1, 1))), dropped);
    assert_eq!(pshred_router(&frame(&header(17, 1, 1))), dropped);
    assert_eq!(pshred_router(&frame(&header(u16::MAX, 1, 1))), dropped);
}

#[test]
fn other_ether_types_pass() {
    let mut f = frame(&header(3, 1, 1));
    // IPv6, VLAN tag, swapped bytes, a number without a name
    for id in [[0x86, 0xDD], [0x81, 0x00], [0x00, 0x08], [0x12, 0x34]] {
        f[12] = id[0];
        f[13] = id[1];
        assert_eq!(try_pshred_router(&f), Ok(PASS));
    }
}

#[test]
fn other_ip_headers_pass() {
    let good = frame(&header(3, 1, 1));
    // version 6
    let mut f = good.clone();
    f[14] = 0x65;
    assert_eq!(try_pshred_router(&f), Ok(PASS));
    // TCP, and a protocol number without a name
    for proto in [6, 200] {
        let mut f = good.clone();
        f[14 + 9] = proto;
        assert_eq!(try_pshred_router(&f), Ok(PASS));
    }
    // header length below the minimum
    let mut f = good.clone();
    f[14] = 0x44;
    assert_eq!(try_pshred_router(&f), Ok(PASS));
}

#[test]
fn other_ports_pass() {
    let mut f = frame(&header(3, 1, 1));
    // one off, and the port with its bytes swapped
    for port in [9001u16, PSHRED_UDP_PORT.swap_bytes()] {
        f[36..38].copy_from_slice(&port.to_be_bytes());
        assert_eq!(try_pshred_router(&f), Ok(PASS));
    }
}

#[test]
fn ip_options_move_the_payload() {
    for words in 5..=15u8 {
        let f = frame_with_ihl(words, &header(9, 1, 2).encode());
        assert_eq!(pshred_router(&f), to(9));
    }
}

#[test]
fn cut_off_headers_are_errors_and_pass() {
    let good = frame(&header(3, 1, 1));
    for len in [0, 13, 14, 33, 34, 41] {
        assert_eq!(try_pshred_router(&good[..len]), Err(()), "length {len}");
        assert_eq!(pshred_router(&good[..len]), PASS);
    }
    // an Ethernet header alone that is not IPv4 is complete
    assert_eq!(try_pshred_router(&[0u8; 14]), Ok(PASS));
    // an incomplete pshred header is not a pshred, but the packet was seen
    for len in [42, 42 + PSHRED_FIXED_LEN - 1] {
        assert_eq!(try_pshred_router(&good[..len]), Ok(SHORT), "length {len}");
        assert_eq!(pshred_router(&good[..len]), SHORT);
    }
    assert_eq!(try_pshred_router(&good[..42 + PSHRED_FIXED_LEN]), Ok(to(3)));
}

#[test]
fn the_erasure_tail_does_not_matter() {
    let mut payload = header(5, 1, 1).encode().to_vec();
    payload.extend_from_slice(&[0x77; 64]);
    assert_eq!(pshred_router(&frame_with_ihl(5, &payload)), to(5));
}

#[test]
fn redirect_hit_and_miss() {
    let hit = redirected(Ok(4));
    assert_eq!((hit.seen, hit.counter, hit.action), (true, Some(REDIRECTED), 4));
    let miss = redirected(Err(1));
    assert_eq!((miss.seen, miss.counter, miss.action), (true, Some(NO_SOCKET), XDP_PASS));
}
