//! Buffers and tallies of the per-proposer AF_XDP receive path.
//!
//! All proposer sockets share a single UMEM on one RX queue. Its frames are
//! primed into one fill ring; the kernel places each packet in a frame, and the
//! frame goes back into the fill ring once the packet has been read.

#[allow(unused_imports)]
use crate::control::{refill_follows, RefillAction, RefillEvent};
#[allow(unused_imports)]
use crate::cycle::in_cycle;
#[allow(unused_imports)]
use crate::router::{decision, policy, Decision};
#[allow(unused_imports)]
use crate::text::{decimal, joined, texts};
use crate::text::{join, push_decimal};
#[allow(unused_imports)]
use crate::wire::HeaderFields;
use crate::wire::MAX_PROPOSERS;
use vstd::prelude::*;
use vstd::string::StringExecFns;

verus! {

/// UMEM frame size in bytes (the default chunk; pshreds are ~200 B).
pub const FRAME_SIZE: u64 = 4096;

/// Frames in the UMEM pool. Must exceed the buffers in flight (fill + RX rings).
pub const NUM_FRAMES: u64 = 16384;

/// Length of the UMEM region in bytes: 64 MiB.
pub const UMEM_LEN: u64 = NUM_FRAMES * FRAME_SIZE;

/// Shared fill-ring depth, and the number of buffers primed into it. Kept larger
/// than a single RX ring so the pool cannot starve even when an RX ring is full
/// and briefly undrained; a 2048/2048 sizing throttled delivery under load.
pub const FILL_SIZE: u32 = 8192;

/// Per-proposer RX ring depth.
pub const RX_SIZE: u32 = 4096;

/// Descriptors drained from one RX ring per pass; sized to empty it in one pass.
pub const RX_BATCH: u32 = RX_SIZE;

/// TX ring depth of the owner socket, which never sends.
pub const OWNER_TX_SIZE: u32 = 64;

/// How long an idle poll sleeps before the loop looks around, in milliseconds.
pub const POLL_TIMEOUT_MS: i32 = 250;

/// What one proposer's socket has received.
#[derive(Clone, Copy, Debug, PartialEq, Eq)]
pub struct Tally {
    pub pkts: u64,
    pub bytes: u64,
}

/// Where the frame that holds `addr` starts.
pub open spec fn frame_start(addr: int) -> int {
    addr - addr % FRAME_SIZE as int
}

/// How many frames are primed into the fill ring.
pub open spec fn fill_target() -> int {
    if FILL_SIZE <= NUM_FRAMES {
        FILL_SIZE as int
    } else {
        NUM_FRAMES as int
    }
}

/// Align an address down to the base of its frame.
pub fn frame_base(addr: u64) -> (r: u64)
    ensures
        r == frame_start(addr as int),
        r == addr - addr % 4096,
{
    assert(addr & !0xfffu64 == addr - addr % 0x1000) by (bit_vector);
    addr & !(FRAME_SIZE - 1)
}

/// The frames to prime the fill ring with, so that the kernel has buffers to
/// place packets in: the first ones of the pool.
pub fn fill_frames() -> (r: Vec<u64>)
    ensures
        r@.len() == fill_target(),
        forall|i: int| 0 <= i < r@.len() ==> #[trigger] r@[i] == i * FRAME_SIZE,
        r@.len() == 8192,
        forall|i: int| 0 <= i < 8192 ==> #[trigger] r@[i] == i * 4096,
{
    let fill_n: u64 = if FILL_SIZE as u64 <= NUM_FRAMES {
        FILL_SIZE as u64
    } else {
        NUM_FRAMES
    };
    let mut r: Vec<u64> = Vec::new();
    let mut i: u64 = 0;
    while i < fill_n
        invariant
            i <= fill_n == fill_target(),
            r@.len() == i,
            forall|k: int| 0 <= k < i ==> #[trigger] r@[k] == k * FRAME_SIZE,
        decreases fill_n - i,
    {
        r.push(i * FRAME_SIZE);
        i = i + 1;
    }
    r
}

/// The slot of the socket map that the ring at index `i` is bound to, which is
/// its proposer's index.
pub open spec fn ring_slot(i: int) -> int {
    i + 1
}

/// The slot of the socket map that the ring at index `i` is bound to, which is
/// its proposer's index.
pub fn slot_of(i: usize) -> (r: u32)
    requires
        i < MAX_PROPOSERS,
    ensures
        r == ring_slot(i as int),
        r == i + 1,
{
    i as u32 + 1
}

/// The slots of the socket map to bind, one per ring, in the order of the rings.
pub fn bind_slots() -> (r: Vec<u32>)
    ensures
        r@.len() == MAX_PROPOSERS,
        forall|i: int| 0 <= i < r@.len() ==> #[trigger] r@[i] == ring_slot(i),
        r@.len() == 16,
        forall|i: int| 0 <= i < 16 ==> #[trigger] r@[i] == i + 1,
{
    let mut r: Vec<u32> = Vec::new();
    let mut i: usize = 0;
    while i < MAX_PROPOSERS as usize
        invariant
            i <= MAX_PROPOSERS,
            r@.len() == i,
            forall|k: int| 0 <= k < i ==> #[trigger] r@[k] == ring_slot(k),
        decreases MAX_PROPOSERS - i,
    {
        r.push(slot_of(i));
        i = i + 1;
    }
    r
}

/// A packet read from a ring: the index of the ring, the address, the length.
pub type Descriptor = (int, u64, u32);

/// The tallies of the rings, and the frames to recycle.
#[verifier::ext_equal]
pub struct DrainState {
    pub tallies: Seq<Tally>,
    pub recycle: Seq<u64>,
}

impl DrainState {
    /// At the start of a pass the tallies go on, and nothing is to be recycled
    /// yet.
    pub open spec fn at_pass_start(self) -> DrainState {
        DrainState { tallies: self.tallies, recycle: Seq::empty() }
    }

    /// After one more packet: its ring's tally counts it, and its frame is to be
    /// recycled.
    pub open spec fn after(self, packet: Descriptor) -> DrainState {
        let (i, addr, len) = packet;
        DrainState {
            tallies: self.tallies.update(i, one_more(self.tallies[i], len)),
            recycle: self.recycle.push(frame_start(addr as int) as u64),
        }
    }

    /// After a series of packets.
    pub open spec fn after_all(self, packets: Seq<Descriptor>) -> DrainState
        decreases packets.len(),
    {
        if packets.len() == 0 {
            self
        } else {
            self.after_all(packets.drop_last()).after(packets.last())
        }
    }

    /// After a series of passes, each with the packets that it read.
    pub open spec fn after_passes(self, passes: Seq<Seq<Descriptor>>) -> DrainState
        decreases passes.len(),
    {
        if passes.len() == 0 {
            self
        } else {
            self.after_passes(passes.drop_last()).at_pass_start().after_all(passes.last())
        }
    }
}

/// The tallies of all proposers, and the frames read in the current pass.
pub struct Drain {
    /// One tally per proposer; proposer `j` stands at `j - 1`.
    pub tallies: Vec<Tally>,
    /// Bases of the frames to hand back to the fill ring.
    pub recycle: Vec<u64>,
}

/// The tally after one more packet of `len` bytes.
pub open spec fn one_more(tally: Tally, len: u32) -> Tally {
    Tally { pkts: (tally.pkts + 1) as u64, bytes: (tally.bytes + len) as u64 }
}

/// The tally can count one more packet of `len` bytes.
pub open spec fn has_room(tally: Tally, len: u32) -> bool {
    tally.pkts < u64::MAX && tally.bytes + len <= u64::MAX
}

impl View for Drain {
    type V = DrainState;

    open spec fn view(&self) -> DrainState {
        DrainState { tallies: self.tallies@, recycle: self.recycle@ }
    }
}

impl Drain {
    /// Nothing received yet.
    pub fn new() -> (r: Self)
        ensures
            r.tallies@.len() == MAX_PROPOSERS,
            forall|i: int|
                0 <= i < MAX_PROPOSERS ==> #[trigger] r.tallies@[i] == (Tally {
                    pkts: 0,
                    bytes: 0,
                }),
            r.recycle@ == Seq::<u64>::empty(),
            r.tallies@.len() == 16,
            forall|i: int|
                0 <= i < 16 ==> (#[trigger] r.tallies@[i]).pkts == 0 && r.tallies@[i].bytes == 0,
            r.recycle@.len() == 0,
    {
        let mut tallies: Vec<Tally> = Vec::new();
        let mut i: u16 = 0;
        while i < MAX_PROPOSERS
            invariant
                i <= MAX_PROPOSERS,
                tallies@.len() == i,
                forall|k: int|
                    0 <= k < i ==> #[trigger] tallies@[k] == (Tally { pkts: 0, bytes: 0 }),
            decreases MAX_PROPOSERS - i,
        {
            tallies.push(Tally { pkts: 0, bytes: 0 });
            i = i + 1;
        }
        Drain { tallies, recycle: Vec::new() }
    }

    /// Start a pass over the rings.
    pub fn begin_pass(&mut self)
        ensures
            final(self)@ == old(self)@.at_pass_start(),
            final(self).tallies@ == old(self).tallies@,
            final(self).recycle@.len() == 0,
    {
        self.recycle.clear();
    }

    /// Whether the tally at `i` exists and can count one more packet of `len`
    /// bytes.
    pub fn can_take(&self, i: usize, len: u32) -> (r: bool)
        ensures
            r == (i < self.tallies@.len() && has_room(self.tallies@[i as int], len)),
            r <==> i < self.tallies@.len() && self.tallies@[i as int].pkts + 1 <= u64::MAX
                && self.tallies@[i as int].bytes + len <= u64::MAX,
    {
        if i >= self.tallies.len() {
            return false;
        }
        let tally: Tally = self.tallies[i];
        tally.pkts < u64::MAX && tally.bytes <= u64::MAX - len as u64
    }

    /// Count a packet of `len` bytes read from the ring at `i`, and recycle the
    /// frame that holds `addr`.
    pub fn take(&mut self, i: usize, addr: u64, len: u32)
        requires
            i < old(self).tallies@.len(),
            has_room(old(self).tallies@[i as int], len),
        ensures
            final(self)@ == old(self)@.after((i as int, addr, len)),
            final(self).tallies@.len() == old(self).tallies@.len(),
            final(self).tallies@[i as int].pkts == old(self).tallies@[i as int].pkts + 1,
            final(self).tallies@[i as int].bytes == old(self).tallies@[i as int].bytes + len,
            forall|k: int|
                0 <= k < old(self).tallies@.len() && k != i ==> #[trigger] final(self).tallies@[k]
                    == old(self).tallies@[k],
            final(self).recycle@.len() == old(self).recycle@.len() + 1,
            forall|k: int|
                0 <= k < old(self).recycle@.len() ==> #[trigger] final(self).recycle@[k] == old(
                    self,
                ).recycle@[k],
            final(self).recycle@.last() == addr - addr % 4096,
    {
        let tally: Tally = self.tallies[i];
        self.tallies[i] = Tally { pkts: tally.pkts + 1, bytes: tally.bytes + len as u64 };
        self.recycle.push(frame_base(addr));
    }
}

/// `p<j>=<pkts>pkt/<bytes>B` for proposer `j`.
pub open spec fn tally_text(j: nat, tally: Tally) -> Seq<char> {
    "p"@ + decimal(j) + "="@ + decimal(tally.pkts as nat) + "pkt/"@ + decimal(tally.bytes as nat)
        + "B"@
}

/// The texts of the proposers that have received something, in order.
pub open spec fn active(tallies: Seq<Tally>) -> Seq<Seq<char>>
    decreases tallies.len(),
{
    if tallies.len() == 0 {
        Seq::empty()
    } else {
        let earlier = active(tallies.drop_last());
        if tallies.last().pkts > 0 {
            earlier.push(tally_text(ring_slot(tallies.len() - 1) as nat, tallies.last()))
        } else {
            earlier
        }
    }
}

/// The per-proposer packet and byte totals, without the proposers that have
/// received nothing.
pub fn report(tallies: &Vec<Tally>) -> (r: String)
    ensures
        r@ == "per-proposer: "@ + if active(tallies@).len() == 0 {
            "(none yet)"@
        } else {
            joined(active(tallies@), " "@)
        },
        r@ == "per-proposer: "@ + "(none yet)"@ <==> forall|i: int|
            0 <= i < tallies@.len() ==> (#[trigger] tallies@[i]).pkts == 0,
        (exists|i: int| 0 <= i < tallies@.len() && (#[trigger] tallies@[i]).pkts > 0) ==> r@
            == "per-proposer: "@ + joined(
            Seq::new(tallies@.len(), |i: int| i).filter(
                |i: int| tallies@[i].pkts > 0,
            ).map_values(
                |i: int|
                    "p"@ + decimal((i + 1) as nat) + "="@ + decimal(tallies@[i].pkts as nat) + "pkt/"@
                        + decimal(tallies@[i].bytes as nat) + "B"@,
            ),
            " "@,
        ),
{
    let mut parts: Vec<String> = Vec::new();
    let mut i: usize = 0;
    assert(tallies@.take(0) =~= Seq::<Tally>::empty());
    while i < tallies.len()
        invariant
            i <= tallies@.len(),
            texts(parts@) == active(tallies@.take(i as int)),
        decreases tallies.len() - i,
    {
        let tally: Tally = tallies[i];
        let ghost before = parts@;
        assert(tallies@.take(i + 1).drop_last() =~= tallies@.take(i as int));
        if tally.pkts > 0 {
            let mut s = String::new();
            s.append("p");
            push_decimal(&mut s, i as u64 + 1);
            s.append("=");
            push_decimal(&mut s, tally.pkts);
            s.append("pkt/");
            push_decimal(&mut s, tally.bytes);
            s.append("B");
            assert(s@ =~= tally_text(ring_slot(i as int) as nat, tally));
            parts.push(s);
            assert(texts(parts@) =~= texts(before).push(s@));
        }
        i = i + 1;
    }
    assert(tallies@.take(i as int) =~= tallies@);
    let mut line = String::new();
    line.append("per-proposer: ");
    if parts.len() == 0 {
        line.append("(none yet)");
    } else {
        line.append(join(&parts, " ").as_str());
    }
    assert(line@ =~= "per-proposer: "@ + if active(tallies@).len() == 0 {
        "(none yet)"@
    } else {
        joined(active(tallies@), " "@)
    });
    proof {
        law_active_proposers(tallies@);
        law_none_active(tallies@);
        if active(tallies@).len() > 0 {
            lemma_report_is_not_none(tallies@, line@);
        }
    }
    line
}

/// The proposers in a report are those that have received a packet, each of them
/// once, in the order of their indices, with the packets and bytes that they have
/// received: of the indices 0, 1, 2, and so on, those with packets, each written
/// as `p<i + 1>=<pkts>pkt/<bytes>B`.
pub proof fn law_active_proposers(tallies: Seq<Tally>)
    ensures
        active(tallies) == Seq::new(tallies.len(), |i: int| i).filter(
            |i: int| tallies[i].pkts > 0,
        ).map_values(
            |i: int|
                "p"@ + decimal((i + 1) as nat) + "="@ + decimal(tallies[i].pkts as nat) + "pkt/"@
                    + decimal(tallies[i].bytes as nat) + "B"@,
        ),
{
    lemma_active_prefix(tallies, tallies.len() as int);
    assert(tallies.take(tallies.len() as int) =~= tallies);
}

proof fn lemma_active_prefix(tallies: Seq<Tally>, n: int)
    requires
        0 <= n <= tallies.len(),
    ensures
        active(tallies.take(n)) == Seq::new(n as nat, |i: int| i).filter(
            |i: int| tallies[i].pkts > 0,
        ).map_values(
            |i: int|
                "p"@ + decimal((i + 1) as nat) + "="@ + decimal(tallies[i].pkts as nat) + "pkt/"@
                    + decimal(tallies[i].bytes as nat) + "B"@,
        ),
    decreases n,
{
    reveal(Seq::filter);
    let has_packets = |i: int| tallies[i].pkts > 0;
    let text = |i: int|
        "p"@ + decimal((i + 1) as nat) + "="@ + decimal(tallies[i].pkts as nat) + "pkt/"@ + decimal(
            tallies[i].bytes as nat,
        ) + "B"@;
    let indices = Seq::new(n as nat, |i: int| i);
    if n == 0 {
        assert(indices.filter(has_packets).map_values(text) =~= Seq::<Seq<char>>::empty());
    } else {
        lemma_active_prefix(tallies, n - 1);
        let earlier = Seq::new((n - 1) as nat, |i: int| i);
        assert(indices.drop_last() =~= earlier);
        assert(indices.last() == n - 1);
        assert(tallies.take(n).drop_last() =~= tallies.take(n - 1));
        assert(tallies.take(n).last() == tallies[n - 1]);
        if tallies[n - 1].pkts > 0 {
            assert(indices.filter(has_packets) == earlier.filter(has_packets).push(n - 1));
            assert(indices.filter(has_packets).map_values(text) =~= earlier.filter(
                has_packets,
            ).map_values(text).push(text(n - 1)));
        }
    }
}

/// There is nothing to report exactly where no proposer has received a packet.
pub proof fn law_none_active(tallies: Seq<Tally>)
    ensures
        active(tallies).len() == 0 <==> forall|i: int|
            0 <= i < tallies.len() ==> (#[trigger] tallies[i]).pkts == 0,
    decreases tallies.len(),
{
    if tallies.len() > 0 {
        let rest = tallies.drop_last();
        law_none_active(rest);
        if active(tallies).len() == 0 {
            assert forall|i: int| 0 <= i < tallies.len() implies (#[trigger] tallies[i]).pkts
                == 0 by {
                if i < rest.len() {
                    assert(rest[i] == tallies[i]);
                }
            }
        } else if forall|i: int| 0 <= i < tallies.len() ==> (#[trigger] tallies[i]).pkts == 0 {
            assert forall|i: int| 0 <= i < rest.len() implies (#[trigger] rest[i]).pkts == 0 by {
                assert(rest[i] == tallies[i]);
            }
            assert(tallies[tallies.len() - 1].pkts == 0);
        }
    }
}

/// The proposer at index `i` stands in the report where it has received a packet,
/// behind as many others as there are before it, and nowhere where it has not.
pub proof fn law_a_proposer_appears_once(tallies: Seq<Tally>, i: int)
    requires
        0 <= i < tallies.len(),
    ensures
        ({
            let before = active(tallies.take(i)).len() as int;
            let up_to = active(tallies.take(i + 1)).len() as int;
            &&& active(tallies).take(before) == active(tallies.take(i))
            &&& active(tallies).take(up_to) == active(tallies.take(i + 1))
            &&& tallies[i].pkts == 0 ==> up_to == before
            &&& tallies[i].pkts > 0 ==> up_to == before + 1 && active(tallies)[before] == "p"@
                + decimal((i + 1) as nat) + "="@ + decimal(tallies[i].pkts as nat) + "pkt/"@
                + decimal(tallies[i].bytes as nat) + "B"@
        }),
{
    lemma_active_prefixes(tallies, i);
    lemma_active_prefixes(tallies, i + 1);
    let next = tallies.take(i + 1);
    assert(next.drop_last() =~= tallies.take(i));
    assert(next.last() == tallies[i]);
    if tallies[i].pkts > 0 {
        let n = active(tallies.take(i)).len() as int;
        assert(active(tallies)[n] == active(tallies).take(n + 1)[n]);
    }
}

proof fn lemma_active_prefixes(tallies: Seq<Tally>, n: int)
    requires
        0 <= n <= tallies.len(),
    ensures
        active(tallies.take(n)).len() <= active(tallies).len(),
        active(tallies).take(active(tallies.take(n)).len() as int) == active(tallies.take(n)),
    decreases tallies.len(),
{
    if n == tallies.len() {
        assert(tallies.take(n) =~= tallies);
        assert(active(tallies).take(active(tallies).len() as int) =~= active(tallies));
    } else {
        let rest = tallies.drop_last();
        lemma_active_prefixes(rest, n);
        assert(rest.take(n) =~= tallies.take(n));
        let m = active(tallies.take(n)).len() as int;
        assert(active(tallies).take(m) =~= active(rest).take(m));
    }
}

proof fn lemma_joined_starts(parts: Seq<Seq<char>>, sep: Seq<char>)
    requires
        parts.len() > 0,
        parts[0].len() > 0,
    ensures
        joined(parts, sep).len() > 0,
        joined(parts, sep)[0] == parts[0][0],
    decreases parts.len(),
{
    if parts.len() > 1 {
        lemma_joined_starts(parts.drop_last(), sep);
    }
}

proof fn lemma_active_starts(tallies: Seq<Tally>)
    requires
        active(tallies).len() > 0,
    ensures
        active(tallies)[0].len() > 0,
        active(tallies)[0][0] == 'p',
    decreases tallies.len(),
{
    reveal_strlit("p");
    if active(tallies.drop_last()).len() > 0 {
        lemma_active_starts(tallies.drop_last());
    }
}

proof fn lemma_report_is_not_none(tallies: Seq<Tally>, line: Seq<char>)
    requires
        active(tallies).len() > 0,
        line == "per-proposer: "@ + joined(active(tallies), " "@),
    ensures
        line != "per-proposer: "@ + "(none yet)"@,
{
    lemma_active_starts(tallies);
    lemma_joined_starts(active(tallies), " "@);
    reveal_strlit("(none yet)");
    let n = "per-proposer: "@.len() as int;
    assert(line[n] == 'p');
    assert(("per-proposer: "@ + "(none yet)"@)[n] == '(');
}

/// The sizes of the pool and the rings, in numbers.
pub proof fn law_sizes()
    ensures
        FRAME_SIZE == 4096,
        NUM_FRAMES == 16384,
        UMEM_LEN == 64 * 1024 * 1024,
        FILL_SIZE == 8192,
        fill_target() == 8192,
        RX_SIZE == 4096,
        RX_BATCH == 4096,
        OWNER_TX_SIZE == 64,
        POLL_TIMEOUT_MS == 250,
{
}

/// What one packet changes: its ring's tally has one packet and `len` bytes more,
/// the other tallies stay, and the base of its frame joins the frames to recycle.
pub proof fn law_one_packet(state: DrainState, i: int, addr: u64, len: u32)
    requires
        0 <= i < state.tallies.len(),
        state.tallies[i].pkts + 1 <= u64::MAX,
        state.tallies[i].bytes + len <= u64::MAX,
    ensures
        has_room(state.tallies[i], len),
        ({
            let next = state.after((i, addr, len));
            &&& next.tallies.len() == state.tallies.len()
            &&& next.tallies[i].pkts == state.tallies[i].pkts + 1
            &&& next.tallies[i].bytes == state.tallies[i].bytes + len
            &&& forall|k: int|
                0 <= k < state.tallies.len() && k != i ==> #[trigger] next.tallies[k]
                    == state.tallies[k]
            &&& next.recycle.len() == state.recycle.len() + 1
            &&& next.recycle.take(state.recycle.len() as int) == state.recycle
            &&& next.recycle.last() == addr - addr % 4096
        }),
{
    let next = state.after((i, addr, len));
    assert(next.recycle.take(state.recycle.len() as int) =~= state.recycle);
}

/// A tally has room for a packet exactly where neither of its numbers would pass
/// the largest value.
pub proof fn law_room(tally: Tally, len: u32)
    ensures
        has_room(tally, len) <==> tally.pkts + 1 <= u64::MAX && tally.bytes + len <= u64::MAX,
{
}

/// The packets from a ring are those of the series that name it, in order.
pub proof fn law_from_ring(packets: Seq<Descriptor>, i: int)
    ensures
        from_ring(packets, i) == packets.filter(|p: Descriptor| p.0 == i),
        total_len(packets) == packets.fold_left(0int, |acc: int, p: Descriptor| acc + p.2),
    decreases packets.len(),
{
    reveal(Seq::filter);
    if packets.len() > 0 {
        law_from_ring(packets.drop_last(), i);
    } else {
        assert(from_ring(packets, i) =~= packets.filter(|p: Descriptor| p.0 == i));
    }
}

/// An address belongs to the frame that it is aligned down to, and the base of
/// a frame is its own base.
pub proof fn law_frame_base(addr: int)
    ensures
        frame_start(addr) % FRAME_SIZE as int == 0,
        frame_start(addr) <= addr < frame_start(addr) + FRAME_SIZE,
        frame_start(frame_start(addr)) == frame_start(addr),
{
}

/// The primed frames lie inside the UMEM region and do not overlap.
pub proof fn law_primed_frames_are_disjoint(i: int, k: int)
    requires
        0 <= i < k < fill_target(),
    ensures
        0 <= i * FRAME_SIZE,
        (i + 1) * FRAME_SIZE <= k * FRAME_SIZE,
        (k + 1) * FRAME_SIZE <= UMEM_LEN,
{
}

/// Recycling returns the frame that was handed out: wherever in frame `k` a
/// packet starts, the address that goes back is the one that was primed.
pub proof fn law_recycling_returns_the_frame(k: int, addr: int)
    requires
        k * FRAME_SIZE <= addr < (k + 1) * FRAME_SIZE,
    ensures
        frame_start(addr) == k * FRAME_SIZE,
{
}

/// The rings are bound to exactly the slots that the router redirects to: every
/// redirect finds the ring of the proposer that the header names, and every ring
/// can be redirected to.
pub proof fn law_bound_slots_are_the_redirect_slots(slot: u32)
    ensures
        (exists|i: int| 0 <= i < MAX_PROPOSERS && slot == #[trigger] ring_slot(i)) <==> (exists|
            h: HeaderFields,
        |
            h.fits() && (#[trigger] policy(h) matches Decision::Redirect { slot: s, .. } && s == slot)),
        forall|frame: Seq<u8>|
            (#[trigger] decision(frame)) matches Decision::Redirect { slot: s, .. } && s == slot
                ==> exists|i: int| 0 <= i < MAX_PROPOSERS && slot == #[trigger] ring_slot(i),
{
    if 1 <= slot <= MAX_PROPOSERS {
        assert(slot == ring_slot(slot - 1));
        let h = HeaderFields {
            epoch: 0,
            cycle: 1,
            proposer_index: slot as nat,
            pslice_index: 1,
            shred_index: 0,
            commitment: Seq::new(32, |i: int| 0u8),
            merkle_root: Seq::new(32, |i: int| 0u8),
            signature: Seq::new(64, |i: int| 0u8),
        };
        assert(in_cycle(1, 1));
        assert(h.fits());
        assert(policy(h) matches Decision::Redirect { slot: s, .. } && s == slot);
    }
}

/// The frames to recycle after a pass that read these packets.
pub open spec fn recycled(packets: Seq<Descriptor>) -> Seq<u64> {
    packets.map_values(|p: Descriptor| frame_start(p.1 as int) as u64)
}

/// The packets of a series that came from ring `i`.
pub open spec fn from_ring(packets: Seq<Descriptor>, i: int) -> Seq<Descriptor>
    decreases packets.len(),
{
    if packets.len() == 0 {
        Seq::empty()
    } else if packets.last().0 == i {
        from_ring(packets.drop_last(), i).push(packets.last())
    } else {
        from_ring(packets.drop_last(), i)
    }
}

/// Bytes in a series of packets.
pub open spec fn total_len(packets: Seq<Descriptor>) -> nat
    decreases packets.len(),
{
    if packets.len() == 0 {
        0
    } else {
        total_len(packets.drop_last()) + packets.last().2 as nat
    }
}

/// Every packet comes from one of `n` rings.
pub open spec fn from_rings(packets: Seq<Descriptor>, n: int) -> bool {
    forall|k: int| 0 <= k < packets.len() ==> 0 <= (#[trigger] packets[k]).0 < n
}

/// No tally overflows over a series of packets.
pub open spec fn all_fit(tallies: Seq<Tally>, packets: Seq<Descriptor>) -> bool {
    forall|i: int|
        0 <= i < tallies.len() ==> {
            &&& (#[trigger] tallies[i]).pkts + from_ring(packets, i).len() <= u64::MAX
            &&& tallies[i].bytes + total_len(from_ring(packets, i)) <= u64::MAX
        }
}

/// `later` is `tallies` with the packets credited to the rings that they came
/// from, and to no other.
pub open spec fn credits(
    later: Seq<Tally>,
    tallies: Seq<Tally>,
    packets: Seq<Descriptor>,
) -> bool {
    &&& later.len() == tallies.len()
    &&& forall|i: int|
        0 <= i < tallies.len() ==> {
            &&& (#[trigger] later[i]).pkts == tallies[i].pkts + from_ring(packets, i).len()
            &&& later[i].bytes == tallies[i].bytes + total_len(from_ring(packets, i))
        }
}

proof fn lemma_prefix_fits(tallies: Seq<Tally>, packets: Seq<Descriptor>)
    requires
        packets.len() > 0,
        from_rings(packets, tallies.len() as int),
        all_fit(tallies, packets),
    ensures
        from_rings(packets.drop_last(), tallies.len() as int),
        all_fit(tallies, packets.drop_last()),
{
    let rest = packets.drop_last();
    assert forall|k: int| 0 <= k < rest.len() implies 0 <= (#[trigger] rest[k]).0
        < tallies.len() by {
        assert(rest[k] == packets[k]);
    }
    assert forall|i: int| 0 <= i < tallies.len() implies {
        &&& (#[trigger] tallies[i]).pkts + from_ring(rest, i).len() <= u64::MAX
        &&& tallies[i].bytes + total_len(from_ring(rest, i)) <= u64::MAX
    } by {
        lemma_from_ring_step(packets, i);
    }
}

proof fn lemma_from_ring_step(packets: Seq<Descriptor>, i: int)
    requires
        packets.len() > 0,
    ensures
        ({
            let rest = from_ring(packets.drop_last(), i);
            if packets.last().0 == i {
                &&& from_ring(packets, i).len() == rest.len() + 1
                &&& total_len(from_ring(packets, i)) == total_len(rest) + packets.last().2
            } else {
                from_ring(packets, i) == rest
            }
        }),
{
    if packets.last().0 == i {
        let rest = from_ring(packets.drop_last(), i);
        assert(rest.push(packets.last()).drop_last() =~= rest);
    }
}

/// Every frame read in a pass is given back exactly once, in order, as the base
/// of the frame. A pass that read nothing gives nothing back, and then the fill
/// ring is not touched and the kernel is not woken.
pub proof fn law_pass_recycles_every_frame(state: DrainState, packets: Seq<Descriptor>)
    ensures
        state.at_pass_start().after_all(packets).recycle == recycled(packets),
        recycled(packets).len() == packets.len(),
        forall|i: int|
            0 <= i < packets.len() ==> #[trigger] recycled(packets)[i] == packets[i].1
                - packets[i].1 % FRAME_SIZE,
        packets.len() == 0 ==> forall|action: RefillAction| #[trigger]
            refill_follows(RefillEvent::Read(recycled(packets).len() as usize), action)
                ==> action is Done,
    decreases packets.len(),
{
    if packets.len() == 0 {
        assert(recycled(packets) =~= Seq::<u64>::empty());
    } else {
        let rest = packets.drop_last();
        law_pass_recycles_every_frame(state, rest);
        assert(recycled(packets) =~= recycled(rest).push(
            frame_start(packets.last().1 as int) as u64,
        ));
    }
}

/// Over a series of packets read in a pass, each ring's tally grows by the count
/// and the bytes of exactly the packets that came from it.
pub proof fn law_pass_credits_the_rings(state: DrainState, packets: Seq<Descriptor>)
    requires
        from_rings(packets, state.tallies.len() as int),
        all_fit(state.tallies, packets),
    ensures
        credits(state.at_pass_start().after_all(packets).tallies, state.tallies, packets),
    decreases packets.len(),
{
    let start = state.at_pass_start();
    if packets.len() > 0 {
        let rest = packets.drop_last();
        lemma_prefix_fits(state.tallies, packets);
        law_pass_credits_the_rings(state, rest);
        let before = start.after_all(rest);
        let after = start.after_all(packets);
        assert(0 <= packets[packets.len() - 1].0 < state.tallies.len());
        assert forall|i: int| 0 <= i < state.tallies.len() implies {
            &&& (#[trigger] after.tallies[i]).pkts == state.tallies[i].pkts + from_ring(
                packets,
                i,
            ).len()
            &&& after.tallies[i].bytes == state.tallies[i].bytes + total_len(from_ring(packets, i))
        } by {
            lemma_from_ring_step(packets, i);
            assert(before.tallies[i].pkts == state.tallies[i].pkts + from_ring(rest, i).len());
            assert(state.tallies[i].pkts + from_ring(packets, i).len() <= u64::MAX);
        }
    }
}

/// The packets of a series of passes, one after the other.
pub open spec fn all_packets(passes: Seq<Seq<Descriptor>>) -> Seq<Descriptor>
    decreases passes.len(),
{
    if passes.len() == 0 {
        Seq::empty()
    } else {
        all_packets(passes.drop_last()) + passes.last()
    }
}

proof fn lemma_from_ring_add(a: Seq<Descriptor>, b: Seq<Descriptor>, i: int)
    ensures
        from_ring(a + b, i).len() == from_ring(a, i).len() + from_ring(b, i).len(),
        total_len(from_ring(a + b, i)) == total_len(from_ring(a, i)) + total_len(from_ring(b, i)),
    decreases b.len(),
{
    if b.len() == 0 {
        assert(a + b =~= a);
    } else {
        lemma_from_ring_add(a, b.drop_last(), i);
        assert((a + b).drop_last() =~= a + b.drop_last());
        lemma_from_ring_step(a + b, i);
        lemma_from_ring_step(b, i);
    }
}

/// At any time the tally of a ring is the count and the bytes of all packets
/// that were ever read from it: passes do not reset it, and nothing is credited
/// to another ring.
pub proof fn law_tallies_count_all_packets(state: DrainState, passes: Seq<Seq<Descriptor>>)
    requires
        from_rings(all_packets(passes), state.tallies.len() as int),
        all_fit(state.tallies, all_packets(passes)),
    ensures
        credits(state.after_passes(passes).tallies, state.tallies, all_packets(passes)),
    decreases passes.len(),
{
    if passes.len() > 0 {
        let n = state.tallies.len() as int;
        let earlier = all_packets(passes.drop_last());
        let last = passes.last();
        let all = all_packets(passes);
        assert forall|k: int| 0 <= k < earlier.len() implies 0 <= (#[trigger] earlier[k]).0 < n by {
            assert(all[k] == earlier[k]);
        }
        assert forall|k: int| 0 <= k < last.len() implies 0 <= (#[trigger] last[k]).0 < n by {
            assert(all[earlier.len() + k] == last[k]);
        }
        assert forall|i: int| 0 <= i < n implies {
            &&& (#[trigger] state.tallies[i]).pkts + from_ring(earlier, i).len() <= u64::MAX
            &&& state.tallies[i].bytes + total_len(from_ring(earlier, i)) <= u64::MAX
        } by {
            lemma_from_ring_add(earlier, last, i);
        }
        law_tallies_count_all_packets(state, passes.drop_last());
        let mid = state.after_passes(passes.drop_last());
        assert forall|i: int| 0 <= i < n implies {
            &&& (#[trigger] mid.tallies[i]).pkts + from_ring(last, i).len() <= u64::MAX
            &&& mid.tallies[i].bytes + total_len(from_ring(last, i)) <= u64::MAX
        } by {
            lemma_from_ring_add(earlier, last, i);
            assert(state.tallies[i].pkts + from_ring(all, i).len() <= u64::MAX);
        }
        law_pass_credits_the_rings(mid, last);
        let end = state.after_passes(passes);
        assert forall|i: int| 0 <= i < n implies {
            &&& (#[trigger] end.tallies[i]).pkts == state.tallies[i].pkts + from_ring(all, i).len()
            &&& end.tallies[i].bytes == state.tallies[i].bytes + total_len(from_ring(all, i))
        } by {
            lemma_from_ring_add(earlier, last, i);
            assert(mid.tallies[i].pkts == state.tallies[i].pkts + from_ring(earlier, i).len());
        }
    }
}

/// Where the frames of the pool are: in the fill ring, in the RX rings, or read
/// and not yet handed back.
pub struct InFlight {
    pub fill: nat,
    pub rx: nat,
    pub held: nat,
}

/// One step of the frames' round: the kernel places a packet in a frame of the
/// fill ring, a packet is read, or the frames that were read are handed back, of
/// which the fill ring takes all or some.
pub open spec fn flight_step(a: InFlight, b: InFlight) -> bool {
    ||| a.fill > 0 && b == (InFlight { fill: (a.fill - 1) as nat, rx: a.rx + 1, held: a.held })
    ||| a.rx > 0 && b == (InFlight { fill: a.fill, rx: (a.rx - 1) as nat, held: a.held + 1 })
    ||| b.rx == a.rx && b.held == 0 && a.fill <= b.fill <= a.fill + a.held
}

/// The pool exceeds the buffers in flight: from the primed fill ring on, there
/// are never as many frames under way as the pool has.
pub proof fn law_pool_exceeds_buffers_in_flight(course: Seq<InFlight>, k: int)
    requires
        0 <= k < course.len(),
        course[0].fill <= fill_target() && course[0].rx == 0 && course[0].held == 0,
        forall|i: int|
            #![trigger course[i]]
            0 < i < course.len() ==> flight_step(course[i - 1], course[i]),
    ensures
        course[k].fill + course[k].rx + course[k].held <= fill_target(),
        fill_target() < NUM_FRAMES,
    decreases k,
{
    if k > 0 {
        law_pool_exceeds_buffers_in_flight(course, k - 1);
        assert(flight_step(course[k - 1], course[k]));
    }
}

/// A step of the frames' round in which the fill ring takes back every frame
/// that is handed back.
pub open spec fn full_flight_step(a: InFlight, b: InFlight) -> bool {
    flight_step(a, b) && b.fill + b.rx + b.held == a.fill + a.rx + a.held
}

/// The pool cannot starve: where every hand-back is taken in full, the fill ring
/// still has frames for the kernel while the packets of a whole RX ring wait to
/// be read or handed back.
pub proof fn law_fill_ring_outlasts_a_full_rx_ring(course: Seq<InFlight>, k: int)
    requires
        0 <= k < course.len(),
        course[0].fill == fill_target() && course[0].rx == 0 && course[0].held == 0,
        forall|i: int|
            #![trigger course[i]]
            0 < i < course.len() ==> full_flight_step(course[i - 1], course[i]),
        course[k].rx + course[k].held <= RX_SIZE,
    ensures
        course[k].fill >= fill_target() - RX_SIZE > 0,
{
    lemma_full_flight_keeps_all_frames(course, k);
}

proof fn lemma_full_flight_keeps_all_frames(course: Seq<InFlight>, k: int)
    requires
        0 <= k < course.len(),
        course[0].fill == fill_target() && course[0].rx == 0 && course[0].held == 0,
        forall|i: int|
            #![trigger course[i]]
            0 < i < course.len() ==> full_flight_step(course[i - 1], course[i]),
    ensures
        course[k].fill + course[k].rx + course[k].held == fill_target(),
    decreases k,
{
    if k > 0 {
        lemma_full_flight_keeps_all_frames(course, k - 1);
        assert(full_flight_step(course[k - 1], course[k]));
    }
}

} // verus!
