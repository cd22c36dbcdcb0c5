//! The router's counters.
//!
//! Indices and names are shared by the program that counts and the program
//! that reads, so they can never disagree on what each slot means.

use crate::router::Outcome;
#[allow(unused_imports)]
use crate::router::{is_port_packet, is_pshred, law_what_is_counted, outcome};
#[allow(unused_imports)]
use crate::text::{decimal, joined, law_joined, texts};
use crate::text::{join, push_decimal};
use vstd::prelude::*;
use vstd::string::StringExecFns;

verus! {

/// pshred-port packets seen, with or without a complete pshred header
pub const TOTAL: u32 = 0;

/// handed to an AF_XDP socket
pub const REDIRECTED: u32 = 1;

/// Equation (1) violations dropped
pub const EQ1_DROP: u32 = 2;

/// proposer index out of [1, p]
pub const RANGE_DROP: u32 = 3;

/// valid pshred but no socket bound -> passed
pub const NO_SOCKET: u32 = 4;

pub const COUNT: u32 = 5;

pub const NAMES: [&'static str; 5] = [
    "total",
    "redirected",
    "eq1_drop",
    "range_drop",
    "no_socket",
];

/// One value per counter.
#[derive(Clone, Copy, Debug, PartialEq, Eq)]
pub struct Counters {
    pub values: [u64; 5],
}

/// `values` with slot `idx` one higher; a slot that does not exist changes
/// nothing.
pub open spec fn bumped(values: Seq<u64>, idx: u32) -> Seq<u64> {
    if idx < COUNT {
        values.update(idx as int, (values[idx as int] + 1) as u64)
    } else {
        values
    }
}

/// `values` with the slot, if one is given, one higher.
pub open spec fn bumped_if(values: Seq<u64>, slot: Option<u32>) -> Seq<u64> {
    match slot {
        Some(idx) => bumped(values, idx),
        None => values,
    }
}

/// The slots that a frame with this outcome goes to: the total where it was a
/// packet to the pshred port, and the counter of its fate where it has one.
pub open spec fn slots(outcome: Outcome) -> Seq<Option<u32>> {
    seq![
        if outcome.seen {
            Some(TOTAL)
        } else {
            None
        },
        outcome.counter,
    ]
}

/// `values` once a frame with this outcome has been counted.
pub open spec fn recorded(values: Seq<u64>, outcome: Outcome) -> Seq<u64> {
    bumped_if(bumped_if(values, slots(outcome)[0]), slots(outcome)[1])
}

/// The slot, if one is given and exists, is not full.
pub open spec fn slot_has_room(values: Seq<u64>, slot: Option<u32>) -> bool {
    slot matches Some(idx) ==> idx < COUNT ==> values[idx as int] < u64::MAX
}

/// No slot that the outcome goes to is full.
pub open spec fn has_room(values: Seq<u64>, outcome: Outcome) -> bool {
    &&& slot_has_room(values, slots(outcome)[0])
    &&& slot_has_room(bumped_if(values, slots(outcome)[0]), slots(outcome)[1])
}

/// The pshreds that met one of the four fates.
pub open spec fn fates(values: Seq<u64>) -> int {
    values[REDIRECTED as int] + values[EQ1_DROP as int] + values[RANGE_DROP as int]
        + values[NO_SOCKET as int]
}

/// A packet to the pshred port that was too short to be a pshred.
pub open spec fn is_short(outcome: Outcome) -> bool {
    outcome.seen && outcome.counter is None
}

/// Every packet seen has met one of the four fates, but for `short` of them that
/// were too short.
pub open spec fn balanced(values: Seq<u64>, short: int) -> bool {
    values[TOTAL as int] == fates(values) + short
}

/// The slots to bump for a frame with this outcome, in this order.
pub fn slots_to_bump(outcome: Outcome) -> (r: [Option<u32>; 2])
    ensures
        r@ == slots(outcome),
        outcome.seen ==> r@[0] == Some(0u32),
        !outcome.seen ==> r@[0] is None,
        r@[1] == outcome.counter,
{
    let total: Option<u32> = if outcome.seen {
        Some(TOTAL)
    } else {
        None
    };
    let r: [Option<u32>; 2] = [total, outcome.counter];
    assert(r@ =~= slots(outcome));
    r
}

impl Counters {
    /// All counters at zero.
    pub fn new() -> (r: Self)
        ensures
            r.values@ == seq![0u64, 0, 0, 0, 0],
            balanced(r.values@, 0),
    {
        let r = Counters { values: [0u64; 5] };
        assert(r.values@ =~= seq![0u64, 0, 0, 0, 0]);
        r
    }

    /// Add one to slot `idx`; a slot that does not exist is passed over.
    pub fn bump(&mut self, idx: u32)
        requires
            idx < COUNT ==> old(self).values@[idx as int] < u64::MAX,
        ensures
            final(self).values@ == bumped(old(self).values@, idx),
            forall|j: int|
                0 <= j < 5 ==> #[trigger] final(self).values@[j] == old(self).values@[j] + if j
                    == idx {
                    1int
                } else {
                    0
                },
    {
        if idx < COUNT {
            let i: usize = idx as usize;
            self.values[i] = self.values[i] + 1;
        }
    }

    /// Count one frame.
    pub fn record(&mut self, outcome: Outcome)
        requires
            has_room(old(self).values@, outcome),
        ensures
            final(self).values@ == recorded(old(self).values@, outcome),
            forall|j: int|
                0 <= j < 5 ==> #[trigger] final(self).values@[j] == old(self).values@[j] + (if j == 0
                    && outcome.seen {
                    1int
                } else {
                    0
                }) + (if outcome.counter is Some && outcome.counter->0 == j {
                    1int
                } else {
                    0
                }),
    {
        let slots: [Option<u32>; 2] = slots_to_bump(outcome);
        if let Some(idx) = slots[0] {
            self.bump(idx);
        }
        if let Some(idx) = slots[1] {
            self.bump(idx);
        }
    }
}

/// The slots by number and name.
pub proof fn law_slots_and_names()
    ensures
        TOTAL == 0 && NAMES@[0]@ == "total"@,
        REDIRECTED == 1 && NAMES@[1]@ == "redirected"@,
        EQ1_DROP == 2 && NAMES@[2]@ == "eq1_drop"@,
        RANGE_DROP == 3 && NAMES@[3]@ == "range_drop"@,
        NO_SOCKET == 4 && NAMES@[4]@ == "no_socket"@,
        COUNT == 5,
{
}

/// Counting a frame adds one to the total where the frame was seen, one to the
/// counter of its fate where it has one, and changes nothing else. There is room
/// for that where no slot would pass the largest value.
pub proof fn law_what_a_frame_adds(values: Seq<u64>, outcome: Outcome)
    requires
        values.len() == 5,
    ensures
        has_room(values, outcome) <==> forall|j: int|
            0 <= j < 5 ==> #[trigger] values[j] + (if j == 0 && outcome.seen {
                1int
            } else {
                0
            }) + (if outcome.counter is Some && outcome.counter->0 == j {
                1int
            } else {
                0
            }) <= u64::MAX,
        recorded(values, outcome).len() == 5,
        has_room(values, outcome) ==> forall|j: int|
            0 <= j < 5 ==> #[trigger] recorded(values, outcome)[j] == values[j] + (if j == 0
                && outcome.seen {
                1int
            } else {
                0
            }) + (if outcome.counter is Some && outcome.counter->0 == j {
                1int
            } else {
                0
            }),
{
    if forall|j: int|
        0 <= j < 5 ==> #[trigger] values[j] + (if j == 0 && outcome.seen {
            1int
        } else {
            0
        }) + (if outcome.counter is Some && outcome.counter->0 == j {
            1int
        } else {
            0
        }) <= u64::MAX {
        assert(values[0] + (if outcome.seen {
            1int
        } else {
            0
        }) <= u64::MAX);
        if let Some(idx) = outcome.counter {
            if idx < 5 {
                assert(values[idx as int] + 1 <= u64::MAX);
            }
        }
        assert(has_room(values, outcome));
    }
}

/// The balance in numbers.
pub proof fn law_balance(values: Seq<u64>, short: int)
    ensures
        balanced(values, short) <==> values[0] == values[1] + values[2] + values[3] + values[4]
            + short,
{
}

/// Counting a frame keeps the balance.
pub proof fn law_record_keeps_the_balance(values: Seq<u64>, outcome: Outcome, short: int)
    requires
        values.len() == COUNT,
        balanced(values, short),
        outcome.is_valid(),
        has_room(values, outcome),
    ensures
        balanced(
            recorded(values, outcome),
            short + if is_short(outcome) {
                1int
            } else {
                0
            },
        ),
{
}

/// The sum of a list of counter values.
pub open spec fn sum(values: Seq<u64>) -> nat
    decreases values.len(),
{
    if values.len() == 0 {
        0
    } else {
        sum(values.drop_last()) + values.last() as nat
    }
}

proof fn lemma_sum_prefix(values: Seq<u64>, n: int)
    requires
        0 <= n <= values.len(),
    ensures
        sum(values.take(n)) <= sum(values),
    decreases values.len(),
{
    if n < values.len() {
        lemma_sum_prefix(values.drop_last(), n);
        assert(values.drop_last().take(n) =~= values.take(n));
    } else {
        assert(values.take(n) =~= values);
    }
}

/// The sum counts every value: it is what adding them up from the left gives,
/// however many there are.
pub proof fn law_sum_adds_from_the_left(values: Seq<u64>)
    ensures
        sum(values) == values.fold_left(0int, |acc: int, v: u64| acc + v),
    decreases values.len(),
{
    if values.len() > 0 {
        law_sum_adds_from_the_left(values.drop_last());
    }
}

/// No values have the sum 0, one value is its own sum, and the sum of two lists
/// one after the other is the sum of their sums.
pub proof fn law_sum_is_additive(a: Seq<u64>, b: Seq<u64>, x: u64)
    ensures
        sum(Seq::empty()) == 0,
        sum(seq![x]) == x,
        sum(a + b) == sum(a) + sum(b),
    decreases b.len(),
{
    assert(seq![x].drop_last() =~= Seq::<u64>::empty());
    if b.len() == 0 {
        assert(a + b =~= a);
    } else {
        law_sum_is_additive(a, b.drop_last(), x);
        assert((a + b).drop_last() =~= a + b.drop_last());
    }
}

/// Whichever value is raised by `d`, the sum is raised by `d`.
pub proof fn law_raising_a_value_raises_the_sum(values: Seq<u64>, i: int, d: u64)
    requires
        0 <= i < values.len(),
        values[i] + d <= u64::MAX,
    ensures
        sum(values.update(i, (values[i] + d) as u64)) == sum(values) + d,
    decreases values.len(),
{
    let raised = values.update(i, (values[i] + d) as u64);
    if i < values.len() - 1 {
        law_raising_a_value_raises_the_sum(values.drop_last(), i, d);
        assert(raised.drop_last() =~= values.drop_last().update(i, (values[i] + d) as u64));
    } else {
        assert(raised.drop_last() =~= values.drop_last());
    }
}

/// Zeros have the sum 0, and only zeros do.
pub proof fn law_sum_of_zeros(values: Seq<u64>)
    ensures
        sum(values) == 0 <==> forall|k: int| 0 <= k < values.len() ==> #[trigger] values[k] == 0,
    decreases values.len(),
{
    if values.len() > 0 {
        let rest = values.drop_last();
        law_sum_of_zeros(rest);
        if sum(values) == 0 {
            assert forall|k: int| 0 <= k < values.len() implies #[trigger] values[k] == 0 by {
                if k < values.len() - 1 {
                    assert(rest[k] == values[k]);
                }
            }
        } else if forall|k: int| 0 <= k < values.len() ==> #[trigger] values[k] == 0 {
            assert forall|k: int| 0 <= k < rest.len() implies #[trigger] rest[k] == 0 by {
                assert(rest[k] == values[k]);
            }
            assert(values[values.len() - 1] == 0);
        }
    }
}

/// Whether the values of one counter on every CPU have a sum that fits.
pub fn can_read(per_cpu: Option<&[u64]>) -> (r: bool)
    ensures
        r == (per_cpu matches Some(values) ==> sum(values@) <= u64::MAX),
        per_cpu is None ==> r,
        per_cpu matches Some(values) ==> (r <==> values@.fold_left(
            0int,
            |acc: int, v: u64| acc + v,
        ) <= u64::MAX),
{
    proof {
        if let Some(values) = per_cpu {
            law_sum_adds_from_the_left(values@);
        }
    }
    match per_cpu {
        Some(values) => {
            let mut total: u64 = 0;
            let mut i: usize = 0;
            assert(values@.take(0) =~= Seq::<u64>::empty());
            while i < values.len()
                invariant
                    i <= values@.len(),
                    per_cpu == Some(values),
                    total == sum(values@.take(i as int)),
                decreases values.len() - i,
            {
                proof {
                    lemma_sum_prefix(values@, i + 1);
                    assert(values@.take(i + 1).drop_last() =~= values@.take(i as int));
                }
                if values[i] > u64::MAX - total {
                    proof {
                        law_sum_adds_from_the_left(values@);
                    }
                    return false;
                }
                total = total + values[i];
                i = i + 1;
            }
            assert(values@.take(i as int) =~= values@);
            true
        },
        None => true,
    }
}

/// Sum one counter across every CPU; a counter that could not be read is 0.
pub fn read(per_cpu: Option<&[u64]>) -> (r: u64)
    requires
        per_cpu matches Some(values) ==> sum(values@) <= u64::MAX,
    ensures
        r == match per_cpu {
            Some(values) => sum(values@),
            None => 0,
        },
        per_cpu is None ==> r == 0,
        per_cpu matches Some(values) ==> r == values@.fold_left(
            0int,
            |acc: int, v: u64| acc + v,
        ),
{
    proof {
        if let Some(values) = per_cpu {
            law_sum_adds_from_the_left(values@);
        }
    }
    match per_cpu {
        Some(values) => {
            let mut total: u64 = 0;
            let mut i: usize = 0;
            assert(values@.take(0) =~= Seq::<u64>::empty());
            while i < values.len()
                invariant
                    i <= values@.len(),
                    total == sum(values@.take(i as int)),
                    sum(values@) <= u64::MAX,
                decreases values.len() - i,
            {
                proof {
                    lemma_sum_prefix(values@, i + 1);
                    assert(values@.take(i + 1).drop_last() =~= values@.take(i as int));
                }
                total = total + values[i];
                i = i + 1;
            }
            assert(values@.take(i as int) =~= values@);
            total
        },
        None => 0,
    }
}

/// `name=value` for the counter at index `i`.
pub open spec fn entry(values: Seq<u64>, i: int) -> Seq<char> {
    NAMES@[i]@ + "="@ + decimal(values[i] as nat)
}

/// Every counter as `name=value`, in the order of the indices.
pub fn print(counters: &Counters) -> (r: String)
    ensures
        r@ == "stats: "@ + joined(
            Seq::new(COUNT as nat, |i: int| entry(counters.values@, i)),
            " "@,
        ),
        r@ == "stats: "@ + ("total"@ + "="@ + decimal(counters.values@[0] as nat)) + " "@ + (
        "redirected"@ + "="@ + decimal(counters.values@[1] as nat)) + " "@ + ("eq1_drop"@ + "="@
            + decimal(counters.values@[2] as nat)) + " "@ + ("range_drop"@ + "="@ + decimal(
            counters.values@[3] as nat,
        )) + " "@ + ("no_socket"@ + "="@ + decimal(counters.values@[4] as nat)),
{
    let names: [&'static str; 5] = NAMES;
    let mut vals: Vec<String> = Vec::new();
    let mut i: usize = 0;
    while i < COUNT as usize
        invariant
            i <= COUNT,
            names@ == NAMES@,
            vals@.len() == i,
            forall|k: int| 0 <= k < i ==> (#[trigger] vals@[k])@ == entry(counters.values@, k),
        decreases COUNT - i,
    {
        let mut s = String::new();
        s.append(names[i]);
        s.append("=");
        push_decimal(&mut s, counters.values[i]);
        assert(s@ =~= entry(counters.values@, i as int));
        vals.push(s);
        i = i + 1;
    }
    assert(texts(vals@) =~= Seq::new(COUNT as nat, |i: int| entry(counters.values@, i)));
    let mut line = String::new();
    line.append("stats: ");
    line.append(join(&vals, " ").as_str());
    assert(line@ =~= "stats: "@ + joined(texts(vals@), " "@));
    proof {
        law_slots_and_names();
        let v = counters.values@;
        let e1 = seq![entry(v, 0)];
        let e2 = e1.push(entry(v, 1));
        let e3 = e2.push(entry(v, 2));
        let e4 = e3.push(entry(v, 3));
        law_joined(e1, entry(v, 0), " "@);
        law_joined(e1, entry(v, 1), " "@);
        law_joined(e2, entry(v, 2), " "@);
        law_joined(e3, entry(v, 3), " "@);
        law_joined(e4, entry(v, 4), " "@);
        assert(texts(vals@) =~= e4.push(entry(v, 4)));
        assert(line@ =~= "stats: "@ + entry(v, 0) + " "@ + entry(v, 1) + " "@ + entry(v, 2) + " "@
            + entry(v, 3) + " "@ + entry(v, 4));
    }
    line
}

/// One frame that arrived, and what the socket map would answer for it.
pub type Arrival = (Seq<u8>, Result<u32, u32>);

/// The counters of one CPU after a series of frames, from zero.
pub open spec fn counted(frames: Seq<Arrival>) -> Seq<u64>
    decreases frames.len(),
{
    if frames.len() == 0 {
        seq![0u64, 0, 0, 0, 0]
    } else {
        recorded(counted(frames.drop_last()), outcome(frames.last().0, frames.last().1))
    }
}

/// How many frames of a series are packets to the pshred port.
pub open spec fn port_packets(frames: Seq<Arrival>) -> nat
    decreases frames.len(),
{
    if frames.len() == 0 {
        0
    } else {
        port_packets(frames.drop_last()) + if is_port_packet(frames.last().0) {
            1nat
        } else {
            0nat
        }
    }
}

/// How many frames of a series are pshreds.
pub open spec fn pshreds(frames: Seq<Arrival>) -> nat
    decreases frames.len(),
{
    if frames.len() == 0 {
        0
    } else {
        pshreds(frames.drop_last()) + if is_pshred(frames.last().0) {
            1nat
        } else {
            0nat
        }
    }
}

/// How many frames of a series are packets to the pshred port that are too short
/// to be pshreds.
pub open spec fn short_packets(frames: Seq<Arrival>) -> nat
    decreases frames.len(),
{
    if frames.len() == 0 {
        0
    } else {
        short_packets(frames.drop_last()) + if is_port_packet(frames.last().0) && !is_pshred(
            frames.last().0,
        ) {
            1nat
        } else {
            0nat
        }
    }
}

/// After any series of frames the total is the number of packets to the pshred
/// port in it, the four other counters add up to the number of pshreds, and the
/// total is those four and the packets that were too short.
pub proof fn law_counters_add_up(frames: Seq<Arrival>)
    requires
        frames.len() <= u64::MAX,
    ensures
        counted(frames).len() == COUNT,
        counted(frames)[TOTAL as int] == port_packets(frames),
        fates(counted(frames)) == pshreds(frames),
        balanced(counted(frames), short_packets(frames) as int),
        port_packets(frames) <= frames.len(),
    decreases frames.len(),
{
    if frames.len() > 0 {
        law_counters_add_up(frames.drop_last());
        law_what_is_counted(frames.last().0, frames.last().1);
    }
}

/// Before the first frame all counters are 0. From then on each frame adds to
/// them what its outcome says, and nothing else.
pub proof fn law_counted_frame_by_frame(frames: Seq<Arrival>, frame: Arrival)
    requires
        frames.len() < u64::MAX,
    ensures
        counted(Seq::empty()) == seq![0u64, 0, 0, 0, 0],
        counted(frames).len() == 5,
        forall|j: int|
            0 <= j < 5 ==> #[trigger] counted(frames.push(frame))[j] == counted(frames)[j] + (if j
                == 0 && outcome(frame.0, frame.1).seen {
                1int
            } else {
                0
            }) + (if outcome(frame.0, frame.1).counter == Some(j as u32) {
                1int
            } else {
                0
            }),
{
    law_counters_add_up(frames);
    law_what_is_counted(frame.0, frame.1);
    assert(frames.push(frame).drop_last() =~= frames);
    law_what_a_frame_adds(counted(frames), outcome(frame.0, frame.1));
    assert(has_room(counted(frames), outcome(frame.0, frame.1)));
}

/// The three counts of a series are the numbers of frames in it of each kind.
pub proof fn law_frame_counts(frames: Seq<Arrival>)
    ensures
        port_packets(frames) == frames.filter(|a: Arrival| is_port_packet(a.0)).len(),
        pshreds(frames) == frames.filter(|a: Arrival| is_pshred(a.0)).len(),
        short_packets(frames) == frames.filter(
            |a: Arrival| is_port_packet(a.0) && !is_pshred(a.0),
        ).len(),
    decreases frames.len(),
{
    reveal(Seq::filter);
    if frames.len() > 0 {
        law_frame_counts(frames.drop_last());
    }
}

/// The values of counter `i` on every CPU.
pub open spec fn column(cpus: Seq<Seq<u64>>, i: int) -> Seq<u64> {
    cpus.map_values(|values: Seq<u64>| values[i])
}

/// Where the counters of every CPU add up, so do the sums across the CPUs.
/// `short` holds the too short packets of each CPU.
pub proof fn law_sums_add_up(cpus: Seq<Seq<u64>>, short: Seq<u64>)
    requires
        short.len() == cpus.len(),
        forall|k: int| 0 <= k < cpus.len() ==> balanced(#[trigger] cpus[k], short[k] as int),
    ensures
        sum(column(cpus, TOTAL as int)) == sum(column(cpus, REDIRECTED as int)) + sum(
            column(cpus, EQ1_DROP as int),
        ) + sum(column(cpus, RANGE_DROP as int)) + sum(column(cpus, NO_SOCKET as int)) + sum(short),
    decreases cpus.len(),
{
    if cpus.len() > 0 {
        let rest = cpus.drop_last();
        let n = cpus.len() - 1;
        assert(balanced(cpus[n], short[n] as int));
        assert forall|k: int| 0 <= k < rest.len() implies balanced(
            #[trigger] rest[k],
            short.drop_last()[k] as int,
        ) by {
            assert(balanced(cpus[k], short[k] as int));
        }
        law_sums_add_up(rest, short.drop_last());
        assert(column(cpus, 0).drop_last() =~= column(rest, 0));
        assert(column(cpus, 1).drop_last() =~= column(rest, 1));
        assert(column(cpus, 2).drop_last() =~= column(rest, 2));
        assert(column(cpus, 3).drop_last() =~= column(rest, 3));
        assert(column(cpus, 4).drop_last() =~= column(rest, 4));
    }
}

} // verus!
