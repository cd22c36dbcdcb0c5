use pshred_router::router::{redirected, Outcome, XDP_DROP, XDP_PASS};
use pshred_router::stats::{
    can_read, print, read, slots_to_bump, Counters, COUNT, EQ1_DROP, NAMES, NO_SOCKET, RANGE_DROP, REDIRECTED, TOTAL,
};

fn outcome(seen: bool, counter: Option<u32>, action: u32) -> Outcome {
    Outcome {
        seen,
        counter,
        action,
    }
}

#[test]
fn names_stand_at_their_indices() {
    assert_eq!(NAMES.len(), COUNT as usize);
    assert_eq!(NAMES[TOTAL as usize], "total");
    assert_eq!(NAMES[REDIRECTED as usize], "redirected");
    assert_eq!(NAMES[EQ1_DROP as usize], "eq1_drop");
    assert_eq!(NAMES[RANGE_DROP as usize], "range_drop");
    assert_eq!(NAMES[NO_SOCKET as usize], "no_socket");
}

#[test]
fn record_keeps_the_balance() {
    let mut c = Counters::new();
    c.record(outcome(false, None, XDP_PASS));
    c.record(outcome(true, Some(EQ1_DROP), XDP_DROP));
    c.record(outcome(true, Some(RANGE_DROP), XDP_DROP));
    c.record(redirected(Ok(4)));
    c.record(redirected(Ok(4)));
    c.record(redirected(Err(2)));
    assert_eq!(c.values, [5, 2, 1, 1, 1]);
    assert_eq!(c.values[0], c.values[1..].iter().sum::<u64>());
    // a packet to the pshred port that is too short counts in the total only
    c.record(outcome(true, None, XDP_PASS));
    assert_eq!(c.values, [6, 2, 1, 1, 1]);
}

#[test]
fn slots_of_an_outcome() {
    assert_eq!(slots_to_bump(outcome(false, None, XDP_PASS)), [None, None]);
    assert_eq!(slots_to_bump(outcome(true, None, XDP_PASS)), [Some(TOTAL), None]);
    assert_eq!(slots_to_bump(redirected(Ok(4))), [Some(TOTAL), Some(REDIRECTED)]);
    assert_eq!(slots_to_bump(redirected(Err(2))), [Some(TOTAL), Some(NO_SOCKET)]);
}

#[test]
fn bump_passes_over_unknown_slots() {
    let mut c = Counters::new();
    c.bump(COUNT);
    assert_eq!(c, Counters::new());
    c.bump(NO_SOCKET);
    assert_eq!(c.values, [0, 0, 0, 0, 1]);
}

#[test]
fn read_sums_across_cpus() {
    assert_eq!(read(Some(&[3, 0, 39, 700])), 742);
    assert_eq!(read(Some(&[])), 0);
    assert_eq!(read(Some(&[u64::MAX, 0])), u64::MAX);
    assert_eq!(read(None), 0);
    assert!(can_read(None));
    assert!(can_read(Some(&[u64::MAX, 0])));
    assert!(!can_read(Some(&[u64::MAX - 1, 1, 1])));
}

#[test]
fn print_names_every_counter() {
    let c = Counters {
        values: [1234567, 0, 9, 10, u64::MAX],
    };
    assert_eq!(
        print(&c),
        "stats: total=1234567 redirected=0 eq1_drop=9 range_drop=10 no_socket=18446744073709551615"
    );
}

#[test]
fn sums_of_balanced_cpus_balance() {
    let cpus: [[u64; 5]; 3] = [[5, 2, 1, 1, 1], [0, 0, 0, 0, 0], [7, 7, 0, 0, 0]];
    let sums: Vec<u64> = (0..5)
        .map(|i| {
            let column: Vec<u64> = cpus.iter().map(|c| c[i]).collect();
            read(Some(&column))
        })
        .collect();
    assert_eq!(sums, vec![12, 9, 1, 1, 1]);
    assert_eq!(sums[0], sums[1] + sums[2] + sums[3] + sums[4]);
}
