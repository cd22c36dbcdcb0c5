use pshred_router::afxdp::{
    bind_slots, fill_frames, frame_base, report, slot_of, Drain, Tally, FILL_SIZE, FRAME_SIZE, NUM_FRAMES, RX_BATCH,
    RX_SIZE, UMEM_LEN,
};
use pshred_router::control::{
    drain_step, expired, refill_step, watch_step, DrainAction, DrainEvent, RefillAction,
    RefillEvent, WatchAction, WatchEvent,
};
use pshred_router::window::Window;
use pshred_router::MAX_PROPOSERS;

#[test]
fn ring_sizes() {
    assert_eq!(UMEM_LEN, 64 * 1024 * 1024);
    assert!(FILL_SIZE > RX_SIZE);
    assert!((FILL_SIZE + RX_SIZE) as u64 <= NUM_FRAMES);
    assert_eq!(RX_BATCH, RX_SIZE);
}

#[test]
fn frames_align_down() {
    assert_eq!(frame_base(0), 0);
    assert_eq!(frame_base(4095), 0);
    assert_eq!(frame_base(4096), 4096);
    assert_eq!(frame_base(4096 * 7 + 256), 4096 * 7);
    assert_eq!(frame_base(u64::MAX), u64::MAX - 4095);
}

#[test]
fn fill_ring_is_primed_with_distinct_frames() {
    let frames = fill_frames();
    assert_eq!(frames.len(), FILL_SIZE as usize);
    for (i, addr) in frames.iter().enumerate() {
        assert_eq!(*addr, i as u64 * FRAME_SIZE);
        assert!(addr + FRAME_SIZE <= UMEM_LEN);
        // wherever the packet starts, the primed address goes back
        assert_eq!(frame_base(addr + 300), *addr);
    }
}

#[test]
fn drain_counts_and_recycles() {
    let mut d = Drain::new();
    assert_eq!(d.tallies.len(), MAX_PROPOSERS as usize);
    d.begin_pass();
    assert!(d.can_take(2, 200));
    d.take(2, 4096 * 3 + 256, 200);
    d.take(2, 4096 * 4 + 256, 180);
    d.take(15, 4096 * 9, 64);
    assert_eq!(d.tallies[2], Tally { pkts: 2, bytes: 380 });
    assert_eq!(d.tallies[15], Tally { pkts: 1, bytes: 64 });
    assert_eq!(d.recycle, vec![4096 * 3, 4096 * 4, 4096 * 9]);
    let pkts: u64 = d.tallies.iter().map(|t| t.pkts).sum();
    assert_eq!(pkts, d.recycle.len() as u64);
    d.begin_pass();
    assert!(d.recycle.is_empty());
    assert_eq!(d.tallies[2], Tally { pkts: 2, bytes: 380 });
}

#[test]
fn full_tally_takes_nothing() {
    let mut d = Drain::new();
    d.tallies[0].pkts = u64::MAX;
    assert!(!d.can_take(0, 0));
    d.tallies[1].bytes = u64::MAX - 99;
    assert!(d.can_take(1, 99));
    assert!(!d.can_take(1, 100));
    assert!(!d.can_take(16, 0));
}

#[test]
fn report_leaves_out_idle_proposers() {
    let mut d = Drain::new();
    assert_eq!(report(&d.tallies), "per-proposer: (none yet)");
    d.take(2, 0, 200);
    assert_eq!(report(&d.tallies), "per-proposer: p3=1pkt/200B");
    d.take(15, 0, 1000);
    d.take(15, 0, 24);
    assert_eq!(report(&d.tallies), "per-proposer: p3=1pkt/200B p16=2pkt/1024B");
}

#[test]
fn run_time() {
    assert!(!expired(None, u64::MAX));
    assert!(!expired(Some(5), 4));
    assert!(expired(Some(5), 5));
    assert!(expired(Some(0), 0));
}

#[test]
fn drain_loop_steps() {
    let step = |e| drain_step(e, Some(10));
    assert_eq!(step(DrainEvent::Running(true)), DrainAction::Poll);
    assert_eq!(step(DrainEvent::Running(false)), DrainAction::Finish);
    assert_eq!(step(DrainEvent::Polled { ready: 0, interrupted: false }), DrainAction::Drain);
    assert_eq!(step(DrainEvent::Polled { ready: 3, interrupted: false }), DrainAction::Drain);
    assert_eq!(step(DrainEvent::Polled { ready: -1, interrupted: true }), DrainAction::CheckRunning);
    assert_eq!(step(DrainEvent::Polled { ready: -1, interrupted: false }), DrainAction::Fail);
    let drained = |got, running, run_secs| DrainEvent::Drained {
        got,
        running,
        run_secs,
    };
    assert_eq!(step(drained(1, true, 9)), DrainAction::Drain);
    assert_eq!(step(drained(1, false, 9)), DrainAction::ReadReportClock);
    assert_eq!(step(drained(0, true, 9)), DrainAction::ReadReportClock);
    // the run time is over: no further pass, however much came in
    assert_eq!(step(drained(65536, true, 10)), DrainAction::ReadReportClock);
    assert_eq!(drain_step(drained(1, true, u64::MAX), None), DrainAction::Drain);
    assert_eq!(step(DrainEvent::SinceReport(0)), DrainAction::ReadRunClock);
    assert_eq!(step(DrainEvent::SinceReport(1)), DrainAction::Report);
    assert_eq!(step(DrainEvent::Reported), DrainAction::ReadRunClock);
    assert_eq!(step(DrainEvent::SinceStart(9)), DrainAction::CheckRunning);
    assert_eq!(step(DrainEvent::SinceStart(10)), DrainAction::Finish);
    assert_eq!(drain_step(DrainEvent::SinceStart(10), None), DrainAction::CheckRunning);
}

#[test]
fn flood_does_not_outlast_the_run_time() {
    // one pass a second, each with packets
    let mut clock = 0;
    let mut passes = 0;
    let mut action = DrainAction::CheckRunning;
    while action != DrainAction::Finish {
        let event = match action {
            DrainAction::CheckRunning => DrainEvent::Running(true),
            DrainAction::Poll => DrainEvent::Polled { ready: 1, interrupted: false },
            DrainAction::Drain => {
                clock += 1;
                passes += 1;
                DrainEvent::Drained { got: 4096, running: true, run_secs: clock }
            }
            DrainAction::ReadReportClock => DrainEvent::SinceReport(1),
            DrainAction::Report => DrainEvent::Reported,
            DrainAction::ReadRunClock => DrainEvent::SinceStart(clock),
            DrainAction::Finish | DrainAction::Fail => unreachable!(),
        };
        action = drain_step(event, Some(7));
    }
    assert_eq!(passes, 7);
}

#[test]
fn drain_loop_winds_down_when_told_to_stop() {
    // told to stop while a poll is under way
    let mut action = DrainAction::Poll;
    let mut course = vec![action];
    while action != DrainAction::Finish {
        let event = match action {
            DrainAction::CheckRunning => DrainEvent::Running(false),
            DrainAction::Poll => DrainEvent::Polled { ready: 1, interrupted: false },
            DrainAction::Drain => DrainEvent::Drained { got: 9, running: false, run_secs: 0 },
            DrainAction::ReadReportClock => DrainEvent::SinceReport(0),
            DrainAction::Report => DrainEvent::Reported,
            DrainAction::ReadRunClock => DrainEvent::SinceStart(0),
            DrainAction::Finish | DrainAction::Fail => unreachable!(),
        };
        action = drain_step(event, None);
        course.push(action);
    }
    assert_eq!(
        course,
        vec![
            DrainAction::Poll,
            DrainAction::Drain,
            DrainAction::ReadReportClock,
            DrainAction::ReadRunClock,
            DrainAction::CheckRunning,
            DrainAction::Finish,
        ]
    );
}

#[test]
fn watch_loop_goes_round() {
    let mut action = WatchAction::CheckRunning;
    let mut clock = 0;
    let mut course = Vec::new();
    while action != WatchAction::Finish {
        course.push(action);
        let event = match action {
            WatchAction::CheckRunning => WatchEvent::Running(true),
            WatchAction::Sleep => {
                clock += 1;
                WatchEvent::Slept
            }
            WatchAction::Print => WatchEvent::Printed,
            WatchAction::ReadRunClock => WatchEvent::SinceStart(clock),
            WatchAction::Finish => unreachable!(),
        };
        action = watch_step(event, Some(3));
    }
    assert_eq!(course.len(), 12);
    for (k, action) in course.iter().enumerate() {
        assert_eq!(*action == WatchAction::Sleep, k % 4 == 1);
        assert_eq!(*action == WatchAction::Print, k % 4 == 2);
    }
}

#[test]
fn refill_only_after_frames_were_read() {
    assert_eq!(refill_step(RefillEvent::Read(0)), RefillAction::Done);
    assert_eq!(refill_step(RefillEvent::Read(3)), RefillAction::Fill);
    assert_eq!(refill_step(RefillEvent::Filled { needs_wakeup: true }), RefillAction::Wake);
    assert_eq!(refill_step(RefillEvent::Filled { needs_wakeup: false }), RefillAction::Done);
    assert_eq!(refill_step(RefillEvent::Woken), RefillAction::Done);
}

#[test]
fn rings_are_bound_to_their_proposers() {
    let slots: Vec<u32> = (0..MAX_PROPOSERS as usize).map(slot_of).collect();
    assert_eq!(slots, (1..=16).collect::<Vec<u32>>());
    assert_eq!(bind_slots(), slots);
}

#[test]
fn passes_do_not_reset_the_tallies() {
    let mut d = Drain::new();
    for pass in 0..3u64 {
        d.begin_pass();
        d.take(0, pass * FRAME_SIZE + 17, 100);
        d.take(4, pass * FRAME_SIZE, 7);
        assert_eq!(d.recycle, vec![pass * FRAME_SIZE, pass * FRAME_SIZE]);
    }
    assert_eq!(d.tallies[0], Tally { pkts: 3, bytes: 300 });
    assert_eq!(d.tallies[4], Tally { pkts: 3, bytes: 21 });
    assert_eq!(d.tallies[1], Tally { pkts: 0, bytes: 0 });
}

#[test]
fn watch_loop_steps() {
    let step = |e| watch_step(e, Some(2));
    assert_eq!(step(WatchEvent::Running(true)), WatchAction::Sleep);
    assert_eq!(step(WatchEvent::Running(false)), WatchAction::Finish);
    assert_eq!(step(WatchEvent::Slept), WatchAction::Print);
    assert_eq!(step(WatchEvent::Printed), WatchAction::ReadRunClock);
    assert_eq!(step(WatchEvent::SinceStart(1)), WatchAction::CheckRunning);
    assert_eq!(step(WatchEvent::SinceStart(2)), WatchAction::Finish);
    assert_eq!(watch_step(WatchEvent::SinceStart(2), None), WatchAction::CheckRunning);
}

#[test]
fn window_restarts_but_total_goes_on() {
    let mut w = Window::new();
    assert!(w.can_receive(200));
    w.receive(200);
    w.receive(100);
    assert_eq!(w, Window { count: 2, bytes: 300, total: 2 });
    w.restart();
    w.receive(7);
    assert_eq!(w, Window { count: 1, bytes: 7, total: 3 });
    assert!(!w.can_receive(u64::MAX - 6));
}
