//! The loops of the loader, as steps from what just happened to what to do
//! next.

use vstd::prelude::*;

verus! {

/// Whether the optional run time is over.
pub open spec fn is_over(duration: Option<u64>, run_secs: u64) -> bool {
    duration matches Some(d) && run_secs >= d
}

/// Whether the optional run time is over.
pub fn expired(duration: Option<u64>, run_secs: u64) -> (r: bool)
    ensures
        r == is_over(duration, run_secs),
        duration matches Some(d) ==> (r <==> run_secs >= d),
        duration is None ==> !r,
{
    match duration {
        Some(d) => run_secs >= d,
        None => false,
    }
}

/// A run time of `d` seconds is over from second `d` on and not before, and a run
/// without one is never over.
pub proof fn law_when_a_run_is_over(d: u64, run_secs: u64)
    ensures
        is_over(Some(d), run_secs) <==> run_secs >= d,
        !is_over(None, run_secs),
{
}

/// What the drain loop does next. Each action but the last two is answered by
/// one event.
#[derive(Clone, Copy, Debug, PartialEq, Eq)]
pub enum DrainAction {
    /// Look whether the program is still to run: [`DrainEvent::Running`].
    CheckRunning,
    /// Block on the RX rings: [`DrainEvent::Polled`].
    Poll,
    /// Read every ring once and recycle the frames: [`DrainEvent::Drained`].
    Drain,
    /// Look at the time since the last report: [`DrainEvent::SinceReport`].
    ReadReportClock,
    /// Report, and start the report clock anew: [`DrainEvent::Reported`].
    Report,
    /// Look at the time since the start: [`DrainEvent::SinceStart`].
    ReadRunClock,
    /// Report once more and end.
    Finish,
    /// End with the error of the poll.
    Fail,
}

/// What just happened in the drain loop.
#[derive(Clone, Copy, Debug, PartialEq, Eq)]
pub enum DrainEvent {
    /// Whether the program is still to run.
    Running(bool),
    /// What the poll returned, and, where that is negative, whether a signal
    /// interrupted it.
    Polled { ready: i32, interrupted: bool },
    /// How many packets the pass has read, whether the program is still to run,
    /// and whole seconds since the start.
    Drained { got: usize, running: bool, run_secs: u64 },
    /// Whole seconds since the last report.
    SinceReport(u64),
    /// The report has been made.
    Reported,
    /// Whole seconds since the start.
    SinceStart(u64),
}

/// Which event answers an action. Nothing answers the last two.
pub open spec fn drain_answers(action: DrainAction, event: DrainEvent) -> bool {
    match event {
        DrainEvent::Running(_) => action is CheckRunning,
        DrainEvent::Polled { .. } => action is Poll,
        DrainEvent::Drained { .. } => action is Drain,
        DrainEvent::SinceReport(_) => action is ReadReportClock,
        DrainEvent::Reported => action is Report,
        DrainEvent::SinceStart(_) => action is ReadRunClock,
    }
}

/// When the drain loop takes which action.
pub open spec fn drain_follows(
    event: DrainEvent,
    duration: Option<u64>,
    action: DrainAction,
) -> bool {
    // Poll while the program is to run.
    &&& action is Poll <==> event == DrainEvent::Running(true)
    // Drain when the poll returns, and again until a pass comes up empty or it
    // is time to stop.
    &&& action is Drain <==> {
        ||| event matches DrainEvent::Polled { ready, .. } && ready >= 0
        ||| event matches DrainEvent::Drained { got, running, run_secs } && got > 0 && running
            && !is_over(duration, run_secs)
    }
    &&& action is ReadReportClock <==> {
        event matches DrainEvent::Drained { got, running, run_secs } && (got == 0 || !running
            || is_over(duration, run_secs))
    }
    // Between drains, report where a second has passed since the last report.
    &&& action is Report <==> {
        event matches DrainEvent::SinceReport(secs) && secs >= 1
    }
    &&& action is ReadRunClock <==> {
        ||| event is Reported
        ||| event matches DrainEvent::SinceReport(secs) && secs < 1
    }
    // A poll that a signal interrupted only makes the loop look around.
    &&& action is CheckRunning <==> {
        ||| event matches DrainEvent::Polled { ready, interrupted } && ready < 0 && interrupted
        ||| event matches DrainEvent::SinceStart(secs) && !is_over(duration, secs)
    }
    &&& action is Finish <==> {
        ||| event == DrainEvent::Running(false)
        ||| event matches DrainEvent::SinceStart(secs) && is_over(duration, secs)
    }
    &&& action is Fail <==> {
        event matches DrainEvent::Polled { ready, interrupted } && ready < 0 && !interrupted
    }
}

/// The drain loop: poll, drain the rings until a full pass comes up empty,
/// report where a second has passed since the last report, and end when told to
/// or when the run time is over, however much traffic there is.
pub fn drain_step(event: DrainEvent, duration: Option<u64>) -> (r: DrainAction)
    ensures
        drain_follows(event, duration, r),
        event matches DrainEvent::Running(running) ==> r == if running {
            DrainAction::Poll
        } else {
            DrainAction::Finish
        },
        event matches DrainEvent::Polled { ready, interrupted } ==> {
            &&& ready >= 0 ==> r is Drain
            &&& ready < 0 && interrupted ==> r is CheckRunning
            &&& ready < 0 && !interrupted ==> r is Fail
        },
        event matches DrainEvent::Drained { got, running, run_secs } ==> {
            &&& got == 0 || !running ==> r is ReadReportClock
            &&& got > 0 && running && duration is None ==> r is Drain
            &&& got > 0 && running ==> (duration matches Some(d) ==> {
                &&& run_secs < d ==> r is Drain
                &&& run_secs >= d ==> r is ReadReportClock
            })
        },
        event matches DrainEvent::SinceReport(secs) ==> {
            &&& secs == 0 ==> r is ReadRunClock
            &&& secs >= 1 ==> r is Report
        },
        event is Reported ==> r is ReadRunClock,
        event matches DrainEvent::SinceStart(secs) ==> {
            &&& duration is None ==> r is CheckRunning
            &&& duration matches Some(d) ==> {
                &&& secs < d ==> r is CheckRunning
                &&& secs >= d ==> r is Finish
            }
        },
{
    match event {
        DrainEvent::Running(running) => if running {
            DrainAction::Poll
        } else {
            DrainAction::Finish
        },
        DrainEvent::Polled { ready, interrupted } => if ready >= 0 {
            DrainAction::Drain
        } else if interrupted {
            DrainAction::CheckRunning
        } else {
            DrainAction::Fail
        },
        DrainEvent::Drained { got, running, run_secs } => if got > 0 && running && !expired(
            duration,
            run_secs,
        ) {
            DrainAction::Drain
        } else {
            DrainAction::ReadReportClock
        },
        DrainEvent::SinceReport(secs) => if secs >= 1 {
            DrainAction::Report
        } else {
            DrainAction::ReadRunClock
        },
        DrainEvent::Reported => DrainAction::ReadRunClock,
        DrainEvent::SinceStart(secs) => if expired(duration, secs) {
            DrainAction::Finish
        } else {
            DrainAction::CheckRunning
        },
    }
}

/// What to do about the fill ring after a pass.
#[derive(Clone, Copy, Debug, PartialEq, Eq)]
pub enum RefillAction {
    /// Hand the frames read back to the fill ring: [`RefillEvent::Filled`].
    Fill,
    /// Wake the kernel: [`RefillEvent::Woken`].
    Wake,
    /// Leave the fill ring alone.
    Done,
}

/// What just happened around the fill ring.
#[derive(Clone, Copy, Debug, PartialEq, Eq)]
pub enum RefillEvent {
    /// A pass has read this many frames.
    Read(usize),
    /// The frames are in the ring. Whether the kernel then needs to be woken.
    Filled { needs_wakeup: bool },
    /// The kernel has been woken.
    Woken,
}

/// When the fill ring is touched.
pub open spec fn refill_follows(event: RefillEvent, action: RefillAction) -> bool {
    &&& action is Fill <==> {
        event matches RefillEvent::Read(frames) && frames > 0
    }
    &&& action is Wake <==> event == RefillEvent::Filled { needs_wakeup: true }
}

/// Refill after a pass that has read something, and wake the kernel where it
/// needs that.
pub fn refill_step(event: RefillEvent) -> (r: RefillAction)
    ensures
        refill_follows(event, r),
        event matches RefillEvent::Read(frames) ==> {
            &&& frames == 0 ==> r is Done
            &&& frames > 0 ==> r is Fill
        },
        event matches RefillEvent::Filled { needs_wakeup } ==> {
            &&& needs_wakeup ==> r is Wake
            &&& !needs_wakeup ==> r is Done
        },
        event is Woken ==> r is Done,
{
    match event {
        RefillEvent::Read(frames) => if frames > 0 {
            RefillAction::Fill
        } else {
            RefillAction::Done
        },
        RefillEvent::Filled { needs_wakeup } => if needs_wakeup {
            RefillAction::Wake
        } else {
            RefillAction::Done
        },
        RefillEvent::Woken => RefillAction::Done,
    }
}

/// The ring is filled where frames were read, the kernel is woken where it asks
/// for that after a fill, and otherwise nothing more is done.
pub proof fn law_when_the_ring_is_touched(event: RefillEvent, action: RefillAction)
    requires
        refill_follows(event, action),
    ensures
        event matches RefillEvent::Read(frames) ==> {
            &&& frames == 0 ==> action is Done
            &&& frames > 0 ==> action is Fill
        },
        event matches RefillEvent::Filled { needs_wakeup } ==> {
            &&& needs_wakeup ==> action is Wake
            &&& !needs_wakeup ==> action is Done
        },
        event is Woken ==> action is Done,
{
}

/// The course of a refill: the event that each action followed, and the action.
pub open spec fn is_refill_run(run: Seq<(RefillEvent, RefillAction)>, frames: usize) -> bool {
    &&& run.len() > 0 ==> run[0].0 == RefillEvent::Read(frames)
    &&& forall|k: int| #![trigger run[k]] 0 <= k < run.len() ==> refill_follows(run[k].0, run[k].1)
    &&& forall|k: int|
        #![trigger run[k]]
        0 < k < run.len() ==> match run[k].0 {
            RefillEvent::Read(_) => false,
            RefillEvent::Filled { .. } => run[k - 1].1 is Fill,
            RefillEvent::Woken => run[k - 1].1 is Wake,
        }
}

/// A pass that read nothing leaves the fill ring untouched and the kernel
/// asleep. After any other pass the ring is filled first and once, and the
/// kernel is woken at most once.
pub proof fn law_refill(run: Seq<(RefillEvent, RefillAction)>, frames: usize, k: int)
    requires
        is_refill_run(run, frames),
        0 <= k < run.len(),
    ensures
        frames == 0 ==> run.len() == 1 && run[k].1 is Done,
        run[k].1 is Fill <==> k == 0 && frames > 0,
        run[k].1 is Wake ==> k == 1,
        run.len() <= 3,
{
    let first = run[0];
    assert(refill_follows(first.0, first.1));
    if run.len() > 1 {
        let second = run[1];
        assert(refill_follows(second.0, second.1));
        assert(run[1 - 1].1 is Fill);
        if run.len() > 2 {
            let third = run[2];
            assert(refill_follows(third.0, third.1));
            assert(run[2 - 1].1 is Wake);
            if run.len() > 3 {
                let fourth = run[3];
                assert(refill_follows(fourth.0, fourth.1));
            }
        }
    }
}

/// What the counter-watching loop does next. Each action but the last is
/// answered by one event.
#[derive(Clone, Copy, Debug, PartialEq, Eq)]
pub enum WatchAction {
    /// Look whether the program is still to run: [`WatchEvent::Running`].
    CheckRunning,
    /// Sleep for one second: [`WatchEvent::Slept`].
    Sleep,
    /// Print the counters: [`WatchEvent::Printed`].
    Print,
    /// Look at the time since the start: [`WatchEvent::SinceStart`].
    ReadRunClock,
    /// Print the counters once more and end.
    Finish,
}

/// What just happened in the counter-watching loop.
#[derive(Clone, Copy, Debug, PartialEq, Eq)]
pub enum WatchEvent {
    /// Whether the program is still to run.
    Running(bool),
    /// The second is over.
    Slept,
    /// The counters have been printed.
    Printed,
    /// Whole seconds since the start.
    SinceStart(u64),
}

/// Which event answers an action. Nothing answers the last one.
pub open spec fn watch_answers(action: WatchAction, event: WatchEvent) -> bool {
    match event {
        WatchEvent::Running(_) => action is CheckRunning,
        WatchEvent::Slept => action is Sleep,
        WatchEvent::Printed => action is Print,
        WatchEvent::SinceStart(_) => action is ReadRunClock,
    }
}

/// When the counter-watching loop takes which action.
pub open spec fn watch_follows(
    event: WatchEvent,
    duration: Option<u64>,
    action: WatchAction,
) -> bool {
    &&& action is Sleep <==> event == WatchEvent::Running(true)
    &&& action is Print <==> event is Slept
    &&& action is ReadRunClock <==> event is Printed
    &&& action is CheckRunning <==> {
        event matches WatchEvent::SinceStart(secs) && !is_over(duration, secs)
    }
    &&& action is Finish <==> {
        ||| event == WatchEvent::Running(false)
        ||| event matches WatchEvent::SinceStart(secs) && is_over(duration, secs)
    }
}

/// The counter-watching loop: print once a second, until told to stop or until
/// the run time is over.
pub fn watch_step(event: WatchEvent, duration: Option<u64>) -> (r: WatchAction)
    ensures
        watch_follows(event, duration, r),
        event matches WatchEvent::Running(running) ==> r == if running {
            WatchAction::Sleep
        } else {
            WatchAction::Finish
        },
        event is Slept ==> r is Print,
        event is Printed ==> r is ReadRunClock,
        event matches WatchEvent::SinceStart(secs) ==> {
            &&& duration is None ==> r is CheckRunning
            &&& duration matches Some(d) ==> {
                &&& secs < d ==> r is CheckRunning
                &&& secs >= d ==> r is Finish
            }
        },
{
    match event {
        WatchEvent::Running(running) => if running {
            WatchAction::Sleep
        } else {
            WatchAction::Finish
        },
        WatchEvent::Slept => WatchAction::Print,
        WatchEvent::Printed => WatchAction::ReadRunClock,
        WatchEvent::SinceStart(secs) => if expired(duration, secs) {
            WatchAction::Finish
        } else {
            WatchAction::CheckRunning
        },
    }
}

/// An event leaves the drain loop no choice.
pub proof fn law_drain_loop_is_deterministic(
    event: DrainEvent,
    duration: Option<u64>,
    a: DrainAction,
    b: DrainAction,
)
    requires
        drain_follows(event, duration, a),
        drain_follows(event, duration, b),
    ensures
        a == b,
{
}

/// The drain loop finishes where it is told to, or where the run clock reads the
/// run time or more, and nowhere else: never after a reading below the run time,
/// and never because of a clock where there is no run time.
pub proof fn law_when_the_drain_loop_finishes(
    event: DrainEvent,
    duration: Option<u64>,
    action: DrainAction,
)
    requires
        drain_follows(event, duration, action),
    ensures
        action is Finish ==> {
            ||| event == DrainEvent::Running(false)
            ||| event matches DrainEvent::SinceStart(secs) && duration is Some && secs
                >= duration->0
        },
        event == DrainEvent::Running(false) ==> action is Finish,
        event matches DrainEvent::SinceStart(secs) ==> {
            &&& duration is None ==> action is CheckRunning
            &&& duration matches Some(d) ==> {
                &&& secs < d ==> action is CheckRunning
                &&& secs >= d ==> action is Finish
            }
        },
{
}

/// A pass that has read something is followed by another one while the program is
/// to run and the run clock reads less than the run time; and by none where the
/// clock reads the run time or more.
pub proof fn law_when_the_drain_loop_goes_on(
    got: usize,
    running: bool,
    run_secs: u64,
    duration: Option<u64>,
    action: DrainAction,
)
    requires
        drain_follows(DrainEvent::Drained { got, running, run_secs }, duration, action),
    ensures
        action is Drain || action is ReadReportClock,
        got == 0 || !running ==> action is ReadReportClock,
        got > 0 && running && duration is None ==> action is Drain,
        got > 0 && running ==> (duration matches Some(d) ==> (action is Drain <==> run_secs < d)),
{
}

/// A poll that returned is followed by a pass, an interrupted one by a look
/// whether to run on, and a failed one by the end. Between passes a report is
/// made exactly where a whole second has passed since the last one, and the run
/// clock is read either way.
pub proof fn law_drain_loop_order(event: DrainEvent, duration: Option<u64>, action: DrainAction)
    requires
        drain_follows(event, duration, action),
    ensures
        event == DrainEvent::Running(true) ==> action is Poll,
        event matches DrainEvent::Polled { ready, interrupted } ==> {
            &&& ready >= 0 ==> action is Drain
            &&& ready < 0 && interrupted ==> action is CheckRunning
            &&& ready < 0 && !interrupted ==> action is Fail
        },
        event matches DrainEvent::SinceReport(secs) ==> {
            &&& secs == 0 ==> action is ReadRunClock
            &&& secs > 0 ==> action is Report
        },
        event is Reported ==> action is ReadRunClock,
{
}

/// The event that answers an action is the one of its kind, and no event answers
/// the end of the loop.
pub proof fn law_drain_answers(action: DrainAction, event: DrainEvent)
    ensures
        action is CheckRunning ==> (drain_answers(action, event) <==> event is Running),
        action is Poll ==> (drain_answers(action, event) <==> event is Polled),
        action is Drain ==> (drain_answers(action, event) <==> event is Drained),
        action is ReadReportClock ==> (drain_answers(action, event) <==> event is SinceReport),
        action is Report ==> (drain_answers(action, event) <==> event is Reported),
        action is ReadRunClock ==> (drain_answers(action, event) <==> event is SinceStart),
        action is Finish || action is Fail ==> !drain_answers(action, event),
{
}

/// A course of the drain loop: actions, each with the event that answered it.
pub open spec fn is_drain_run(
    run: Seq<(DrainAction, DrainEvent)>,
    duration: Option<u64>,
) -> bool {
    &&& run.len() > 0 ==> run[0].0 is CheckRunning
    &&& forall|k: int| #![trigger run[k]] 0 <= k < run.len() ==> drain_answers(run[k].0, run[k].1)
    &&& forall|k: int|
        #![trigger run[k]]
        0 < k < run.len() ==> drain_follows(run[k - 1].1, duration, run[k].0)
}

/// The drain loop obeys the stop: once it has seen that the program is not to
/// run, that the run time is over, or that a poll failed, nothing more is done.
pub proof fn law_drain_loop_stops(
    run: Seq<(DrainAction, DrainEvent)>,
    duration: Option<u64>,
    k: int,
)
    requires
        is_drain_run(run, duration),
        0 <= k < run.len(),
        ({
            ||| run[k].1 == DrainEvent::Running(false)
            ||| run[k].1 matches DrainEvent::SinceStart(secs) && is_over(duration, secs)
            ||| run[k].1 matches DrainEvent::Polled { ready, interrupted } && ready < 0
                && !interrupted
        }),
    ensures
        k == run.len() - 1,
{
    if k + 1 < run.len() {
        let after = run[k + 1];
        assert(drain_follows(run[k].1, duration, after.0));
        assert(drain_answers(after.0, after.1));
    }
}

/// The drain loop leaves the rings alone only when a full pass over them came
/// up empty, when the program was told to stop during the pass, or when the run
/// time is over.
pub proof fn law_rings_are_drained(
    run: Seq<(DrainAction, DrainEvent)>,
    duration: Option<u64>,
    k: int,
)
    requires
        is_drain_run(run, duration),
        0 < k < run.len(),
        run[k - 1].0 is Drain,
        run[k].0 !is Drain,
    ensures
        run[k - 1].1 matches DrainEvent::Drained { got, running, run_secs } && (got == 0 || !running
            || is_over(duration, run_secs)),
{
    assert(drain_answers(run[k - 1].0, run[k - 1].1));
    assert(drain_follows(run[k - 1].1, duration, run[k].0));
}

/// The run time that an event tells, if it tells one.
pub open spec fn run_time(event: DrainEvent) -> Option<u64> {
    match event {
        DrainEvent::Drained { run_secs, .. } => Some(run_secs),
        DrainEvent::SinceStart(secs) => Some(secs),
        _ => None,
    }
}

/// The run clock does not run backwards.
pub open spec fn run_clock_is_monotonic(run: Seq<(DrainAction, DrainEvent)>) -> bool {
    forall|i: int, k: int|
        #![trigger run[i], run[k]]
        0 <= i <= k < run.len() && run_time(run[i].1) is Some && run_time(run[k].1) is Some
            ==> run_time(run[i].1)->0 <= run_time(run[k].1)->0
}

/// The run time is kept under any traffic: once a pass has ended with the run
/// time over, no pass and no poll follows. All that is left is a report, if one
/// is due, and the two looks at the clocks before the end.
pub proof fn law_drain_loop_keeps_the_run_time(
    run: Seq<(DrainAction, DrainEvent)>,
    duration: Option<u64>,
    k: int,
)
    requires
        is_drain_run(run, duration),
        run_clock_is_monotonic(run),
        0 <= k < run.len(),
        run[k].1 matches DrainEvent::Drained { run_secs, .. } && is_over(duration, run_secs),
    ensures
        run.len() <= k + 4,
        forall|m: int|
            k < m < run.len() ==> (#[trigger] run[m]).0 is ReadReportClock || run[m].0 is Report
                || run[m].0 is ReadRunClock,
{
    assert forall|m: int| k <= m < run.len() && run[m].0 is ReadRunClock implies m + 1
        == run.len() by {
        let last = run[m];
        assert(drain_answers(last.0, last.1));
        assert(run_time(run[k].1)->0 <= run_time(last.1)->0);
        law_drain_loop_stops(run, duration, m);
    }
    assert(drain_answers(run[k].0, run[k].1));
    if k + 1 < run.len() {
        let a = run[k + 1];
        assert(drain_follows(run[k].1, duration, a.0));
        assert(drain_answers(a.0, a.1));
        if k + 2 < run.len() {
            let b = run[k + 2];
            assert(drain_follows(a.1, duration, b.0));
            assert(drain_answers(b.0, b.1));
            if k + 3 < run.len() {
                let c = run[k + 3];
                assert(drain_follows(b.1, duration, c.0));
                assert(drain_answers(c.0, c.1));
            }
        }
    }
}

/// The drain loop never polls without having seen, just before, that the
/// program is to run.
pub proof fn law_poll_only_while_running(
    run: Seq<(DrainAction, DrainEvent)>,
    duration: Option<u64>,
    k: int,
)
    requires
        is_drain_run(run, duration),
        0 <= k < run.len(),
        run[k].0 is Poll,
    ensures
        k > 0,
        run[k - 1] == (DrainAction::CheckRunning, DrainEvent::Running(true)),
{
    assert(drain_follows(run[k - 1].1, duration, run[k].0));
    assert(drain_answers(run[k - 1].0, run[k - 1].1));
}

/// The event does not tell that the program is to run on.
pub open spec fn tells_no_running(event: DrainEvent) -> bool {
    match event {
        DrainEvent::Running(running) => !running,
        DrainEvent::Drained { running, .. } => !running,
        _ => true,
    }
}

/// The drain loop winds down at once: from where the program is told to stop, at
/// most the poll that was under way still ends, and at most one more pass is
/// made.
pub proof fn law_drain_loop_winds_down(
    run: Seq<(DrainAction, DrainEvent)>,
    duration: Option<u64>,
    k: int,
    m: int,
)
    requires
        is_drain_run(run, duration),
        0 <= k <= m < run.len(),
        forall|i: int| k <= i < run.len() ==> tells_no_running((#[trigger] run[i]).1),
    ensures
        run[m].0 is Poll ==> m == k,
        run[m].0 is Drain ==> m == k || m == k + 1 && run[k].0 is Poll,
{
    if m > k {
        let before = run[m - 1];
        assert(tells_no_running(before.1));
        assert(drain_answers(before.0, before.1));
        assert(drain_follows(before.1, duration, run[m].0));
        if m - 1 > k {
            let earlier = run[m - 2];
            assert(tells_no_running(earlier.1));
            assert(drain_follows(earlier.1, duration, before.0));
        }
    }
}

/// An event leaves the counter-watching loop no choice.
pub proof fn law_watch_loop_is_deterministic(
    event: WatchEvent,
    duration: Option<u64>,
    a: WatchAction,
    b: WatchAction,
)
    requires
        watch_follows(event, duration, a),
        watch_follows(event, duration, b),
    ensures
        a == b,
{
}

/// The counter-watching loop finishes where it is told to, or where the run clock
/// reads the run time or more, and nowhere else: never after a reading below the
/// run time, and never because of a clock where there is no run time.
pub proof fn law_when_the_watch_loop_finishes(
    event: WatchEvent,
    duration: Option<u64>,
    action: WatchAction,
)
    requires
        watch_follows(event, duration, action),
    ensures
        action is Finish ==> {
            ||| event == WatchEvent::Running(false)
            ||| event matches WatchEvent::SinceStart(secs) && duration is Some && secs
                >= duration->0
        },
        event == WatchEvent::Running(false) ==> action is Finish,
        event matches WatchEvent::SinceStart(secs) ==> {
            &&& duration is None ==> action is CheckRunning
            &&& duration matches Some(d) ==> {
                &&& secs < d ==> action is CheckRunning
                &&& secs >= d ==> action is Finish
            }
        },
{
}

/// The event that answers an action is the one of its kind, and no event answers
/// the end of the loop.
pub proof fn law_watch_answers(action: WatchAction, event: WatchEvent)
    ensures
        action is CheckRunning ==> (watch_answers(action, event) <==> event is Running),
        action is Sleep ==> (watch_answers(action, event) <==> event is Slept),
        action is Print ==> (watch_answers(action, event) <==> event is Printed),
        action is ReadRunClock ==> (watch_answers(action, event) <==> event is SinceStart),
        action is Finish ==> !watch_answers(action, event),
{
}

/// A course of the counter-watching loop: actions, each with the event that
/// answered it.
pub open spec fn is_watch_run(
    run: Seq<(WatchAction, WatchEvent)>,
    duration: Option<u64>,
) -> bool {
    &&& run.len() > 0 ==> run[0].0 is CheckRunning
    &&& forall|k: int| #![trigger run[k]] 0 <= k < run.len() ==> watch_answers(run[k].0, run[k].1)
    &&& forall|k: int|
        #![trigger run[k]]
        0 < k < run.len() ==> watch_follows(run[k - 1].1, duration, run[k].0)
}

/// The counter-watching loop obeys the stop: once it has seen that the program
/// is not to run or that the run time is over, nothing more is done.
pub proof fn law_watch_loop_stops(
    run: Seq<(WatchAction, WatchEvent)>,
    duration: Option<u64>,
    k: int,
)
    requires
        is_watch_run(run, duration),
        0 <= k < run.len(),
        ({
            ||| run[k].1 == WatchEvent::Running(false)
            ||| run[k].1 matches WatchEvent::SinceStart(secs) && is_over(duration, secs)
        }),
    ensures
        k == run.len() - 1,
{
    if k + 1 < run.len() {
        let after = run[k + 1];
        assert(watch_follows(run[k].1, duration, after.0));
        assert(watch_answers(after.0, after.1));
    }
}

/// The counter-watching loop goes round: look, sleep, print, look at the clock.
/// So every second that it sleeps is followed by a print, and there is no print
/// without a second before it.
pub proof fn law_watch_prints_every_second(
    run: Seq<(WatchAction, WatchEvent)>,
    duration: Option<u64>,
    k: int,
)
    requires
        is_watch_run(run, duration),
        0 <= k < run.len(),
    ensures
        run[k].0 is CheckRunning <==> k % 4 == 0,
        run[k].0 is Sleep <==> k % 4 == 1,
        run[k].0 is Print <==> k % 4 == 2,
        run[k].0 is ReadRunClock <==> k % 4 == 3,
    decreases k,
{
    assert(watch_answers(run[k].0, run[k].1));
    if k > 0 {
        law_watch_prints_every_second(run, duration, k - 1);
        assert(watch_answers(run[k - 1].0, run[k - 1].1));
        assert(watch_follows(run[k - 1].1, duration, run[k].0));
    }
}

} // verus!
