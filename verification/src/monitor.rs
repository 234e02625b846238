//! The monitoring service: it finds the process to watch, then captures its
//! memory map a given number of times, waiting between captures. The
//! decisions form a state machine; the caller performs each action (run the
//! capture program, wait) and reports back the event.

use vstd::prelude::*;

verus! {

/// Where the service stands.
#[derive(PartialEq, Eq, Structural, Clone, Copy, Debug)]
pub enum MonitorState {
    /// Not started; `max_runs` captures are planned.
    Idle { max_runs: u32 },
    /// Capture number `run` (counted from 1) of process `pid` is running.
    Capturing { run: u32, max_runs: u32, pid: u32 },
    /// Waiting after capture number `run` of process `pid`, before the next one.
    Waiting { run: u32, max_runs: u32, pid: u32 },
    /// All planned captures are done.
    Finished { max_runs: u32 },
}

/// What the caller reports back.
#[derive(PartialEq, Eq, Structural, Clone, Copy, Debug)]
pub enum MonitorEvent {
    /// The service starts, having found the process `pid` to watch, or none.
    Start { pid: Option<u32> },
    /// The capture program finished, successfully or not.
    CaptureDone { success: bool },
    /// The wait between two captures is over.
    WaitDone,
}

/// What the caller is to do next.
#[derive(PartialEq, Eq, Structural, Clone, Copy, Debug)]
pub enum MonitorAction {
    /// Announce capture `run` of `max_runs` and run the capture program on
    /// process `pid`.
    Capture { run: u32, max_runs: u32, pid: u32 },
    /// Report the end of a capture (and its failure, if `failed`), then wait
    /// before the next one.
    ReportAndWait { failed: bool },
    /// Report the end of the last capture (and its failure, if `failed`),
    /// then report that `runs` captures are done and stop.
    ReportAndFinish { failed: bool, runs: u32 },
    /// Report that `runs` captures are done and stop.
    Finish { runs: u32 },
    /// Report that the process to watch is not running and stop, capturing
    /// nothing.
    TargetMissing,
    /// The event does not fit the state: nothing to do.
    Ignore,
}

impl MonitorState {
    /// The run counter lies in the planned range.
    pub open spec fn wf(self) -> bool {
        match self {
            MonitorState::Idle { .. } => true,
            MonitorState::Capturing { run, max_runs, .. } => 1 <= run <= max_runs,
            MonitorState::Waiting { run, max_runs, .. } => 1 <= run < max_runs,
            MonitorState::Finished { .. } => true,
        }
    }

    /// The number of steps left before the service finishes.
    pub open spec fn remaining(self) -> int {
        match self {
            MonitorState::Idle { max_runs } => 2 * max_runs + 1,
            MonitorState::Capturing { run, max_runs, .. } => 2 * (max_runs - run) + 1,
            MonitorState::Waiting { run, max_runs, .. } => 2 * (max_runs - run),
            MonitorState::Finished { .. } => 0,
        }
    }

    /// The state of a service that plans `max_runs` captures and has not started.
    pub fn new(max_runs: u32) -> (s: Self)
        ensures
            s == (MonitorState::Idle { max_runs }),
            s.wf(),
    {
        MonitorState::Idle { max_runs }
    }
}

/// Whether a report action says that the capture failed; `None` for an
/// action that reports no capture.
pub open spec fn reported_failure(action: MonitorAction) -> Option<bool> {
    match action {
        MonitorAction::ReportAndWait { failed } => Some(failed),
        MonitorAction::ReportAndFinish { failed, .. } => Some(failed),
        _ => None,
    }
}

/// The next state and action after `event` in `state`.
pub open spec fn step_spec(state: MonitorState, event: MonitorEvent) -> (MonitorState, MonitorAction) {
    match (state, event) {
        (MonitorState::Idle { max_runs }, MonitorEvent::Start { pid }) => {
            match pid {
                None => (MonitorState::Finished { max_runs }, MonitorAction::TargetMissing),
                Some(pid) => {
                    if max_runs >= 1 {
                        (
                            MonitorState::Capturing { run: 1, max_runs, pid },
                            MonitorAction::Capture { run: 1, max_runs, pid },
                        )
                    } else {
                        (MonitorState::Finished { max_runs }, MonitorAction::Finish { runs: max_runs })
                    }
                },
            }
        },
        (MonitorState::Capturing { run, max_runs, pid }, MonitorEvent::CaptureDone { success }) => {
            if run < max_runs {
                (MonitorState::Waiting { run, max_runs, pid }, MonitorAction::ReportAndWait { failed: !success })
            } else {
                (
                    MonitorState::Finished { max_runs },
                    MonitorAction::ReportAndFinish { failed: !success, runs: max_runs },
                )
            }
        },
        (MonitorState::Waiting { run, max_runs, pid }, MonitorEvent::WaitDone) => {
            (
                MonitorState::Capturing { run: (run + 1) as u32, max_runs, pid },
                MonitorAction::Capture { run: (run + 1) as u32, max_runs, pid },
            )
        },
        _ => (state, MonitorAction::Ignore),
    }
}

/// One decision of the service: the next state and the action to perform
/// after `event` in `state`. Every step keeps the state well formed, and
/// every step that does something brings the service closer to its end.
pub fn monitor_step(state: MonitorState, event: MonitorEvent) -> (r: (MonitorState, MonitorAction))
    requires
        state.wf(),
    ensures
        r == step_spec(state, event),
        r.0.wf(),
        r.1 != MonitorAction::Ignore ==> 0 <= r.0.remaining() < state.remaining(),
        r.1 == MonitorAction::Ignore ==> r.0 == state,
        state is Capturing ==> (event matches MonitorEvent::CaptureDone { success } ==> reported_failure(r.1)
            == Some(!success)),
        state is Finished ==> r == (state, MonitorAction::Ignore),
        (state is Idle && !(event is Start)) ==> r == (state, MonitorAction::Ignore),
        (state is Capturing && !(event is CaptureDone)) ==> r == (state, MonitorAction::Ignore),
        (state is Waiting && !(event is WaitDone)) ==> r == (state, MonitorAction::Ignore),
{
    match (state, event) {
        (MonitorState::Idle { max_runs }, MonitorEvent::Start { pid }) => {
            match pid {
                None => (MonitorState::Finished { max_runs }, MonitorAction::TargetMissing),
                Some(pid) => {
                    if max_runs >= 1 {
                        (
                            MonitorState::Capturing { run: 1, max_runs, pid },
                            MonitorAction::Capture { run: 1, max_runs, pid },
                        )
                    } else {
                        (MonitorState::Finished { max_runs }, MonitorAction::Finish { runs: max_runs })
                    }
                },
            }
        },
        (MonitorState::Capturing { run, max_runs, pid }, MonitorEvent::CaptureDone { success }) => {
            if run < max_runs {
                (MonitorState::Waiting { run, max_runs, pid }, MonitorAction::ReportAndWait { failed: !success })
            } else {
                (
                    MonitorState::Finished { max_runs },
                    MonitorAction::ReportAndFinish { failed: !success, runs: max_runs },
                )
            }
        },
        (MonitorState::Waiting { run, max_runs, pid }, MonitorEvent::WaitDone) => {
            (
                MonitorState::Capturing { run: run + 1, max_runs, pid },
                MonitorAction::Capture { run: run + 1, max_runs, pid },
            )
        },
        _ => (state, MonitorAction::Ignore),
    }
}

/// The event that answers the action a state waits on: at the start the
/// lookup finds `target`; the capture in run `run` succeeds when
/// `outcome(run)` holds.
pub open spec fn expected_event(state: MonitorState, target: Option<u32>, outcome: spec_fn(u32) -> bool) -> MonitorEvent {
    match state {
        MonitorState::Idle { .. } => MonitorEvent::Start { pid: target },
        MonitorState::Capturing { run, .. } => MonitorEvent::CaptureDone { success: outcome(run) },
        _ => MonitorEvent::WaitDone,
    }
}

/// The actions of a service driven from `state` to its end, each action
/// answered by the event it waits for.
pub open spec fn drive(state: MonitorState, target: Option<u32>, outcome: spec_fn(u32) -> bool) -> Seq<MonitorAction>
    decreases state.remaining(),
{
    if !state.wf() || state is Finished || state.remaining() <= 0 {
        Seq::empty()
    } else {
        let (next, action) = step_spec(state, expected_event(state, target, outcome));
        if next.remaining() < state.remaining() {
            seq![action] + drive(next, target, outcome)
        } else {
            seq![action]
        }
    }
}

/// The run numbers and process ids of the captures among `actions`, in order.
pub open spec fn captured_runs(actions: Seq<MonitorAction>) -> Seq<(u32, u32)>
    decreases actions.len(),
{
    if actions.len() == 0 {
        Seq::empty()
    } else {
        let rest = captured_runs(actions.drop_first());
        match actions[0] {
            MonitorAction::Capture { run, pid, .. } => seq![(run, pid)] + rest,
            _ => rest,
        }
    }
}

/// The number of waits among `actions`.
pub open spec fn wait_count(actions: Seq<MonitorAction>) -> int
    decreases actions.len(),
{
    if actions.len() == 0 {
        0
    } else {
        wait_count(actions.drop_first()) + (if actions[0] is ReportAndWait {
            1int
        } else {
            0int
        })
    }
}

proof fn lemma_drive_from_capture(run: u32, max_runs: u32, pid: u32, target: Option<u32>, outcome: spec_fn(u32) -> bool)
    requires
        1 <= run <= max_runs,
    ensures
        captured_runs(drive(MonitorState::Capturing { run, max_runs, pid }, target, outcome))
            == Seq::new((max_runs - run) as nat, |k: int| ((run + 1 + k) as u32, pid)),
        wait_count(drive(MonitorState::Capturing { run, max_runs, pid }, target, outcome)) == max_runs - run,
        drive(MonitorState::Capturing { run, max_runs, pid }, target, outcome).last() == (
        MonitorAction::ReportAndFinish { failed: !outcome(max_runs), runs: max_runs }),
        drive(MonitorState::Capturing { run, max_runs, pid }, target, outcome).len() > 0,
    decreases max_runs - run,
{
    let s = MonitorState::Capturing { run, max_runs, pid };
    let d = drive(s, target, outcome);
    if run < max_runs {
        let w = MonitorState::Waiting { run, max_runs, pid };
        let c = MonitorState::Capturing { run: (run + 1) as u32, max_runs, pid };
        lemma_drive_from_capture((run + 1) as u32, max_runs, pid, target, outcome);
        let dc = drive(c, target, outcome);
        let dw = drive(w, target, outcome);
        assert(dw == seq![MonitorAction::Capture { run: (run + 1) as u32, max_runs, pid }] + dc);
        assert(d == seq![MonitorAction::ReportAndWait { failed: !outcome(run) }] + dw);
        assert(d.drop_first() =~= dw);
        assert(dw.drop_first() =~= dc);
        assert(captured_runs(d) == captured_runs(dw));
        assert(captured_runs(dw) == seq![((run + 1) as u32, pid)] + captured_runs(dc));
        assert(wait_count(d) == wait_count(dw) + 1);
        assert(wait_count(dw) == wait_count(dc));
        assert(captured_runs(d) =~= Seq::new((max_runs - run) as nat, |k: int| ((run + 1 + k) as u32, pid)));
    } else {
        let f = MonitorState::Finished { max_runs };
        assert(drive(f, target, outcome) == Seq::<MonitorAction>::empty());
        assert(d =~= seq![MonitorAction::ReportAndFinish { failed: !outcome(max_runs), runs: max_runs }]);
        assert(d.drop_first() =~= Seq::<MonitorAction>::empty());
        assert(captured_runs(Seq::<MonitorAction>::empty()) == Seq::<(u32, u32)>::empty());
        assert(wait_count(Seq::<MonitorAction>::empty()) == 0);
        assert(captured_runs(d) == captured_runs(d.drop_first()));
        assert(wait_count(d) == wait_count(d.drop_first()));
        assert(captured_runs(d) =~= Seq::<(u32, u32)>::empty());
    }
}

/// The report that ends capture `run` of a service planning `max_runs`
/// captures: it says the capture failed exactly when `outcome(run)` does not
/// hold, and it waits before the next capture unless `run` is the last.
pub open spec fn report_after(run: u32, max_runs: u32, outcome: spec_fn(u32) -> bool) -> MonitorAction {
    if run < max_runs {
        MonitorAction::ReportAndWait { failed: !outcome(run) }
    } else {
        MonitorAction::ReportAndFinish { failed: !outcome(run), runs: max_runs }
    }
}

proof fn lemma_trace_from_capture(run: u32, max_runs: u32, pid: u32, target: Option<u32>, outcome: spec_fn(u32) -> bool)
    requires
        1 <= run <= max_runs,
    ensures
        drive(MonitorState::Capturing { run, max_runs, pid }, target, outcome) == Seq::new(
            (2 * (max_runs - run) + 1) as nat,
            |i: int|
                if i % 2 == 0 {
                    report_after((run + i / 2) as u32, max_runs, outcome)
                } else {
                    MonitorAction::Capture { run: (run + i / 2 + 1) as u32, max_runs, pid }
                },
        ),
    decreases max_runs - run,
{
    let d = drive(MonitorState::Capturing { run, max_runs, pid }, target, outcome);
    let expected = Seq::new(
        (2 * (max_runs - run) + 1) as nat,
        |i: int|
            if i % 2 == 0 {
                report_after((run + i / 2) as u32, max_runs, outcome)
            } else {
                MonitorAction::Capture { run: (run + i / 2 + 1) as u32, max_runs, pid }
            },
    );
    if run < max_runs {
        let w = MonitorState::Waiting { run, max_runs, pid };
        let c = MonitorState::Capturing { run: (run + 1) as u32, max_runs, pid };
        lemma_trace_from_capture((run + 1) as u32, max_runs, pid, target, outcome);
        let dc = drive(c, target, outcome);
        let dw = drive(w, target, outcome);
        assert(dw == seq![MonitorAction::Capture { run: (run + 1) as u32, max_runs, pid }] + dc);
        assert(d == seq![MonitorAction::ReportAndWait { failed: !outcome(run) }] + dw);
        assert forall|i: int| 0 <= i < expected.len() implies #[trigger] d[i] == expected[i] by {
            if i >= 2 {
                assert(d[i] == dc[i - 2]);
                assert((i - 2) % 2 == i % 2);
                assert((run + 1) + (i - 2) / 2 == run + i / 2);
            }
        }
        assert(d =~= expected);
    } else {
        let f = MonitorState::Finished { max_runs };
        assert(drive(f, target, outcome) == Seq::<MonitorAction>::empty());
        assert(d =~= seq![MonitorAction::ReportAndFinish { failed: !outcome(max_runs), runs: max_runs }]);
        assert(d =~= expected);
    }
}

/// The whole run of a service that plans `max_runs` (at least one)
/// captures of process `pid`, answered event by event: capture 1, its
/// report, capture 2, its report, and so on; the report after capture `k`
/// says the capture failed exactly when `outcome(k)` does not hold, waits
/// before the next capture for every capture but the last, and after the
/// last reports `max_runs` captures.
pub proof fn lemma_service_trace(max_runs: u32, pid: u32, outcome: spec_fn(u32) -> bool)
    requires
        max_runs >= 1,
    ensures
        drive(MonitorState::Idle { max_runs }, Some(pid), outcome) == Seq::new(
            (2 * max_runs) as nat,
            |i: int|
                if i % 2 == 0 {
                    MonitorAction::Capture { run: (i / 2 + 1) as u32, max_runs, pid }
                } else {
                    report_after((i / 2 + 1) as u32, max_runs, outcome)
                },
        ),
        forall|k: int|
            0 <= k < max_runs ==> reported_failure(
                #[trigger] drive(MonitorState::Idle { max_runs }, Some(pid), outcome)[2 * k + 1],
            ) == Some(!outcome((k + 1) as u32)),
{
    let d = drive(MonitorState::Idle { max_runs }, Some(pid), outcome);
    let expected = Seq::new(
        (2 * max_runs) as nat,
        |i: int|
            if i % 2 == 0 {
                MonitorAction::Capture { run: (i / 2 + 1) as u32, max_runs, pid }
            } else {
                report_after((i / 2 + 1) as u32, max_runs, outcome)
            },
    );
    let c = MonitorState::Capturing { run: 1, max_runs, pid };
    lemma_trace_from_capture(1, max_runs, pid, Some(pid), outcome);
    let dc = drive(c, Some(pid), outcome);
    assert(d == seq![MonitorAction::Capture { run: 1, max_runs, pid }] + dc);
    assert forall|i: int| 0 <= i < expected.len() implies #[trigger] d[i] == expected[i] by {
        if i >= 1 {
            assert(d[i] == dc[i - 1]);
            if i % 2 == 1 {
                assert((i - 1) % 2 == 0);
                assert(1 + (i - 1) / 2 == i / 2 + 1);
            } else {
                assert((i - 1) % 2 == 1);
                assert(1 + (i - 1) / 2 + 1 == i / 2 + 1);
            }
        }
    }
    assert(d =~= expected);
    assert forall|k: int| 0 <= k < max_runs implies reported_failure(#[trigger] d[2 * k + 1]) == Some(
        !outcome((k + 1) as u32),
    ) by {
        assert(d[2 * k + 1] == expected[2 * k + 1]);
        assert((2 * k + 1) % 2 == 1);
        assert((2 * k + 1) / 2 == k);
    }
}

/// A service that plans `max_runs` captures and finds process `pid` to
/// watch, answered event by event, captures exactly runs
/// `1, 2, ..., max_runs` of `pid` in that order, waits between two captures
/// (`max_runs - 1` times) and ends by reporting `max_runs` captures,
/// whatever the captures' outcomes.
pub proof fn lemma_service_captures_each_run_once(max_runs: u32, pid: u32, outcome: spec_fn(u32) -> bool)
    ensures
        captured_runs(drive(MonitorState::Idle { max_runs }, Some(pid), outcome))
            == Seq::new(max_runs as nat, |k: int| ((k + 1) as u32, pid)),
        max_runs >= 1 ==> wait_count(drive(MonitorState::Idle { max_runs }, Some(pid), outcome)) == max_runs - 1,
        max_runs >= 1 ==> drive(MonitorState::Idle { max_runs }, Some(pid), outcome).last() == (
        MonitorAction::ReportAndFinish { failed: !outcome(max_runs), runs: max_runs }),
        max_runs == 0 ==> drive(MonitorState::Idle { max_runs }, Some(pid), outcome) == seq![
            MonitorAction::Finish { runs: 0 },
        ],
{
    let s = MonitorState::Idle { max_runs };
    let d = drive(s, Some(pid), outcome);
    if max_runs >= 1 {
        let c = MonitorState::Capturing { run: 1, max_runs, pid };
        lemma_drive_from_capture(1, max_runs, pid, Some(pid), outcome);
        let dc = drive(c, Some(pid), outcome);
        assert(d == seq![MonitorAction::Capture { run: 1, max_runs, pid }] + dc);
        assert(d.drop_first() =~= dc);
        assert(captured_runs(d) == seq![(1u32, pid)] + captured_runs(dc));
        assert(wait_count(d) == wait_count(dc));
        assert(d.last() == dc.last());
        assert(captured_runs(d) =~= Seq::new(max_runs as nat, |k: int| ((k + 1) as u32, pid)));
    } else {
        let f = MonitorState::Finished { max_runs };
        assert(drive(f, Some(pid), outcome) == Seq::<MonitorAction>::empty());
        assert(d =~= seq![MonitorAction::Finish { runs: 0 }]);
        assert(d.drop_first() =~= Seq::<MonitorAction>::empty());
        assert(captured_runs(Seq::<MonitorAction>::empty()) == Seq::<(u32, u32)>::empty());
        assert(captured_runs(d) == captured_runs(d.drop_first()));
        assert(captured_runs(d) =~= Seq::<(u32, u32)>::empty());
    }
}

/// A service that does not find the process to watch reports that and
/// stops without capturing anything.
pub proof fn lemma_missing_target_captures_nothing(max_runs: u32, outcome: spec_fn(u32) -> bool)
    ensures
        drive(MonitorState::Idle { max_runs }, None, outcome) == seq![MonitorAction::TargetMissing],
        captured_runs(drive(MonitorState::Idle { max_runs }, None, outcome)) == Seq::<(u32, u32)>::empty(),
{
    let d = drive(MonitorState::Idle { max_runs }, None, outcome);
    assert(drive(MonitorState::Finished { max_runs }, None, outcome) == Seq::<MonitorAction>::empty());
    assert(d =~= seq![MonitorAction::TargetMissing]);
    assert(d.drop_first() =~= Seq::<MonitorAction>::empty());
    assert(captured_runs(Seq::<MonitorAction>::empty()) == Seq::<(u32, u32)>::empty());
    assert(captured_runs(d) == captured_runs(d.drop_first()));
}

} // verus!
