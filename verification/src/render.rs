use vstd::prelude::*;
use crate::alarm::{AlarmTime, active_spec, clear_spec, dismissed_at, is_active, clear_stale,
    dismiss};
use crate::grid::{Rect, grid_rect_matches, compute_grid};
use crate::time::{TimeOfDay, ZoneTime, time_text, date_text, format_time, format_date};
use crate::timesource::Clock;

verus! {

/// One drawable unit: a clock's cell, its label, its time and date lines, and
/// the shared highlight flag.
pub struct RenderUnit {
    pub area: Rect,
    pub label: String,
    pub time_text: String,
    pub date_text: String,
    pub highlight: bool,
}

/// The abstract input signal one tick consumes.
#[derive(Clone, Copy, PartialEq, Eq, Structural, Debug)]
pub enum InputSignal {
    Quit,
    Dismiss,
    Idle,
}

/// The render cycle runs until a quit signal arrives.
#[derive(Clone, Copy, PartialEq, Eq, Structural, Debug)]
pub enum Phase {
    Running,
    Terminated,
}

/// Mutable state of the render cycle: its phase, and at most one outstanding
/// dismissal.
#[derive(Clone, Copy, PartialEq, Eq, Structural, Debug)]
pub struct CycleState {
    pub phase: Phase,
    pub dismissed: Option<AlarmTime>,
}

impl CycleState {
    /// The initial state: running, with no dismissal outstanding.
    pub fn new() -> (r: CycleState)
        ensures
            r.phase == Phase::Running,
            r.dismissed is None,
    {
        CycleState { phase: Phase::Running, dismissed: None }
    }
}

/// What the render unit of clock `i` holds, given the one shared highlight
/// flag.
pub open spec fn unit_matches(
    u: RenderUnit,
    i: int,
    n: nat,
    clocks: Seq<Clock>,
    zts: Seq<ZoneTime>,
    active: bool,
    canvas: Rect,
) -> bool {
    &&& u.label@ == clocks[i].name@
    &&& u.time_text@ == time_text(zts[i].time)
    &&& u.date_text@ == date_text(zts[i].date)
    &&& u.highlight == active
    &&& grid_rect_matches(u.area, i, n, canvas)
}

/// One tick of the render cycle, once the times are sampled: clear a stale
/// dismissal, evaluate the alarms against the local time, and lay every clock
/// out on the canvas. Every unit carries the one global active flag as its
/// highlight — a match highlights all displayed clocks, not only a clock whose
/// own zone time matches.
pub fn tick(
    state: &mut CycleState,
    clocks: &Vec<Clock>,
    alarms: &Vec<AlarmTime>,
    local: TimeOfDay,
    zone_times: &Vec<ZoneTime>,
    canvas: Rect,
) -> (r: (Vec<RenderUnit>, bool))
    requires
        canvas.wf(),
        zone_times@.len() == clocks@.len(),
        forall|i: int| 0 <= i < zone_times@.len() ==> (#[trigger] zone_times@[i]).wf(),
    ensures
        final(state).phase == old(state).phase,
        final(state).dismissed == clear_spec(old(state).dismissed, local),
        r.1 == active_spec(local, alarms@, final(state).dismissed),
        r.0@.len() == clocks@.len(),
        forall|i: int|
            0 <= i < clocks@.len() ==> unit_matches(
                #[trigger] r.0@[i],
                i,
                clocks@.len() as nat,
                clocks@,
                zone_times@,
                r.1,
                canvas,
            ),
{
    let d0 = state.dismissed;
    state.dismissed = clear_stale(&d0, &local);
    let d1 = state.dismissed;
    let active = is_active(&local, alarms, &d1);
    let areas = compute_grid(clocks.len(), canvas);
    let mut units: Vec<RenderUnit> = Vec::new();
    let mut k: usize = 0;
    while k < clocks.len()
        invariant
            0 <= k <= clocks@.len(),
            zone_times@.len() == clocks@.len(),
            forall|i: int| 0 <= i < zone_times@.len() ==> (#[trigger] zone_times@[i]).wf(),
            areas@.len() == clocks@.len(),
            forall|i: int|
                0 <= i < clocks@.len() ==> grid_rect_matches(
                    #[trigger] areas@[i],
                    i,
                    clocks@.len() as nat,
                    canvas,
                ),
            canvas.wf(),
            units@.len() == k,
            forall|i: int|
                0 <= i < k ==> unit_matches(
                    #[trigger] units@[i],
                    i,
                    clocks@.len() as nat,
                    clocks@,
                    zone_times@,
                    active,
                    canvas,
                ),
        decreases clocks@.len() - k,
    {
        let zt = &zone_times[k];
        let u = RenderUnit {
            area: areas[k],
            label: clocks[k].name.clone(),
            time_text: format_time(&zt.time),
            date_text: format_date(&zt.date),
            highlight: active,
        };
        units.push(u);
        k = k + 1;
    }
    (units, active)
}

/// The next cycle state after one polled input: a quit signal terminates; a
/// dismiss signal while the alarm is active records the current minute as
/// dismissed; anything else changes nothing.
pub open spec fn input_spec(
    s: CycleState,
    sig: InputSignal,
    active: bool,
    local: TimeOfDay,
) -> CycleState {
    match sig {
        InputSignal::Quit => CycleState { phase: Phase::Terminated, dismissed: s.dismissed },
        InputSignal::Dismiss => if active {
            CycleState { phase: s.phase, dismissed: Some(dismissed_at(local)) }
        } else {
            s
        },
        InputSignal::Idle => s,
    }
}

pub fn handle_input(state: &mut CycleState, sig: InputSignal, active: bool, local: TimeOfDay)
    ensures
        *final(state) == input_spec(*old(state), sig, active, local),
{
    match sig {
        InputSignal::Quit => {
            state.phase = Phase::Terminated;
        },
        InputSignal::Dismiss => {
            if active {
                state.dismissed = Some(dismiss(&local));
            }
        },
        InputSignal::Idle => {},
    }
}

} // verus!
