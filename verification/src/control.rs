//! The display decisions of the message loop: what a fresh device scan, a
//! debounce timer or the Enabled toggle do to the border, with a short
//! off-debounce so a brief stop/start does not flicker the border off.

use vstd::prelude::*;
use crate::policy::{
    should_cancel_pending_off, should_commit_pending_off_timer, should_defer_off_transition,
    should_start_debounce,
};

verus! {

/// Length of the off-debounce, in milliseconds.
pub const DEBOUNCE_DURATION_MS: u32 = 150;

/// What the border shows and whether an off-transition waits.
#[derive(Clone, Copy, Debug, PartialEq, Eq)]
pub struct DisplayState {
    /// The user has the indicator enabled.
    pub enabled: bool,
    /// An active-to-idle transition waits for the debounce timer.
    pub pending_off: bool,
    /// Last visible (camera, microphone) the overlay was asked to paint.
    pub last_visible: (bool, bool),
}

/// What applying a device state asks of the caller.
#[derive(Clone, Copy, Debug, PartialEq, Eq, Structural)]
pub enum ApplyOutcome {
    /// Disabled: hide the overlay, show the idle tray icon, and stop the
    /// debounce timer when `kill_timer`.
    Disabled { kill_timer: bool },
    /// The off-transition waits for the debounce timer; nothing is painted.
    Deferred,
    /// Paint `last_visible` and update the tray icon.
    Painted,
}

/// What a fresh scan does while an off-transition may be pending.
#[derive(Clone, Copy, Debug, PartialEq, Eq, Structural)]
pub enum ScanStep {
    /// Apply the scanned state.
    Apply,
    /// The device became active again: stop the debounce timer, then apply.
    CancelThenApply,
    /// Keep waiting for the debounce timer.
    Wait,
}

/// Whether any device shows.
pub open spec fn active(v: (bool, bool)) -> bool {
    v.0 || v.1
}

/// Applying a visible device state. Disabled, nothing is painted. Enabled,
/// a transition from active to idle is deferred while the debounce timer
/// runs (unless this is the timer's own commit, which bypasses the
/// debounce); otherwise the new state is painted. The debounce compares
/// against what was painted, not the raw registry state.
pub open spec fn spec_apply(s: DisplayState, visible: (bool, bool), bypass_debounce: bool, timer_armed: bool) -> (DisplayState, ApplyOutcome) {
    if !s.enabled {
        (
            DisplayState { pending_off: false, last_visible: (false, false), ..s },
            ApplyOutcome::Disabled { kill_timer: s.pending_off },
        )
    } else if !bypass_debounce && timer_armed && active(s.last_visible) && !active(visible) {
        (DisplayState { pending_off: true, ..s }, ApplyOutcome::Deferred)
    } else {
        (DisplayState { pending_off: false, last_visible: visible, ..s }, ApplyOutcome::Painted)
    }
}

impl DisplayState {
    /// Enabled, showing nothing.
    pub fn new() -> (s: Self)
        ensures
            s == (DisplayState { enabled: true, pending_off: false, last_visible: (false, false) }),
    {
        DisplayState { enabled: true, pending_off: false, last_visible: (false, false) }
    }

    /// Whether applying `visible` needs the debounce timer armed first: only
    /// when enabled, not bypassing, and going from active to idle.
    pub fn needs_off_debounce(&self, visible: (bool, bool), bypass_debounce: bool) -> (r: bool)
        ensures
            r == (self.enabled && !bypass_debounce && active(self.last_visible) && !active(visible)),
    {
        let was_active = self.last_visible.0 || self.last_visible.1;
        let now_active = visible.0 || visible.1;
        self.enabled && !bypass_debounce && should_start_debounce(was_active, now_active)
    }

    /// Apply a visible device state; `timer_armed` tells whether the
    /// debounce timer could be armed for it (when it was needed).
    pub fn apply(&mut self, visible: (bool, bool), bypass_debounce: bool, timer_armed: bool) -> (r:
        ApplyOutcome)
        ensures
            (*final(self), r) == spec_apply(*old(self), visible, bypass_debounce, timer_armed),
    {
        if !self.enabled {
            let kill_timer = self.pending_off;
            self.pending_off = false;
            self.last_visible = (false, false);
            return ApplyOutcome::Disabled { kill_timer };
        }
        let was_active = self.last_visible.0 || self.last_visible.1;
        let now_active = visible.0 || visible.1;
        if should_defer_off_transition(was_active, now_active, bypass_debounce, timer_armed) {
            self.pending_off = true;
            return ApplyOutcome::Deferred;
        }
        self.pending_off = false;
        self.last_visible = visible;
        ApplyOutcome::Painted
    }

    /// What a fresh scan with `visible` devices does: while an
    /// off-transition is pending it is canceled only if a device shows
    /// again; otherwise the scan waits for the timer.
    pub fn scan_step(&self, visible: (bool, bool)) -> (r: ScanStep)
        ensures
            !self.pending_off ==> r == ScanStep::Apply,
            self.pending_off && active(visible) ==> r == ScanStep::CancelThenApply,
            self.pending_off && !active(visible) ==> r == ScanStep::Wait,
    {
        if self.pending_off {
            if should_cancel_pending_off(visible.0, visible.1) {
                ScanStep::CancelThenApply
            } else {
                ScanStep::Wait
            }
        } else {
            ScanStep::Apply
        }
    }

    /// Whether a debounce timer message commits the pending off-transition:
    /// only while one is pending and its deadline has come.
    pub fn timer_commits(&self, due_reached: bool) -> (r: bool)
        ensures
            r == (self.pending_off && due_reached),
    {
        should_commit_pending_off_timer(self.pending_off, due_reached)
    }

    /// The pending off-transition is dropped (its timer was stopped).
    pub fn cancel_pending(&mut self)
        ensures
            *final(self) == (DisplayState { pending_off: false, ..*old(self) }),
    {
        self.pending_off = false;
    }

    /// The user toggled Enabled.
    pub fn toggle_enabled(&mut self)
        ensures
            *final(self) == (DisplayState { enabled: !old(self).enabled, ..*old(self) }),
    {
        self.enabled = !self.enabled;
    }
}

/// The commit of a deferred off-transition (the timer's own apply, which
/// bypasses the debounce) never defers again: the border does turn off.
pub proof fn lemma_commit_never_defers(s: DisplayState, visible: (bool, bool), timer_armed: bool)
    ensures
        !spec_apply(s, visible, true, timer_armed).0.pending_off,
        s.enabled ==> spec_apply(s, visible, true, timer_armed).0.last_visible == visible,
{
}

/// While an off-transition is deferred, the border keeps what it painted.
pub proof fn lemma_deferral_keeps_border(s: DisplayState, visible: (bool, bool))
    requires
        s.enabled,
        active(s.last_visible),
        !active(visible),
    ensures
        spec_apply(s, visible, false, true) == (
            DisplayState { pending_off: true, ..s },
            ApplyOutcome::Deferred,
        ),
{
}

/// A device going idle turns the border off in two steps: the scan defers,
/// and the debounce timer's commit paints the idle state with nothing
/// pending. If the timer cannot be armed, the first step paints at once.
pub proof fn lemma_off_transition_completes(s: DisplayState, visible: (bool, bool), armed: bool)
    requires
        s.enabled,
        active(s.last_visible),
        !active(visible),
    ensures
        ({
            let first = spec_apply(s, visible, false, armed).0;
            let committed = spec_apply(DisplayState { pending_off: false, ..first }, visible, true, armed).0;
            &&& armed ==> first.pending_off && first.last_visible == s.last_visible
            &&& !armed ==> !first.pending_off && first.last_visible == visible
            &&& !committed.pending_off && committed.last_visible == visible
        }),
{
}

/// Turning on never waits: a device becoming visible is painted at once.
pub proof fn lemma_turn_on_is_immediate(s: DisplayState, visible: (bool, bool), bypass: bool, armed: bool)
    requires
        s.enabled,
        active(visible),
    ensures
        spec_apply(s, visible, bypass, armed) == (
            DisplayState { pending_off: false, last_visible: visible, ..s },
            ApplyOutcome::Painted,
        ),
{
}

/// Disabled, the overlay paints nothing and no off-transition waits.
pub proof fn lemma_disabled_paints_nothing(s: DisplayState, visible: (bool, bool), bypass: bool, armed: bool)
    requires
        !s.enabled,
    ensures
        !spec_apply(s, visible, bypass, armed).0.pending_off,
        spec_apply(s, visible, bypass, armed).0.last_visible == (false, false),
{
}

} // verus!
