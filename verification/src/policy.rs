//! When the border turns off, when a pending off-transition is canceled or
//! committed, and when the tray icon is refreshed.

use vstd::prelude::*;
use crate::text::str_eq;

verus! {

/// True only when transitioning active to idle, where the flicker debounce
/// starts. The caller that commits a deferred off-transition must bypass
/// this check (see `should_defer_off_transition`), or the debounce would be
/// re-armed forever.
pub fn should_start_debounce(was_active: bool, now_active: bool) -> (r: bool)
    ensures
        r == (was_active && !now_active),
{
    was_active && !now_active
}

/// True when an active-to-idle transition is deferred: not on the commit
/// path that bypasses the debounce, and only if the debounce timer could be
/// armed (otherwise the off-transition commits at once).
pub fn should_defer_off_transition(
    was_active: bool,
    now_active: bool,
    bypass_debounce: bool,
    debounce_timer_armed: bool,
) -> (r: bool)
    ensures
        r == (!bypass_debounce && debounce_timer_armed && was_active && !now_active),
{
    !bypass_debounce && debounce_timer_armed && should_start_debounce(was_active, now_active)
}

/// True when a pending off-debounce is canceled because a fresh scan says
/// the overlay is active again before the deferred commit fires.
pub fn should_cancel_pending_off(cam_visible: bool, mic_visible: bool) -> (r: bool)
    ensures
        r == (cam_visible || mic_visible),
{
    cam_visible || mic_visible
}

/// True when a debounce timer message commits the deferred off state: only
/// while an off-transition is pending and its own deadline has arrived, so
/// stale timer messages are ignored.
pub fn should_commit_pending_off_timer(pending_off: bool, debounce_due_reached: bool) -> (r: bool)
    ensures
        r == (pending_off && debounce_due_reached),
{
    pending_off && debounce_due_reached
}

/// True when the tray icon needs a shell update: its icon or tooltip
/// changed, or the periodic heartbeat refresh is due.
pub fn should_update_tray_icon(
    last_icon: u16,
    last_tip: &str,
    next_icon: u16,
    next_tip: &str,
    refresh_due: bool,
) -> (r: bool)
    ensures
        r == (last_icon != next_icon || last_tip@ != next_tip@ || refresh_due),
{
    last_icon != next_icon || !str_eq(last_tip, next_tip) || refresh_due
}

} // verus!
