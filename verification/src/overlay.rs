//! The state of the border overlay: which colors it paints, and its fade in
//! and out. Window calls are made by the caller.

use vstd::prelude::*;
use crate::appearance::{spec_border_color, COLOR_BLUE, COLOR_PURPLE, COLOR_RED};

verus! {

/// Alpha change per fade tick: 255 / 32 gives about 8 ticks per fade.
pub const FADE_STEP: u8 = 32;

/// What the overlay paints and how visible it is.
#[derive(Clone, Copy, Debug, PartialEq, Eq)]
pub struct OverlayState {
    /// Devices whose color is painted. They stay put while fading out, so
    /// the border keeps its color all the way down.
    pub paint_cam: bool,
    pub paint_mic: bool,
    pub current_alpha: u8,
    pub target_alpha: u8,
    /// The window is shown.
    pub shown: bool,
}

/// The alpha after one fade tick: `current` moves toward `target` by at most
/// `FADE_STEP`.
pub open spec fn spec_fade_alpha(current: int, target: int) -> int {
    if target - current > FADE_STEP {
        current + FADE_STEP
    } else if current - target > FADE_STEP {
        current - FADE_STEP
    } else {
        target
    }
}

/// The alpha after `k` fade ticks.
pub open spec fn spec_fade_after(current: int, target: int, k: nat) -> int
    decreases k,
{
    if k == 0 {
        current
    } else {
        spec_fade_after(spec_fade_alpha(current, target), target, (k - 1) as nat)
    }
}

/// A fade moves at most `FADE_STEP` per tick and reaches its target after
/// `k` ticks whenever the distance is at most `k * FADE_STEP`.
pub proof fn lemma_fade_reaches_target(current: int, target: int, k: nat)
    requires
        -(k * FADE_STEP) <= target - current <= k * FADE_STEP,
    ensures
        spec_fade_after(current, target, k) == target,
    decreases k,
{
    if k > 0 {
        let next = spec_fade_alpha(current, target);
        assert(-((k - 1) * FADE_STEP) <= target - next <= (k - 1) * FADE_STEP) by (nonlinear_arith)
            requires
                -(k * FADE_STEP) <= target - current <= k * FADE_STEP,
                next == spec_fade_alpha(current, target),
                k >= 1,
        ;
        lemma_fade_reaches_target(next, target, (k - 1) as nat);
    }
}

/// A full fade in or out, or any fade between two alphas, completes within
/// 8 ticks.
pub proof fn lemma_fade_completes_in_eight_ticks(current: u8, target: u8)
    ensures
        spec_fade_after(current as int, target as int, 8) == target,
{
    lemma_fade_reaches_target(current as int, target as int, 8);
}

/// What a fade tick asks of the window.
#[derive(Clone, Copy, Debug, PartialEq, Eq, Structural)]
pub enum FadeTick {
    /// The fade is over: stop the timer, and hide the window if faded out.
    Finished { hide: bool },
    /// Set this alpha and keep ticking.
    Alpha(u8),
}

impl OverlayState {
    /// The target alpha is either fully shown or fully hidden.
    pub open spec fn wf(self) -> bool {
        self.target_alpha == 0 || self.target_alpha == 255
    }

    /// An invisible overlay painting nothing.
    pub fn new() -> (s: Self)
        ensures
            s.wf(),
            !s.paint_cam && !s.paint_mic && !s.shown,
            s.current_alpha == 0 && s.target_alpha == 0,
    {
        OverlayState {
            paint_cam: false,
            paint_mic: false,
            current_alpha: 0,
            target_alpha: 0,
            shown: false,
        }
    }

    /// Ask for a device state. A visible state swaps the painted colors at
    /// once and fades in; an invisible one fades out keeping the colors.
    /// Returns whether the window must be shown now (starting at alpha 0)
    /// because it was hidden.
    pub fn set_colors(&mut self, cam: bool, mic: bool) -> (show_window: bool)
        ensures
            final(self).wf(),
            final(self).target_alpha == (if cam || mic { 255u8 } else { 0u8 }),
            show_window == ((cam || mic) && !old(self).shown),
            (cam || mic) ==> final(self).paint_cam == cam && final(self).paint_mic == mic
                && final(self).shown,
            (cam || mic) && !old(self).shown ==> final(self).current_alpha == 0,
            (cam || mic) && old(self).shown ==> final(self).current_alpha == old(self).current_alpha,
            !(cam || mic) ==> *final(self) == (OverlayState { target_alpha: 0, ..*old(self) }),
    {
        let show = cam || mic;
        self.target_alpha = if show { 255 } else { 0 };
        if show {
            self.paint_cam = cam;
            self.paint_mic = mic;
            if !self.shown {
                self.current_alpha = 0;
                self.shown = true;
                return true;
            }
        }
        false
    }

    /// Hide at once, without a fade.
    pub fn force_hide(&mut self)
        ensures
            final(self).wf(),
            *final(self) == (OverlayState {
                paint_cam: false,
                paint_mic: false,
                current_alpha: 0,
                target_alpha: 0,
                shown: false,
            }),
    {
        self.target_alpha = 0;
        self.current_alpha = 0;
        self.paint_cam = false;
        self.paint_mic = false;
        self.shown = false;
    }

    /// One tick of the fade timer. At the target the fade is over, and a
    /// border faded out to alpha 0 is hidden and stops painting, so the next
    /// fade-in starts clean. Otherwise alpha moves one step.
    pub fn fade_tick(&mut self) -> (r: FadeTick)
        ensures
            old(self).current_alpha == old(self).target_alpha ==> {
                &&& r == (FadeTick::Finished { hide: old(self).current_alpha == 0 })
                &&& old(self).current_alpha == 0 ==> *final(self) == (OverlayState {
                    paint_cam: false,
                    paint_mic: false,
                    shown: false,
                    ..*old(self)
                })
                &&& old(self).current_alpha != 0 ==> *final(self) == *old(self)
            },
            old(self).current_alpha != old(self).target_alpha ==> {
                &&& final(self).current_alpha == spec_fade_alpha(
                    old(self).current_alpha as int,
                    old(self).target_alpha as int,
                )
                &&& r == FadeTick::Alpha(final(self).current_alpha)
                &&& *final(self) == (OverlayState {
                    current_alpha: final(self).current_alpha,
                    ..*old(self)
                })
            },
    {
        let current = self.current_alpha;
        let target = self.target_alpha;
        if current == target {
            if current == 0 {
                self.paint_cam = false;
                self.paint_mic = false;
                self.shown = false;
            }
            return FadeTick::Finished { hide: current == 0 };
        }
        let next: u8 = if target > current && target - current > FADE_STEP {
            current + FADE_STEP
        } else if current > target && current - target > FADE_STEP {
            current - FADE_STEP
        } else {
            target
        };
        self.current_alpha = next;
        FadeTick::Alpha(next)
    }

    /// The color the border is painted in, if any.
    pub fn border_color(&self) -> (r: Option<u32>)
        ensures
            r == spec_border_color(self.paint_cam, self.paint_mic),
    {
        match (self.paint_cam, self.paint_mic) {
            (false, false) => None,
            (true, false) => Some(COLOR_BLUE),
            (false, true) => Some(COLOR_RED),
            (true, true) => Some(COLOR_PURPLE),
        }
    }
}

/// The rounded border is drawn only when the client area is wider and
/// taller than two corner radii.
pub fn border_fits(width: i32, height: i32, radius: i32) -> (r: bool)
    ensures
        r == (width > 2 * radius && height > 2 * radius),
{
    let twice: i64 = 2 * (radius as i64);
    (width as i64) > twice && (height as i64) > twice
}

} // verus!
