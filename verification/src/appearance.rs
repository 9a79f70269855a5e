//! Colors, icons and pixel sizes of the screen border and the tray icon.

use vstd::prelude::*;

verus! {

/// Border color while only the camera is in use (COLORREF, 0x00BBGGRR).
pub const COLOR_BLUE: u32 = 0x00FF8000;

/// Border color while only the microphone is in use.
pub const COLOR_RED: u32 = 0x000000DC;

/// Border color while both devices are in use.
pub const COLOR_PURPLE: u32 = 0x00EA3393;

/// Tray icon resource ids.
pub const ICON_IDLE: u16 = 1;

pub const ICON_CAM: u16 = 2;

pub const ICON_MIC: u16 = 3;

pub const ICON_BOTH: u16 = 4;

/// Logical-pixel thickness of the screen border. Scaled by DPI at draw time.
pub const BORDER_THICKNESS_LOGICAL: u32 = 3;

/// Logical-pixel corner radius of the rounded screen border.
pub const CORNER_RADIUS_LOGICAL: u32 = 12;

/// The color of the border for a device state, or `None` when nothing is in use.
pub open spec fn spec_border_color(cam: bool, mic: bool) -> Option<u32> {
    if cam && mic {
        Some(COLOR_PURPLE)
    } else if cam {
        Some(COLOR_BLUE)
    } else if mic {
        Some(COLOR_RED)
    } else {
        None
    }
}

/// Color for each border edge (top, bottom, left, right), or `None` to hide.
/// Both devices in use paint purple, distinct from either single device.
pub fn edge_colors(cam: bool, mic: bool) -> (r: Option<[u32; 4]>)
    ensures
        r is None <==> spec_border_color(cam, mic) is None,
        r matches Some(edges) ==> forall|k: int|
            0 <= k < 4 ==> edges@[k] == spec_border_color(cam, mic)->0,
{
    match (cam, mic) {
        (false, false) => None,
        (true, false) => Some([COLOR_BLUE, COLOR_BLUE, COLOR_BLUE, COLOR_BLUE]),
        (false, true) => Some([COLOR_RED, COLOR_RED, COLOR_RED, COLOR_RED]),
        (true, true) => Some([COLOR_PURPLE, COLOR_PURPLE, COLOR_PURPLE, COLOR_PURPLE]),
    }
}

/// `logical * dpi`, saturated at `u32::MAX`, divided by 96, and never below 1.
pub open spec fn spec_scaled_px(logical: u32, dpi: u32) -> int {
    let product = logical * dpi;
    let saturated = if product > u32::MAX { u32::MAX as int } else { product };
    let q = saturated / 96;
    if q < 1 { 1 } else { q }
}

/// `logical` logical pixels at `dpi`, with the multiplication saturating.
fn scaled_px(logical: u32, dpi: u32) -> (r: i32)
    ensures
        r == spec_scaled_px(logical, dpi),
        r >= 1,
{
    assert((logical as u64) * (dpi as u64) <= u32::MAX * u32::MAX) by (nonlinear_arith)
        requires
            logical <= u32::MAX,
            dpi <= u32::MAX,
    ;
    let product: u64 = (logical as u64) * (dpi as u64);
    let saturated: u32 = if product > (u32::MAX as u64) {
        u32::MAX
    } else {
        product as u32
    };
    let q: u32 = saturated / 96;
    let m: u32 = if q < 1 { 1 } else { q };
    assert(m <= u32::MAX / 96);
    m as i32
}

/// Physical-pixel border thickness, scaled by DPI. Never less than 1.
pub fn border_thickness_px(dpi: u32) -> (r: i32)
    ensures
        r == spec_scaled_px(BORDER_THICKNESS_LOGICAL, dpi),
        r >= 1,
{
    scaled_px(BORDER_THICKNESS_LOGICAL, dpi)
}

/// Physical-pixel corner radius, scaled by DPI. Never less than 1.
pub fn corner_radius_px(dpi: u32) -> (r: i32)
    ensures
        r == spec_scaled_px(CORNER_RADIUS_LOGICAL, dpi),
        r >= 1,
{
    scaled_px(CORNER_RADIUS_LOGICAL, dpi)
}

/// The tray icon id for a state.
pub open spec fn spec_tray_icon(enabled: bool, cam: bool, mic: bool) -> u16 {
    if !enabled {
        ICON_IDLE
    } else if cam && mic {
        ICON_BOTH
    } else if cam {
        ICON_CAM
    } else if mic {
        ICON_MIC
    } else {
        ICON_IDLE
    }
}

/// The tray tooltip for a state.
pub open spec fn spec_tray_tip(enabled: bool, cam: bool, mic: bool) -> Seq<char> {
    if !enabled {
        "HotMic (disabled)"@
    } else if cam && mic {
        "HotMic: camera + microphone in use"@
    } else if cam {
        "HotMic: camera in use"@
    } else if mic {
        "HotMic: microphone in use"@
    } else {
        "HotMic"@
    }
}

/// Whether `s` begins with `w`.
pub open spec fn begins_with(s: Seq<char>, w: Seq<char>) -> bool {
    w.len() <= s.len() && s.subrange(0, w.len() as int) == w
}

/// Whether `s` ends with `w`.
pub open spec fn finishes_with(s: Seq<char>, w: Seq<char>) -> bool {
    w.len() <= s.len() && s.subrange(s.len() - w.len(), s.len() as int) == w
}

/// The tray reports exactly what is in use: the tooltip names the camera
/// first exactly when the indicator is enabled and the camera is in use, and
/// ends by naming the microphone exactly when it is enabled and the
/// microphone is in use; disabled, it says so. The icon shows the camera,
/// the microphone, both or neither by the same rule.
pub proof fn lemma_tray_reports_devices(enabled: bool, cam: bool, mic: bool)
    ensures
        begins_with(spec_tray_tip(enabled, cam, mic), "HotMic: camera"@) == (enabled && cam),
        finishes_with(spec_tray_tip(enabled, cam, mic), "microphone in use"@) == (enabled && mic),
        begins_with(spec_tray_tip(enabled, cam, mic), "HotMic"@),
        (spec_tray_tip(enabled, cam, mic) == "HotMic (disabled)"@) == !enabled,
        (spec_tray_icon(enabled, cam, mic) == ICON_BOTH) == (enabled && cam && mic),
        (spec_tray_icon(enabled, cam, mic) == ICON_CAM) == (enabled && cam && !mic),
        (spec_tray_icon(enabled, cam, mic) == ICON_MIC) == (enabled && !cam && mic),
        (spec_tray_icon(enabled, cam, mic) == ICON_IDLE) == !(enabled && (cam || mic)),
{
    reveal_strlit("HotMic (disabled)");
    reveal_strlit("HotMic: camera + microphone in use");
    reveal_strlit("HotMic: camera in use");
    reveal_strlit("HotMic: microphone in use");
    reveal_strlit("HotMic");
    reveal_strlit("HotMic: camera");
    reveal_strlit("microphone in use");
    let t = spec_tray_tip(enabled, cam, mic);
    let w = "HotMic: camera"@;
    let m = "microphone in use"@;
    assert(t.subrange(0, 6) =~= "HotMic"@);
    if !enabled {
        assert(t.subrange(0, 14)[6] != w[6]);
        assert(t.subrange(t.len() - 17, t.len() as int)[0] != m[0]);
    } else if cam && mic {
        assert(t.subrange(0, 14) =~= w);
        assert(t.subrange(t.len() - 17, t.len() as int) =~= m);
    } else if cam {
        assert(t.subrange(0, 14) =~= w);
        assert(t.subrange(t.len() - 17, t.len() as int)[0] != m[0]);
        assert(t != "HotMic (disabled)"@);
    } else if mic {
        assert(t.subrange(0, 14)[8] != w[8]);
        assert(t.subrange(t.len() - 17, t.len() as int) =~= m);
        assert(t != "HotMic (disabled)"@);
    } else {
        assert(t != "HotMic (disabled)"@);
    }
}

/// Tray icon id + tooltip for a given app state.
pub fn tray_appearance(enabled: bool, cam: bool, mic: bool) -> (r: (u16, &'static str))
    ensures
        r.0 == spec_tray_icon(enabled, cam, mic),
        r.1@ == spec_tray_tip(enabled, cam, mic),
        begins_with(r.1@, "HotMic: camera"@) == (enabled && cam),
        finishes_with(r.1@, "microphone in use"@) == (enabled && mic),
        (r.1@ == "HotMic (disabled)"@) == !enabled,
        (r.0 == ICON_BOTH) == (enabled && cam && mic),
        (r.0 == ICON_CAM) == (enabled && cam && !mic),
        (r.0 == ICON_MIC) == (enabled && !cam && mic),
        (r.0 == ICON_IDLE) == !(enabled && (cam || mic)),
{
    proof {
        lemma_tray_reports_devices(enabled, cam, mic);
    }
    if !enabled {
        return (ICON_IDLE, "HotMic (disabled)");
    }
    match (cam, mic) {
        (false, false) => (ICON_IDLE, "HotMic"),
        (true, false) => (ICON_CAM, "HotMic: camera in use"),
        (false, true) => (ICON_MIC, "HotMic: microphone in use"),
        (true, true) => (ICON_BOTH, "HotMic: camera + microphone in use"),
    }
}

/// True when an active overlay should recreate its window because the
/// compositor cloaked it, usually after a virtual-desktop switch.
pub fn should_recreate_cloaked_overlay(show: bool, dwm_cloaked: bool) -> (r: bool)
    ensures
        r == (show && dwm_cloaked),
{
    show && dwm_cloaked
}

/// The window operations needed to reach a desired visible state.
#[derive(Clone, Copy, Debug, PartialEq, Eq)]
pub struct OverlayVisibilityPlan {
    pub recreate: bool,
    pub show_window: bool,
    pub repair: bool,
}

/// Describes the overlay repair operations needed for a desired visible
/// state: nothing while hidden; while shown, always repair, recreate only
/// when cloaked, and show the window when it is hidden or cloaked.
pub fn overlay_visibility_plan(show: bool, currently_shown: bool, dwm_cloaked: bool) -> (r:
    OverlayVisibilityPlan)
    ensures
        r.recreate == (show && dwm_cloaked),
        r.show_window == (show && (!currently_shown || dwm_cloaked)),
        r.repair == show,
{
    if !show {
        return OverlayVisibilityPlan { recreate: false, show_window: false, repair: false };
    }
    OverlayVisibilityPlan {
        recreate: should_recreate_cloaked_overlay(show, dwm_cloaked),
        show_window: !currently_shown || dwm_cloaked,
        repair: true,
    }
}

/// The slot of a tray icon id among the four loaded icons (ids 1 to 4);
/// out-of-range ids are clamped rather than rejected.
pub fn icon_slot(id: u16) -> (r: usize)
    ensures
        r == (if id == 0 { 0 } else if id > 4 { 3 } else { id - 1 }),
        r < 4,
{
    if id == 0 {
        0
    } else if id > 4 {
        3
    } else {
        (id - 1) as usize
    }
}

} // verus!
