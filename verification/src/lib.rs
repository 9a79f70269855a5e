//! Pure, platform-independent decisions of the HotMic tray indicator: border
//! colors and sizes, device-state fusion with the Microsoft Teams mute
//! state, the Teams Local API message scanner, Base64 and WebSocket framing.
//! The Win32 program around them lives elsewhere.

pub mod appearance;
pub mod base64;
pub mod client;
pub mod control;
pub mod json;
pub mod overlay;
pub mod policy;
pub mod teams;
pub mod text;
pub mod websocket;
pub mod wide;

pub use appearance::{
    border_thickness_px, corner_radius_px, edge_colors, overlay_visibility_plan,
    should_recreate_cloaked_overlay, tray_appearance, OverlayVisibilityPlan,
    BORDER_THICKNESS_LOGICAL, COLOR_BLUE, COLOR_PURPLE, COLOR_RED, CORNER_RADIUS_LOGICAL,
    ICON_BOTH, ICON_CAM, ICON_IDLE, ICON_MIC,
};
pub use base64::base64_encode;
pub use json::{
    extract_object_value, find_bool_field, parse_can_pair, parse_meeting_update, redact_secrets,
    MeetingUpdate,
};
pub use policy::{
    should_cancel_pending_off, should_commit_pending_off_timer, should_defer_off_transition,
    should_start_debounce, should_update_tray_icon,
};
pub use teams::{
    combine_teams_mic_button_states, is_teams_subkey, mic_should_show,
    parse_teams_mic_button_name, resolve_teams_muted, visible_devices,
};
pub use websocket::{
    ws_build_close_frame, ws_build_text_frame, ws_handshake_request, ws_parse_frame, WsFrameParse,
};
pub use wide::{parse_in_use, wide_bytes, wide_chars};
