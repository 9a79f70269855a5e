use hotmic::{
    base64_encode, border_thickness_px, combine_teams_mic_button_states, corner_radius_px,
    edge_colors, find_bool_field, is_teams_subkey, mic_should_show, overlay_visibility_plan,
    parse_can_pair, parse_in_use, parse_meeting_update, parse_teams_mic_button_name,
    redact_secrets, resolve_teams_muted, should_cancel_pending_off,
    should_commit_pending_off_timer, should_defer_off_transition, should_recreate_cloaked_overlay,
    should_start_debounce, should_update_tray_icon, tray_appearance, visible_devices,
    wide_bytes, wide_chars, ws_build_close_frame, ws_build_text_frame, ws_handshake_request,
    ws_parse_frame, MeetingUpdate, OverlayVisibilityPlan, WsFrameParse, COLOR_BLUE,
    COLOR_PURPLE, COLOR_RED, CORNER_RADIUS_LOGICAL, ICON_BOTH, ICON_CAM, ICON_IDLE, ICON_MIC,
};
#[test]
fn idle_hides_border() {
    assert_eq!(edge_colors(false, false), None);
}

#[test]
fn camera_only_paints_all_blue() {
    assert_eq!(edge_colors(true, false), Some([COLOR_BLUE; 4]));
}

#[test]
fn mic_only_paints_all_red() {
    assert_eq!(edge_colors(false, true), Some([COLOR_RED; 4]));
}

#[test]
fn both_active_paints_all_purple() {
    assert_eq!(edge_colors(true, true), Some([COLOR_PURPLE; 4]));
}

#[test]
fn border_thickness_at_96_dpi_is_3() {
    assert_eq!(border_thickness_px(96), 3);
}

#[test]
fn border_thickness_doubles_at_192_dpi() {
    assert_eq!(border_thickness_px(192), 6);
}

#[test]
fn border_thickness_never_zero_at_low_dpi() {
    assert!(border_thickness_px(1) >= 1);
    assert!(border_thickness_px(0) >= 1);
}

#[test]
fn corner_radius_at_96_dpi_matches_logical() {
    assert_eq!(corner_radius_px(96), CORNER_RADIUS_LOGICAL as i32);
}

#[test]
fn corner_radius_scales_with_dpi() {
    assert_eq!(corner_radius_px(192), (CORNER_RADIUS_LOGICAL * 2) as i32);
    assert_eq!(
        corner_radius_px(144),
        (CORNER_RADIUS_LOGICAL * 144 / 96) as i32
    );
}

#[test]
fn corner_radius_never_zero_at_low_dpi() {
    assert!(corner_radius_px(1) >= 1);
    assert!(corner_radius_px(0) >= 1);
}

#[test]
fn disabled_uses_idle_icon_and_disabled_tooltip() {
    let (icon, tip) = tray_appearance(false, true, true);
    assert_eq!(icon, ICON_IDLE);
    assert!(tip.contains("disabled"));
}

#[test]
fn enabled_idle_uses_idle_icon() {
    let (icon, tip) = tray_appearance(true, false, false);
    assert_eq!(icon, ICON_IDLE);
    assert_eq!(tip, "HotMic");
}

#[test]
fn camera_only_uses_cam_icon() {
    let (icon, tip) = tray_appearance(true, true, false);
    assert_eq!(icon, ICON_CAM);
    assert!(tip.contains("camera"));
}

#[test]
fn mic_only_uses_mic_icon() {
    let (icon, tip) = tray_appearance(true, false, true);
    assert_eq!(icon, ICON_MIC);
    assert!(tip.contains("microphone"));
}

#[test]
fn both_active_uses_both_icon_and_combined_tooltip() {
    let (icon, tip) = tray_appearance(true, true, true);
    assert_eq!(icon, ICON_BOTH);
    assert!(tip.contains("camera") && tip.contains("microphone"));
}

#[test]
fn debounce_fires_only_on_active_to_idle() {
    assert!(should_start_debounce(true, false));
    assert!(!should_start_debounce(false, true));
    assert!(!should_start_debounce(true, true));
    assert!(!should_start_debounce(false, false));
}

/// Regression: the DEBOUNCE_TIMER firing is itself the commit point of
/// the deferred active→idle transition. If `apply_state` re-runs
/// `should_start_debounce` on the timer path, `last_visible` will still
/// say "active" while the scan reports "idle," so this function returns
/// `true` and the timer re-arms forever — the border never turns off.
/// The fix is `bypass_debounce=true` on that single call site; this test
/// pins the contract down so a future refactor can't quietly drop it.
#[test]
fn timer_commit_path_must_bypass_debounce() {
    let was_active = true;
    let now_active = false;
    let bypass_debounce = true;

    // The raw predicate still returns true (active→idle is still happening),
    assert!(should_start_debounce(was_active, now_active));
    // but the caller short-circuits it on the deferred-commit path.
    let arm_again = !bypass_debounce && should_start_debounce(was_active, now_active);
    assert!(!arm_again);
}

#[test]
fn off_debounce_defers_when_timer_is_armed() {
    assert!(should_defer_off_transition(true, false, false, true));
}

#[test]
fn off_debounce_commits_when_timer_fails() {
    assert!(!should_defer_off_transition(true, false, false, false));
}

#[test]
fn off_debounce_commit_path_ignores_active_to_idle() {
    assert!(!should_defer_off_transition(true, false, true, true));
}

#[test]
fn off_debounce_does_not_defer_when_state_stays_active_or_idle() {
    assert!(!should_defer_off_transition(true, true, false, true));
    assert!(!should_defer_off_transition(false, false, false, true));
    assert!(!should_defer_off_transition(false, true, false, true));
}

#[test]
fn pending_off_cancels_when_device_becomes_active_again() {
    assert!(should_cancel_pending_off(true, false));
    assert!(should_cancel_pending_off(false, true));
    assert!(should_cancel_pending_off(true, true));
}

#[test]
fn pending_off_stays_pending_while_still_idle() {
    assert!(!should_cancel_pending_off(false, false));
}

#[test]
fn pending_off_timer_commits_only_while_still_pending() {
    assert!(should_commit_pending_off_timer(true, true));
}

#[test]
fn stale_pending_off_timer_is_ignored_after_cancel() {
    assert!(!should_commit_pending_off_timer(false, true));
    assert!(!should_commit_pending_off_timer(false, false));
}

#[test]
fn stale_pending_off_timer_does_not_commit_new_debounce_early() {
    assert!(!should_commit_pending_off_timer(true, false));
}

#[test]
fn visible_devices_keep_camera_on_when_teams_mic_is_muted() {
    assert_eq!(visible_devices(true, false, true, true), (true, false));
}

#[test]
fn visible_devices_show_both_when_camera_and_unmuted_teams_mic_are_active() {
    assert_eq!(visible_devices(true, false, true, false), (true, true));
}

#[test]
fn visible_devices_keep_mic_on_when_non_teams_app_is_active() {
    assert_eq!(visible_devices(false, true, true, true), (false, true));
}

#[test]
fn tray_update_skips_unchanged_state_until_heartbeat() {
    assert!(!should_update_tray_icon(
        ICON_BOTH,
        "HotMic: camera + microphone in use",
        ICON_BOTH,
        "HotMic: camera + microphone in use",
        false
    ));
}

#[test]
fn tray_update_runs_when_state_changes() {
    assert!(should_update_tray_icon(
        ICON_BOTH,
        "HotMic: camera + microphone in use",
        ICON_MIC,
        "HotMic: microphone in use",
        false
    ));
    assert!(should_update_tray_icon(
        ICON_CAM, "same tip", ICON_MIC, "same tip", false
    ));
    assert!(should_update_tray_icon(
        ICON_MIC,
        "HotMic: microphone in use",
        ICON_MIC,
        "HotMic (disabled)",
        false
    ));
}

#[test]
fn tray_update_runs_on_periodic_heartbeat() {
    assert!(should_update_tray_icon(
        ICON_BOTH,
        "HotMic: camera + microphone in use",
        ICON_BOTH,
        "HotMic: camera + microphone in use",
        true
    ));
}

#[test]
fn cloaked_overlay_recreates_only_while_active() {
    assert!(should_recreate_cloaked_overlay(true, true));
    assert!(!should_recreate_cloaked_overlay(true, false));
    assert!(!should_recreate_cloaked_overlay(false, true));
}

#[test]
fn overlay_plan_repairs_active_window_even_when_already_shown() {
    assert_eq!(
        overlay_visibility_plan(true, true, false),
        OverlayVisibilityPlan {
            recreate: false,
            show_window: false,
            repair: true
        }
    );
}

#[test]
fn overlay_plan_shows_and_repairs_active_hidden_window() {
    assert_eq!(
        overlay_visibility_plan(true, false, false),
        OverlayVisibilityPlan {
            recreate: false,
            show_window: true,
            repair: true
        }
    );
}

#[test]
fn overlay_plan_recreates_shows_and_repairs_active_cloaked_window() {
    assert_eq!(
        overlay_visibility_plan(true, true, true),
        OverlayVisibilityPlan {
            recreate: true,
            show_window: true,
            repair: true
        }
    );
}

#[test]
fn overlay_plan_does_nothing_when_idle_even_if_cloaked() {
    assert_eq!(
        overlay_visibility_plan(false, true, true),
        OverlayVisibilityPlan {
            recreate: false,
            show_window: false,
            repair: false
        }
    );
}

#[test]
fn all_zero_bytes_means_in_use() {
    assert!(parse_in_use(&[0u8; 8], 8));
}

#[test]
fn realistic_filetime_means_released() {
    let ts: u64 = 133_700_000_000_000_000;
    assert!(!parse_in_use(&ts.to_le_bytes(), 8));
}

#[test]
fn one_means_in_use_only_if_zero() {
    let one: u64 = 1;
    assert!(!parse_in_use(&one.to_le_bytes(), 8));
}

#[test]
fn wrong_size_is_not_in_use() {
    assert!(!parse_in_use(&[0u8; 8], 4));
    assert!(!parse_in_use(&[0u8; 8], 12));
    assert!(!parse_in_use(&[0u8; 8], 0));
}

#[test]
fn short_buffer_is_not_in_use() {
    assert!(!parse_in_use(&[0u8; 4], 8));
}

#[test]
fn wide_chars_is_null_terminated() {
    assert_eq!(wide_chars("AB"), vec![b'A' as u16, b'B' as u16, 0]);
}

#[test]
fn wide_chars_empty_is_just_null() {
    assert_eq!(wide_chars(""), vec![0]);
}

#[test]
fn wide_chars_handles_unicode_bmp() {
    assert_eq!(wide_chars("\u{00E9}"), vec![0x00E9, 0]);
}

#[test]
fn wide_chars_handles_supplementary_plane_via_surrogate_pair() {
    // U+1F600 (😀) is outside the BMP and must be encoded as a UTF-16 surrogate pair.
    // High surrogate D83D, low surrogate DE00. Username paths with emoji rely on this.
    assert_eq!(wide_chars("\u{1F600}"), vec![0xD83D, 0xDE00, 0]);
}

#[test]
fn wide_bytes_handles_supplementary_plane() {
    assert_eq!(wide_bytes("\u{1F600}"), vec![0x3D, 0xD8, 0x00, 0xDE, 0, 0]);
}

#[test]
fn wide_bytes_emits_utf16_le_with_null() {
    assert_eq!(wide_bytes("AB"), vec![b'A', 0, b'B', 0, 0, 0]);
}

#[test]
fn wide_bytes_empty_is_two_zero_bytes() {
    assert_eq!(wide_bytes(""), vec![0, 0]);
}

#[test]
fn wide_bytes_handles_non_ascii() {
    assert_eq!(wide_bytes("\u{00E9}"), vec![0xE9, 0x00, 0, 0]);
}

// -----------------------------------------------------------------------
// is_teams_subkey
// -----------------------------------------------------------------------

#[test]
fn teams_match_new_msix() {
    assert!(is_teams_subkey("MSTeams_8wekyb3d8bbwe"));
}

#[test]
fn teams_match_classic_squirrel_path() {
    let n = "C:#Users#davidtagler#AppData#Local#Microsoft#Teams#current#Teams.exe";
    assert!(is_teams_subkey(n));
}

#[test]
fn teams_match_is_case_insensitive_for_classic_path() {
    let n = "C:#USERS#DAVID#APPDATA#LOCAL#MICROSOFT#TEAMS#CURRENT#TEAMS.EXE";
    assert!(is_teams_subkey(n));
}

#[test]
fn teams_does_not_match_msedge() {
    assert!(!is_teams_subkey(
        "C:#Program Files (x86)#Microsoft#Edge#Application#msedge.exe"
    ));
}

#[test]
fn teams_does_not_match_webview2() {
    assert!(!is_teams_subkey(
        "C:#Program Files (x86)#Microsoft#EdgeWebView#Application#msedgewebview2.exe"
    ));
}

#[test]
fn teams_does_not_match_unrelated() {
    assert!(!is_teams_subkey("NonPackaged"));
    assert!(!is_teams_subkey(""));
    assert!(!is_teams_subkey("Microsoft.WindowsCamera_8wekyb3d8bbwe"));
    assert!(!is_teams_subkey("Microsoft.SkypeApp_kzf8qxf38zg5c"));
}

#[test]
fn teams_unmute_button_means_the_local_mic_is_muted() {
    assert_eq!(parse_teams_mic_button_name("Unmute mic"), Some(true));
    assert_eq!(
        parse_teams_mic_button_name("Unmute microphone (Ctrl+Shift+M)"),
        Some(true)
    );
}

#[test]
fn teams_mute_button_means_the_local_mic_is_live() {
    assert_eq!(parse_teams_mic_button_name("Mute mic"), Some(false));
}

#[test]
fn unrelated_accessibility_names_do_not_invent_a_mute_state() {
    assert_eq!(parse_teams_mic_button_name("Alex Example, muted"), None);
    assert_eq!(parse_teams_mic_button_name(""), None);
}

#[test]
fn conflicting_teams_windows_fail_safe_to_mic_live() {
    assert_eq!(
        combine_teams_mic_button_states(&[Some(true), Some(false)]),
        Some(false)
    );
}

#[test]
fn teams_windows_report_muted_only_when_every_button_does() {
    assert_eq!(combine_teams_mic_button_states(&[None, Some(true)]), None);
    assert_eq!(
        combine_teams_mic_button_states(&[Some(true), Some(true)]),
        Some(true)
    );
    assert_eq!(combine_teams_mic_button_states(&[None, None]), None);
}

#[test]
fn local_api_state_wins_over_accessibility_fallback() {
    assert!(!resolve_teams_muted(Some(false), true, || {
        panic!("authoritative Local API state must skip UI Automation")
    }));
    assert!(resolve_teams_muted(Some(true), true, || {
        panic!("authoritative Local API state must skip UI Automation")
    }));
}

#[test]
fn accessibility_state_fills_local_api_gap() {
    assert!(resolve_teams_muted(None, true, || Some(true)));
    assert!(!resolve_teams_muted(None, true, || Some(false)));
}

#[test]
fn inactive_teams_skips_accessibility_lookup() {
    let mut queried = false;
    let muted = resolve_teams_muted(None, false, || {
        queried = true;
        Some(true)
    });

    assert!(!muted);
    assert!(!queried);
}

#[test]
fn unavailable_teams_signals_fail_safe_to_mic_live() {
    assert!(!resolve_teams_muted(None, true, || None));
}

// -----------------------------------------------------------------------
// mic_should_show — full 8-row truth table
// -----------------------------------------------------------------------

#[test]
fn mic_idle_is_off() {
    assert!(!mic_should_show(false, false, false));
    assert!(!mic_should_show(false, false, true));
}

#[test]
fn mic_teams_only_unmuted_is_on() {
    assert!(mic_should_show(false, true, false));
}

#[test]
fn mic_teams_only_muted_is_off() {
    // The whole point of Option A.
    assert!(!mic_should_show(false, true, true));
}

#[test]
fn mic_non_teams_only_is_on_regardless_of_teams_mute() {
    assert!(mic_should_show(true, false, false));
    assert!(mic_should_show(true, false, true));
}

#[test]
fn mic_both_unmuted_is_on() {
    assert!(mic_should_show(true, true, false));
}

#[test]
fn mic_both_with_teams_muted_stays_on_for_other_app() {
    // Per-app fusion: Teams muted, but Voice Recorder is also live -> ON.
    assert!(mic_should_show(true, true, true));
}

// -----------------------------------------------------------------------
// parse_meeting_update
// -----------------------------------------------------------------------

#[test]
fn parse_full_meeting_update_payload() {
    let json = r#"{"meetingUpdate":{"meetingState":{"isMuted":false,"isVideoOn":false,"isHandRaised":false,"isInMeeting":true,"isRecordingOn":false,"isBackgroundBlurred":false,"isSharing":false,"hasUnreadMessages":false},"meetingPermissions":{"canToggleMute":true}}}"#;
    let m = parse_meeting_update(json);
    assert_eq!(m.in_meeting, Some(true));
    assert_eq!(m.is_muted, Some(false));
}

#[test]
fn parse_meeting_state_with_muted_true() {
    let json = r#"{"meetingUpdate":{"meetingState":{"isInMeeting":true,"isMuted":true}}}"#;
    let m = parse_meeting_update(json);
    assert_eq!(m.in_meeting, Some(true));
    assert_eq!(m.is_muted, Some(true));
}

#[test]
fn parse_no_meeting_state_returns_none() {
    // Real Teams payload when no meeting is active — only meetingPermissions.
    let json = r#"{"meetingUpdate":{"meetingPermissions":{"canToggleMute":false,"canToggleVideo":false,"isMuted":true}}}"#;
    let m = parse_meeting_update(json);
    assert_eq!(m.in_meeting, None);
    // Must NOT pick up isMuted from sibling meetingPermissions.
    assert_eq!(m.is_muted, None);
}

#[test]
fn parse_partial_state_returns_partial() {
    let json = r#"{"meetingUpdate":{"meetingState":{"isInMeeting":true}}}"#;
    let m = parse_meeting_update(json);
    assert_eq!(m.in_meeting, Some(true));
    assert_eq!(m.is_muted, None);
}

#[test]
fn parse_empty_or_garbage_yields_none() {
    assert_eq!(parse_meeting_update(""), MeetingUpdate::default());
    assert_eq!(parse_meeting_update("{}"), MeetingUpdate::default());
    assert_eq!(parse_meeting_update("not json"), MeetingUpdate::default());
}

#[test]
fn can_pair_true_in_real_payload() {
    // Real frame captured from Teams Local API once the user is in a
    // meeting and Teams is willing to receive a `pair` request.
    let json = r#"{"meetingUpdate":{"meetingPermissions":{"canReact":true,"canToggleVideo":true,"canToggleMute":true,"canToggleHand":true,"canToggleShareTray":true,"canLeave":true,"canToggleBlur":false,"canToggleChat":true,"canStopSharing":false,"canPair":true}}}"#;
    assert_eq!(parse_can_pair(json), Some(true));
}

#[test]
fn can_pair_false_when_not_yet_authorized() {
    let json =
        r#"{"meetingUpdate":{"meetingPermissions":{"canToggleMute":false,"canPair":false}}}"#;
    assert_eq!(parse_can_pair(json), Some(false));
}

#[test]
fn can_pair_none_without_meeting_permissions() {
    // Just `meetingState` with no `meetingPermissions` block at all.
    let json = r#"{"meetingUpdate":{"meetingState":{"isInMeeting":true,"isMuted":false}}}"#;
    assert_eq!(parse_can_pair(json), None);
}

#[test]
fn can_pair_none_when_field_absent() {
    // `meetingPermissions` present but `canPair` not in it.
    let json = r#"{"meetingUpdate":{"meetingPermissions":{"canToggleMute":true}}}"#;
    assert_eq!(parse_can_pair(json), None);
}

// -----------------------------------------------------------------------
// redact_secrets — protects the diagnostic log when users share it
// -----------------------------------------------------------------------

#[test]
fn redact_tokenrefresh_uuid() {
    let s = r#"text frame (55 bytes): {"tokenRefresh":"ed8f4f22-2db3-4ef4-bcb8-8ea22769d5d9"}"#;
    let r = redact_secrets(s);
    assert!(!r.contains("ed8f4f22"), "uuid leaked: {r}");
    assert!(r.contains(r#""tokenRefresh":"<redacted>""#), "got: {r}");
}

#[test]
fn redact_handles_whitespace_and_escapes() {
    // Whitespace around the colon, plus an escaped quote inside the value.
    let s = r#"{ "tokenRefresh" : "abc\"def-123" , "other": 1 }"#;
    let r = redact_secrets(s);
    assert!(!r.contains("abc"), "value leaked: {r}");
    assert!(!r.contains("def-123"), "value leaked: {r}");
    assert!(r.contains("<redacted>"), "got: {r}");
    // Adjacent fields survive intact.
    assert!(r.contains(r#""other": 1"#), "got: {r}");
}

#[test]
fn redact_token_query_param_amp() {
    let s = "GET /?protocol-version=2.0.0&manufacturer=HotMic&token=abcd-1234&app=HotMic";
    let r = redact_secrets(s);
    assert!(!r.contains("abcd-1234"), "token leaked: {r}");
    assert!(r.contains("&token=<redacted>&app=HotMic"), "got: {r}");
}

#[test]
fn redact_token_query_param_question() {
    let s = "/?token=deadbeef";
    let r = redact_secrets(s);
    assert_eq!(r, "/?token=<redacted>");
}

#[test]
fn redact_passes_through_unrelated_text() {
    let s = r#"{"meetingState":{"isMuted":true,"isInMeeting":true}}"#;
    let r = redact_secrets(s);
    assert_eq!(r, s);
}

#[test]
fn redact_handles_empty_string() {
    assert_eq!(redact_secrets(""), "");
}

#[test]
fn redact_does_not_match_substring_named_tokenRefresh() {
    // A field literally named "myTokenRefresh" should NOT be redacted —
    // only the exact key. (We match the leading quote in the needle.)
    let s = r#"{"myTokenRefresh":"safe-value"}"#;
    let r = redact_secrets(s);
    assert!(r.contains("safe-value"), "false-positive redaction: {r}");
}

#[test]
fn parse_ignores_string_value_for_boolean_field() {
    // If Teams ever serialized as string, we should NOT treat it as a bool.
    let json = r#"{"meetingState":{"isMuted":"true"}}"#;
    let m = parse_meeting_update(json);
    assert_eq!(m.is_muted, None);
}

// -----------------------------------------------------------------------
// base64_encode (RFC 4648 vectors)
// -----------------------------------------------------------------------

#[test]
fn base64_empty() {
    assert_eq!(base64_encode(b""), "");
}

#[test]
fn base64_rfc4648_vectors() {
    assert_eq!(base64_encode(b"f"), "Zg==");
    assert_eq!(base64_encode(b"fo"), "Zm8=");
    assert_eq!(base64_encode(b"foo"), "Zm9v");
    assert_eq!(base64_encode(b"foob"), "Zm9vYg==");
    assert_eq!(base64_encode(b"fooba"), "Zm9vYmE=");
    assert_eq!(base64_encode(b"foobar"), "Zm9vYmFy");
}

#[test]
fn base64_handles_high_bytes() {
    assert_eq!(base64_encode(&[0xFF, 0xFF, 0xFF]), "////");
    assert_eq!(base64_encode(&[0x00, 0x00, 0x00]), "AAAA");
}

#[test]
fn base64_16_random_bytes_yields_24_chars() {
    // Sec-WebSocket-Key is 16 random bytes -> 24-char base64 with == padding.
    let key = [0xABu8; 16];
    let enc = base64_encode(&key);
    assert_eq!(enc.len(), 24);
    assert!(enc.ends_with("=="));
}

// -----------------------------------------------------------------------
// ws_handshake_request
// -----------------------------------------------------------------------

#[test]
fn handshake_includes_required_headers_and_crlf_terminator() {
    let req = ws_handshake_request("localhost:8124", "/?token=abc", "dGhlIHNhbXBsZSBub25jZQ==");
    assert!(req.starts_with("GET /?token=abc HTTP/1.1\r\n"));
    assert!(req.contains("Host: localhost:8124\r\n"));
    assert!(req.contains("Upgrade: websocket\r\n"));
    assert!(req.contains("Connection: Upgrade\r\n"));
    assert!(req.contains("Sec-WebSocket-Key: dGhlIHNhbXBsZSBub25jZQ==\r\n"));
    assert!(req.contains("Sec-WebSocket-Version: 13\r\n"));
    assert!(req.ends_with("\r\n\r\n"));
}

// -----------------------------------------------------------------------
// ws_build_text_frame — three length encodings
// -----------------------------------------------------------------------

#[test]
fn frame_short_payload() {
    let f = ws_build_text_frame(b"hi", [0, 0, 0, 0]);
    assert_eq!(f[0], 0x81); // FIN + text
    assert_eq!(f[1], 0x82); // mask + len 2
    assert_eq!(&f[2..6], &[0, 0, 0, 0]);
    assert_eq!(&f[6..], b"hi"); // mask is zeros so payload unchanged
}

#[test]
fn frame_short_payload_with_real_mask_round_trips() {
    let payload = b"hello";
    let mask = [0xAA, 0xBB, 0xCC, 0xDD];
    let f = ws_build_text_frame(payload, mask);
    // Round-trip via parser.
    match ws_parse_frame(&f) {
        WsFrameParse::Frame {
            fin,
            opcode,
            payload: p,
            consumed,
        } => {
            assert!(fin);
            assert_eq!(opcode, 0x1);
            assert_eq!(p, payload);
            assert_eq!(consumed, f.len());
        }
        other => panic!("expected Frame, got {other:?}"),
    }
}

#[test]
fn frame_medium_payload_uses_16bit_length() {
    let payload = vec![b'x'; 200];
    let f = ws_build_text_frame(&payload, [0, 0, 0, 0]);
    assert_eq!(f[1], 0x80 | 126); // mask bit + extended-len marker
    assert_eq!(u16::from_be_bytes([f[2], f[3]]) as usize, 200);
}

#[test]
fn frame_large_payload_uses_64bit_length() {
    let payload = vec![b'x'; 70_000];
    let f = ws_build_text_frame(&payload, [0, 0, 0, 0]);
    assert_eq!(f[1], 0x80 | 127);
    assert_eq!(
        u64::from_be_bytes([f[2], f[3], f[4], f[5], f[6], f[7], f[8], f[9]]) as usize,
        70_000
    );
}

#[test]
fn close_frame_format() {
    let f = ws_build_close_frame([1, 2, 3, 4]);
    assert_eq!(f, vec![0x88, 0x80, 1, 2, 3, 4]);
}

// -----------------------------------------------------------------------
// ws_parse_frame
// -----------------------------------------------------------------------

#[test]
fn parse_too_short_asks_for_more() {
    match ws_parse_frame(&[]) {
        WsFrameParse::Need(n) => assert_eq!(n, 2),
        other => panic!("expected Need, got {other:?}"),
    }
    match ws_parse_frame(&[0x81]) {
        WsFrameParse::Need(n) => assert_eq!(n, 1),
        other => panic!("expected Need(1), got {other:?}"),
    }
}

#[test]
fn parse_unmasked_short_text_from_server() {
    // Teams sends unmasked text frames as a server.
    let mut buf = vec![0x81u8, 0x05]; // FIN+text, len=5, no mask
    buf.extend_from_slice(b"hello");
    match ws_parse_frame(&buf) {
        WsFrameParse::Frame {
            fin,
            opcode,
            payload,
            consumed,
        } => {
            assert!(fin);
            assert_eq!(opcode, 0x1);
            assert_eq!(payload, b"hello");
            assert_eq!(consumed, 7);
        }
        other => panic!("got {other:?}"),
    }
}

#[test]
fn parse_ping_frame_distinguished_by_opcode() {
    let buf = [0x89u8, 0x00]; // FIN + ping, no payload
    match ws_parse_frame(&buf) {
        WsFrameParse::Frame { opcode, .. } => assert_eq!(opcode, 0x9),
        other => panic!("got {other:?}"),
    }
}

#[test]
fn parse_close_frame_distinguished_by_opcode() {
    let buf = [0x88u8, 0x00];
    match ws_parse_frame(&buf) {
        WsFrameParse::Frame { opcode, .. } => assert_eq!(opcode, 0x8),
        other => panic!("got {other:?}"),
    }
}

#[test]
fn parse_extended_16bit_length_needs_full_header() {
    let buf = [0x81u8, 126]; // missing the 2-byte length
    match ws_parse_frame(&buf) {
        WsFrameParse::Need(n) => assert_eq!(n, 2),
        other => panic!("got {other:?}"),
    }
}

#[test]
fn parse_payload_truncation_asks_for_remaining() {
    let mut buf = vec![0x81u8, 0x05]; // need 5 payload bytes
    buf.extend_from_slice(b"hel"); // only 3 here
    match ws_parse_frame(&buf) {
        WsFrameParse::Need(n) => assert_eq!(n, 2),
        other => panic!("got {other:?}"),
    }
}

#[test]
fn parse_fragmented_frame_reports_fin_false() {
    // FIN=0, opcode=text, payload "hi"
    let buf = [0x01u8, 0x02, b'h', b'i'];
    match ws_parse_frame(&buf) {
        WsFrameParse::Frame {
            fin,
            opcode,
            payload,
            ..
        } => {
            assert!(!fin);
            assert_eq!(opcode, 0x1);
            assert_eq!(payload, b"hi");
        }
        other => panic!("got {other:?}"),
    }
}

#[test]
fn parse_continuation_frame_opcode_zero() {
    // FIN=1, opcode=continuation (0x0)
    let buf = [0x80u8, 0x02, b'!', b'!'];
    match ws_parse_frame(&buf) {
        WsFrameParse::Frame { opcode, fin, .. } => {
            assert_eq!(opcode, 0x0);
            assert!(fin);
        }
        other => panic!("got {other:?}"),
    }
}

#[test]
fn parse_rejects_fragmented_control_frame() {
    // FIN=0 with a control opcode (ping=0x9) is illegal per RFC 6455 §5.5.
    let buf = [0x09u8, 0x00];
    assert!(matches!(ws_parse_frame(&buf), WsFrameParse::Error));
}

#[test]
fn parse_rejects_oversize_control_frame() {
    // Control frame payload >125 bytes is illegal.
    let mut buf = vec![0x89u8, 126, 0x00, 0xC8]; // ping with 16-bit len 200
    buf.extend(std::iter::repeat_n(0u8, 200));
    assert!(matches!(ws_parse_frame(&buf), WsFrameParse::Error));
}

// -----------------------------------------------------------------------
// find_bool_field — depth-aware
// -----------------------------------------------------------------------

#[test]
fn find_bool_picks_top_level_only() {
    // Top-level isMuted=true, nested isMuted=false → should pick true.
    let body = r#""isMuted":true,"nested":{"isMuted":false}"#;
    assert_eq!(find_bool_field(body, "isMuted"), Some(true));
}

#[test]
fn find_bool_skips_nested_when_top_absent() {
    // Only nested isMuted exists → should NOT pick it.
    let body = r#""nested":{"isMuted":true}"#;
    assert_eq!(find_bool_field(body, "isMuted"), None);
}

#[test]
fn find_bool_ignores_substring_inside_string_value() {
    // "isMuted" appears as the contents of a string value; not a key.
    let body = r#""label":"isMuted is a property name","other":true"#;
    assert_eq!(find_bool_field(body, "isMuted"), None);
}

#[test]
fn find_bool_skips_non_bool_value() {
    // A field of the same name but whose value isn't a bool must return None
    // rather than mis-coercing.
    let body = r#""isMuted":"true""#;
    assert_eq!(find_bool_field(body, "isMuted"), None);
}
