use hotmic::appearance::icon_slot;
use hotmic::control::{ApplyOutcome, DisplayState, ScanStep};
use hotmic::overlay::{border_fits, FadeTick, OverlayState};
use hotmic::teams::{subkey_is_teams, AppUsage, DeviceState};
use hotmic::wide::{quote_command, tip_units};
use hotmic::{
    base64_encode, extract_object_value, find_bool_field, is_teams_subkey, parse_meeting_update,
    parse_teams_mic_button_name, redact_secrets, should_update_tray_icon, tray_appearance,
    wide_chars, ws_build_close_frame, ws_build_text_frame, ws_parse_frame, WsFrameParse,
    COLOR_BLUE, COLOR_PURPLE, COLOR_RED, ICON_IDLE,
};

fn expect_frame(buf: &[u8]) -> (bool, u8, Vec<u8>, usize) {
    match ws_parse_frame(buf) {
        WsFrameParse::Frame { fin, opcode, payload, consumed } => (fin, opcode, payload, consumed),
        other => panic!("expected a frame, got {other:?}"),
    }
}

#[test]
fn text_frames_round_trip_in_every_length_encoding() {
    for len in [0usize, 1, 125, 126, 200, 65535, 65536, 70_000] {
        let payload: Vec<u8> = (0..len).map(|i| (i % 251) as u8).collect();
        let f = ws_build_text_frame(&payload, [0xAA, 0xBB, 0xCC, 0xDD]);
        let (fin, opcode, p, consumed) = expect_frame(&f);
        assert!(fin);
        assert_eq!(opcode, 1);
        assert_eq!(p, payload);
        assert_eq!(consumed, f.len());
    }
}

#[test]
fn close_frame_round_trips() {
    let f = ws_build_close_frame([7, 7, 7, 7]);
    let (fin, opcode, p, consumed) = expect_frame(&f);
    assert!(fin);
    assert_eq!(opcode, 8);
    assert!(p.is_empty());
    assert_eq!(consumed, 6);
}

#[test]
fn masking_applies_the_key_cyclically() {
    let f = ws_build_text_frame(&[0u8; 6], [1, 2, 3, 4]);
    assert_eq!(&f[6..], &[1, 2, 3, 4, 1, 2]);
}

#[test]
fn parse_asks_for_missing_mask_and_extended_length() {
    match ws_parse_frame(&[0x81, 0x85, 1, 2]) {
        WsFrameParse::Need(n) => assert_eq!(n, 2),
        other => panic!("got {other:?}"),
    }
    match ws_parse_frame(&[0x81, 127, 0, 0]) {
        WsFrameParse::Need(n) => assert_eq!(n, 6),
        other => panic!("got {other:?}"),
    }
}

#[test]
fn parse_rejects_length_beyond_memory() {
    let buf = [0x82u8, 127, 0xFF, 0xFF, 0xFF, 0xFF, 0xFF, 0xFF, 0xFF, 0xFF];
    assert!(matches!(ws_parse_frame(&buf), WsFrameParse::Error));
}

#[test]
fn parse_consumes_only_the_first_frame() {
    let mut buf = vec![0x81u8, 0x01, b'a'];
    buf.extend_from_slice(&[0x81, 0x01, b'b']);
    let (_, _, p, consumed) = expect_frame(&buf);
    assert_eq!(p, b"a");
    assert_eq!(consumed, 3);
}

#[test]
fn base64_length_is_four_per_started_group() {
    for n in 0..20usize {
        let input = vec![0x5Au8; n];
        let out = base64_encode(&input);
        assert_eq!(out.len(), 4 * n.div_ceil(3));
        let pads = out.chars().rev().take_while(|c| *c == '=').count();
        assert_eq!(pads, [0, 2, 1][n % 3]);
    }
}

#[test]
fn base64_uses_the_whole_alphabet() {
    let bytes: Vec<u8> = vec![0x00, 0x10, 0x83, 0x10, 0x51, 0x87, 0x20, 0x92, 0x8B, 0x30, 0xD3,
        0x8F, 0x41, 0x14, 0x93, 0x51, 0x55, 0x97, 0x61, 0x96, 0x9B, 0x71, 0xD7, 0x9F, 0x82, 0x18,
        0xA3, 0x92, 0x59, 0xA7, 0xA2, 0x9A, 0xAB, 0xB2, 0xDB, 0xAF, 0xC3, 0x1C, 0xB3, 0xD3, 0x5D,
        0xB7, 0xE3, 0x9E, 0xBB, 0xF3, 0xDF, 0xBF];
    assert_eq!(
        base64_encode(&bytes),
        "ABCDEFGHIJKLMNOPQRSTUVWXYZabcdefghijklmnopqrstuvwxyz0123456789+/"
    );
}

#[test]
fn redaction_is_identity_on_text_without_credentials() {
    let s = "GET /?protocol-version=2.0.0&mytoken=keep&app=HotMic \"refresh\": \"x\"";
    assert_eq!(redact_secrets(s), s);
}

#[test]
fn redaction_keeps_key_without_string_value() {
    assert_eq!(redact_secrets(r#""tokenRefresh" : 42"#), r#""tokenRefresh":42"#);
    assert_eq!(redact_secrets(r#""tokenRefresh""#), r#""tokenRefresh""#);
}

#[test]
fn redaction_handles_several_secrets_and_non_ascii() {
    let s = "é?token=a&token=b&x=1 {\"tokenRefresh\":\"s\\\"é\"} ü";
    assert_eq!(
        redact_secrets(s),
        "é?token=<redacted>&token=<redacted>&x=1 {\"tokenRefresh\":\"<redacted>\"} ü"
    );
}

#[test]
fn redaction_skips_line_breaks_around_the_colon() {
    assert_eq!(
        redact_secrets("{\"tokenRefresh\"\n:\r\n\"abc\"}"),
        "{\"tokenRefresh\":\"<redacted>\"}"
    );
    assert_eq!(
        redact_secrets("{\"tokenRefresh\" \t\r\n:\n \"abc\",\"x\":1}"),
        "{\"tokenRefresh\":\"<redacted>\",\"x\":1}"
    );
}

#[test]
fn redacted_token_refresh_does_not_depend_on_its_value() {
    let a = redact_secrets("log {\"tokenRefresh\"\r\n :\n\"first-secret\",\"k\":2}");
    let b = redact_secrets("log {\"tokenRefresh\"\r\n :\n\"x\",\"k\":2}");
    assert_eq!(a, b);
    assert_eq!(a, "log {\"tokenRefresh\":\"<redacted>\",\"k\":2}");
}

#[test]
fn redacted_query_token_does_not_depend_on_its_value() {
    let a = redact_secrets("ws://127.0.0.1:8124?protocol-version=2.0.0&token=abc-123&app=HotMic");
    let b = redact_secrets("ws://127.0.0.1:8124?protocol-version=2.0.0&token=&app=HotMic");
    assert_eq!(a, b);
    assert_eq!(a, "ws://127.0.0.1:8124?protocol-version=2.0.0&token=<redacted>&app=HotMic");
    assert_eq!(redact_secrets("/?token=one"), redact_secrets("/?token=two-longer"));
}

#[test]
fn object_value_is_the_body_between_braces() {
    let json = r#"{"a":1,"meetingState": {"x":{"y":"}"},"z":true},"b":2}"#;
    assert_eq!(
        extract_object_value(json, "meetingState").as_deref(),
        Some(r#""x":{"y":"}"},"z":true"#)
    );
    assert_eq!(extract_object_value(r#"{"meetingState":1}"#, "meetingState"), None);
    assert_eq!(extract_object_value(r#"{"meetingState":{"a":1"#, "meetingState"), None);
    assert_eq!(extract_object_value("{}", "meetingState"), None);
    // The key must be followed directly by its colon.
    assert_eq!(extract_object_value(r#"{"meetingState" :{"a":1}}"#, "meetingState"), None);
}

#[test]
fn bool_field_tolerates_whitespace_and_arrays() {
    assert_eq!(find_bool_field(" \"isMuted\" :\n false", "isMuted"), Some(false));
    assert_eq!(find_bool_field(r#""list":[{"isMuted":true}],"isMuted":false"#, "isMuted"), Some(false));
    assert_eq!(find_bool_field(r#""isMuted":null"#, "isMuted"), None);
}

#[test]
fn bool_field_needs_a_bare_literal() {
    assert_eq!(find_bool_field(r#""isMuted":trueish"#, "isMuted"), None);
    assert_eq!(find_bool_field(r#""isMuted":falsey,"x":1"#, "isMuted"), None);
    assert_eq!(find_bool_field(r#""isMuted":true}"#, "isMuted"), Some(true));
    assert_eq!(find_bool_field("\"isMuted\":true\n", "isMuted"), Some(true));
    assert_eq!(find_bool_field(r#""isMuted":false]"#, "isMuted"), Some(false));
    assert_eq!(find_bool_field(r#""isMuted":true,"x":1"#, "isMuted"), Some(true));
    assert_eq!(find_bool_field(r#""isMuted":true"#, "isMuted"), Some(true));
}

#[test]
fn meeting_update_reads_only_meeting_state() {
    let m = parse_meeting_update(r#"{"meetingState":{"isInMeeting":false,"isMuted":true}}"#);
    assert_eq!(m.in_meeting, Some(false));
    assert_eq!(m.is_muted, Some(true));
}

#[test]
fn mic_button_name_ignores_case_and_leading_space() {
    assert_eq!(parse_teams_mic_button_name("  UNMUTE"), Some(true));
    assert_eq!(parse_teams_mic_button_name("\u{2003}mute\tnow"), Some(false));
    assert_eq!(parse_teams_mic_button_name("Muted"), None);
    assert_eq!(parse_teams_mic_button_name("   "), None);
}

#[test]
fn teams_subkey_match_is_exact_for_the_package_name() {
    assert!(!is_teams_subkey("msteams_8wekyb3d8bbwe"));
    assert!(is_teams_subkey("x#MICROSOFT#teams#Current#TEAMS.EXE#y"));
}

#[test]
fn disabled_tray_always_idle() {
    for cam in [false, true] {
        for mic in [false, true] {
            let (icon, tip) = tray_appearance(false, cam, mic);
            assert_eq!(icon, ICON_IDLE);
            assert_eq!(tip, "HotMic (disabled)");
        }
    }
}

#[test]
fn tray_update_compares_tips_by_content() {
    let a = String::from("HotMic");
    assert!(!should_update_tray_icon(1, &a, 1, "HotMic", false));
}

#[test]
fn wide_chars_of_mixed_text() {
    assert_eq!(wide_chars("a\u{10FFFF}"), vec![0x61, 0xDBFF, 0xDFFF, 0]);
}

#[test]
fn tooltip_is_truncated_before_its_terminator() {
    assert_eq!(tip_units("HotMic", 4), vec![b'H' as u16, b'o' as u16, b't' as u16, 0]);
    assert_eq!(tip_units("Hi", 128), vec![b'H' as u16, b'i' as u16, 0]);
    assert_eq!(tip_units("Hi", 1), vec![0]);
}

#[test]
fn run_key_command_is_quoted() {
    assert_eq!(quote_command(r"C:\dist\hotmic.exe"), "\"C:\\dist\\hotmic.exe\"");
}

#[test]
fn icon_slot_clamps() {
    assert_eq!(icon_slot(0), 0);
    assert_eq!(icon_slot(1), 0);
    assert_eq!(icon_slot(4), 3);
    assert_eq!(icon_slot(9), 3);
}

#[test]
fn fade_in_and_out_take_eight_ticks() {
    let mut o = OverlayState::new();
    assert!(o.set_colors(true, false));
    assert!(!o.set_colors(true, true));
    let mut ticks = 0;
    while let FadeTick::Alpha(_) = o.fade_tick() {
        ticks += 1;
    }
    assert_eq!(ticks, 8);
    assert_eq!(o.current_alpha, 255);
    assert_eq!(o.border_color(), Some(COLOR_PURPLE));
    o.set_colors(false, false);
    assert_eq!(o.border_color(), Some(COLOR_PURPLE));
    let mut ticks = 0;
    loop {
        match o.fade_tick() {
            FadeTick::Alpha(_) => ticks += 1,
            FadeTick::Finished { hide } => {
                assert!(hide);
                break;
            }
        }
    }
    assert_eq!(ticks, 8);
    assert!(!o.shown);
    assert_eq!(o.border_color(), None);
}

#[test]
fn force_hide_clears_everything() {
    let mut o = OverlayState::new();
    o.set_colors(false, true);
    assert_eq!(o.border_color(), Some(COLOR_RED));
    o.force_hide();
    assert_eq!(o, OverlayState::new());
    o.set_colors(true, false);
    assert_eq!(o.border_color(), Some(COLOR_BLUE));
}

#[test]
fn border_needs_room_for_both_corners() {
    assert!(border_fits(100, 100, 12));
    assert!(!border_fits(24, 100, 12));
    assert!(!border_fits(100, 24, 12));
    assert!(border_fits(i32::MAX, i32::MAX, i32::MAX / 2));
}

#[test]
fn off_transition_is_debounced_then_committed() {
    let mut d = DisplayState::new();
    assert_eq!(d.apply((true, false), false, false), ApplyOutcome::Painted);
    assert!(d.needs_off_debounce((false, false), false));
    assert_eq!(d.apply((false, false), false, true), ApplyOutcome::Deferred);
    assert!(d.pending_off);
    assert_eq!(d.last_visible, (true, false));
    assert_eq!(d.scan_step((false, false)), ScanStep::Wait);
    assert!(!d.timer_commits(false));
    assert!(d.timer_commits(true));
    d.cancel_pending();
    assert!(!d.needs_off_debounce((false, false), true));
    assert_eq!(d.apply((false, false), true, false), ApplyOutcome::Painted);
    assert!(!d.pending_off);
    assert_eq!(d.last_visible, (false, false));
}

#[test]
fn reactivation_cancels_a_pending_off() {
    let mut d = DisplayState::new();
    d.apply((false, true), false, false);
    d.apply((false, false), false, true);
    assert_eq!(d.scan_step((false, true)), ScanStep::CancelThenApply);
}

#[test]
fn unarmed_timer_commits_immediately() {
    let mut d = DisplayState::new();
    d.apply((true, true), false, false);
    assert_eq!(d.apply((false, false), false, false), ApplyOutcome::Painted);
    assert_eq!(d.last_visible, (false, false));
}

#[test]
fn disabling_hides_and_stops_the_timer() {
    let mut d = DisplayState::new();
    d.apply((true, false), false, false);
    d.apply((false, false), false, true);
    d.toggle_enabled();
    assert_eq!(d.apply((true, false), false, false), ApplyOutcome::Disabled { kill_timer: true });
    assert_eq!(d.last_visible, (false, false));
    assert!(!d.pending_off);
}

#[test]
fn turning_on_is_painted_at_once() {
    let mut d = DisplayState::new();
    assert!(!d.needs_off_debounce((true, false), false));
    assert_eq!(d.apply((true, false), false, true), ApplyOutcome::Painted);
    assert_eq!(d.last_visible, (true, false));
    assert_eq!(d.apply((true, true), false, true), ApplyOutcome::Painted);
    assert_eq!(d.last_visible, (true, true));
}

#[test]
fn usage_is_attributed_below_teams_subkeys() {
    assert!(subkey_is_teams(false, "MSTeams_8wekyb3d8bbwe"));
    assert!(subkey_is_teams(true, "Microsoft.WindowsCamera_8wekyb3d8bbwe"));
    assert!(!subkey_is_teams(false, "Microsoft.WindowsCamera_8wekyb3d8bbwe"));

    let mut found = AppUsage::of_key(false, false);
    assert_eq!(found, AppUsage::none());
    assert!(!found.any());
    found.add(AppUsage::of_key(true, true));
    assert_eq!(found, AppUsage { non_teams: false, teams: true });
    found.add(AppUsage::of_key(true, false));
    assert_eq!(found, AppUsage { non_teams: true, teams: true });
    assert!(found.any());
}

#[test]
fn device_state_unites_both_roots() {
    let none = AppUsage::none();
    let teams = AppUsage { non_teams: false, teams: true };
    let other = AppUsage { non_teams: true, teams: false };
    assert_eq!(
        DeviceState::from_usage(none, teams, teams, other),
        DeviceState { cam: true, mic_non_teams: true, mic_teams: true }
    );
    assert_eq!(DeviceState::from_usage(none, none, none, none), DeviceState::idle());
    assert_eq!(
        DeviceState::from_usage(none, none, none, teams),
        DeviceState { cam: false, mic_non_teams: false, mic_teams: true }
    );
}

#[test]
fn base64_of_whole_groups_then_more_is_the_concatenation() {
    let a = b"Man".to_vec();
    let b = b"ifest!".to_vec();
    let ab: Vec<u8> = [a.clone(), b.clone()].concat();
    assert_eq!(base64_encode(&ab), base64_encode(&a) + &base64_encode(&b));
    assert_eq!(base64_encode(&ab), "TWFuaWZlc3Qh");
    let c = b"x".to_vec();
    let ac: Vec<u8> = [a.clone(), c.clone()].concat();
    assert_eq!(base64_encode(&ac), base64_encode(&a) + &base64_encode(&c));
}

#[test]
fn a_frame_depends_only_on_the_bytes_it_consumed() {
    let f = ws_build_text_frame(b"hello", [1, 2, 3, 4]);
    let whole = ws_parse_frame(&f);
    let mut longer = f.clone();
    longer.extend_from_slice(&[0x81, 0x05, 9, 9]);
    assert_eq!(ws_parse_frame(&longer), whole);
    let (_, _, _, consumed) = expect_frame(&longer);
    assert_eq!(consumed, f.len());
    assert_eq!(ws_parse_frame(&longer[..consumed]), whole);
}

#[test]
fn appending_less_than_needed_still_needs_more() {
    let f = ws_build_text_frame(&[7u8; 300], [1, 2, 3, 4]);
    for cut in 0..f.len() {
        let n = match ws_parse_frame(&f[..cut]) {
            WsFrameParse::Need(n) => n,
            other => panic!("expected Need at {cut}, got {other:?}"),
        };
        assert!(n >= 1);
        for extra in 0..n.min(f.len() - cut) {
            assert!(matches!(ws_parse_frame(&f[..cut + extra]), WsFrameParse::Need(_)));
        }
    }
}
