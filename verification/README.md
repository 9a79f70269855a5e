# hotmic

The decisions behind HotMic, a Windows tray indicator that paints a colored
border around the primary monitor while the camera or microphone is in use,
and that asks Microsoft Teams (through its Local API) whether the user is
muted in a call. The functions in `src/` are verified with Verus against
their contracts, except two small trusted wrappers whose contracts Verus takes
on trust: `text::push_char` (a call of `String::push`) and
`client::utf8_str` (a call of `std::str::from_utf8`). `app/` is the Win32
program around the library.

- `src/appearance.rs`: border colors, DPI scaling, tray icon and tooltip.
- `src/policy.rs`, `src/control.rs`: the off-debounce and the display state
  machine driven by scans, timers and the Enabled toggle.
- `src/overlay.rs`: painted colors and the fade animation.
- `src/teams.rs`: Teams identity, mute-button names, and the fusion of
  registry attribution with the Teams mute state.
- `src/json.rs`: the `meetingUpdate` scanner and credential redaction.
- `src/client.rs`: the Teams Local API client state machine.
- `src/websocket.rs`, `src/base64.rs`, `src/wide.rs`: RFC 6455 framing,
  Base64, UTF-16 and registry values.
- `tests/`: the unit tests.
