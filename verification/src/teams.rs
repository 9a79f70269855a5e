//! Microsoft Teams identity, mute-state sources, and the fusion of registry
//! attribution with the Teams mute state.

use vstd::prelude::*;
use crate::text::{
    ascii_lower, chars_eq, chars_of, eq_ignore_ascii_case, find_from, lower_chars, occurs_at, str_eq,
};

verus! {

/// A registry subkey name belongs to Microsoft Teams when it is the new
/// Teams package name, or (case-insensitively) holds the classic install
/// path `...#Microsoft#Teams#current#Teams.exe`.
pub open spec fn spec_is_teams_subkey(name: Seq<char>) -> bool {
    ||| name == "MSTeams_8wekyb3d8bbwe"@
    ||| exists|i: int| occurs_at(ascii_lower(name), "#microsoft#teams#current#teams.exe"@, i)
}

/// True if a CapabilityAccessManager subkey name belongs to Microsoft Teams.
/// Edge and WebView2 hosts are not counted as Teams.
pub fn is_teams_subkey(name: &str) -> (r: bool)
    ensures
        r == spec_is_teams_subkey(name@),
{
    if str_eq(name, "MSTeams_8wekyb3d8bbwe") {
        return true;
    }
    let lower = lower_chars(&chars_of(name));
    let needle = chars_of("#microsoft#teams#current#teams.exe");
    match find_from(&lower, &needle, 0) {
        Some(_) => true,
        None => false,
    }
}

/// White space as Unicode defines it (the `White_Space` property), which is
/// what `char::is_whitespace` tests.
pub open spec fn is_unicode_whitespace(c: char) -> bool {
    ||| ('\u{9}' <= c <= '\u{D}')
    ||| c == ' '
    ||| c == '\u{85}'
    ||| c == '\u{A0}'
    ||| c == '\u{1680}'
    ||| ('\u{2000}' <= c <= '\u{200A}')
    ||| c == '\u{2028}'
    ||| c == '\u{2029}'
    ||| c == '\u{202F}'
    ||| c == '\u{205F}'
    ||| c == '\u{3000}'
}

/// Whether `c` is Unicode white space.
fn is_whitespace(c: char) -> (r: bool)
    ensures
        r == is_unicode_whitespace(c),
{
    ('\u{9}' <= c && c <= '\u{D}') || c == ' ' || c == '\u{85}' || c == '\u{A0}' || c
        == '\u{1680}' || ('\u{2000}' <= c && c <= '\u{200A}') || c == '\u{2028}' || c
        == '\u{2029}' || c == '\u{202F}' || c == '\u{205F}' || c == '\u{3000}'
}

/// The first index at or after `i` that holds white space exactly when
/// `ws` says so (or the end of `s`).
pub open spec fn skip_while_ws(s: Seq<char>, i: int, ws: bool) -> int
    decreases s.len() - i,
{
    if 0 <= i < s.len() && is_unicode_whitespace(s[i]) == ws {
        skip_while_ws(s, i + 1, ws)
    } else {
        i
    }
}

/// The first white-space separated word of `s`, as `split_whitespace`
/// yields it first.
pub open spec fn first_word(s: Seq<char>) -> Option<Seq<char>> {
    let start = skip_while_ws(s, 0, true);
    if start >= s.len() {
        None
    } else {
        Some(s.subrange(start, skip_while_ws(s, start, false)))
    }
}

/// The mute state that the accessible name of Teams' microphone button
/// reports: the button names the action it performs, so "Unmute" means
/// muted and "Mute" means live (first word, ASCII case ignored).
pub open spec fn spec_mic_button_state(name: Seq<char>) -> Option<bool> {
    match first_word(name) {
        None => None,
        Some(w) => if eq_ignore_ascii_case(w, "unmute"@) {
            Some(true)
        } else if eq_ignore_ascii_case(w, "mute"@) {
            Some(false)
        } else {
            None
        },
    }
}

/// The end of the run at `i` of characters whose white-space status is `ws`.
pub(crate) fn skip_run(s: &Vec<char>, i: usize, ws: bool) -> (r: usize)
    requires
        i <= s@.len(),
    ensures
        r == skip_while_ws(s@, i as int, ws),
        i <= r <= s@.len(),
    decreases s@.len() - i,
{
    if i < s.len() && is_whitespace(s[i]) == ws {
        skip_run(s, i + 1, ws)
    } else {
        i
    }
}

/// The characters `s[from..to]`.
pub(crate) fn slice_chars(s: &Vec<char>, from: usize, to: usize) -> (r: Vec<char>)
    requires
        from <= to <= s@.len(),
    ensures
        r@ == s@.subrange(from as int, to as int),
{
    let mut out: Vec<char> = Vec::new();
    let mut i: usize = from;
    while i < to
        invariant
            from <= i <= to <= s@.len(),
            out@ == s@.subrange(from as int, i as int),
        decreases to - i,
    {
        out.push(s[i]);
        assert(s@.subrange(from as int, i + 1) =~= s@.subrange(from as int, i as int).push(
            s@[i as int],
        ));
        i = i + 1;
    }
    out
}

/// Interpret the accessible name of Teams' local microphone button.
pub fn parse_teams_mic_button_name(name: &str) -> (r: Option<bool>)
    ensures
        r == spec_mic_button_state(name@),
{
    let chars = chars_of(name);
    let start = skip_run(&chars, 0, true);
    if start >= chars.len() {
        return None;
    }
    let end = skip_run(&chars, start, false);
    let word = lower_chars(&slice_chars(&chars, start, end));
    let unmute = lower_chars(&chars_of("unmute"));
    let mute = lower_chars(&chars_of("mute"));
    if chars_eq(&word, &unmute) {
        Some(true)
    } else if chars_eq(&word, &mute) {
        Some(false)
    } else {
        None
    }
}

/// The combined state of the microphone buttons of several Teams windows:
/// live if any says live, muted only if there is one and all say muted,
/// unknown otherwise.
pub open spec fn spec_combine_states(states: Seq<Option<bool>>) -> Option<bool> {
    if exists|i: int| 0 <= i < states.len() && states[i] == Some(false) {
        Some(false)
    } else if states.len() > 0 && forall|i: int| 0 <= i < states.len() ==> states[i] == Some(true) {
        Some(true)
    } else {
        None
    }
}

/// The combination fails safe: it reports muted only when there is at least
/// one window and every window reports muted (so never for no windows), and
/// live exactly when some window reports live.
pub proof fn lemma_combine_muted_needs_every_window(states: Seq<Option<bool>>)
    ensures
        spec_combine_states(states) == Some(true) ==> states.len() > 0 && forall|i: int|
            0 <= i < states.len() ==> states[i] == Some(true),
        (spec_combine_states(states) == Some(false)) == exists|i: int|
            0 <= i < states.len() && states[i] == Some(false),
        states.len() == 0 ==> spec_combine_states(states) is None,
{
}

/// Combine microphone-button states from multiple Teams windows. A live
/// result wins conflicts so stale duplicate windows can never hide the border.
pub fn combine_teams_mic_button_states(states: &[Option<bool>]) -> (r: Option<bool>)
    ensures
        r == spec_combine_states(states@),
        r == Some(true) ==> states@.len() > 0 && forall|i: int|
            0 <= i < states@.len() ==> states@[i] == Some(true),
        (r == Some(false)) == exists|i: int| 0 <= i < states@.len() && states@[i] == Some(false),
        states@.len() == 0 ==> r is None,
{
    proof {
        lemma_combine_muted_needs_every_window(states@);
    }
    let n = states.len();
    let mut any_live = false;
    let mut all_muted = true;
    let mut i: usize = 0;
    while i < n
        invariant
            n == states@.len(),
            i <= n,
            any_live == (exists|j: int| 0 <= j < i && states@[j] == Some(false)),
            all_muted == (forall|j: int| 0 <= j < i ==> states@[j] == Some(true)),
        decreases n - i,
    {
        match states[i] {
            Some(false) => {
                any_live = true;
                all_muted = false;
            },
            Some(true) => {},
            None => {
                all_muted = false;
            },
        }
        i = i + 1;
    }
    if any_live {
        Some(false)
    } else if n > 0 && all_muted {
        Some(true)
    } else {
        None
    }
}

/// The Teams mute state: an authoritative Local API state wins; otherwise,
/// only while Teams holds the microphone, the UI Automation reading counts,
/// and any unknown fails safe to "not muted".
pub fn resolve_teams_muted<F>(local_api_muted: Option<bool>, teams_active: bool, ui_automation_muted: F) -> (r: bool) where
    F: FnOnce() -> Option<bool>,

    requires
        local_api_muted is None && teams_active ==> call_requires(ui_automation_muted, ()),
    ensures
        local_api_muted matches Some(m) ==> r == m,
        local_api_muted is None && !teams_active ==> !r,
        local_api_muted is None && teams_active ==> exists|ui: Option<bool>|
            call_ensures(ui_automation_muted, (), ui) && r == (ui == Some(true)),
{
    match local_api_muted {
        Some(muted) => muted,
        None => if teams_active {
            let ui = ui_automation_muted();
            match ui {
                Some(m) => m,
                None => false,
            }
        } else {
            false
        },
    }
}

/// Final mic-show decision: on whenever a non-Teams app holds the mic, and
/// for Teams only while it is not known to be muted.
pub fn mic_should_show(non_teams_active: bool, teams_active: bool, teams_muted_now: bool) -> (r:
    bool)
    ensures
        r == (non_teams_active || (teams_active && !teams_muted_now)),
{
    non_teams_active || (teams_active && !teams_muted_now)
}

/// Visible (camera, microphone) after fusing registry state with the Teams
/// mute state; the camera is never suppressed by Teams' microphone state.
pub fn visible_devices(
    cam_active: bool,
    mic_non_teams_active: bool,
    mic_teams_active: bool,
    teams_muted_now: bool,
) -> (r: (bool, bool))
    ensures
        r.0 == cam_active,
        r.1 == (mic_non_teams_active || (mic_teams_active && !teams_muted_now)),
{
    (cam_active, mic_should_show(mic_non_teams_active, mic_teams_active, teams_muted_now))
}

/// Conflicting Teams windows fail safe: one window whose button reads
/// "Mute" (microphone live) makes the combined state live, whatever the
/// others report.
pub proof fn lemma_live_window_wins(states: Seq<Option<bool>>, i: int)
    requires
        0 <= i < states.len(),
        states[i] == Some(false),
    ensures
        spec_combine_states(states) == Some(false),
{
}

/// Apart from the exact package name, whether a subkey names Teams depends
/// only on its letters up to ASCII case.
pub proof fn lemma_teams_match_ignores_case(a: Seq<char>, b: Seq<char>)
    requires
        ascii_lower(a) == ascii_lower(b),
        a != "MSTeams_8wekyb3d8bbwe"@,
        b != "MSTeams_8wekyb3d8bbwe"@,
    ensures
        spec_is_teams_subkey(a) == spec_is_teams_subkey(b),
{
}

/// Device usage found below a consent-store key, split by whether the app
/// that uses the device is Microsoft Teams.
#[derive(Clone, Copy, Debug, PartialEq, Eq, Structural)]
pub struct AppUsage {
    pub non_teams: bool,
    pub teams: bool,
}

impl AppUsage {
    /// No usage at all.
    pub fn none() -> (r: AppUsage)
        ensures
            !r.non_teams,
            !r.teams,
    {
        AppUsage { non_teams: false, teams: false }
    }

    /// The usage one key records by itself: when the key is in use, the use
    /// is Teams' exactly when the key lies below a Teams subkey.
    pub fn of_key(in_use: bool, below_teams: bool) -> (r: AppUsage)
        ensures
            r.teams == (in_use && below_teams),
            r.non_teams == (in_use && !below_teams),
    {
        AppUsage { non_teams: in_use && !below_teams, teams: in_use && below_teams }
    }

    /// Whether any app uses the device.
    pub fn any(self) -> (r: bool)
        ensures
            r == (self.non_teams || self.teams),
    {
        self.non_teams || self.teams
    }

    /// Adds the usage found below another key.
    pub fn add(&mut self, other: AppUsage)
        ensures
            final(self).non_teams == (old(self).non_teams || other.non_teams),
            final(self).teams == (old(self).teams || other.teams),
    {
        self.non_teams = self.non_teams || other.non_teams;
        self.teams = self.teams || other.teams;
    }
}

/// Whether usage below a subkey is Teams': the parent already lies below a
/// Teams subkey, or the subkey's own name belongs to Teams.
pub fn subkey_is_teams(parent_is_teams: bool, sub_name: &str) -> (r: bool)
    ensures
        r == (parent_is_teams || spec_is_teams_subkey(sub_name@)),
{
    parent_is_teams || is_teams_subkey(sub_name)
}

/// What a scan of the consent stores finds: whether the camera is in use,
/// and whether the microphone is in use by an app other than Teams and by
/// Teams.
#[derive(Clone, Copy, Debug, PartialEq, Eq, Structural)]
pub struct DeviceState {
    pub cam: bool,
    pub mic_non_teams: bool,
    pub mic_teams: bool,
}

impl DeviceState {
    /// No device in use.
    pub fn idle() -> (r: DeviceState)
        ensures
            !r.cam,
            !r.mic_non_teams,
            !r.mic_teams,
    {
        DeviceState { cam: false, mic_non_teams: false, mic_teams: false }
    }

    /// Combines the usage found under the current-user and the machine
    /// consent stores: the camera is in use when any app uses it under either
    /// root, and each microphone attribution is the union of both roots.
    pub fn from_usage(
        cam_user: AppUsage,
        cam_machine: AppUsage,
        mic_user: AppUsage,
        mic_machine: AppUsage,
    ) -> (r: DeviceState)
        ensures
            r.cam == (cam_user.non_teams || cam_user.teams || cam_machine.non_teams
                || cam_machine.teams),
            r.mic_non_teams == (mic_user.non_teams || mic_machine.non_teams),
            r.mic_teams == (mic_user.teams || mic_machine.teams),
    {
        DeviceState {
            cam: cam_user.any() || cam_machine.any(),
            mic_non_teams: mic_user.non_teams || mic_machine.non_teams,
            mic_teams: mic_user.teams || mic_machine.teams,
        }
    }
}

} // verus!
