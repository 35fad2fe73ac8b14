//! Compare mode: pick two texts (each decrypted by the tip window) and show them side by
//! side. The session moves Off → WaitingFirst → WaitingSecond → ShowingResult.
use vstd::prelude::*;
use crate::state::AppState;
use crate::text::{is_blank, trim, trim_str};

verus! {

pub const COMPARE_TIP_LABEL: &'static str = "compare-tip";
pub const COMPARE_BUBBLE_LABEL: &'static str = "compare-bubble";
pub const COMPARE_TIP_WIDTH: u32 = 280;
pub const COMPARE_TIP_HEIGHT: u32 = 44;
pub const COMPARE_BUBBLE_WIDTH: u32 = 1000;
pub const COMPARE_BUBBLE_HEIGHT: u32 = 600;
pub const TIP_CURSOR_OFFSET: i32 = 18;
pub const TIP_WAIT_FIRST: &'static str = "等待文本选中...";
pub const TIP_WAIT_SECOND: &'static str = "正在等待后续对比文本";
pub const TIP_DECRYPT_FAIL: &'static str = "解密失败请重新选择文本";

/// The two texts shown side by side.
#[derive(Clone)]
pub struct CompareBubblePayload {
    pub left: String,
    pub right: String,
}

impl CompareBubblePayload {
    /// A copy of the payload.
    pub fn duplicate(&self) -> (r: CompareBubblePayload)
        ensures
            r == *self,
    {
        CompareBubblePayload { left: self.left.clone(), right: self.right.clone() }
    }
}

/// Where a compare session stands.
pub enum ComparePhase {
    Off,
    WaitingFirst,
    WaitingSecond { first: String },
    ShowingResult,
}

/// The session: its phase and the result waiting for the bubble window.
pub struct CompareSession {
    pub phase: ComparePhase,
    pub pending: Option<CompareBubblePayload>,
}

impl CompareSession {
    /// No session.
    pub fn new() -> (r: CompareSession)
        ensures
            r.phase is Off,
            r.pending is None,
    {
        CompareSession { phase: ComparePhase::Off, pending: None }
    }
}

/// The session agrees with the active flag, and a result waits only while it is shown.
pub open spec fn compare_wf(active: bool, s: CompareSession) -> bool {
    &&& active == !(s.phase is Off)
    &&& s.pending is Some ==> s.phase is ShowingResult
}

/// What a toggle did.
pub enum CompareToggle {
    /// Compare mode is switched off in the preferences.
    Ignored,
    Started,
    Stopped,
}

/// Start a session: waiting for the first text.
pub fn start(state: &mut AppState, session: &mut CompareSession)
    ensures
        final(state).compare_active,
        final(session).phase is WaitingFirst,
        final(session).pending == old(session).pending,
        final(state).compare_pref_enabled == old(state).compare_pref_enabled,
        compare_wf(old(state).compare_active, *old(session)) && !old(state).compare_active
            ==> compare_wf(final(state).compare_active, *final(session)),
{
    state.compare_active = true;
    session.phase = ComparePhase::WaitingFirst;
}

/// End the session and drop any waiting result.
pub fn stop(state: &mut AppState, session: &mut CompareSession)
    ensures
        !final(state).compare_active,
        final(session).phase is Off,
        final(session).pending is None,
        final(state).compare_pref_enabled == old(state).compare_pref_enabled,
        compare_wf(final(state).compare_active, *final(session)),
{
    state.compare_active = false;
    session.phase = ComparePhase::Off;
    session.pending = None;
}

/// The shortcut or the button: stop a running session, else start one (only while the
/// preference is on).
pub fn toggle(state: &mut AppState, session: &mut CompareSession) -> (r: CompareToggle)
    ensures
        !old(state).compare_pref_enabled ==> r is Ignored && *final(state) == *old(state)
            && *final(session) == *old(session),
        old(state).compare_pref_enabled && old(state).compare_active ==> r is Stopped
            && !final(state).compare_active && final(session).phase is Off
            && final(session).pending is None,
        old(state).compare_pref_enabled && !old(state).compare_active ==> r is Started
            && final(state).compare_active && final(session).phase is WaitingFirst,
        compare_wf(old(state).compare_active, *old(session)) ==> compare_wf(
            final(state).compare_active,
            *final(session),
        ),
{
    if !state.compare_pref_enabled {
        return CompareToggle::Ignored;
    }
    if state.compare_active {
        stop(state, session);
        CompareToggle::Stopped
    } else {
        start(state, session);
        CompareToggle::Started
    }
}

/// The preference: switching it off stops a running session. Returns whether it stopped one.
pub fn apply_pref(state: &mut AppState, session: &mut CompareSession, enabled: bool) -> (r: bool)
    ensures
        final(state).compare_pref_enabled == enabled,
        r == (!enabled && old(state).compare_active),
        r ==> !final(state).compare_active && final(session).phase is Off
            && final(session).pending is None,
        !r ==> final(state).compare_active == old(state).compare_active && *final(session)
            == *old(session),
        compare_wf(old(state).compare_active, *old(session)) ==> compare_wf(
            final(state).compare_active,
            *final(session),
        ),
{
    state.compare_pref_enabled = enabled;
    if !enabled && state.compare_active {
        stop(state, session);
        return true;
    }
    false
}

/// The tip is shown while a text is awaited.
pub fn phase_shows_tip(session: &CompareSession) -> (r: bool)
    ensures
        r == (session.phase is WaitingFirst || session.phase is WaitingSecond),
{
    match session.phase {
        ComparePhase::WaitingFirst => true,
        ComparePhase::WaitingSecond { .. } => true,
        _ => false,
    }
}

/// A captured selection goes to the tip window for decryption when it is not blank and a
/// text is awaited; it is then remembered as the last clipboard text.
pub fn accept_capture(state: &mut AppState, session: &CompareSession, text: &str) -> (r: bool)
    ensures
        r == (trim(text@).len() != 0 && old(state).compare_active && (session.phase is WaitingFirst
            || session.phase is WaitingSecond)),
        r ==> final(state).last_clipboard@ == text@,
        !r ==> *final(state) == *old(state),
        final(state).compare_active == old(state).compare_active,
{
    if is_blank(text) || !state.compare_active || !phase_shows_tip(session) {
        return false;
    }
    state.last_clipboard = String::from_str(text);
    true
}

/// What a decrypted text led to.
pub enum ReportOutcome {
    Ignored,
    /// The first text is in: ask for the second.
    AskSecond,
    /// Both texts are in: show them.
    ShowBubble(CompareBubblePayload),
}

/// A decrypted text (trimmed; blank ones are ignored, as is any text outside a session): the
/// first one is kept and the second is asked for; the second one completes the pair, which
/// waits for the bubble window.
pub fn report_plain(state: &AppState, session: &mut CompareSession, plain: &str) -> (r: ReportOutcome)
    ensures
        !state.compare_active || trim(plain@).len() == 0 ==> r is Ignored && *final(session)
            == *old(session),
        state.compare_active && trim(plain@).len() != 0 ==> match old(session).phase {
            ComparePhase::WaitingFirst => r is AskSecond && (final(session).phase matches ComparePhase::WaitingSecond {
                first,
            } && first@ == trim(plain@)) && final(session).pending == old(session).pending,
            ComparePhase::WaitingSecond { first } => (r matches ReportOutcome::ShowBubble(p)
                && p.left@ == first@ && p.right@ == trim(plain@)) && final(session).phase is ShowingResult
                && final(session).pending == Some(r->ShowBubble_0),
            _ => r is Ignored && *final(session) == *old(session),
        },
        compare_wf(state.compare_active, *old(session)) ==> compare_wf(
            state.compare_active,
            *final(session),
        ),
{
    if !state.compare_active {
        return ReportOutcome::Ignored;
    }
    if is_blank(plain) {
        return ReportOutcome::Ignored;
    }
    let plain = trim_str(plain);
    match &session.phase {
        ComparePhase::WaitingFirst => {
            session.phase = ComparePhase::WaitingSecond { first: plain };
            ReportOutcome::AskSecond
        },
        ComparePhase::WaitingSecond { first } => {
            let payload = CompareBubblePayload { left: first.clone(), right: plain };
            session.phase = ComparePhase::ShowingResult;
            session.pending = Some(payload.duplicate());
            ReportOutcome::ShowBubble(payload)
        },
        _ => ReportOutcome::Ignored,
    }
}

/// A failed decryption shows the failure tip while a session runs.
pub fn report_fail(state: &AppState) -> (r: bool)
    ensures
        r == state.compare_active,
{
    state.compare_active
}

/// The tip follows the cursor while a text is awaited and the tip is visible.
pub fn tip_follows_cursor(state: &AppState, session: &CompareSession, tip_visible: bool) -> (r: bool)
    ensures
        r == (state.compare_active && (session.phase is WaitingFirst || session.phase is WaitingSecond)
            && tip_visible),
{
    state.compare_active && phase_shows_tip(session) && tip_visible
}

/// The result waiting for the bubble window.
pub fn get_pending_compare_bubble(session: &CompareSession) -> (r: Option<CompareBubblePayload>)
    ensures
        r == session.pending,
{
    match &session.pending {
        Some(p) => Some(p.duplicate()),
        None => None,
    }
}

/// The bubble is closed: the waiting result is dropped.
pub fn hide_compare_bubble(session: &mut CompareSession)
    ensures
        final(session).pending is None,
        final(session).phase == old(session).phase,
        forall|active: bool| compare_wf(active, *old(session)) ==> compare_wf(active, *final(session)),
{
    session.pending = None;
}

} // verus!
