//! What the front end's commands decide over the application state: opening a text for
//! encryption or decryption, the clipboard prompt, the badge size, the stub crypto call and
//! the pending update.
use vstd::prelude::*;
use crate::app_update::UpdateCheckResult;
use crate::state::{AppState, ClipboardCandidate, DEFAULT_BADGE_SIZE, normalize_badge_size, valid_badge_size};
use crate::text::{append_str, is_blank, str_eq, trim, trim_str};
use crate::windows::{CryptoHint, SHORT_TEXT_BUBBLE_LIMIT, is_short_bubble_text};

verus! {

/// A request to the crypto backend.
pub struct CryptoRequest {
    pub mode: String,
    pub algorithm: String,
    pub key_id: Option<String>,
    pub iv_id: Option<String>,
    pub plaintext: Option<String>,
    pub ciphertext: Option<String>,
}

/// The crypto backend's answer.
pub struct CryptoResponse {
    pub ok: bool,
    pub result: String,
}

pub open spec fn or_empty(o: Option<String>) -> Seq<char> {
    match o {
        Some(s) => s@,
        None => Seq::empty(),
    }
}

/// The crypto backend is a stub: every request fails with a message naming the mode and the
/// texts it was given.
pub fn crypto_transform(request: CryptoRequest) -> (r: Result<CryptoResponse, String>)
    ensures
        r matches Err(e) && e@ == "crypto_transform is a stub (mode="@ + request.mode@
            + ", plaintext="@ + or_empty(request.plaintext) + ", ciphertext="@ + or_empty(
            request.ciphertext,
        ) + ")"@,
{
    let mut m = String::from_str("crypto_transform is a stub (mode=");
    append_str(&mut m, request.mode.as_str());
    append_str(&mut m, ", plaintext=");
    match &request.plaintext {
        Some(p) => append_str(&mut m, p.as_str()),
        None => {},
    }
    append_str(&mut m, ", ciphertext=");
    match &request.ciphertext {
        Some(c) => append_str(&mut m, c.as_str()),
        None => {},
    }
    append_str(&mut m, ")");
    proof {
        reveal_strlit("");
    }
    Err(m)
}

/// The hint the main window is opened with: both a mode and a text, or none.
pub fn navigate_hint(mode: Option<String>, text: Option<String>) -> (r: Option<CryptoHint>)
    ensures
        match (mode, text) {
            (Some(m), Some(t)) => r matches Some(h) && h.mode@ == m@ && h.text@ == t@,
            _ => r is None,
        },
{
    match (mode, text) {
        (Some(mode), Some(text)) => Some(CryptoHint { text, mode }),
        _ => None,
    }
}

/// The text an action from the clipboard prompt works on: the one the front end sent
/// (trimmed) unless it is blank or missing, else the current candidate's.
pub open spec fn action_text(text: Option<Seq<char>>, candidate: Option<ClipboardCandidate>) -> Option<Seq<char>> {
    match text {
        Some(t) if trim(t).len() != 0 => Some(trim(t)),
        _ => match candidate {
            Some(c) => Some(c.text@),
            None => None,
        },
    }
}

/// 加密/解密 from the clipboard prompt: the mode is `encrypt` only when asked for, else
/// `decrypt`. Without a text nothing happens (`None`); otherwise the candidate is cleared and
/// the hint is returned with whether it fits the bubble.
pub fn accept_clipboard_action(state: &mut AppState, mode: &str, text: Option<String>) -> (r: Option<(CryptoHint, bool)>)
    ensures
        ({
            let t = action_text(
                match text {
                    Some(s) => Some(s@),
                    None => None,
                },
                old(state).last_candidate,
            );
            &&& t is None ==> r is None && *final(state) == *old(state)
            &&& t is Some ==> (r matches Some(p) && p.0.text@ == t->0 && p.0.mode@ == (if mode@
                == "encrypt"@ {
                "encrypt"@
            } else {
                "decrypt"@
            }) && p.1 == (t->0.len() <= SHORT_TEXT_BUBBLE_LIMIT)) && final(state).last_candidate is None
                && final(state).last_clipboard == old(state).last_clipboard
                && final(state).badge_size == old(state).badge_size
        }),
{
    let m = if str_eq(mode, "encrypt") {
        "encrypt"
    } else {
        "decrypt"
    };
    let chosen: Option<String> = match text {
        Some(t) => if is_blank(t.as_str()) {
            None
        } else {
            Some(trim_str(t.as_str()))
        },
        None => None,
    };
    let chosen = match chosen {
        Some(t) => t,
        None => match &state.last_candidate {
            Some(c) => c.text.clone(),
            None => return None,
        },
    };
    state.last_candidate = None;
    let use_bubble = is_short_bubble_text(chosen.as_str());
    Some((CryptoHint { text: chosen, mode: String::from_str(m) }, use_bubble))
}

/// The clipboard prompt is dismissed: the candidate is dropped.
pub fn hide_clipboard_prompt(state: &mut AppState)
    ensures
        final(state).last_candidate is None,
        final(state).last_clipboard == old(state).last_clipboard,
{
    state.last_candidate = None;
}

/// Forget the last clipboard text so the same text can be offered again.
pub fn clear_clipboard_dedup(state: &mut AppState)
    ensures
        final(state).last_clipboard@ == Seq::<char>::empty(),
        final(state).last_candidate == old(state).last_candidate,
{
    state.last_clipboard = String::new();
}

/// A text the app writes to the clipboard itself is marked as seen, so it is not offered.
pub fn copy_text_silent(state: &mut AppState, text: &str)
    ensures
        final(state).last_clipboard@ == text@,
        final(state).last_candidate == old(state).last_candidate,
{
    state.last_clipboard = String::from_str(text);
}

/// The current clipboard candidate.
pub fn get_clipboard_candidate(state: &AppState) -> (r: Option<ClipboardCandidate>)
    ensures
        r == state.last_candidate,
{
    match &state.last_candidate {
        Some(c) => Some(c.duplicate()),
        None => None,
    }
}

/// The badge prompt mode: the badge stays collapsed; returns whether its size is to be
/// applied now (not while it follows the mouse).
pub fn set_badge_prompt_mode(state: &mut AppState) -> (r: bool)
    ensures
        !final(state).badge_expanded,
        r == !(old(state).mouse_follow_enabled || old(state).mouse_follow_returning),
        final(state).badge_size == old(state).badge_size,
{
    state.badge_expanded = false;
    !state.follow_blocks_resize()
}

/// A new badge size (normalised, to be saved): returns the expanded flag to apply it with,
/// or `None` while the badge follows the mouse.
pub fn set_badge_size_pref(state: &mut AppState, size: u32) -> (r: Option<bool>)
    ensures
        final(state).badge_size == (if valid_badge_size(size) {
            size
        } else {
            DEFAULT_BADGE_SIZE
        }),
        (old(state).mouse_follow_enabled || old(state).mouse_follow_returning) ==> r is None,
        !(old(state).mouse_follow_enabled || old(state).mouse_follow_returning) ==> r == Some(
            old(state).badge_expanded,
        ),
{
    state.badge_size = normalize_badge_size(size);
    if state.follow_blocks_resize() {
        return None;
    }
    Some(state.badge_expanded)
}

/// The update found at start-up, handed out once.
pub fn take_pending_app_update(state: &mut AppState) -> (r: Option<UpdateCheckResult>)
    ensures
        r == old(state).pending_update,
        final(state).pending_update is None,
{
    let mut taken: Option<UpdateCheckResult> = None;
    std::mem::swap(&mut taken, &mut state.pending_update);
    taken
}

} // verus!
