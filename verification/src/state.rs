//! The application state shared by the windows, the clipboard watcher and the mouse-follow
//! loop, as plain values (the host keeps it behind a lock).
use vstd::prelude::*;
use crate::app_update::UpdateCheckResult;

verus! {

pub const BADGE_HIDDEN_SIZE: u32 = 0;
pub const MIN_BADGE_SIZE: u32 = 38;
/// Default badge diameter in logical pixels.
pub const DEFAULT_BADGE_SIZE: u32 = 68;
pub const DEFAULT_MOUSE_FOLLOW_SHORTCUT: &'static str = "Ctrl+Shift+G";
pub const DEFAULT_COMPARE_MODE_SHORTCUT: &'static str = "Ctrl+Shift+D";

/// A clipboard text offered for encryption or decryption, with its guessed kind.
#[derive(Clone)]
pub struct ClipboardCandidate {
    pub text: String,
    pub kind: String,
}

impl ClipboardCandidate {
    /// A copy of the candidate.
    pub fn duplicate(&self) -> (r: ClipboardCandidate)
        ensures
            r == *self,
    {
        ClipboardCandidate { text: self.text.clone(), kind: self.kind.clone() }
    }
}

/// The application state.
pub struct AppState {
    pub clipboard_watch_enabled: bool,
    pub last_clipboard: String,
    pub last_candidate: Option<ClipboardCandidate>,
    pub badge_size: u32,
    pub badge_expanded: bool,
    pub mouse_follow_enabled: bool,
    pub mouse_follow_pref_enabled: bool,
    pub mouse_follow_returning: bool,
    pub saved_badge_pos: Option<(i32, i32)>,
    pub mouse_follow_shortcut: String,
    pub compare_pref_enabled: bool,
    pub compare_active: bool,
    pub compare_mode_shortcut: String,
    pub pending_update: Option<UpdateCheckResult>,
}

impl Default for AppState {
    fn default() -> (r: Self)
        ensures
            r.clipboard_watch_enabled,
            r.last_clipboard@ == Seq::<char>::empty(),
            r.last_candidate is None,
            r.badge_size == DEFAULT_BADGE_SIZE,
            !r.badge_expanded,
            !r.mouse_follow_enabled,
            r.mouse_follow_pref_enabled,
            !r.mouse_follow_returning,
            r.saved_badge_pos is None,
            r.mouse_follow_shortcut@ == DEFAULT_MOUSE_FOLLOW_SHORTCUT@,
            r.compare_pref_enabled,
            !r.compare_active,
            r.compare_mode_shortcut@ == DEFAULT_COMPARE_MODE_SHORTCUT@,
            r.pending_update is None,
    {
        AppState {
            clipboard_watch_enabled: true,
            last_clipboard: String::new(),
            last_candidate: None,
            badge_size: DEFAULT_BADGE_SIZE,
            badge_expanded: false,
            mouse_follow_enabled: false,
            mouse_follow_pref_enabled: true,
            mouse_follow_returning: false,
            saved_badge_pos: None,
            mouse_follow_shortcut: String::from_str(DEFAULT_MOUSE_FOLLOW_SHORTCUT),
            compare_pref_enabled: true,
            compare_active: false,
            compare_mode_shortcut: String::from_str(DEFAULT_COMPARE_MODE_SHORTCUT),
            pending_update: None,
        }
    }
}

impl AppState {
    /// The badge keeps its size while it follows the mouse or flies home.
    pub fn follow_blocks_resize(&self) -> (r: bool)
        ensures
            r == (self.mouse_follow_enabled || self.mouse_follow_returning),
    {
        self.mouse_follow_enabled || self.mouse_follow_returning
    }
}

/// The badge sizes that can be chosen (hidden, small, default, large).
pub open spec fn valid_badge_size(size: u32) -> bool {
    size == BADGE_HIDDEN_SIZE || size == MIN_BADGE_SIZE || size == 68 || size == 96
}

/// A badge size kept if it is one of the choices, else the default.
pub fn normalize_badge_size(size: u32) -> (r: u32)
    ensures
        r == (if valid_badge_size(size) {
            size
        } else {
            DEFAULT_BADGE_SIZE
        }),
        valid_badge_size(r),
{
    if size == BADGE_HIDDEN_SIZE || size == MIN_BADGE_SIZE || size == 68 || size == 96 {
        size
    } else {
        DEFAULT_BADGE_SIZE
    }
}

} // verus!
