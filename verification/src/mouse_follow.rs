//! Mouse follow: the badge trails the cursor, and a drag or a double click copies the
//! selection and opens it for encryption or decryption. Here: switching follow on and off
//! over the application state, the per-turn plan of the follow loop, click detection and
//! what a captured text turns into.
use vstd::prelude::*;
use crate::clipboard::{classify_clipboard, clipboard_kind};
use crate::state::AppState;
use crate::windows::{CryptoHint, SHORT_TEXT_BUBBLE_LIMIT, is_short_bubble_text};

verus! {

/// Offset of the badge from the cursor while following, in physical pixels.
pub const CURSOR_OFFSET: i32 = 16;
/// A press and release further apart than this (in physical pixels) is a drag.
pub const DRAG_THRESHOLD: i32 = 12;

/// What a toggle of mouse follow does.
pub enum FollowToggle {
    /// Follow is switched off in the preferences: nothing.
    Ignored,
    Start,
    Stop,
}

pub fn toggle_follow(state: &AppState) -> (r: FollowToggle)
    ensures
        !state.mouse_follow_pref_enabled ==> r is Ignored,
        state.mouse_follow_pref_enabled && state.mouse_follow_enabled ==> r is Stop,
        state.mouse_follow_pref_enabled && !state.mouse_follow_enabled ==> r is Start,
{
    if !state.mouse_follow_pref_enabled {
        FollowToggle::Ignored
    } else if state.mouse_follow_enabled {
        FollowToggle::Stop
    } else {
        FollowToggle::Start
    }
}

/// Start following. `badge` is `None` when there is no badge window, else the badge's
/// position if it could be read. The position is saved as the way home unless the badge is
/// still flying home from the last follow. Returns whether the badge is to shrink to the
/// small size.
pub fn start_follow(state: &mut AppState, badge: Option<Option<(i32, i32)>>) -> (r: bool)
    ensures
        final(state).mouse_follow_enabled,
        !final(state).mouse_follow_returning,
        final(state).last_candidate is None,
        r == badge is Some,
        badge is Some ==> !final(state).badge_expanded,
        badge is None ==> final(state).badge_expanded == old(state).badge_expanded,
        final(state).saved_badge_pos == (match badge {
            Some(Some(p)) => if !old(state).mouse_follow_returning {
                Some(p)
            } else {
                old(state).saved_badge_pos
            },
            _ => old(state).saved_badge_pos,
        }),
        final(state).mouse_follow_pref_enabled == old(state).mouse_follow_pref_enabled,
        final(state).compare_active == old(state).compare_active,
        final(state).badge_size == old(state).badge_size,
{
    state.mouse_follow_enabled = true;
    let was_returning = state.mouse_follow_returning;
    state.mouse_follow_returning = false;
    let shrink = match badge {
        Some(pos) => {
            if !was_returning {
                match pos {
                    Some(p) => {
                        state.saved_badge_pos = Some(p);
                    },
                    None => {},
                }
            }
            state.badge_expanded = false;
            true
        },
        None => false,
    };
    state.last_candidate = None;
    shrink
}

/// Stop following: the badge flies home first.
pub fn stop_follow(state: &mut AppState)
    ensures
        final(state).mouse_follow_returning,
        !final(state).mouse_follow_enabled,
        final(state).saved_badge_pos == old(state).saved_badge_pos,
        final(state).mouse_follow_pref_enabled == old(state).mouse_follow_pref_enabled,
{
    state.mouse_follow_returning = true;
    state.mouse_follow_enabled = false;
}

/// The badge is home again.
pub fn restore_after_follow(state: &mut AppState)
    ensures
        !final(state).mouse_follow_returning,
        final(state).mouse_follow_enabled == old(state).mouse_follow_enabled,
        final(state).saved_badge_pos == old(state).saved_badge_pos,
{
    state.mouse_follow_returning = false;
}

/// Switching the preference: on registers the shortcuts; off unregisters them and stops a
/// running follow. Returns (register, stop).
pub fn apply_follow_pref(state: &mut AppState, enabled: bool) -> (r: (bool, bool))
    ensures
        final(state).mouse_follow_pref_enabled == enabled,
        r.0 == enabled,
        r.1 == (!enabled && old(state).mouse_follow_enabled),
        final(state).mouse_follow_enabled == old(state).mouse_follow_enabled,
{
    state.mouse_follow_pref_enabled = enabled;
    if enabled {
        return (true, false);
    }
    (false, state.mouse_follow_enabled)
}

/// What one turn of the follow loop does.
pub struct FollowTurn {
    /// Nothing is running: forget the animation and the clicks.
    pub reset: bool,
    /// Fly the badge back to where it was.
    pub fly_home: bool,
    /// Move the badge towards the cursor.
    pub follow_cursor: bool,
    /// Watch the left button for drags and double clicks.
    pub watch_clicks: bool,
    pub sleep_ms: u64,
}

pub fn follow_turn(enabled: bool, returning: bool, compare_active: bool) -> (r: FollowTurn)
    ensures
        r.reset == (!enabled && !returning && !compare_active),
        r.fly_home == (returning && !enabled),
        r.follow_cursor == enabled,
        r.watch_clicks == (enabled || compare_active),
        r.sleep_ms == (if r.reset {
            50u64
        } else {
            16u64
        }),
{
    if !enabled && !returning && !compare_active {
        return FollowTurn {
            reset: true,
            fly_home: false,
            follow_cursor: false,
            watch_clicks: false,
            sleep_ms: 50,
        };
    }
    FollowTurn {
        reset: false,
        fly_home: returning && !enabled,
        follow_cursor: enabled,
        watch_clicks: enabled || compare_active,
        sleep_ms: 16,
    }
}

/// Where the badge heads while following: the cursor plus the offset.
pub fn follow_target(cursor: (i32, i32)) -> (r: (i32, i32))
    requires
        cursor.0 + CURSOR_OFFSET <= i32::MAX,
        cursor.1 + CURSOR_OFFSET <= i32::MAX,
    ensures
        r.0 == cursor.0 + CURSOR_OFFSET,
        r.1 == cursor.1 + CURSOR_OFFSET,
{
    (cursor.0 + CURSOR_OFFSET, cursor.1 + CURSOR_OFFSET)
}

/// The system double-click time, at least one millisecond.
pub fn double_click_interval(system_ms: u32) -> (r: u64)
    ensures
        r == (if system_ms < 1 {
            1
        } else {
            system_ms
        }),
{
    if system_ms < 1 {
        1
    } else {
        system_ms as u64
    }
}

/// The system double-click rectangle, at least 4 x 4 pixels.
pub fn double_click_tolerance(cx: i32, cy: i32) -> (r: (i32, i32))
    ensures
        r.0 == (if cx < 4 {
            4
        } else {
            cx
        }),
        r.1 == (if cy < 4 {
            4
        } else {
            cy
        }),
{
    (if cx < 4 {
        4
    } else {
        cx
    }, if cy < 4 {
        4
    } else {
        cy
    })
}

pub open spec fn abs(v: int) -> int {
    if v < 0 {
        -v
    } else {
        v
    }
}

pub open spec fn in_i32(v: int) -> bool {
    i32::MIN <= v <= i32::MAX
}

/// A second short click counts as a double click when it comes within the interval after the
/// first and within the tolerance of its place.
pub open spec fn double_click(last: Option<(u64, i32, i32)>, press: (i32, i32), now: u64, interval: u64, tol: (i32, i32)) -> bool {
    match last {
        None => false,
        Some(l) => {
            let elapsed = if now >= l.0 {
                now - l.0
            } else {
                0
            };
            elapsed <= interval && abs(press.0 - l.1) <= tol.0 && abs(press.1 - l.2) <= tol.1
        },
    }
}

pub open spec fn double_click_ok(last: Option<(u64, i32, i32)>, press: (i32, i32)) -> bool {
    match last {
        None => true,
        Some(l) => in_i32(press.0 - l.1) && press.0 - l.1 != i32::MIN && in_i32(press.1 - l.2)
            && press.1 - l.2 != i32::MIN,
    }
}

/// A second click is a double click exactly when there was a first one, at most `interval`
/// ms before it, and it lies within the tolerance of the first one in both directions:
/// horizontally by at most `tol.0` and vertically by at most `tol.1`.
pub proof fn law_double_click_within_tolerance(
    last: Option<(u64, i32, i32)>,
    press: (i32, i32),
    now: u64,
    interval: u64,
    tol: (i32, i32),
)
    ensures
        double_click(last, press, now, interval, tol) <==> (last matches Some(l) && (now <= l.0
            || now - l.0 <= interval) && -tol.0 <= press.0 - l.1 <= tol.0 && -tol.1 <= press.1
            - l.2 <= tol.1),
{
}

pub fn is_double_click(last: Option<(u64, i32, i32)>, press: (i32, i32), now: u64, interval: u64, tol: (i32, i32)) -> (r: bool)
    requires
        double_click_ok(last, press),
    ensures
        r == double_click(last, press, now, interval, tol),
{
    match last {
        None => false,
        Some(l) => {
            let elapsed: u64 = if now >= l.0 {
                now - l.0
            } else {
                0
            };
            if elapsed > interval {
                return false;
            }
            let dx: i32 = press.0 - l.1;
            let dy: i32 = press.1 - l.2;
            let adx: i32 = if dx < 0 {
                -dx
            } else {
                dx
            };
            let ady: i32 = if dy < 0 {
                -dy
            } else {
                dy
            };
            adx <= tol.0 && ady <= tol.1
        },
    }
}

/// The left button as the loop has seen it: held last turn, where it went down, and the
/// last short click (time, place).
pub struct ClickTracker {
    pub was_down: bool,
    pub press: (i32, i32),
    pub last_short_up: Option<(u64, i32, i32)>,
}

pub open spec fn click_ok(t: ClickTracker, cursor: (i32, i32), down: bool) -> bool {
    let press = if down && !t.was_down {
        cursor
    } else {
        t.press
    };
    !down && t.was_down ==> {
        let dx = cursor.0 - press.0;
        let dy = cursor.1 - press.1;
        &&& in_i32(dx) && in_i32(dy)
        &&& in_i32(dx * dx) && in_i32(dy * dy) && in_i32(dx * dx + dy * dy)
        &&& dx * dx + dy * dy < DRAG_THRESHOLD * DRAG_THRESHOLD ==> double_click_ok(
            t.last_short_up,
            press,
        )
    }
}

/// One sample of the left button: a press remembers the place; a release far from it is a
/// drag and captures; a release close to it captures when it completes a double click and is
/// otherwise remembered as a short click. Returns the tracker and whether to capture.
pub fn click_step(t: ClickTracker, cursor: (i32, i32), down: bool, now: u64, interval: u64, tol: (i32, i32)) -> (r: (ClickTracker, bool))
    requires
        click_ok(t, cursor, down),
    ensures
        r.0.was_down == down,
        r.0.press == (if down && !t.was_down {
            cursor
        } else {
            t.press
        }),
        !(!down && t.was_down) ==> !r.1 && r.0.last_short_up == t.last_short_up,
        !down && t.was_down ==> {
            let dx = cursor.0 - t.press.0;
            let dy = cursor.1 - t.press.1;
            let dragged = dx * dx + dy * dy >= DRAG_THRESHOLD * DRAG_THRESHOLD;
            if dragged || double_click(t.last_short_up, t.press, now, interval, tol) {
                r.1 && r.0.last_short_up is None
            } else {
                !r.1 && r.0.last_short_up == Some((now, t.press.0, t.press.1))
            }
        },
{
    let mut press = t.press;
    if down && !t.was_down {
        press = cursor;
    }
    let mut last = t.last_short_up;
    let mut capture = false;
    if !down && t.was_down {
        let dx: i32 = cursor.0 - press.0;
        let dy: i32 = cursor.1 - press.1;
        let dragged = dx * dx + dy * dy >= DRAG_THRESHOLD * DRAG_THRESHOLD;
        if dragged {
            last = None;
            capture = true;
        } else if is_double_click(last, press, now, interval, tol) {
            last = None;
            capture = true;
        } else {
            last = Some((now, press.0, press.1));
        }
    }
    (ClickTracker { was_down: down, press, last_short_up: last }, capture)
}

/// A copied selection becomes a hint: decrypt when it looks like a cipher, else encrypt;
/// short texts go to the bubble, long ones to the main window (`true` = bubble). The text is
/// remembered as the last clipboard text so the watcher does not offer it again.
pub fn capture_hint(state: &mut AppState, text: String) -> (r: (CryptoHint, bool))
    ensures
        final(state).last_clipboard@ == text@,
        r.0.text@ == text@,
        r.0.mode@ == (if clipboard_kind(text@) == "maybe_cipher"@ {
            "decrypt"@
        } else {
            "encrypt"@
        }),
        r.1 == (text@.len() <= SHORT_TEXT_BUBBLE_LIMIT),
        final(state).mouse_follow_enabled == old(state).mouse_follow_enabled,
        final(state).compare_active == old(state).compare_active,
{
    state.last_clipboard = text.clone();
    let kind = classify_clipboard(text.as_str());
    let mode = if crate::text::str_eq(kind, "maybe_cipher") {
        "decrypt"
    } else {
        "encrypt"
    };
    let use_bubble = is_short_bubble_text(text.as_str());
    (CryptoHint { text, mode: String::from_str(mode) }, use_bubble)
}

} // verus!
