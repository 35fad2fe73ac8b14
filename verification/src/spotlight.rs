//! The spotlight overlay: labels, the size preference, the shake detector that opens it, the
//! cursor/keyboard loop that drives it and the key-hook bookkeeping that closes it.
use vstd::prelude::*;
use crate::text::{
    append_str, chars_of, dec, dec_chars, lemma_dec_digits, parse_unsigned, parse_unsigned_exec,
    starts_with, starts_with_exec, string_of,
};

verus! {

pub const MAX_OVERLAYS: usize = 8;
pub const OVERLAY_PREFIX: &'static str = "spotlight-";
/// Milliseconds within which the reversals of one shake must fall.
pub const SHAKE_WINDOW_MS: u64 = 800;
/// Travel along one direction that a stroke needs before its reversal counts.
pub const SHAKE_MIN_DELTA: i32 = 80;
pub const SHAKE_REVERSALS_NEEDED: u8 = 4;

/// A cursor position sent to the overlays.
pub struct SpotlightCursor {
    pub x: i32,
    pub y: i32,
}

/// The spotlight size sent to the overlays.
pub struct SpotlightPrefPayload {
    pub size: u32,
}

/// `spotlight-{index}`.
pub open spec fn overlay_label_of(index: nat) -> Seq<char> {
    OVERLAY_PREFIX@ + dec(index)
}

pub fn overlay_label(index: usize) -> (r: String)
    ensures
        r@ == overlay_label_of(index as nat),
{
    let mut out = String::from_str(OVERLAY_PREFIX);
    let d = dec_chars(index as u64);
    let ds = string_of(d.as_slice());
    append_str(&mut out, ds.as_str());
    out
}

/// The overlay index a label names: below `MAX_OVERLAYS`, after the `spotlight-` prefix.
pub open spec fn overlay_index_of(label: Seq<char>) -> Option<nat> {
    if starts_with(label, OVERLAY_PREFIX@) {
        match parse_unsigned(label.skip(OVERLAY_PREFIX@.len() as int), usize::MAX as nat) {
            Some(i) => if i < MAX_OVERLAYS {
                Some(i)
            } else {
                None
            },
            None => None,
        }
    } else {
        None
    }
}

pub fn parse_overlay_index(label: &str) -> (r: Option<usize>)
    ensures
        match r {
            Some(i) => overlay_index_of(label@) == Some(i as nat),
            None => overlay_index_of(label@) is None,
        },
{
    let v = chars_of(label);
    let p = chars_of(OVERLAY_PREFIX);
    if !starts_with_exec(v.as_slice(), p.as_slice()) {
        return None;
    }
    let mut rest: Vec<char> = Vec::new();
    let mut k: usize = p.len();
    while k < v.len()
        invariant
            p.len() <= k <= v.len(),
            rest@ == v@.subrange(p.len() as int, k as int),
        decreases v.len() - k,
    {
        rest.push(v[k]);
        k = k + 1;
    }
    assert(rest@ =~= v@.skip(p@.len() as int));
    match parse_unsigned_exec(rest.as_slice(), usize::MAX as u64) {
        Some(n) => if n < 8 {
            Some(n as usize)
        } else {
            None
        },
        None => None,
    }
}

/// The label of every overlay slot names that slot.
pub proof fn law_overlay_label_roundtrip(i: usize)
    requires
        i < MAX_OVERLAYS,
    ensures
        overlay_index_of(overlay_label_of(i as nat)) == Some(i as nat),
{
    let l = overlay_label_of(i as nat);
    let p = OVERLAY_PREFIX@;
    assert(l.take(p.len() as int) =~= p);
    assert(l.skip(p.len() as int) =~= dec(i as nat));
    lemma_dec_digits(i as nat);
}

/// The plan for spotlight overlay slot `index`: hidden overlays and slots past the monitors
/// close their window; a visible slot updates its window or creates it.
pub fn overlay_action(index: usize, monitor_count: usize, window_exists: bool, visible: bool) -> (r:
    crate::mouse_trail::OverlayAction)
    ensures
        !visible || index >= monitor_count ==> (if window_exists {
            r is Close
        } else {
            r is Nothing
        }),
        visible && index < monitor_count && window_exists ==> (r matches crate::mouse_trail::OverlayAction::Update {
            show,
        } && show),
        visible && index < monitor_count && !window_exists ==> r is Create,
{
    if !visible || index >= monitor_count {
        if window_exists {
            crate::mouse_trail::OverlayAction::Close
        } else {
            crate::mouse_trail::OverlayAction::Nothing
        }
    } else if window_exists {
        crate::mouse_trail::OverlayAction::Update { show: true }
    } else {
        crate::mouse_trail::OverlayAction::Create
    }
}

/// The spotlight size kept within `[min, max]`.
pub fn normalize_size(size: u32, min: u32, max: u32) -> (r: u32)
    requires
        min <= max,
    ensures
        r == (if size < min {
            min
        } else if size > max {
            max
        } else {
            size
        }),
{
    if size < min {
        min
    } else if size > max {
        max
    } else {
        size
    }
}

/// Whether the spotlight is shown.
pub fn is_active(active: bool) -> (r: bool)
    ensures
        r == active,
{
    active
}

/// What the shell does to the spotlight after a decision: nothing, show it (overlays, key
/// exit armed later, key hook started), hide it (overlays taken down, trail resumed), or only
/// disarm the key exit and stop the key hook when it was not shown.
#[derive(Clone, Copy, PartialEq, Eq, Structural)]
pub enum SpotlightAction {
    Nothing,
    Show,
    Hide,
    Disarm,
}

/// Showing: refused while already shown or while the screensaver runs.
pub open spec fn show_next(active: bool, screensaver_active: bool) -> (bool, SpotlightAction) {
    if active || screensaver_active {
        (active, SpotlightAction::Nothing)
    } else {
        (true, SpotlightAction::Show)
    }
}

/// Hiding: the spotlight is off afterwards; only a shown one has overlays to take down.
pub open spec fn hide_next(active: bool) -> (bool, SpotlightAction) {
    (false, if active {
        SpotlightAction::Hide
    } else {
        SpotlightAction::Disarm
    })
}

pub open spec fn toggle_next(active: bool, screensaver_active: bool) -> (bool, SpotlightAction) {
    if active {
        hide_next(active)
    } else {
        show_next(active, screensaver_active)
    }
}

/// The spotlight shortcut: ignored while the preference is off, while the screensaver runs,
/// or when the pressed shortcut is not the configured one; otherwise it toggles.
pub open spec fn shortcut_next(active: bool, pref: bool, screensaver_active: bool, matches: bool) -> (
    bool,
    SpotlightAction,
) {
    if !pref || screensaver_active || !matches {
        (active, SpotlightAction::Nothing)
    } else {
        toggle_next(active, screensaver_active)
    }
}

/// Turning the preference off hides the spotlight; turning it on changes nothing shown.
pub open spec fn pref_next(active: bool, enabled: bool) -> (bool, SpotlightAction) {
    if enabled {
        (active, SpotlightAction::Nothing)
    } else {
        hide_next(active)
    }
}

/// The next shown flag and action of a request to show.
pub fn show_step(active: bool, screensaver_active: bool) -> (r: (bool, SpotlightAction))
    ensures
        r == show_next(active, screensaver_active),
{
    if active || screensaver_active {
        (active, SpotlightAction::Nothing)
    } else {
        (true, SpotlightAction::Show)
    }
}

/// The next shown flag and action of a request to hide.
pub fn hide_step(active: bool) -> (r: (bool, SpotlightAction))
    ensures
        r == hide_next(active),
{
    if active {
        (false, SpotlightAction::Hide)
    } else {
        (false, SpotlightAction::Disarm)
    }
}

/// The next shown flag and action of a toggle: hide when shown, else show.
pub fn toggle_step(active: bool, screensaver_active: bool) -> (r: (bool, SpotlightAction))
    ensures
        r == toggle_next(active, screensaver_active),
{
    if active {
        hide_step(active)
    } else {
        show_step(active, screensaver_active)
    }
}

/// The next shown flag and action of a press of the spotlight shortcut; `matches` is whether
/// the pressed shortcut is the configured one (see `shortcuts::pressed_is`).
pub fn shortcut_step(active: bool, pref: bool, screensaver_active: bool, matches: bool) -> (r: (
    bool,
    SpotlightAction,
))
    ensures
        r == shortcut_next(active, pref, screensaver_active, matches),
{
    if !pref || screensaver_active || !matches {
        (active, SpotlightAction::Nothing)
    } else {
        toggle_step(active, screensaver_active)
    }
}

/// The next shown flag and action when the spotlight preference is set to `enabled`.
pub fn pref_step(active: bool, enabled: bool) -> (r: (bool, SpotlightAction))
    ensures
        r == pref_next(active, enabled),
{
    if enabled {
        (active, SpotlightAction::Nothing)
    } else {
        hide_step(active)
    }
}

/// Two presses of the spotlight shortcut with nothing in between, the preference on and no
/// screensaver, bring the spotlight back to where it was; and it is never shown while the
/// screensaver runs.
pub proof fn law_spotlight_toggle_twice(active: bool, pref: bool, screensaver_active: bool)
    ensures
        pref && !screensaver_active ==> shortcut_next(
            shortcut_next(active, pref, screensaver_active, true).0,
            pref,
            screensaver_active,
            true,
        ).0 == active,
        screensaver_active ==> shortcut_next(active, pref, screensaver_active, true).0 == active
            && show_next(active, screensaver_active).0 == active,
{
}

/// The shake detector: the last cursor position, the dominant axis of the current stroke
/// (1 horizontal, 2 vertical, 0 none), its direction (1, -1 or 0), the reversals counted in
/// the current window, when that window started (ms), and the travel of the current stroke.
pub struct ShakeState {
    pub last_pos: Option<(i32, i32)>,
    pub axis: i8,
    pub direction: i8,
    pub reversals: u8,
    pub window_start: Option<u64>,
    pub accum: i32,
}

/// The detector with nothing seen.
pub open spec fn shake_idle() -> ShakeState {
    ShakeState {
        last_pos: None,
        axis: 0,
        direction: 0,
        reversals: 0,
        window_start: None,
        accum: 0,
    }
}

pub fn reset_shake() -> (r: ShakeState)
    ensures
        r == shake_idle(),
{
    ShakeState { last_pos: None, axis: 0, direction: 0, reversals: 0, window_start: None, accum: 0 }
}

pub open spec fn abs(v: int) -> int {
    if v < 0 {
        -v
    } else {
        v
    }
}

pub open spec fn in_i32(v: int) -> bool {
    i32::MIN <= v <= i32::MAX
}

/// Milliseconds since `start` on a clock that never goes back.
pub open spec fn elapsed(start: u64, now: u64) -> int {
    if now >= start {
        now - start
    } else {
        0
    }
}

/// Whether the window that started at `start` is over at `now` (no window counts as over).
pub open spec fn window_expired(start: Option<u64>, now: u64) -> bool {
    match start {
        Some(s) => elapsed(s, now) > SHAKE_WINDOW_MS,
        None => true,
    }
}

/// The movement from the last position to `(x, y)` as (axis, direction, signed travel).
pub open spec fn stroke_of(dx: int, dy: int) -> (i8, i8, int) {
    let use_x = abs(dx) >= abs(dy);
    let delta = if use_x {
        dx
    } else {
        dy
    };
    (
        if use_x {
            1i8
        } else {
            2i8
        },
        if delta > 0 {
            1i8
        } else {
            -1i8
        },
        delta,
    )
}

/// The inputs on which one step keeps every 32-bit operation in range (the loop panics
/// outside them).
pub open spec fn shake_step_ok(s: ShakeState, x: i32, y: i32) -> bool {
    match s.last_pos {
        None => true,
        Some(p) => {
            let dx = x - p.0;
            let dy = y - p.1;
            &&& in_i32(dx) && dx != i32::MIN
            &&& in_i32(dy) && dy != i32::MIN
            &&& (abs(dx) >= 2 || abs(dy) >= 2) ==> {
                let (axis, dir, delta) = stroke_of(dx, dy);
                (s.axis != 0 && axis != s.axis) || (in_i32(s.accum + delta) && ((s.direction != 0
                    && dir != s.direction) ==> s.accum + delta != i32::MIN))
            }
        },
    }
}

/// One cursor sample `(x, y)` at `now`: the next detector and whether a shake was completed
/// (four counted reversals of strokes of at least 80 px within 800 ms).
pub open spec fn shake_next(s: ShakeState, x: i32, y: i32, now: u64) -> (ShakeState, bool) {
    let moved: (ShakeState, bool) = match s.last_pos {
        None => (s, false),
        Some(p) => {
            let dx = x - p.0;
            let dy = y - p.1;
            if !(abs(dx) >= 2 || abs(dy) >= 2) {
                (s, false)
            } else {
                let (axis, dir, delta) = stroke_of(dx, dy);
                if s.axis != 0 && axis != s.axis {
                    (
                        ShakeState {
                            axis,
                            direction: dir,
                            accum: delta as i32,
                            window_start: if s.window_start is None {
                                Some(now)
                            } else {
                                s.window_start
                            },
                            ..s
                        },
                        false,
                    )
                } else if s.direction == 0 {
                    (
                        ShakeState {
                            axis,
                            direction: dir,
                            window_start: Some(now),
                            accum: delta as i32,
                            ..s
                        },
                        false,
                    )
                } else if dir == s.direction {
                    (ShakeState { axis, accum: (s.accum + delta) as i32, ..s }, false)
                } else if abs(s.accum + delta) >= SHAKE_MIN_DELTA {
                    let counted: u8 = if s.reversals == 255 {
                        255
                    } else {
                        (s.reversals + 1) as u8
                    };
                    if window_expired(s.window_start, now) {
                        (
                            ShakeState {
                                axis,
                                direction: dir,
                                accum: delta as i32,
                                reversals: 1,
                                window_start: Some(now),
                                ..s
                            },
                            false,
                        )
                    } else if counted >= SHAKE_REVERSALS_NEEDED {
                        (shake_idle(), true)
                    } else {
                        (
                            ShakeState {
                                axis,
                                direction: dir,
                                accum: delta as i32,
                                reversals: counted,
                                ..s
                            },
                            false,
                        )
                    }
                } else {
                    (ShakeState { axis, direction: dir, accum: delta as i32, ..s }, false)
                }
            }
        },
    };
    if moved.1 {
        moved
    } else {
        let placed = ShakeState { last_pos: Some((x, y)), ..moved.0 };
        if placed.window_start is Some && window_expired(placed.window_start, now) {
            (ShakeState { last_pos: Some((x, y)), ..shake_idle() }, false)
        } else {
            (placed, false)
        }
    }
}

/// Whether one step is defined on these inputs (see `shake_step_ok`).
pub fn shake_step_defined(s: &ShakeState, x: i32, y: i32) -> (r: bool)
    ensures
        r == shake_step_ok(*s, x, y),
{
    match s.last_pos {
        None => true,
        Some(p) => {
            let dx = x as i64 - p.0 as i64;
            let dy = y as i64 - p.1 as i64;
            if !(-0x7fff_ffff <= dx && dx <= 0x7fff_ffff && -0x7fff_ffff <= dy && dy <= 0x7fff_ffff) {
                return false;
            }
            let ax = if dx < 0 {
                -dx
            } else {
                dx
            };
            let ay = if dy < 0 {
                -dy
            } else {
                dy
            };
            if !(ax >= 2 || ay >= 2) {
                return true;
            }
            let use_x = ax >= ay;
            let next_axis: i8 = if use_x {
                1
            } else {
                2
            };
            let delta = if use_x {
                dx
            } else {
                dy
            };
            let next_dir: i8 = if delta > 0 {
                1
            } else {
                -1
            };
            if s.axis != 0 && next_axis != s.axis {
                return true;
            }
            let sum = s.accum as i64 + delta;
            if !(-0x8000_0000 <= sum && sum <= 0x7fff_ffff) {
                return false;
            }
            if s.direction != 0 && next_dir != s.direction {
                sum != -0x8000_0000
            } else {
                true
            }
        },
    }
}

/// One step of the shake detector.
pub fn shake_step(s: ShakeState, x: i32, y: i32, now: u64) -> (r: (ShakeState, bool))
    requires
        shake_step_ok(s, x, y),
    ensures
        r == shake_next(s, x, y, now),
{
    let mut st = s;
    let mut done = false;
    match st.last_pos {
        None => {},
        Some(p) => {
            let dx: i32 = x - p.0;
            let dy: i32 = y - p.1;
            let ax: i32 = if dx < 0 {
                -dx
            } else {
                dx
            };
            let ay: i32 = if dy < 0 {
                -dy
            } else {
                dy
            };
            if ax >= 2 || ay >= 2 {
                let use_x = ax >= ay;
                let next_axis: i8 = if use_x {
                    1
                } else {
                    2
                };
                let delta: i32 = if use_x {
                    dx
                } else {
                    dy
                };
                let next_dir: i8 = if delta > 0 {
                    1
                } else {
                    -1
                };
                if st.axis != 0 && next_axis != st.axis {
                    st.axis = next_axis;
                    st.direction = next_dir;
                    st.accum = delta;
                    if st.window_start.is_none() {
                        st.window_start = Some(now);
                    }
                } else if st.direction == 0 {
                    st.axis = next_axis;
                    st.direction = next_dir;
                    st.window_start = Some(now);
                    st.accum = delta;
                } else if next_dir == st.direction {
                    st.axis = next_axis;
                    st.accum = st.accum + delta;
                } else {
                    let sum: i32 = st.accum + delta;
                    let asum: i32 = if sum < 0 {
                        -sum
                    } else {
                        sum
                    };
                    st.axis = next_axis;
                    if asum >= SHAKE_MIN_DELTA {
                        let counted: u8 = if st.reversals == 255 {
                            255
                        } else {
                            st.reversals + 1
                        };
                        st.direction = next_dir;
                        st.accum = delta;
                        let expired = match st.window_start {
                            Some(start) => {
                                let e: u64 = if now >= start {
                                    now - start
                                } else {
                                    0
                                };
                                e > SHAKE_WINDOW_MS
                            },
                            None => true,
                        };
                        if expired {
                            st.reversals = 1;
                            st.window_start = Some(now);
                        } else if counted >= SHAKE_REVERSALS_NEEDED {
                            st = reset_shake();
                            done = true;
                        } else {
                            st.reversals = counted;
                        }
                    } else {
                        st.direction = next_dir;
                        st.accum = delta;
                    }
                }
            }
        },
    }
    if done {
        return (st, true);
    }
    st.last_pos = Some((x, y));
    let over = match st.window_start {
        Some(start) => {
            let e: u64 = if now >= start {
                now - start
            } else {
                0
            };
            e > SHAKE_WINDOW_MS
        },
        None => false,
    };
    if over {
        let mut idle = reset_shake();
        idle.last_pos = Some((x, y));
        return (idle, false);
    }
    (st, false)
}

/// The detector's own invariant: fewer than four reversals pending, an axis and a direction
/// that are set together, and no reversal counted without a direction.
pub open spec fn shake_wf(s: ShakeState) -> bool {
    &&& s.reversals < SHAKE_REVERSALS_NEEDED
    &&& (s.axis == 0 || s.axis == 1 || s.axis == 2)
    &&& (s.direction == 0 || s.direction == 1 || s.direction == -1)
    &&& (s.axis == 0) == (s.direction == 0)
    &&& s.direction == 0 ==> s.reversals == 0
}

/// Every step keeps the detector's invariant.
pub proof fn law_shake_step_keeps_wf(s: ShakeState, x: i32, y: i32, now: u64)
    requires
        shake_wf(s),
    ensures
        shake_wf(shake_next(s, x, y, now).0),
{
}

/// A shake is reported only as the fourth reversal of a stroke within a live window, and
/// the detector starts afresh after it.
pub proof fn law_shake_needs_reversals(s: ShakeState, x: i32, y: i32, now: u64)
    requires
        shake_wf(s),
        shake_next(s, x, y, now).1,
    ensures
        s.reversals == SHAKE_REVERSALS_NEEDED - 1,
        s.direction != 0,
        s.window_start is Some,
        !window_expired(s.window_start, now),
        shake_next(s, x, y, now).0 == shake_idle(),
{
}

/// The state of the cursor/shake loop between turns.
pub struct SpotlightLoop {
    pub last_emit: Option<(i32, i32)>,
    pub shake: ShakeState,
    pub prev_any_key: bool,
}

/// What the loop observed in one turn.
pub struct LoopInput {
    /// The spotlight preference is on.
    pub pref: bool,
    /// Opening by shake is on.
    pub shake: bool,
    /// The spotlight is shown.
    pub active: bool,
    pub screensaver_active: bool,
    pub cursor: Option<(i32, i32)>,
    /// Any key closes the spotlight (armed after the opening chord is released).
    pub key_exit_armed: bool,
    pub any_key_down: bool,
    pub now_ms: u64,
}

/// What the loop does in one turn.
pub struct LoopStep {
    pub emit: Option<SpotlightCursor>,
    pub request_hide: bool,
    pub show: bool,
    pub sleep_ms: u64,
}

pub open spec fn loop_idle_ok(l: SpotlightLoop, i: LoopInput) -> bool {
    match i.cursor {
        Some(p) => (i.pref && !i.active && i.shake && !i.screensaver_active) ==> shake_step_ok(
            l.shake,
            p.0,
            p.1,
        ),
        None => true,
    }
}

/// One turn: with the preference off everything resets (200 ms); while shown, the cursor is
/// sent when it moved and a key newly pressed while armed asks to hide (16 ms); otherwise,
/// with shake detection on and no screensaver, a cursor sample feeds the detector and a
/// completed shake shows the spotlight (400 ms, else 20 ms); with detection off it resets
/// (100 ms).
pub fn loop_turn(l: SpotlightLoop, i: LoopInput) -> (r: (SpotlightLoop, LoopStep))
    requires
        loop_idle_ok(l, i),
    ensures
        !i.pref ==> r.0.last_emit is None && !r.0.prev_any_key && r.0.shake == shake_idle()
            && r.1.emit is None && !r.1.request_hide && !r.1.show && r.1.sleep_ms == 200,
        i.pref && i.active ==> {
            &&& r.0.shake == shake_idle()
            &&& r.1.sleep_ms == 16
            &&& !r.1.show
            &&& match i.cursor {
                Some(p) => if l.last_emit != Some(p) {
                    r.0.last_emit == Some(p) && (r.1.emit matches Some(c) && c.x == p.0 && c.y
                        == p.1)
                } else {
                    r.0.last_emit == l.last_emit && r.1.emit is None
                },
                None => r.0.last_emit == l.last_emit && r.1.emit is None,
            }
            &&& r.1.request_hide == (i.key_exit_armed && i.any_key_down && !l.prev_any_key)
            &&& r.0.prev_any_key == i.any_key_down
        },
        i.pref && !i.active ==> r.0.last_emit is None && !r.0.prev_any_key && r.1.emit is None
            && !r.1.request_hide,
        i.pref && !i.active && (!i.shake || i.screensaver_active) ==> r.0.shake == shake_idle()
            && !r.1.show && r.1.sleep_ms == 100,
        i.pref && !i.active && i.shake && !i.screensaver_active ==> match i.cursor {
            Some(p) => {
                let n = shake_next(l.shake, p.0, p.1, i.now_ms);
                r.0.shake == n.0 && r.1.show == n.1 && r.1.sleep_ms == (if n.1 {
                    400u64
                } else {
                    20u64
                })
            },
            None => r.0.shake == l.shake && !r.1.show && r.1.sleep_ms == 20,
        },
{
    if !i.pref {
        let st = SpotlightLoop { last_emit: None, shake: reset_shake(), prev_any_key: false };
        return (st, LoopStep { emit: None, request_hide: false, show: false, sleep_ms: 200 });
    }
    if i.active {
        let mut last_emit = l.last_emit;
        let mut emit: Option<SpotlightCursor> = None;
        match i.cursor {
            Some(p) => {
                let same = match l.last_emit {
                    Some(e) => e.0 == p.0 && e.1 == p.1,
                    None => false,
                };
                if !same {
                    last_emit = Some(p);
                    emit = Some(SpotlightCursor { x: p.0, y: p.1 });
                }
            },
            None => {},
        }
        let request_hide = i.key_exit_armed && i.any_key_down && !l.prev_any_key;
        let st = SpotlightLoop { last_emit, shake: reset_shake(), prev_any_key: i.any_key_down };
        return (st, LoopStep { emit, request_hide, show: false, sleep_ms: 16 });
    }
    if !i.shake || i.screensaver_active {
        let st = SpotlightLoop { last_emit: None, shake: reset_shake(), prev_any_key: false };
        return (st, LoopStep { emit: None, request_hide: false, show: false, sleep_ms: 100 });
    }
    match i.cursor {
        Some(p) => {
            let (shake, shown) = shake_step(l.shake, p.0, p.1, i.now_ms);
            let st = SpotlightLoop { last_emit: None, shake, prev_any_key: false };
            let sleep_ms: u64 = if shown {
                400
            } else {
                20
            };
            (st, LoopStep { emit: None, request_hide: false, show: shown, sleep_ms })
        },
        None => {
            let st = SpotlightLoop { last_emit: None, shake: l.shake, prev_any_key: false };
            (st, LoopStep { emit: None, request_hide: false, show: false, sleep_ms: 20 })
        },
    }
}

/// Whether the next loop turn is defined on these inputs (see `loop_turn`).
pub fn loop_turn_defined(l: &SpotlightLoop, i: &LoopInput) -> (r: bool)
    ensures
        r == loop_idle_ok(*l, *i),
{
    if i.pref && !i.active && i.shake && !i.screensaver_active {
        match i.cursor {
            Some(p) => shake_step_defined(&l.shake, p.0, p.1),
            None => true,
        }
    } else {
        true
    }
}

/// A request to hide from the key hook: it disarms; it hides only when it was armed and the
/// spotlight is shown, and re-arms when the app handle is not known yet.
/// Returns the new armed flag and whether to hide.
pub fn hook_hide_request(armed: bool, active: bool, app_known: bool) -> (r: (bool, bool))
    ensures
        r.1 == (armed && active && app_known),
        r.0 == (armed && active && !app_known),
{
    if !armed {
        return (false, false);
    }
    if !active {
        return (false, false);
    }
    if !app_known {
        return (true, false);
    }
    (false, true)
}

pub const WM_KEYDOWN: u32 = 0x0100;
pub const WM_KEYUP: u32 = 0x0101;
pub const WM_SYSKEYDOWN: u32 = 0x0104;
pub const WM_SYSKEYUP: u32 = 0x0105;
pub const LLKHF_UP: u32 = 0x80;

/// Which keys are held, indexed by virtual-key code.
pub struct KeysDown {
    pub down: Vec<bool>,
}

pub open spec fn keys_wf(k: KeysDown) -> bool {
    k.down@.len() == 256
}

/// No key held.
pub fn clear_keys_down() -> (r: KeysDown)
    ensures
        keys_wf(r),
        forall|i: int| 0 <= i < 256 ==> !#[trigger] r.down@[i],
{
    let mut down: Vec<bool> = Vec::new();
    let mut i: usize = 0;
    while i < 256
        invariant
            i <= 256,
            down@.len() == i,
            forall|j: int| 0 <= j < i ==> !#[trigger] down@[j],
        decreases 256 - i,
    {
        down.push(false);
        i = i + 1;
    }
    KeysDown { down }
}

/// A low-level keyboard message: a release clears the key; a press marks it and, unless it
/// was already held (auto-repeat), asks to hide. Returns whether to ask.
pub fn key_hook_event(keys: &mut KeysDown, msg: u32, vk_code: u32, flags: u32) -> (r: bool)
    requires
        keys_wf(*old(keys)),
    ensures
        keys_wf(*final(keys)),
        ({
            let vk = (vk_code & 0xff) as int;
            let is_up = msg == WM_KEYUP || msg == WM_SYSKEYUP || (flags & LLKHF_UP) != 0;
            let is_down = msg == WM_KEYDOWN || msg == WM_SYSKEYDOWN;
            &&& is_up ==> final(keys).down@ == old(keys).down@.update(vk, false) && !r
            &&& !is_up && is_down ==> final(keys).down@ == old(keys).down@.update(vk, true) && r
                == !old(keys).down@[vk]
            &&& !is_up && !is_down ==> final(keys).down@ == old(keys).down@ && !r
        }),
{
    let vk: usize = (vk_code & 0xff) as usize;
    assert((vk_code & 0xff) < 256) by (bit_vector);
    let is_up = msg == WM_KEYUP || msg == WM_SYSKEYUP || (flags & LLKHF_UP) != 0;
    if is_up {
        keys.down.set(vk, false);
        false
    } else if msg == WM_KEYDOWN || msg == WM_SYSKEYDOWN {
        let was_down = keys.down[vk];
        keys.down.set(vk, true);
        !was_down
    } else {
        false
    }
}

/// One poll of the first 128 key states while armed (the macOS path): the first key that is
/// down now and was not before asks to hide and ends the poll; keys polled before it update
/// `prev`. Returns whether to ask.
pub fn key_poll(prev: &mut Vec<bool>, now_down: &Vec<bool>) -> (r: bool)
    requires
        old(prev)@.len() == 128,
        now_down@.len() == 128,
    ensures
        final(prev)@.len() == 128,
        r == exists|k: int| 0 <= k < 128 && now_down@[k] && !old(prev)@[k],
        forall|k: int|
            0 <= k < 128 ==> #[trigger] final(prev)@[k] == (if (forall|j: int|
                0 <= j <= k ==> !(now_down@[j] && !old(prev)@[j])) {
                now_down@[k]
            } else {
                old(prev)@[k]
            }),
{
    let ghost p0 = prev@;
    let mut key: usize = 0;
    while key < 128
        invariant
            key <= 128,
            prev@.len() == 128,
            now_down@.len() == 128,
            p0.len() == 128,
            p0 == old(prev)@,
            forall|j: int| 0 <= j < key ==> !(now_down@[j] && !p0[j]),
            forall|j: int| 0 <= j < key ==> #[trigger] prev@[j] == now_down@[j],
            forall|j: int| key <= j < 128 ==> #[trigger] prev@[j] == p0[j],
        decreases 128 - key,
    {
        if now_down[key] && !prev[key] {
            assert(now_down@[key as int] && !p0[key as int]);
            assert forall|k: int| 0 <= k < 128 implies #[trigger] prev@[k] == (if (forall|j: int|
                0 <= j <= k ==> !(now_down@[j] && !p0[j])) {
                now_down@[k]
            } else {
                p0[k]
            }) by {
                if k >= key {
                    assert(!(forall|j: int| 0 <= j <= k ==> !(now_down@[j] && !p0[j]))) by {
                        assert(now_down@[key as int] && !p0[key as int]);
                    }
                }
            }
            return true;
        }
        let d = now_down[key];
        prev.set(key, d);
        key = key + 1;
    }
    false
}

} // verus!
