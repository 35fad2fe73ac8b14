//! Window placement and the small decisions of the window layer: feature windows, the badge
//! position and size, pulling windows back onto visible monitors, popups next to the
//! cursor, the theme preference and the pending crypto bubble.
use vstd::prelude::*;
use crate::state::BADGE_HIDDEN_SIZE;
use crate::text::{chars_of, starts_with, starts_with_exec, str_eq};

verus! {

pub const CLIPBOARD_PROMPT_LABEL: &'static str = "clipboard-prompt";
pub const CRYPTO_BUBBLE_LABEL: &'static str = "crypto-bubble";
pub const DEFAULT_THEME_PREF: &'static str = "system";
/// Distance of the badge from the work-area corner at first start, in logical pixels.
pub const BADGE_EDGE_MARGIN: u32 = 50;
/// Texts up to this many characters are shown in the bubble, longer ones in the main window.
pub const SHORT_TEXT_BUBBLE_LIMIT: usize = 1100;
pub const CLIPBOARD_PROMPT_WIDTH: u32 = 244;
pub const CLIPBOARD_PROMPT_HEIGHT: u32 = 116;
pub const CRYPTO_BUBBLE_WIDTH: u32 = 480;
pub const CRYPTO_BUBBLE_HEIGHT: u32 = 360;
/// Offset of a popup from the cursor, in physical pixels.
pub const POPUP_CURSOR_OFFSET: i32 = 16;

/// A text to encrypt or decrypt, and which of the two.
#[derive(Clone)]
pub struct CryptoHint {
    pub text: String,
    pub mode: String,
}

impl CryptoHint {
    /// A copy of the hint.
    pub fn duplicate(&self) -> (r: CryptoHint)
        ensures
            r == *self,
    {
        CryptoHint { text: self.text.clone(), mode: self.mode.clone() }
    }
}

/// A feature window: its label, title, size and minimum size in logical pixels.
pub struct FeatureSpec {
    pub label: &'static str,
    pub title: &'static str,
    pub width: u32,
    pub height: u32,
    pub min_width: u32,
    pub min_height: u32,
}

/// The feature windows that are created on demand: settings, feedback and plugins at
/// 720x560 (at least 560x420), about at 480x420 (at least 400x360).
pub fn feature_spec(label: &str) -> (r: Option<FeatureSpec>)
    ensures
        (label@ == "settings"@ || label@ == "feedback"@ || label@ == "plugins"@) ==> (r matches Some(
            f,
        ) && f.label@ == label@ && f.width == 720 && f.height == 560 && f.min_width == 560
            && f.min_height == 420),
        label@ == "settings"@ ==> (r matches Some(f) && f.title@ == "功能设置"@),
        label@ == "feedback"@ ==> (r matches Some(f) && f.title@ == "意见反馈"@),
        label@ == "plugins"@ ==> (r matches Some(f) && f.title@ == "插件管理"@),
        label@ == "about"@ ==> (r matches Some(f) && f.label@ == label@ && f.title@ == "关于"@
            && f.width == 480 && f.height == 420 && f.min_width == 400 && f.min_height == 360),
        !(label@ == "settings"@ || label@ == "feedback"@ || label@ == "plugins"@ || label@
            == "about"@) ==> r is None,
{
    proof {
        reveal_strlit("settings");
        reveal_strlit("feedback");
        reveal_strlit("plugins");
        reveal_strlit("about");
        assert("settings"@[0] != "feedback"@[0]);
        assert("settings"@.len() != "plugins"@.len() && "settings"@.len() != "about"@.len());
        assert("feedback"@.len() != "plugins"@.len() && "feedback"@.len() != "about"@.len());
        assert("plugins"@.len() != "about"@.len());
    }
    if str_eq(label, "settings") {
        Some(
            FeatureSpec {
                label: "settings",
                title: "功能设置",
                width: 720,
                height: 560,
                min_width: 560,
                min_height: 420,
            },
        )
    } else if str_eq(label, "feedback") {
        Some(
            FeatureSpec {
                label: "feedback",
                title: "意见反馈",
                width: 720,
                height: 560,
                min_width: 560,
                min_height: 420,
            },
        )
    } else if str_eq(label, "plugins") {
        Some(
            FeatureSpec {
                label: "plugins",
                title: "插件管理",
                width: 720,
                height: 560,
                min_width: 560,
                min_height: 420,
            },
        )
    } else if str_eq(label, "about") {
        Some(
            FeatureSpec {
                label: "about",
                title: "关于",
                width: 480,
                height: 420,
                min_width: 400,
                min_height: 360,
            },
        )
    } else {
        None
    }
}

/// The theme preferences: `system`, `light`, `dark`; anything else is `system`.
pub open spec fn normalized_theme(raw: Seq<char>) -> Seq<char> {
    if raw == "system"@ || raw == "light"@ || raw == "dark"@ {
        raw
    } else {
        DEFAULT_THEME_PREF@
    }
}

/// A normalised theme preference normalises to itself.
pub proof fn law_theme_pref_idempotent(raw: Seq<char>)
    ensures
        normalized_theme(normalized_theme(raw)) == normalized_theme(raw),
{
}

pub fn normalize_theme_pref(raw: &str) -> (r: String)
    ensures
        r@ == normalized_theme(raw@),
{
    if str_eq(raw, "system") || str_eq(raw, "light") || str_eq(raw, "dark") {
        String::from_str(raw)
    } else {
        String::from_str(DEFAULT_THEME_PREF)
    }
}

/// The stored theme preference (normalised), or the default when none is stored.
pub fn load_theme_pref(stored: Option<&str>) -> (r: String)
    ensures
        r@ == match stored {
            Some(s) => normalized_theme(s@),
            None => DEFAULT_THEME_PREF@,
        },
{
    match stored {
        Some(s) => normalize_theme_pref(s),
        None => String::from_str(DEFAULT_THEME_PREF),
    }
}

/// Whether a text is short enough for the near-cursor bubble (at most 1100 characters).
pub fn is_short_bubble_text(text: &str) -> (r: bool)
    ensures
        r == (text@.len() <= SHORT_TEXT_BUBBLE_LIMIT),
{
    let v = chars_of(text);
    v.len() <= SHORT_TEXT_BUBBLE_LIMIT
}

/// The crypto bubble waiting to be shown, as the bubble window asks for it.
pub fn get_pending_crypto_bubble(pending: &Option<CryptoHint>) -> (r: Option<CryptoHint>)
    ensures
        r == *pending,
{
    match pending {
        Some(h) => Some(h.duplicate()),
        None => None,
    }
}

/// What happens to the crypto bubble: a show starts (the payload is set before the window is
/// shown or created), the window could not be created, only the window is hidden (also when
/// the clipboard prompt is shown), the bubble is hidden, or the bubble window reads the payload.
pub enum BubbleEvent {
    ShowStarted(CryptoHint),
    WindowFailed,
    HideWindow,
    Hide,
    Read,
}

/// The pending payload after one event: a show sets it, a failed window or a hide clears it,
/// hiding only the window or reading it keeps it.
pub open spec fn pending_after(p: Option<CryptoHint>, e: BubbleEvent) -> Option<CryptoHint> {
    match e {
        BubbleEvent::ShowStarted(h) => Some(h),
        BubbleEvent::WindowFailed => None,
        BubbleEvent::Hide => None,
        BubbleEvent::HideWindow => p,
        BubbleEvent::Read => p,
    }
}

/// The pending payload after the events `es`, in order.
pub open spec fn pending_after_all(p: Option<CryptoHint>, es: Seq<BubbleEvent>) -> Option<CryptoHint>
    decreases es.len(),
{
    if es.len() == 0 {
        p
    } else {
        pending_after(pending_after_all(p, es.drop_last()), es.last())
    }
}

/// An event that leaves the payload as it is.
pub open spec fn keeps_pending(e: BubbleEvent) -> bool {
    e is HideWindow || e is Read
}

/// Applies one bubble event to the pending payload; a read gives the payload (a copy of it,
/// which stays pending), any other event gives `None`.
pub fn bubble_event(pending: &mut Option<CryptoHint>, event: BubbleEvent) -> (r: Option<CryptoHint>)
    ensures
        *final(pending) == pending_after(*old(pending), event),
        r == (if event is Read {
            *old(pending)
        } else {
            None
        }),
{
    match event {
        BubbleEvent::ShowStarted(h) => {
            *pending = Some(h);
            None
        },
        BubbleEvent::WindowFailed => {
            *pending = None;
            None
        },
        BubbleEvent::Hide => {
            *pending = None;
            None
        },
        BubbleEvent::HideWindow => None,
        BubbleEvent::Read => get_pending_crypto_bubble(pending),
    }
}

proof fn lemma_kept_tail(p: Option<CryptoHint>, es: Seq<BubbleEvent>, n: int)
    requires
        0 <= n <= es.len(),
        forall|j: int| n <= j < es.len() ==> keeps_pending(#[trigger] es[j]),
    ensures
        pending_after_all(p, es) == pending_after_all(p, es.take(n)),
    decreases es.len(),
{
    if es.len() > n {
        let d = es.drop_last();
        assert forall|j: int| n <= j < d.len() implies keeps_pending(#[trigger] d[j]) by {
            assert(d[j] == es[j]);
        }
        lemma_kept_tail(p, d, n);
        assert(d.take(n) =~= es.take(n));
        assert(keeps_pending(es[es.len() - 1]));
    } else {
        assert(es.take(n) =~= es);
    }
}

/// Reading the pending bubble does not consume it: after a show started with `h`, followed
/// only by window hides and reads, every read gives `h`; after a failed window or a hide,
/// followed only by window hides and reads, a read gives nothing.
pub proof fn law_pending_bubble_survives_reads(p: Option<CryptoHint>, es: Seq<BubbleEvent>, i: int)
    requires
        0 <= i < es.len(),
        forall|j: int| i < j < es.len() ==> keeps_pending(#[trigger] es[j]),
    ensures
        es[i] matches BubbleEvent::ShowStarted(h) ==> pending_after_all(p, es) == Some(h),
        (es[i] is WindowFailed || es[i] is Hide) ==> pending_after_all(p, es) is None,
        pending_after(pending_after_all(p, es), BubbleEvent::Read) == pending_after_all(p, es),
{
    lemma_kept_tail(p, es, i + 1);
    let t = es.take(i + 1);
    assert(t.drop_last() =~= es.take(i));
    assert(t.last() == es[i]);
}

/// How the badge window is sized: hidden at size 0, else shown at `size` x `size`.
pub fn badge_window_size(size: u32) -> (r: Option<u32>)
    ensures
        size == BADGE_HIDDEN_SIZE ==> r is None,
        size != BADGE_HIDDEN_SIZE ==> r == Some(size),
{
    if size == BADGE_HIDDEN_SIZE {
        None
    } else {
        Some(size)
    }
}

/// The stored badge position: both coordinates present, each truncated to 32 bits.
pub fn badge_position_from_store(x: Option<i64>, y: Option<i64>) -> (r: Option<(i32, i32)>)
    ensures
        match (x, y) {
            (Some(a), Some(b)) => r == Some((a as i32, b as i32)),
            _ => r is None,
        },
{
    match (x, y) {
        (Some(a), Some(b)) => Some((a as i32, b as i32)),
        _ => None,
    }
}

/// A monitor's work area in physical pixels.
#[derive(Clone, Copy)]
pub struct WorkArea {
    pub x: i32,
    pub y: i32,
    pub width: i32,
    pub height: i32,
}

pub open spec fn in_i32(v: int) -> bool {
    i32::MIN <= v <= i32::MAX
}

/// Where the badge goes at first start: the bottom-right corner of the work area, `margin`
/// pixels in from both edges.
pub open spec fn corner_origin(work: WorkArea, outer_w: i32, outer_h: i32, margin: i32) -> (int, int) {
    (work.x + work.width - outer_w - margin, work.y + work.height - outer_h - margin)
}

pub open spec fn corner_ok(work: WorkArea, outer_w: i32, outer_h: i32, margin: i32) -> bool {
    &&& in_i32(work.x + work.width) && in_i32(work.x + work.width - outer_w)
    &&& in_i32(work.x + work.width - outer_w - margin)
    &&& in_i32(work.y + work.height) && in_i32(work.y + work.height - outer_h)
    &&& in_i32(work.y + work.height - outer_h - margin)
}

pub fn badge_startup_origin(work: WorkArea, outer_w: i32, outer_h: i32, margin: i32) -> (r: (
    i32,
    i32,
))
    requires
        corner_ok(work, outer_w, outer_h, margin),
    ensures
        r.0 == corner_origin(work, outer_w, outer_h, margin).0,
        r.1 == corner_origin(work, outer_w, outer_h, margin).1,
{
    (work.x + work.width - outer_w - margin, work.y + work.height - outer_h - margin)
}

/// Two rectangles overlap (edges touching do not count).
pub open spec fn intersect(ax: int, ay: int, aw: int, ah: int, bx: int, by: int, bw: int, bh: int) -> bool {
    ax < bx + bw && ax + aw > bx && ay < by + bh && ay + ah > by
}

pub fn rects_intersect(
    ax: i32,
    ay: i32,
    aw: i32,
    ah: i32,
    bx: i32,
    by: i32,
    bw: i32,
    bh: i32,
) -> (r: bool)
    requires
        in_i32(bx + bw),
        in_i32(ax + aw),
        in_i32(by + bh),
        in_i32(ay + ah),
    ensures
        r == intersect(ax as int, ay as int, aw as int, ah as int, bx as int, by as int, bw as int, bh as int),
{
    ax < bx + bw && ax + aw > bx && ay < by + bh && ay + ah > by
}

pub open spec fn clamp_int(v: int, lo: int, hi: int) -> int {
    if v < lo {
        lo
    } else if v > hi {
        hi
    } else {
        v
    }
}

/// The point of `work` nearest to `(cx, cy)`, with coordinates
/// clamped into `[left, max(right - 1, left)]` (the subtraction saturating).
pub open spec fn nearest_point(cx: i32, cy: i32, work: WorkArea) -> (int, int) {
    let right = work.x + work.width;
    let bottom = work.y + work.height;
    let rx = if right - 1 < i32::MIN {
        i32::MIN as int
    } else {
        right - 1
    };
    let by = if bottom - 1 < i32::MIN {
        i32::MIN as int
    } else {
        bottom - 1
    };
    (
        clamp_int(cx as int, work.x as int, if rx > work.x { rx } else { work.x as int }),
        clamp_int(cy as int, work.y as int, if by > work.y { by } else { work.y as int }),
    )
}

/// Squared distance from `(cx, cy)` to the nearest point of `work`.
pub open spec fn dist2(cx: i32, cy: i32, work: WorkArea) -> int {
    let p = nearest_point(cx, cy, work);
    (cx - p.0) * (cx - p.0) + (cy - p.1) * (cy - p.1)
}

pub open spec fn dist_ok(cx: i32, cy: i32, work: WorkArea) -> bool {
    let p = nearest_point(cx, cy, work);
    &&& in_i32(work.x + work.width)
    &&& in_i32(work.y + work.height)
    &&& in_i32(cx - p.0)
    &&& in_i32(cy - p.1)
    &&& dist2(cx, cy, work) <= i64::MAX
}

fn dist2_exec(cx: i32, cy: i32, work: &WorkArea) -> (r: i64)
    requires
        dist_ok(cx, cy, *work),
    ensures
        r == dist2(cx, cy, *work),
{
    let left = work.x;
    let top = work.y;
    let right = left + work.width;
    let bottom = top + work.height;
    let rx = if right == i32::MIN {
        i32::MIN
    } else {
        right - 1
    };
    let by = if bottom == i32::MIN {
        i32::MIN
    } else {
        bottom - 1
    };
    let hx = if rx > left {
        rx
    } else {
        left
    };
    let hy = if by > top {
        by
    } else {
        top
    };
    let nx = if cx < left {
        left
    } else if cx > hx {
        hx
    } else {
        cx
    };
    let ny = if cy < top {
        top
    } else if cy > hy {
        hy
    } else {
        cy
    };
    let dx = (cx - nx) as i64;
    let dy = (cy - ny) as i64;
    assert(dx * dx >= 0 && dy * dy >= 0) by (nonlinear_arith);
    dx * dx + dy * dy
}

/// The work area nearest to `(cx, cy)`: the first one of least squared distance, among those
/// whose distance is below `i64::MAX`.
pub fn nearest_work_area(cx: i32, cy: i32, work_areas: &[WorkArea]) -> (r: Option<usize>)
    requires
        forall|i: int| 0 <= i < work_areas@.len() ==> dist_ok(cx, cy, #[trigger] work_areas@[i]),
    ensures
        match r {
            Some(k) => {
                &&& k < work_areas@.len()
                &&& dist2(cx, cy, work_areas@[k as int]) < i64::MAX
                &&& forall|j: int|
                    0 <= j < k ==> dist2(cx, cy, #[trigger] work_areas@[j]) > dist2(
                        cx,
                        cy,
                        work_areas@[k as int],
                    )
                &&& forall|j: int|
                    0 <= j < work_areas@.len() ==> dist2(cx, cy, #[trigger] work_areas@[j])
                        >= dist2(cx, cy, work_areas@[k as int])
            },
            None => forall|j: int|
                0 <= j < work_areas@.len() ==> dist2(cx, cy, #[trigger] work_areas@[j])
                    >= i64::MAX,
        },
{
    let mut best: Option<usize> = None;
    let mut best_dist: i64 = i64::MAX;
    let mut i: usize = 0;
    while i < work_areas.len()
        invariant
            i <= work_areas@.len(),
            forall|j: int| 0 <= j < work_areas@.len() ==> dist_ok(cx, cy, #[trigger] work_areas@[j]),
            match best {
                Some(k) => {
                    &&& k < i
                    &&& best_dist == dist2(cx, cy, work_areas@[k as int])
                    &&& best_dist < i64::MAX
                    &&& forall|j: int|
                        0 <= j < k ==> dist2(cx, cy, #[trigger] work_areas@[j]) > best_dist
                    &&& forall|j: int|
                        0 <= j < i ==> dist2(cx, cy, #[trigger] work_areas@[j]) >= best_dist
                },
                None => best_dist == i64::MAX && forall|j: int|
                    0 <= j < i ==> dist2(cx, cy, #[trigger] work_areas@[j]) >= i64::MAX,
            },
        decreases work_areas@.len() - i,
    {
        let d = dist2_exec(cx, cy, &work_areas[i]);
        if d < best_dist {
            best_dist = d;
            best = Some(i);
        }
        i = i + 1;
    }
    best
}

/// Where a window at `(x, y)` of size `width` x `height` lands when clamped into `work`.
pub open spec fn clamped_origin(x: i32, y: i32, width: i32, height: i32, work: WorkArea) -> (int, int) {
    let right = work.x + work.width;
    let bottom = work.y + work.height;
    let max_x = if right - width > work.x {
        right - width
    } else {
        work.x as int
    };
    let max_y = if bottom - height > work.y {
        bottom - height
    } else {
        work.y as int
    };
    (clamp_int(x as int, work.x as int, max_x), clamp_int(y as int, work.y as int, max_y))
}

pub open spec fn clamp_ok(width: i32, height: i32, work: WorkArea) -> bool {
    &&& in_i32(work.x + work.width) && in_i32(work.x + work.width - width)
    &&& in_i32(work.y + work.height) && in_i32(work.y + work.height - height)
}

pub fn clamp_origin_to_work_area(x: i32, y: i32, width: i32, height: i32, work: &WorkArea) -> (r: (
    i32,
    i32,
))
    requires
        clamp_ok(width, height, *work),
    ensures
        r.0 == clamped_origin(x, y, width, height, *work).0,
        r.1 == clamped_origin(x, y, width, height, *work).1,
{
    let left = work.x;
    let top = work.y;
    let right = left + work.width;
    let bottom = top + work.height;
    let max_x = if right - width > left {
        right - width
    } else {
        left
    };
    let max_y = if bottom - height > top {
        bottom - height
    } else {
        top
    };
    let nx = if x < left {
        left
    } else if x > max_x {
        max_x
    } else {
        x
    };
    let ny = if y < top {
        top
    } else if y > max_y {
        max_y
    } else {
        y
    };
    (nx, ny)
}

/// A window that fits in the work area lies inside it once clamped.
pub proof fn law_clamped_window_inside(x: i32, y: i32, width: i32, height: i32, work: WorkArea)
    requires
        0 < width <= work.width,
        0 < height <= work.height,
    ensures
        work.x <= clamped_origin(x, y, width, height, work).0,
        clamped_origin(x, y, width, height, work).0 + width <= work.x + work.width,
        work.y <= clamped_origin(x, y, width, height, work).1,
        clamped_origin(x, y, width, height, work).1 + height <= work.y + work.height,
{
}

pub open spec fn relocate_ok(x: i32, y: i32, width: i32, height: i32, work_areas: Seq<WorkArea>) -> bool {
    &&& in_i32(x + width) && in_i32(y + height)
    &&& in_i32(x + width / 2) && in_i32(y + height / 2)
    &&& forall|i: int|
        0 <= i < work_areas.len() ==> {
            let w = #[trigger] work_areas[i];
            &&& dist_ok((x + width / 2) as i32, (y + height / 2) as i32, w)
            &&& clamp_ok(width, height, w)
        }
}

/// Whether the window at `(x, y)` of size `width` x `height` overlaps some work area.
pub open spec fn visible_somewhere(x: i32, y: i32, width: i32, height: i32, work_areas: Seq<WorkArea>) -> bool {
    exists|i: int|
        0 <= i < work_areas.len() && #[trigger] intersect(
            x as int,
            y as int,
            width as int,
            height as int,
            work_areas[i].x as int,
            work_areas[i].y as int,
            work_areas[i].width as int,
            work_areas[i].height as int,
        )
}

/// Where to move a window that no longer overlaps any monitor: mouse-trail overlays, empty
/// windows and visible windows stay; another one is clamped into the work area nearest to
/// its centre (the first such area on a tie).
pub fn relocation_target(
    label: &str,
    x: i32,
    y: i32,
    width: i32,
    height: i32,
    work_areas: &[WorkArea],
) -> (r: Option<(i32, i32)>)
    requires
        relocate_ok(x, y, width, height, work_areas@),
    ensures
        (starts_with(label@, "mouse-trail-"@) || width <= 0 || height <= 0 || visible_somewhere(
            x,
            y,
            width,
            height,
            work_areas@,
        )) ==> r is None,
        !(starts_with(label@, "mouse-trail-"@) || width <= 0 || height <= 0 || visible_somewhere(
            x,
            y,
            width,
            height,
            work_areas@,
        )) ==> match r {
            Some(p) => exists|k: int|
                0 <= k < work_areas@.len() && p.0 == clamped_origin(
                    x,
                    y,
                    width,
                    height,
                    #[trigger] work_areas@[k],
                ).0 && p.1 == clamped_origin(x, y, width, height, work_areas@[k]).1 && (forall|
                    j: int,
                |
                    0 <= j < work_areas@.len() ==> dist2(
                        (x + width / 2) as i32,
                        (y + height / 2) as i32,
                        #[trigger] work_areas@[j],
                    ) >= dist2((x + width / 2) as i32, (y + height / 2) as i32, work_areas@[k]))
                    && (forall|j: int|
                    0 <= j < k ==> dist2(
                        (x + width / 2) as i32,
                        (y + height / 2) as i32,
                        #[trigger] work_areas@[j],
                    ) > dist2((x + width / 2) as i32, (y + height / 2) as i32, work_areas@[k])),
            None => forall|j: int|
                0 <= j < work_areas@.len() ==> dist2(
                    (x + width / 2) as i32,
                    (y + height / 2) as i32,
                    #[trigger] work_areas@[j],
                ) >= i64::MAX,
        },
{
    let lv = chars_of(label);
    let prefix = chars_of("mouse-trail-");
    if starts_with_exec(lv.as_slice(), prefix.as_slice()) {
        return None;
    }
    if width <= 0 || height <= 0 {
        return None;
    }
    let mut i: usize = 0;
    while i < work_areas.len()
        invariant
            i <= work_areas@.len(),
            relocate_ok(x, y, width, height, work_areas@),
            forall|j: int|
                0 <= j < i ==> !#[trigger] intersect(
                    x as int,
                    y as int,
                    width as int,
                    height as int,
                    work_areas@[j].x as int,
                    work_areas@[j].y as int,
                    work_areas@[j].width as int,
                    work_areas@[j].height as int,
                ),
        decreases work_areas@.len() - i,
    {
        let w = work_areas[i];
        assert(dist_ok((x + width / 2) as i32, (y + height / 2) as i32, work_areas@[i as int]));
        if rects_intersect(x, y, width, height, w.x, w.y, w.width, w.height) {
            return None;
        }
        i = i + 1;
    }
    let cx = x + width / 2;
    let cy = y + height / 2;
    match nearest_work_area(cx, cy, work_areas) {
        Some(k) => {
            let p = clamp_origin_to_work_area(x, y, width, height, &work_areas[k]);
            Some(p)
        },
        None => None,
    }
}

/// The monitor a popup belongs to: the first whose work area holds the cursor, else the
/// first monitor.
pub open spec fn holds_point(w: WorkArea, cx: i32, cy: i32) -> bool {
    cx >= w.x && cx < w.x + w.width && cy >= w.y && cy < w.y + w.height
}

pub fn monitor_for_point(cx: i32, cy: i32, work_areas: &[WorkArea]) -> (r: Option<usize>)
    requires
        forall|i: int|
            0 <= i < work_areas@.len() ==> in_i32(#[trigger] work_areas@[i].x + work_areas@[i].width)
                && in_i32(work_areas@[i].y + work_areas@[i].height),
    ensures
        work_areas@.len() == 0 ==> r is None,
        (exists|i: int| 0 <= i < work_areas@.len() && holds_point(#[trigger] work_areas@[i], cx, cy))
            ==> (r matches Some(k) && k < work_areas@.len() && holds_point(
            work_areas@[k as int],
            cx,
            cy,
        ) && forall|j: int| 0 <= j < k ==> !holds_point(#[trigger] work_areas@[j], cx, cy)),
        work_areas@.len() > 0 && !(exists|i: int|
            0 <= i < work_areas@.len() && holds_point(#[trigger] work_areas@[i], cx, cy)) ==> r
            == Some(0usize),
{
    let mut i: usize = 0;
    while i < work_areas.len()
        invariant
            i <= work_areas@.len(),
            forall|j: int|
                0 <= j < work_areas@.len() ==> in_i32(#[trigger] work_areas@[j].x
                    + work_areas@[j].width) && in_i32(work_areas@[j].y + work_areas@[j].height),
            forall|j: int| 0 <= j < i ==> !holds_point(#[trigger] work_areas@[j], cx, cy),
        decreases work_areas@.len() - i,
    {
        let w = work_areas[i];
        if cx >= w.x && cx < w.x + w.width && cy >= w.y && cy < w.y + w.height {
            return Some(i);
        }
        i = i + 1;
    }
    if work_areas.len() > 0 {
        Some(0)
    } else {
        None
    }
}

/// A popup of `popup_w` x `popup_h` physical pixels placed `offset` from the cursor and kept
/// inside `work` (right and bottom edges first, then left and top).
pub open spec fn popup_origin_of(cx: i32, cy: i32, offset: i32, work: Option<WorkArea>, popup_w: i32, popup_h: i32) -> (int, int) {
    let x0 = cx + offset;
    let y0 = cy + offset;
    match work {
        None => (x0, y0),
        Some(w) => {
            let right = w.x + w.width;
            let bottom = w.y + w.height;
            let x1 = if x0 + popup_w > right {
                right - popup_w
            } else {
                x0
            };
            let y1 = if y0 + popup_h > bottom {
                bottom - popup_h
            } else {
                y0
            };
            (if x1 > w.x { x1 } else { w.x as int }, if y1 > w.y { y1 } else { w.y as int })
        },
    }
}

pub open spec fn popup_ok(cx: i32, cy: i32, offset: i32, work: Option<WorkArea>, popup_w: i32, popup_h: i32) -> bool {
    &&& in_i32(cx + offset) && in_i32(cy + offset)
    &&& match work {
        None => true,
        Some(w) => {
            &&& in_i32(cx + offset + popup_w) && in_i32(cy + offset + popup_h)
            &&& in_i32(w.x + w.width) && in_i32(w.y + w.height)
            &&& in_i32(w.x + w.width - popup_w) && in_i32(w.y + w.height - popup_h)
        },
    }
}

pub fn popup_origin(cx: i32, cy: i32, offset: i32, work: Option<WorkArea>, popup_w: i32, popup_h: i32) -> (r: (
    i32,
    i32,
))
    requires
        popup_ok(cx, cy, offset, work, popup_w, popup_h),
    ensures
        r.0 == popup_origin_of(cx, cy, offset, work, popup_w, popup_h).0,
        r.1 == popup_origin_of(cx, cy, offset, work, popup_w, popup_h).1,
{
    let mut x = cx + offset;
    let mut y = cy + offset;
    match work {
        None => (x, y),
        Some(w) => {
            let right = w.x + w.width;
            let bottom = w.y + w.height;
            if x + popup_w > right {
                x = right - popup_w;
            }
            if y + popup_h > bottom {
                y = bottom - popup_h;
            }
            if x < w.x {
                x = w.x;
            }
            if y < w.y {
                y = w.y;
            }
            (x, y)
        },
    }
}

/// A window of `width_px` x `height_px` centred in `work` (never left of or above it).
pub open spec fn centered_origin(work: WorkArea, width_px: i32, height_px: i32) -> (int, int) {
    let fx = work.width - width_px;
    let fy = work.height - height_px;
    (
        work.x + (if fx > 0 { fx } else { 0 }) / 2,
        work.y + (if fy > 0 { fy } else { 0 }) / 2,
    )
}

pub open spec fn center_ok(work: WorkArea, width_px: i32, height_px: i32) -> bool {
    &&& in_i32(work.width - width_px) && in_i32(work.height - height_px)
    &&& in_i32(centered_origin(work, width_px, height_px).0)
    &&& in_i32(centered_origin(work, width_px, height_px).1)
}

pub fn center_in_work_area(work: WorkArea, width_px: i32, height_px: i32) -> (r: (i32, i32))
    requires
        center_ok(work, width_px, height_px),
    ensures
        r.0 == centered_origin(work, width_px, height_px).0,
        r.1 == centered_origin(work, width_px, height_px).1,
{
    let fx = work.width - width_px;
    let fy = work.height - height_px;
    let gx = if fx > 0 {
        fx
    } else {
        0
    };
    let gy = if fy > 0 {
        fy
    } else {
        0
    };
    (work.x + gx / 2, work.y + gy / 2)
}

} // verus!
