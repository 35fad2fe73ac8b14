//! Mouse-trail preferences (effect and colours), overlay window labels, the cursor feed and
//! the per-monitor overlay plan.
use vstd::prelude::*;
use crate::text::{
    append_str, chars_of, dec, dec_chars, is_hex_digit, is_hex_digit_exec, is_ws, lemma_dec_digits,
    lemma_trim_fixed, lower, lower_chars, parse_unsigned, parse_unsigned_exec, starts_with,
    starts_with_exec, str_eq, string_of, trim, trim_chars, trim_start_char, trim_start_char_exec,
    ascii_lower, char_run_end,
};

verus! {

pub const MAX_OVERLAYS: usize = 8;
pub const DEFAULT_EFFECT: &'static str = "ribbon";
pub const DEFAULT_METEOR_COLOR: &'static str = "#F8EC85";
pub const DEFAULT_DOTS_COLOR: &'static str = "#00D1CE";
pub const DEFAULT_HEART_COLOR: &'static str = "#FF2EC8";
pub const OVERLAY_PREFIX: &'static str = "mouse-trail-";

/// A cursor position sent to the overlays.
pub struct MouseTrailCursor {
    pub x: i32,
    pub y: i32,
}

/// Colours of the effects that can be coloured.
pub struct MouseTrailColors {
    pub meteor: String,
    pub dots: String,
    pub heart: String,
}

/// The stored mouse-trail preference.
pub struct MouseTrailPref {
    pub enabled: bool,
    pub effect: String,
    pub colors: MouseTrailColors,
}

pub fn default_meteor_color() -> (r: String)
    ensures
        r@ == DEFAULT_METEOR_COLOR@,
{
    String::from_str(DEFAULT_METEOR_COLOR)
}

pub fn default_dots_color() -> (r: String)
    ensures
        r@ == DEFAULT_DOTS_COLOR@,
{
    String::from_str(DEFAULT_DOTS_COLOR)
}

pub fn default_heart_color() -> (r: String)
    ensures
        r@ == DEFAULT_HEART_COLOR@,
{
    String::from_str(DEFAULT_HEART_COLOR)
}

impl Default for MouseTrailColors {
    fn default() -> (r: Self)
        ensures
            r.meteor@ == DEFAULT_METEOR_COLOR@,
            r.dots@ == DEFAULT_DOTS_COLOR@,
            r.heart@ == DEFAULT_HEART_COLOR@,
    {
        MouseTrailColors {
            meteor: default_meteor_color(),
            dots: default_dots_color(),
            heart: default_heart_color(),
        }
    }
}

impl Default for MouseTrailPref {
    fn default() -> (r: Self)
        ensures
            !r.enabled,
            r.effect@ == DEFAULT_EFFECT@,
            r.colors.meteor@ == DEFAULT_METEOR_COLOR@,
            r.colors.dots@ == DEFAULT_DOTS_COLOR@,
            r.colors.heart@ == DEFAULT_HEART_COLOR@,
    {
        MouseTrailPref {
            enabled: false,
            effect: String::from_str(DEFAULT_EFFECT),
            colors: MouseTrailColors::default(),
        }
    }
}

/// `mouse-trail-{index}`.
pub open spec fn overlay_label_of(index: nat) -> Seq<char> {
    OVERLAY_PREFIX@ + dec(index)
}

pub fn overlay_label(index: usize) -> (r: String)
    ensures
        r@ == overlay_label_of(index as nat),
{
    let mut out = String::from_str(OVERLAY_PREFIX);
    let d = dec_chars(index as u64);
    let ds = string_of(d.as_slice());
    append_str(&mut out, ds.as_str());
    out
}

/// The overlay index a label names: the text after `mouse-trail-` read as a `usize`.
pub open spec fn overlay_index_of(label: Seq<char>) -> Option<nat> {
    if starts_with(label, OVERLAY_PREFIX@) {
        parse_unsigned(label.skip(OVERLAY_PREFIX@.len() as int), usize::MAX as nat)
    } else {
        None
    }
}

pub fn parse_overlay_index(label: &str) -> (r: Option<usize>)
    ensures
        match r {
            Some(i) => overlay_index_of(label@) == Some(i as nat),
            None => overlay_index_of(label@) is None,
        },
{
    let v = chars_of(label);
    let p = chars_of(OVERLAY_PREFIX);
    if !starts_with_exec(v.as_slice(), p.as_slice()) {
        return None;
    }
    let mut rest: Vec<char> = Vec::new();
    let mut k: usize = p.len();
    while k < v.len()
        invariant
            p.len() <= k <= v.len(),
            rest@ == v@.subrange(p.len() as int, k as int),
        decreases v.len() - k,
    {
        rest.push(v[k]);
        k = k + 1;
    }
    assert(rest@ =~= v@.skip(p@.len() as int));
    match parse_unsigned_exec(rest.as_slice(), usize::MAX as u64) {
        Some(n) => Some(n as usize),
        None => None,
    }
}

/// The label of overlay `i` names overlay `i`.
pub proof fn law_overlay_label_roundtrip(i: usize)
    ensures
        overlay_index_of(overlay_label_of(i as nat)) == Some(i as nat),
{
    let l = overlay_label_of(i as nat);
    let p = OVERLAY_PREFIX@;
    assert(l.take(p.len() as int) =~= p);
    assert(l.skip(p.len() as int) =~= dec(i as nat));
    lemma_dec_digits(i as nat);
}

/// Whether a window label belongs to a mouse-trail overlay.
pub fn is_overlay_label(label: &str) -> (r: bool)
    ensures
        r == starts_with(label@, OVERLAY_PREFIX@),
{
    let v = chars_of(label);
    let p = chars_of(OVERLAY_PREFIX);
    starts_with_exec(v.as_slice(), p.as_slice())
}

/// The known effects, anything else becomes the default `ribbon`.
pub open spec fn normalized_effect(raw: Seq<char>) -> Seq<char> {
    if raw == "meteor"@ || raw == "graffiti"@ || raw == "dots"@ || raw == "heart"@ {
        raw
    } else {
        DEFAULT_EFFECT@
    }
}

pub fn normalize_effect(raw: &str) -> (r: String)
    ensures
        r@ == normalized_effect(raw@),
{
    if str_eq(raw, "meteor") || str_eq(raw, "graffiti") || str_eq(raw, "dots") || str_eq(
        raw,
        "heart",
    ) {
        String::from_str(raw)
    } else {
        String::from_str(DEFAULT_EFFECT)
    }
}

/// Six hexadecimal digits.
pub open spec fn is_hex6(s: Seq<char>) -> bool {
    s.len() == 6 && forall|i: int| 0 <= i < 6 ==> is_hex_digit(#[trigger] s[i])
}

/// A colour as typed: trimmed, leading `#`s dropped, ASCII lower case.
pub open spec fn color_digits(raw: Seq<char>) -> Seq<char> {
    lower(trim_start_char(trim(raw), '#'))
}

/// `#` and six lower-case hex digits from `raw`, else from `fallback`, else `#ffffff`.
pub open spec fn normalized_color(raw: Seq<char>, fallback: Seq<char>) -> Seq<char> {
    if is_hex6(color_digits(raw)) {
        seq!['#'] + color_digits(raw)
    } else if is_hex6(color_digits(fallback)) {
        seq!['#'] + color_digits(fallback)
    } else {
        "#ffffff"@
    }
}

fn is_hex6_exec(v: &[char]) -> (r: bool)
    ensures
        r == is_hex6(v@),
{
    if v.len() != 6 {
        return false;
    }
    let mut i: usize = 0;
    while i < 6
        invariant
            v.len() == 6,
            i <= 6,
            forall|k: int| 0 <= k < i ==> is_hex_digit(#[trigger] v@[k]),
        decreases 6 - i,
    {
        if !is_hex_digit_exec(v[i]) {
            return false;
        }
        i = i + 1;
    }
    true
}

fn color_digits_exec(raw: &str) -> (r: Vec<char>)
    ensures
        r@ == color_digits(raw@),
{
    let t = trim_chars(chars_of(raw).as_slice());
    let s = trim_start_char_exec(t.as_slice(), '#');
    lower_chars(s.as_slice())
}

fn hash_prefixed(d: &[char]) -> (r: String)
    ensures
        r@ == seq!['#'] + d@,
{
    let mut out = String::from_str("#");
    let s = string_of(d);
    append_str(&mut out, s.as_str());
    proof {
        reveal_strlit("#");
    }
    out
}

pub fn normalize_color(raw: &str, fallback: &str) -> (r: String)
    ensures
        r@ == normalized_color(raw@, fallback@),
{
    let cleaned = color_digits_exec(raw);
    if is_hex6_exec(cleaned.as_slice()) {
        return hash_prefixed(cleaned.as_slice());
    }
    let fb = color_digits_exec(fallback);
    if is_hex6_exec(fb.as_slice()) {
        return hash_prefixed(fb.as_slice());
    }
    String::from_str("#ffffff")
}

pub open spec fn colors_normalized(c: MouseTrailColors, old_c: MouseTrailColors) -> bool {
    &&& c.meteor@ == normalized_color(old_c.meteor@, DEFAULT_METEOR_COLOR@)
    &&& c.dots@ == normalized_color(old_c.dots@, DEFAULT_DOTS_COLOR@)
    &&& c.heart@ == normalized_color(old_c.heart@, DEFAULT_HEART_COLOR@)
}

pub fn normalize_colors(colors: &mut MouseTrailColors)
    ensures
        colors_normalized(*final(colors), *old(colors)),
{
    colors.meteor = normalize_color(colors.meteor.as_str(), DEFAULT_METEOR_COLOR);
    colors.dots = normalize_color(colors.dots.as_str(), DEFAULT_DOTS_COLOR);
    colors.heart = normalize_color(colors.heart.as_str(), DEFAULT_HEART_COLOR);
}

pub open spec fn pref_normalized(p: MouseTrailPref, old_p: MouseTrailPref) -> bool {
    &&& p.enabled == old_p.enabled
    &&& p.effect@ == normalized_effect(old_p.effect@)
    &&& colors_normalized(p.colors, old_p.colors)
}

pub fn normalize_pref(pref: &mut MouseTrailPref)
    ensures
        pref_normalized(*final(pref), *old(pref)),
{
    pref.effect = normalize_effect(pref.effect.as_str());
    normalize_colors(&mut pref.colors);
}

proof fn lemma_lower_idempotent(s: Seq<char>)
    ensures
        lower(lower(s)) == lower(s),
{
    let l = lower(s);
    assert forall|i: int| 0 <= i < l.len() implies #[trigger] lower(l)[i] == l[i] by {
        assert(l[i] == ascii_lower(s[i]));
    }
    assert(lower(l) =~= l);
}

/// What `normalize_color` gives is already normal: `#` and six lower-case hex digits.
proof fn lemma_color_output(c: Seq<char>, fallback: Seq<char>)
    ensures
        color_digits(normalized_color(c, fallback)).len() == 6,
        normalized_color(normalized_color(c, fallback), fallback) == normalized_color(c, fallback),
{
    reveal_strlit("#ffffff");
    let out = normalized_color(c, fallback);
    let h = out.drop_first();
    if is_hex6(color_digits(c)) {
        lemma_lower_idempotent(trim_start_char(trim(c), '#'));
        assert(out =~= seq!['#'] + color_digits(c));
        assert(h =~= color_digits(c));
    } else if is_hex6(color_digits(fallback)) {
        lemma_lower_idempotent(trim_start_char(trim(fallback), '#'));
        assert(out =~= seq!['#'] + color_digits(fallback));
        assert(h =~= color_digits(fallback));
    } else {
        assert(h =~= "ffffff"@) by {
            reveal_strlit("ffffff");
        }
        assert(is_hex6(h));
        assert(lower(h) =~= h);
    }
    assert(is_hex6(h));
    assert(lower(h) == h);
    assert(is_hex_digit(h[0]) && is_hex_digit(h[5]));
    assert(out[6] == h[5]);
    lemma_trim_fixed(out);
    assert(char_run_end(out, '#', 1) == 1);
    assert(char_run_end(out, '#', 0) == 1);
    assert(trim_start_char(trim(out), '#') =~= h);
    assert(color_digits(out) == h);
    assert(normalized_color(out, fallback) =~= seq!['#'] + h);
}

/// Normalising a preference twice gives what normalising it once gave.
pub proof fn law_normalize_pref_idempotent(p: MouseTrailPref, q: MouseTrailPref, r: MouseTrailPref)
    requires
        pref_normalized(q, p),
        pref_normalized(r, q),
    ensures
        r.enabled == q.enabled,
        r.effect@ == q.effect@,
        r.colors.meteor@ == q.colors.meteor@,
        r.colors.dots@ == q.colors.dots@,
        r.colors.heart@ == q.colors.heart@,
{
    lemma_color_output(p.colors.meteor@, DEFAULT_METEOR_COLOR@);
    lemma_color_output(p.colors.dots@, DEFAULT_DOTS_COLOR@);
    lemma_color_output(p.colors.heart@, DEFAULT_HEART_COLOR@);
}

/// The preference as loaded: a stored one normalised, or the default when none could be read.
pub fn pref_from_store(stored: Option<MouseTrailPref>) -> (r: MouseTrailPref)
    ensures
        match stored {
            Some(p) => pref_normalized(r, p),
            None => !r.enabled && r.effect@ == DEFAULT_EFFECT@ && r.colors.meteor@
                == DEFAULT_METEOR_COLOR@ && r.colors.dots@ == DEFAULT_DOTS_COLOR@ && r.colors.heart@
                == DEFAULT_HEART_COLOR@,
        },
{
    match stored {
        Some(p) => {
            let mut p = p;
            normalize_pref(&mut p);
            p
        },
        None => MouseTrailPref::default(),
    }
}

/// The preference with the trail switched on or off.
pub fn pref_with_enabled(pref: MouseTrailPref, enabled: bool) -> (r: MouseTrailPref)
    ensures
        r.enabled == enabled,
        r.effect@ == pref.effect@,
        r.colors.meteor@ == pref.colors.meteor@,
        r.colors.dots@ == pref.colors.dots@,
        r.colors.heart@ == pref.colors.heart@,
{
    let mut p = pref;
    p.enabled = enabled;
    p
}

/// The preference with another effect (normalised).
pub fn pref_with_effect(pref: MouseTrailPref, effect: &str) -> (r: MouseTrailPref)
    ensures
        r.enabled == pref.enabled,
        r.effect@ == normalized_effect(effect@),
        r.colors.meteor@ == pref.colors.meteor@,
        r.colors.dots@ == pref.colors.dots@,
        r.colors.heart@ == pref.colors.heart@,
{
    let mut p = pref;
    p.effect = normalize_effect(effect);
    p
}

pub open spec fn msg_not_colorable() -> Seq<char> {
    "该特效不支持自定义颜色"@
}

/// The effects whose colour can be chosen.
pub open spec fn colorable(effect: Seq<char>) -> bool {
    effect == "meteor"@ || effect == "dots"@ || effect == "heart"@
}

/// The default colour of a colourable effect.
pub open spec fn default_color_of(effect: Seq<char>) -> Seq<char> {
    if effect == "meteor"@ {
        DEFAULT_METEOR_COLOR@
    } else if effect == "dots"@ {
        DEFAULT_DOTS_COLOR@
    } else {
        DEFAULT_HEART_COLOR@
    }
}

/// `pref` with the colour of `effect` replaced by `color`; the other fields kept.
pub open spec fn recolored(r: MouseTrailPref, pref: MouseTrailPref, effect: Seq<char>, color: Seq<
    char,
>) -> bool {
    &&& r.enabled == pref.enabled
    &&& r.effect@ == pref.effect@
    &&& r.colors.meteor@ == (if effect == "meteor"@ {
        color
    } else {
        pref.colors.meteor@
    })
    &&& r.colors.dots@ == (if effect == "dots"@ {
        color
    } else {
        pref.colors.dots@
    })
    &&& r.colors.heart@ == (if effect == "heart"@ {
        color
    } else {
        pref.colors.heart@
    })
}

fn recolor(pref: MouseTrailPref, effect: &str, color: String) -> (r: MouseTrailPref)
    requires
        colorable(effect@),
    ensures
        recolored(r, pref, effect@, color@),
{
    proof {
        reveal_strlit("meteor");
        reveal_strlit("dots");
        reveal_strlit("heart");
        assert("meteor"@.len() == 6 && "dots"@.len() == 4 && "heart"@.len() == 5);
        assert("meteor"@ != "dots"@ && "meteor"@ != "heart"@ && "dots"@ != "heart"@);
    }
    let MouseTrailPref { enabled, effect: eff, colors } = pref;
    let MouseTrailColors { meteor, dots, heart } = colors;
    if str_eq(effect, "meteor") {
        MouseTrailPref { enabled, effect: eff, colors: MouseTrailColors { meteor: color, dots, heart } }
    } else if str_eq(effect, "dots") {
        MouseTrailPref { enabled, effect: eff, colors: MouseTrailColors { meteor, dots: color, heart } }
    } else {
        MouseTrailPref { enabled, effect: eff, colors: MouseTrailColors { meteor, dots, heart: color } }
    }
}

/// Set the colour of `effect` (normalised, with the effect's default as fallback). Only the
/// meteor, dots and heart effects have a colour.
pub fn pref_with_color(pref: MouseTrailPref, effect: &str, color: &str) -> (r: Result<
    MouseTrailPref,
    String,
>)
    ensures
        !colorable(normalized_effect(effect@)) ==> (r matches Err(e) && e@ == msg_not_colorable()),
        colorable(normalized_effect(effect@)) ==> (r matches Ok(p) && recolored(
            p,
            pref,
            normalized_effect(effect@),
            normalized_color(color@, default_color_of(normalized_effect(effect@))),
        )),
{
    let ne = normalize_effect(effect);
    if !(str_eq(ne.as_str(), "meteor") || str_eq(ne.as_str(), "dots") || str_eq(
        ne.as_str(),
        "heart",
    )) {
        return Err(String::from_str("该特效不支持自定义颜色"));
    }
    let fallback = if str_eq(ne.as_str(), "meteor") {
        DEFAULT_METEOR_COLOR
    } else if str_eq(ne.as_str(), "dots") {
        DEFAULT_DOTS_COLOR
    } else {
        DEFAULT_HEART_COLOR
    };
    let c = normalize_color(color, fallback);
    Ok(recolor(pref, ne.as_str(), c))
}

/// Put the colour of `effect` back to its default.
pub fn pref_with_color_reset(pref: MouseTrailPref, effect: &str) -> (r: Result<
    MouseTrailPref,
    String,
>)
    ensures
        !colorable(normalized_effect(effect@)) ==> (r matches Err(e) && e@ == msg_not_colorable()),
        colorable(normalized_effect(effect@)) ==> (r matches Ok(p) && recolored(
            p,
            pref,
            normalized_effect(effect@),
            default_color_of(normalized_effect(effect@)),
        )),
{
    let ne = normalize_effect(effect);
    if !(str_eq(ne.as_str(), "meteor") || str_eq(ne.as_str(), "dots") || str_eq(
        ne.as_str(),
        "heart",
    )) {
        return Err(String::from_str("该特效不支持自定义颜色"));
    }
    let c = if str_eq(ne.as_str(), "meteor") {
        default_meteor_color()
    } else if str_eq(ne.as_str(), "dots") {
        default_dots_color()
    } else {
        default_heart_color()
    };
    Ok(recolor(pref, ne.as_str(), c))
}

/// One turn of the cursor feed: while the trail is on, a new position is sent once and the
/// feed waits 33 ms; while it is off, the last position is forgotten and it waits 100 ms.
pub fn cursor_feed_step(last: Option<(i32, i32)>, enabled: bool, pos: Option<(i32, i32)>) -> (r: (
    Option<(i32, i32)>,
    Option<MouseTrailCursor>,
    u64,
))
    ensures
        !enabled ==> r.0 is None && r.1 is None && r.2 == 100,
        enabled ==> r.2 == 33,
        enabled ==> match pos {
            Some(p) => if last != Some(p) {
                r.0 == Some(p) && (r.1 matches Some(c) && c.x == p.0 && c.y == p.1)
            } else {
                r.0 == last && r.1 is None
            },
            None => r.0 == last && r.1 is None,
        },
{
    if !enabled {
        return (None, None, 100);
    }
    match pos {
        Some(p) => {
            let same = match last {
                Some(l) => l.0 == p.0 && l.1 == p.1,
                None => false,
            };
            if same {
                (last, None, 33)
            } else {
                (Some(p), Some(MouseTrailCursor { x: p.0, y: p.1 }), 33)
            }
        },
        None => (last, None, 33),
    }
}

/// What to do with the overlay window of one monitor slot.
pub enum OverlayAction {
    /// Leave it as it is.
    Nothing,
    /// Close the window (its monitor is gone).
    Close,
    /// Move and resize the existing window to its monitor, then show or hide it.
    Update { show: bool },
    /// Create the window on its monitor and show it.
    Create,
}

/// The plan for overlay slot `index` with `monitor_count` monitors: slots past the monitors
/// close their window; an existing window follows its monitor and `visible`; a missing one
/// is created only when the overlays are to be visible.
pub fn overlay_action(index: usize, monitor_count: usize, window_exists: bool, visible: bool) -> (r:
    OverlayAction)
    ensures
        index >= monitor_count ==> (if window_exists {
            r is Close
        } else {
            r is Nothing
        }),
        index < monitor_count && window_exists ==> (r matches OverlayAction::Update { show } && show
            == visible),
        index < monitor_count && !window_exists ==> (if visible {
            r is Create
        } else {
            r is Nothing
        }),
{
    if index >= monitor_count {
        if window_exists {
            OverlayAction::Close
        } else {
            OverlayAction::Nothing
        }
    } else if window_exists {
        OverlayAction::Update { show: visible }
    } else if visible {
        OverlayAction::Create
    } else {
        OverlayAction::Nothing
    }
}

} // verus!
