//! The multi-monitor screensaver: its look (background and clock) and its overlay labels
//! (its overlays follow the same plan as the mouse-trail ones).
use vstd::prelude::*;
use crate::json::{JsonV, JsonValue, as_str_opt, get, opt_view, str_of};
use crate::text::{append_str, dec, dec_chars, starts_with, starts_with_exec, chars_of, str_eq, string_of};

verus! {

pub const MAX_OVERLAYS: usize = 8;
pub const DEFAULT_BACKGROUND: &'static str = "parallax";
pub const DEFAULT_CLOCK: &'static str = "lcd3d";
pub const OVERLAY_PREFIX: &'static str = "screensaver-";

/// The screensaver's look.
pub struct ScreensaverPref {
    pub background: String,
    pub clock: String,
}

pub fn default_background() -> (r: String)
    ensures
        r@ == DEFAULT_BACKGROUND@,
{
    String::from_str(DEFAULT_BACKGROUND)
}

pub fn default_clock() -> (r: String)
    ensures
        r@ == DEFAULT_CLOCK@,
{
    String::from_str(DEFAULT_CLOCK)
}

impl Default for ScreensaverPref {
    fn default() -> (r: Self)
        ensures
            r.background@ == DEFAULT_BACKGROUND@,
            r.clock@ == DEFAULT_CLOCK@,
    {
        ScreensaverPref { background: default_background(), clock: default_clock() }
    }
}

/// `screensaver-{index}`.
pub fn overlay_label(index: usize) -> (r: String)
    ensures
        r@ == OVERLAY_PREFIX@ + dec(index as nat),
{
    let mut out = String::from_str(OVERLAY_PREFIX);
    let d = string_of(dec_chars(index as u64).as_slice());
    append_str(&mut out, d.as_str());
    out
}

/// Whether a window label belongs to a screensaver overlay.
pub fn is_overlay_label(label: &str) -> (r: bool)
    ensures
        r == starts_with(label@, OVERLAY_PREFIX@),
{
    starts_with_exec(chars_of(label).as_slice(), chars_of(OVERLAY_PREFIX).as_slice())
}

/// Whether the screensaver is shown.
pub fn is_active(active: bool) -> (r: bool)
    ensures
        r == active,
{
    active
}

pub open spec fn normalized_background(raw: Seq<char>) -> Seq<char> {
    if raw == "corona"@ || raw == "parallax"@ || raw == "snow"@ {
        raw
    } else {
        DEFAULT_BACKGROUND@
    }
}

pub open spec fn normalized_clock(raw: Seq<char>) -> Seq<char> {
    if raw == "lcd3d"@ || raw == "analog"@ || raw == "compass"@ || raw == "off"@ {
        raw
    } else {
        DEFAULT_CLOCK@
    }
}

/// The normalised background and clock normalise to themselves.
pub proof fn law_screensaver_pref_idempotent(background: Seq<char>, clock: Seq<char>)
    ensures
        normalized_background(normalized_background(background)) == normalized_background(background),
        normalized_clock(normalized_clock(clock)) == normalized_clock(clock),
{
}

pub fn normalize_background(raw: &str) -> (r: String)
    ensures
        r@ == normalized_background(raw@),
{
    if str_eq(raw, "corona") || str_eq(raw, "parallax") || str_eq(raw, "snow") {
        String::from_str(raw)
    } else {
        default_background()
    }
}

pub fn normalize_clock(raw: &str) -> (r: String)
    ensures
        r@ == normalized_clock(raw@),
{
    if str_eq(raw, "lcd3d") || str_eq(raw, "analog") || str_eq(raw, "compass") || str_eq(raw, "off") {
        String::from_str(raw)
    } else {
        default_clock()
    }
}

/// The stored look: the legacy form `{ "effect": .. }` (a string effect and no background)
/// gives that background and the default clock; otherwise background and clock are read
/// (normalised) with defaults for what is missing.
pub open spec fn pref_from_value(v: JsonV) -> (Seq<char>, Seq<char>) {
    match str_of(get(v, "effect"@)) {
        Some(effect) if get(v, "background"@) is None => (normalized_background(effect), DEFAULT_CLOCK@),
        _ => (
            match str_of(get(v, "background"@)) {
                Some(b) => normalized_background(b),
                None => DEFAULT_BACKGROUND@,
            },
            match str_of(get(v, "clock"@)) {
                Some(c) => normalized_clock(c),
                None => DEFAULT_CLOCK@,
            },
        ),
    }
}

pub fn pref_from_store_value(value: &JsonValue) -> (r: ScreensaverPref)
    ensures
        (r.background@, r.clock@) == pref_from_value(value@),
{
    match as_str_opt(value.get_field("effect")) {
        Some(effect) => {
            if value.get_field("background").is_none() {
                return ScreensaverPref { background: normalize_background(effect.as_str()), clock: default_clock() };
            }
        },
        None => {},
    }
    let background = match as_str_opt(value.get_field("background")) {
        Some(b) => normalize_background(b.as_str()),
        None => default_background(),
    };
    let clock = match as_str_opt(value.get_field("clock")) {
        Some(c) => normalize_clock(c.as_str()),
        None => default_clock(),
    };
    ScreensaverPref { background, clock }
}

/// The look with another background (normalised).
pub fn pref_with_background(pref: ScreensaverPref, background: &str) -> (r: ScreensaverPref)
    ensures
        r.background@ == normalized_background(background@),
        r.clock@ == pref.clock@,
{
    ScreensaverPref { background: normalize_background(background), clock: pref.clock }
}

/// The look with another clock (normalised).
pub fn pref_with_clock(pref: ScreensaverPref, clock: &str) -> (r: ScreensaverPref)
    ensures
        r.clock@ == normalized_clock(clock@),
        r.background@ == pref.background@,
{
    ScreensaverPref { background: pref.background, clock: normalize_clock(clock) }
}

} // verus!
