//! Global shortcuts: checking what the user typed, the fixed mouse-trail keys, conflicts
//! between the configurable slots, and the order in which everything is registered.
use vstd::prelude::*;
use crate::text::{
    append_str, chars_of, lower, lower_chars, seq_eq, split_char, split_chars, string_of, trim,
    trim_chars,
};

verus! {

pub const MAX_KEYS: usize = 4;
pub const TRAIL_ARM_SHORTCUT: &'static str = "Ctrl+T";

/// The fixed keys that pick a mouse-trail effect: `Ctrl+1` to `Ctrl+6`.
pub open spec fn trail_effect_shortcut(i: int) -> Seq<char> {
    if i == 0 {
        "Ctrl+1"@
    } else if i == 1 {
        "Ctrl+2"@
    } else if i == 2 {
        "Ctrl+3"@
    } else if i == 3 {
        "Ctrl+4"@
    } else if i == 4 {
        "Ctrl+5"@
    } else {
        "Ctrl+6"@
    }
}

pub fn trail_effect_shortcuts() -> (r: Vec<&'static str>)
    ensures
        r@.len() == 6,
        forall|i: int| 0 <= i < 6 ==> (#[trigger] r@[i])@ == trail_effect_shortcut(i),
{
    let mut v: Vec<&'static str> = Vec::new();
    v.push("Ctrl+1");
    v.push("Ctrl+2");
    v.push("Ctrl+3");
    v.push("Ctrl+4");
    v.push("Ctrl+5");
    v.push("Ctrl+6");
    v
}

/// Which configurable slot a shortcut is for.
#[derive(Clone, Copy, PartialEq, Eq, Structural)]
pub enum ShortcutOwner {
    MouseFollow,
    Compare,
    HostsQuick,
    BrightnessQuick,
}

/// Every spelling of the `CmdOrCtrl` modifier (`CommandOrControl`, `CmdOrCtrl`, ...) has
/// `o`, `r`, `c` in a row, in any case.
pub open spec fn orc_at(s: Seq<char>, i: int) -> bool {
    &&& (s[i] == 'o' || s[i] == 'O')
    &&& (s[i + 1] == 'r' || s[i + 1] == 'R')
    &&& (s[i + 2] == 'c' || s[i + 2] == 'C')
}

/// A shortcut text that the hotkey parser reads the same way on every platform: no
/// `CmdOrCtrl` spelling (which means Super on macOS and Control elsewhere). The parser
/// upper-cases each token; no non-ASCII character upper-cases to any letter of those
/// spellings, so a token that names `CmdOrCtrl` shows `o`, `r`, `c` in a row in the text.
pub open spec fn platform_neutral(s: Seq<char>) -> bool {
    forall|i: int| 0 <= i && i + 2 < s.len() ==> !#[trigger] orc_at(s, i)
}

/// What global-hotkey's `HotKey::from_str` gives for a text, reduced to the hotkey id (the
/// modifier bits shifted left by 16, or-ed with the key code), or the parse error's message.
/// Whether the text parses, and the error's message, are the same on every platform; the id
/// is the parser's only for platform-neutral text (see `shortcut_id`).
pub uninterp spec fn hotkey_result(raw: Seq<char>) -> Result<u32, Seq<char>>;

/// `HotKey::from_str` of global-hotkey (the plugin's `Shortcut`), reduced to the hotkey id;
/// a parse error becomes its message. The parser accepts and rejects the same texts, with the
/// same messages, on every platform: the `CmdOrCtrl` names are modifiers everywhere and mean
/// Super on macOS and Control elsewhere. So success and the error are `hotkey_result`'s for
/// every text, and the id is `hotkey_result`'s for platform-neutral text; the id of a text
/// spelling `CmdOrCtrl` is left unstated, as it depends on the platform.
#[verifier::external_body]
fn shortcut_id(raw: &str) -> (r: Result<u32, String>)
    ensures
        match hotkey_result(raw@) {
            Err(e) => r matches Err(m) && m@ == e,
            Ok(id) => r is Ok && (platform_neutral(raw@) ==> r == Ok::<u32, String>(id)),
        },
{
    match raw.parse::<global_hotkey::hotkey::HotKey>() {
        Ok(hotkey) => Ok(hotkey.id()),
        Err(error) => Err(error.to_string()),
    }
}

/// A key name is a modifier: ctrl, control, shift, alt, option, meta, super, cmd, command
/// (in any ASCII case).
pub open spec fn is_modifier_name(part: Seq<char>) -> bool {
    let l = lower(part);
    l == "ctrl"@ || l == "control"@ || l == "shift"@ || l == "alt"@ || l == "option"@ || l
        == "meta"@ || l == "super"@ || l == "cmd"@ || l == "command"@
}

fn eq_str_chars(a: &[char], b: &str) -> (r: bool)
    ensures
        r == (a@ == b@),
{
    let bv = chars_of(b);
    seq_eq(a, bv.as_slice())
}

pub fn is_modifier(part: &str) -> (r: bool)
    ensures
        r == is_modifier_name(part@),
{
    let l = lower_chars(chars_of(part).as_slice());
    let s = l.as_slice();
    eq_str_chars(s, "ctrl") || eq_str_chars(s, "control") || eq_str_chars(s, "shift")
        || eq_str_chars(s, "alt") || eq_str_chars(s, "option") || eq_str_chars(s, "meta")
        || eq_str_chars(s, "super") || eq_str_chars(s, "cmd") || eq_str_chars(s, "command")
}

/// The trimmed, non-empty pieces.
pub open spec fn kept_parts(pieces: Seq<Seq<char>>) -> Seq<Seq<char>>
    decreases pieces.len(),
{
    if pieces.len() == 0 {
        Seq::empty()
    } else {
        let rest = kept_parts(pieces.drop_last());
        let t = trim(pieces.last());
        if t.len() == 0 {
            rest
        } else {
            rest.push(t)
        }
    }
}

/// The keys of a typed shortcut: split at `+`, trimmed, empty ones dropped.
pub open spec fn shortcut_parts(raw: Seq<char>) -> Seq<Seq<char>> {
    kept_parts(split_char(raw, '+'))
}

/// Keys joined with `+`.
pub open spec fn join_plus(parts: Seq<Seq<char>>) -> Seq<char>
    decreases parts.len(),
{
    if parts.len() == 0 {
        Seq::empty()
    } else if parts.len() == 1 {
        parts[0]
    } else {
        join_plus(parts.drop_last()) + seq!['+'] + parts.last()
    }
}

pub open spec fn msg_key_count() -> Seq<char> {
    "快捷键需为 2–4 个键，且包含修饰键和主键"@
}

pub open spec fn msg_key_kinds() -> Seq<char> {
    "至少需要一个修饰键和一个主键"@
}

/// A typed shortcut before the hotkey parser sees it: two to four keys, at least one
/// modifier and one other key, normalised to the keys joined with `+`.
pub open spec fn shortcut_candidate(raw: Seq<char>) -> Result<Seq<char>, Seq<char>> {
    let parts = shortcut_parts(raw);
    if parts.len() < 2 || parts.len() > MAX_KEYS {
        Err(msg_key_count())
    } else if !(exists|i: int| 0 <= i < parts.len() && is_modifier_name(#[trigger] parts[i]))
        || !(exists|i: int| 0 <= i < parts.len() && !is_modifier_name(#[trigger] parts[i])) {
        Err(msg_key_kinds())
    } else {
        Ok(join_plus(parts))
    }
}

proof fn lemma_kept_parts_props(pieces: Seq<Seq<char>>)
    ensures
        forall|k: int|
            0 <= k < kept_parts(pieces).len() ==> (#[trigger] kept_parts(pieces)[k]).len() > 0 && trim(
                kept_parts(pieces)[k],
            ) == kept_parts(pieces)[k],
        (forall|k: int, i: int|
            0 <= k < pieces.len() && 0 <= i < pieces[k].len() ==> #[trigger] pieces[k][i] != '+')
            ==> (forall|k: int, i: int|
            0 <= k < kept_parts(pieces).len() && 0 <= i < kept_parts(pieces)[k].len()
                ==> #[trigger] kept_parts(pieces)[k][i] != '+'),
    decreases pieces.len(),
{
    if pieces.len() > 0 {
        let rest = pieces.drop_last();
        lemma_kept_parts_props(rest);
        let t = trim(pieces.last());
        crate::text::lemma_trim_idempotent(pieces.last());
        let kp = kept_parts(pieces);
        let kr = kept_parts(rest);
        if (forall|k: int, i: int|
            0 <= k < pieces.len() && 0 <= i < pieces[k].len() ==> #[trigger] pieces[k][i] != '+') {
            assert forall|k: int, i: int| 0 <= k < rest.len() && 0 <= i < rest[k].len() implies #[trigger] rest[k][i] != '+' by {
                assert(rest[k] == pieces[k]);
            }
            assert forall|k: int, i: int| 0 <= k < kp.len() && 0 <= i < kp[k].len() implies #[trigger] kp[k][i] != '+' by {
                if k < kr.len() {
                    assert(kp[k] == kr[k]);
                } else {
                    assert(kp[k] == t);
                    let j = choose|j: int| 0 <= j < pieces.last().len() && #[trigger] t[i] == pieces.last()[j];
                    assert(pieces[pieces.len() - 1][j] != '+');
                }
            }
        }
    }
}

proof fn lemma_kept_parts_fixed(parts: Seq<Seq<char>>)
    requires
        forall|k: int| 0 <= k < parts.len() ==> (#[trigger] parts[k]).len() > 0 && trim(parts[k]) == parts[k],
    ensures
        kept_parts(parts) == parts,
    decreases parts.len(),
{
    if parts.len() > 0 {
        lemma_kept_parts_fixed(parts.drop_last());
        assert(parts.drop_last().push(parts.last()) =~= parts);
    }
}

proof fn lemma_join_split(parts: Seq<Seq<char>>)
    requires
        parts.len() >= 1,
        forall|k: int, i: int| 0 <= k < parts.len() && 0 <= i < parts[k].len() ==> #[trigger] parts[k][i] != '+',
    ensures
        split_char(join_plus(parts), '+') == parts,
    decreases parts.len(),
{
    if parts.len() == 1 {
        crate::text::lemma_split_single(parts[0], '+');
        assert(seq![parts[0]] =~= parts);
    } else {
        let d = parts.drop_last();
        assert forall|k: int, i: int| 0 <= k < d.len() && 0 <= i < d[k].len() implies #[trigger] d[k][i] != '+' by {
            assert(d[k] == parts[k]);
        }
        lemma_join_split(d);
        crate::text::lemma_split_concat(join_plus(d), parts.last(), '+');
        assert forall|i: int| 0 <= i < parts.last().len() implies parts.last()[i] != '+' by {
            assert(parts[parts.len() - 1][i] != '+');
        }
        crate::text::lemma_split_single(parts.last(), '+');
        assert(d + seq![parts.last()] =~= parts);
    }
}

/// How many keys a shortcut may have: a typed shortcut of two, three or four keys, with a
/// modifier and another key among them, is accepted as its keys joined with `+`; one of fewer
/// than two or more than four keys is refused for its count, whatever the keys.
pub proof fn law_shortcut_key_count(raw: Seq<char>)
    ensures
        ({
            let parts = shortcut_parts(raw);
            &&& (2 <= parts.len() <= 4 && (exists|i: int| 0 <= i < parts.len() && is_modifier_name(#[trigger] parts[i]))
                && (exists|i: int| 0 <= i < parts.len() && !is_modifier_name(#[trigger] parts[i])))
                ==> shortcut_candidate(raw) == Ok::<Seq<char>, Seq<char>>(join_plus(parts))
            &&& (parts.len() < 2 || parts.len() > 4) ==> shortcut_candidate(raw) == Err::<Seq<char>, Seq<char>>(
                msg_key_count(),
            )
            &&& (2 <= parts.len() <= 4 && !(exists|i: int| 0 <= i < parts.len() && is_modifier_name(#[trigger] parts[i])))
                ==> shortcut_candidate(raw) == Err::<Seq<char>, Seq<char>>(msg_key_kinds())
            &&& (2 <= parts.len() <= 4 && !(exists|i: int| 0 <= i < parts.len() && !is_modifier_name(#[trigger] parts[i])))
                ==> shortcut_candidate(raw) == Err::<Seq<char>, Seq<char>>(msg_key_kinds())
        }),
{
}

/// A shortcut as checked (see `shortcut_candidate`) checks again to itself, so a saved
/// shortcut is accepted unchanged when it is loaded.
pub proof fn law_shortcut_candidate_idempotent(raw: Seq<char>)
    requires
        shortcut_candidate(raw) is Ok,
    ensures
        shortcut_candidate(shortcut_candidate(raw)->Ok_0) == shortcut_candidate(raw),
{
    let pieces = split_char(raw, '+');
    crate::text::lemma_split_pieces(raw, '+');
    lemma_kept_parts_props(pieces);
    let parts = shortcut_parts(raw);
    let n = join_plus(parts);
    lemma_join_split(parts);
    lemma_kept_parts_fixed(parts);
    assert(shortcut_parts(n) == parts);
}

fn parts_exec(raw: &str) -> (r: Vec<String>)
    ensures
        r@.len() == shortcut_parts(raw@).len(),
        forall|i: int| 0 <= i < r@.len() ==> (#[trigger] r@[i])@ == shortcut_parts(raw@)[i],
{
    let pieces = split_chars(chars_of(raw).as_slice(), '+');
    let ghost sp = split_char(raw@, '+');
    let mut out: Vec<String> = Vec::new();
    let mut i: usize = 0;
    while i < pieces.len()
        invariant
            i <= pieces@.len(),
            pieces@.len() == sp.len(),
            sp == split_char(raw@, '+'),
            forall|k: int| 0 <= k < pieces@.len() ==> #[trigger] pieces@[k]@ == sp[k],
            out@.len() == kept_parts(sp.take(i as int)).len(),
            forall|k: int| 0 <= k < out@.len() ==> (#[trigger] out@[k])@ == kept_parts(
                sp.take(i as int),
            )[k],
        decreases pieces@.len() - i,
    {
        assert(sp.take(i as int + 1).drop_last() =~= sp.take(i as int));
        assert(sp.take(i as int + 1).last() == sp[i as int]);
        let t = trim_chars(pieces[i].as_slice());
        if t.len() > 0 {
            out.push(string_of(t.as_slice()));
        }
        i = i + 1;
    }
    assert(sp.take(pieces@.len() as int) =~= sp);
    out
}

fn join_exec(parts: &Vec<String>) -> (r: String)
    ensures
        r@ == join_plus(parts@.map_values(|s: String| s@)),
{
    let ghost ps = parts@.map_values(|s: String| s@);
    let mut out = String::new();
    let mut i: usize = 0;
    while i < parts.len()
        invariant
            i <= parts@.len(),
            ps == parts@.map_values(|s: String| s@),
            out@ == join_plus(ps.take(i as int)),
        decreases parts@.len() - i,
    {
        assert(ps.take(i as int + 1).drop_last() =~= ps.take(i as int));
        if i > 0 {
            append_str(&mut out, "+");
            proof {
                reveal_strlit("+");
            }
        }
        append_str(&mut out, parts[i].as_str());
        i = i + 1;
        proof {
            if i == 1 {
                assert(ps.take(1)[0] == ps[0]);
                assert(out@ =~= join_plus(ps.take(1)));
            } else {
                assert(out@ =~= join_plus(ps.take(i as int)));
            }
        }
    }
    assert(ps.take(parts@.len() as int) =~= ps);
    out
}

/// The checks that need no hotkey parser: see `shortcut_candidate`.
pub fn check_shortcut_shape(raw: &str) -> (r: Result<String, String>)
    ensures
        match shortcut_candidate(raw@) {
            Ok(n) => r matches Ok(s) && s@ == n,
            Err(e) => r matches Err(s) && s@ == e,
        },
{
    let parts = parts_exec(raw);
    let ghost sp = shortcut_parts(raw@);
    if parts.len() < 2 || parts.len() > MAX_KEYS {
        return Err(String::from_str("快捷键需为 2–4 个键，且包含修饰键和主键"));
    }
    let mut has_modifier = false;
    let mut has_key = false;
    let mut i: usize = 0;
    while i < parts.len()
        invariant
            i <= parts@.len(),
            parts@.len() == sp.len(),
            forall|k: int| 0 <= k < parts@.len() ==> (#[trigger] parts@[k])@ == sp[k],
            has_modifier == exists|k: int| 0 <= k < i && is_modifier_name(#[trigger] sp[k]),
            has_key == exists|k: int| 0 <= k < i && !is_modifier_name(#[trigger] sp[k]),
        decreases parts@.len() - i,
    {
        if is_modifier(parts[i].as_str()) {
            has_modifier = true;
        } else {
            has_key = true;
        }
        i = i + 1;
    }
    if !has_modifier || !has_key {
        return Err(String::from_str("至少需要一个修饰键和一个主键"));
    }
    assert(parts@.map_values(|s: String| s@) =~= sp);
    Ok(join_exec(&parts))
}

/// Check a typed shortcut: its shape (see `shortcut_candidate`), then the hotkey parser on
/// the normalised text, whose error message is returned as it is.
pub fn validate_shortcut(raw: &str) -> (r: Result<String, String>)
    ensures
        match shortcut_candidate(raw@) {
            Ok(n) => match r {
                Ok(s) => s@ == n,
                Err(_) => true,
            },
            Err(e) => r matches Err(s) && s@ == e,
        },
        match shortcut_candidate(raw@) {
            Ok(n) => match hotkey_result(n) {
                Ok(_) => r matches Ok(s) && s@ == n,
                Err(e) => r matches Err(m) && m@ == e,
            },
            Err(_) => true,
        },
{
    let normalized = check_shortcut_shape(raw)?;
    match shortcut_id(normalized.as_str()) {
        Ok(_) => Ok(normalized),
        Err(e) => Err(e),
    }
}

/// One conflict check: a shortcut already in use, the message that names it, and whether
/// the check is skipped (the slot being edited).
pub struct ConflictCheck {
    pub message_prefix: String,
    pub shortcut: String,
    pub skip: bool,
}

pub open spec fn fixed_prefix() -> Seq<char> {
    "与固定快捷键 "@
}

/// The message for a conflict with `c`.
pub open spec fn conflict_message(c: ConflictCheck) -> Seq<char> {
    c.message_prefix@ + c.shortcut@ + " 冲突"@
}

/// The checks in order: the trail arm key, the six trail effect keys, then the mouse-follow,
/// compare, hosts quick-switch and brightness slots (the owner's own slot skipped).
pub open spec fn checks_for(
    owner: ShortcutOwner,
    follow: Seq<char>,
    compare: Seq<char>,
    hosts_quick: Seq<char>,
    brightness_quick: Seq<char>,
    checks: Seq<ConflictCheck>,
) -> bool {
    &&& checks.len() == 11
    &&& checks[0].message_prefix@ == fixed_prefix() && checks[0].shortcut@ == TRAIL_ARM_SHORTCUT@
        && !checks[0].skip
    &&& forall|i: int|
        1 <= i < 7 ==> (#[trigger] checks[i]).message_prefix@ == fixed_prefix()
            && checks[i].shortcut@ == trail_effect_shortcut(i - 1) && !checks[i].skip
    &&& checks[7].message_prefix@ == "与鼠标跟随快捷键 "@ && checks[7].shortcut@ == follow
        && checks[7].skip == (owner == ShortcutOwner::MouseFollow)
    &&& checks[8].message_prefix@ == "与对照模式快捷键 "@ && checks[8].shortcut@ == compare
        && checks[8].skip == (owner == ShortcutOwner::Compare)
    &&& checks[9].message_prefix@ == "与 Hosts 快捷切换快捷键 "@ && checks[9].shortcut@
        == hosts_quick && checks[9].skip == (owner == ShortcutOwner::HostsQuick)
    &&& checks[10].message_prefix@ == "与屏幕亮度快捷键 "@ && checks[10].shortcut@
        == brightness_quick && checks[10].skip == (owner == ShortcutOwner::BrightnessQuick)
}

fn check(prefix: &str, shortcut: &str, skip: bool) -> (r: ConflictCheck)
    ensures
        r.message_prefix@ == prefix@,
        r.shortcut@ == shortcut@,
        r.skip == skip,
{
    ConflictCheck {
        message_prefix: String::from_str(prefix),
        shortcut: String::from_str(shortcut),
        skip,
    }
}

pub fn conflict_checks(
    owner: ShortcutOwner,
    follow: &str,
    compare: &str,
    hosts_quick: &str,
    brightness_quick: &str,
) -> (r: Vec<ConflictCheck>)
    ensures
        checks_for(owner, follow@, compare@, hosts_quick@, brightness_quick@, r@),
{
    let mut v: Vec<ConflictCheck> = Vec::new();
    v.push(check("与固定快捷键 ", TRAIL_ARM_SHORTCUT, false));
    let effects = trail_effect_shortcuts();
    let mut i: usize = 0;
    while i < 6
        invariant
            i <= 6,
            effects@.len() == 6,
            forall|k: int| 0 <= k < 6 ==> (#[trigger] effects@[k])@ == trail_effect_shortcut(k),
            v@.len() == i + 1,
            v@[0].message_prefix@ == fixed_prefix() && v@[0].shortcut@ == TRAIL_ARM_SHORTCUT@
                && !v@[0].skip,
            forall|k: int|
                1 <= k < i + 1 ==> (#[trigger] v@[k]).message_prefix@ == fixed_prefix()
                    && v@[k].shortcut@ == trail_effect_shortcut(k - 1) && !v@[k].skip,
        decreases 6 - i,
    {
        v.push(check("与固定快捷键 ", effects[i], false));
        i = i + 1;
    }
    v.push(check("与鼠标跟随快捷键 ", follow, owner == ShortcutOwner::MouseFollow));
    v.push(check("与对照模式快捷键 ", compare, owner == ShortcutOwner::Compare));
    v.push(check("与 Hosts 快捷切换快捷键 ", hosts_quick, owner == ShortcutOwner::HostsQuick));
    v.push(check("与屏幕亮度快捷键 ", brightness_quick, owner == ShortcutOwner::BrightnessQuick));
    v
}

/// The verdict over the checks from `i` on, given the parser's results `ids` for them: the
/// first check not skipped whose shortcut fails to parse gives that error, the first whose
/// id equals the candidate's gives the conflict message.
pub open spec fn verdict_from(
    candidate: u32,
    checks: Seq<ConflictCheck>,
    ids: Seq<Result<u32, String>>,
    i: int,
) -> Result<(), Seq<char>>
    decreases checks.len() - i,
{
    if i < 0 || i >= checks.len() || i >= ids.len() {
        Ok(())
    } else if checks[i].skip {
        verdict_from(candidate, checks, ids, i + 1)
    } else {
        match ids[i] {
            Err(e) => Err(e@),
            Ok(id) => if id == candidate {
                Err(conflict_message(checks[i]))
            } else {
                verdict_from(candidate, checks, ids, i + 1)
            },
        }
    }
}

/// The conflict verdict for a candidate id, from the checks and the parser's results for
/// them (one per check).
pub fn conflict_verdict(candidate: u32, checks: &Vec<ConflictCheck>, ids: &Vec<Result<u32, String>>) -> (r:
    Result<(), String>)
    requires
        ids@.len() == checks@.len(),
    ensures
        match verdict_from(candidate, checks@, ids@, 0) {
            Ok(()) => r is Ok,
            Err(e) => r matches Err(s) && s@ == e,
        },
{
    let mut i: usize = 0;
    while i < checks.len()
        invariant
            i <= checks@.len(),
            ids@.len() == checks@.len(),
            verdict_from(candidate, checks@, ids@, i as int) == verdict_from(
                candidate,
                checks@,
                ids@,
                0,
            ),
        decreases checks@.len() - i,
    {
        if !checks[i].skip {
            match &ids[i] {
                Err(e) => {
                    return Err(e.clone());
                },
                Ok(id) => {
                    if *id == candidate {
                        let mut m = checks[i].message_prefix.clone();
                        append_str(&mut m, checks[i].shortcut.as_str());
                        append_str(&mut m, " 冲突");
                        return Err(m);
                    }
                },
            }
        }
        i = i + 1;
    }
    Ok(())
}

/// A conflict check as plain values: (message prefix, shortcut, skipped).
pub open spec fn slot_view(c: ConflictCheck) -> (Seq<char>, Seq<char>, bool) {
    (c.message_prefix@, c.shortcut@, c.skip)
}

/// The checks of `checks_for` as plain values.
pub open spec fn slots_for(
    owner: ShortcutOwner,
    follow: Seq<char>,
    compare: Seq<char>,
    hosts_quick: Seq<char>,
    brightness_quick: Seq<char>,
) -> Seq<(Seq<char>, Seq<char>, bool)> {
    seq![
        (fixed_prefix(), TRAIL_ARM_SHORTCUT@, false),
        (fixed_prefix(), trail_effect_shortcut(0), false),
        (fixed_prefix(), trail_effect_shortcut(1), false),
        (fixed_prefix(), trail_effect_shortcut(2), false),
        (fixed_prefix(), trail_effect_shortcut(3), false),
        (fixed_prefix(), trail_effect_shortcut(4), false),
        (fixed_prefix(), trail_effect_shortcut(5), false),
        ("与鼠标跟随快捷键 "@, follow, owner == ShortcutOwner::MouseFollow),
        ("与对照模式快捷键 "@, compare, owner == ShortcutOwner::Compare),
        ("与 Hosts 快捷切换快捷键 "@, hosts_quick, owner == ShortcutOwner::HostsQuick),
        ("与屏幕亮度快捷键 "@, brightness_quick, owner == ShortcutOwner::BrightnessQuick),
    ]
}

/// The verdict over the slots from `i` on for a candidate id, with each slot's shortcut read
/// by the hotkey parser: the first slot not skipped whose shortcut fails to parse gives that
/// error, the first whose id is the candidate's gives the conflict message.
pub open spec fn slots_verdict(candidate: u32, slots: Seq<(Seq<char>, Seq<char>, bool)>, i: int) -> Result<
    (),
    Seq<char>,
>
    decreases slots.len() - i,
{
    if i < 0 || i >= slots.len() {
        Ok(())
    } else if slots[i].2 {
        slots_verdict(candidate, slots, i + 1)
    } else {
        match hotkey_result(slots[i].1) {
            Err(e) => Err(e),
            Ok(id) => if id == candidate {
                Err(slots[i].0 + slots[i].1 + " 冲突"@)
            } else {
                slots_verdict(candidate, slots, i + 1)
            },
        }
    }
}

/// The outcome of checking `candidate` for the slot of `owner`: its own parse error, else the
/// verdict over the fixed trail keys and the other slots.
pub open spec fn conflict_outcome(
    candidate: Seq<char>,
    owner: ShortcutOwner,
    follow: Seq<char>,
    compare: Seq<char>,
    hosts_quick: Seq<char>,
    brightness_quick: Seq<char>,
) -> Result<(), Seq<char>> {
    match hotkey_result(candidate) {
        Err(e) => Err(e),
        Ok(c) => slots_verdict(c, slots_for(owner, follow, compare, hosts_quick, brightness_quick), 0),
    }
}

pub open spec fn res_view(r: Result<u32, String>) -> Result<u32, Seq<char>> {
    match r {
        Ok(id) => Ok(id),
        Err(e) => Err(e@),
    }
}

proof fn lemma_ctrl_key_neutral(s: Seq<char>)
    requires
        s.len() == 6,
        s[0] == 'C' && s[1] == 't' && s[2] == 'r' && s[3] == 'l' && s[4] == '+',
    ensures
        platform_neutral(s),
{
    assert forall|i: int| 0 <= i && i + 2 < s.len() implies !#[trigger] orc_at(s, i) by {
        assert(i == 0 || i == 1 || i == 2 || i == 3);
    }
}

/// The fixed trail keys read the same on every platform.
proof fn lemma_fixed_keys_neutral()
    ensures
        platform_neutral(TRAIL_ARM_SHORTCUT@),
        forall|i: int| 0 <= i < 6 ==> platform_neutral(#[trigger] trail_effect_shortcut(i)),
{
    reveal_strlit("Ctrl+T");
    reveal_strlit("Ctrl+1");
    reveal_strlit("Ctrl+2");
    reveal_strlit("Ctrl+3");
    reveal_strlit("Ctrl+4");
    reveal_strlit("Ctrl+5");
    reveal_strlit("Ctrl+6");
    lemma_ctrl_key_neutral("Ctrl+T"@);
    lemma_ctrl_key_neutral("Ctrl+1"@);
    lemma_ctrl_key_neutral("Ctrl+2"@);
    lemma_ctrl_key_neutral("Ctrl+3"@);
    lemma_ctrl_key_neutral("Ctrl+4"@);
    lemma_ctrl_key_neutral("Ctrl+5"@);
    lemma_ctrl_key_neutral("Ctrl+6"@);
}

proof fn lemma_checks_slots(
    owner: ShortcutOwner,
    follow: Seq<char>,
    compare: Seq<char>,
    hosts_quick: Seq<char>,
    brightness_quick: Seq<char>,
    checks: Seq<ConflictCheck>,
)
    requires
        checks_for(owner, follow, compare, hosts_quick, brightness_quick, checks),
    ensures
        checks.map_values(|c: ConflictCheck| slot_view(c)) == slots_for(
            owner,
            follow,
            compare,
            hosts_quick,
            brightness_quick,
        ),
{
    let v = checks.map_values(|c: ConflictCheck| slot_view(c));
    let t = slots_for(owner, follow, compare, hosts_quick, brightness_quick);
    assert forall|i: int| 0 <= i < v.len() implies #[trigger] v[i] == t[i] by {
        if 1 <= i < 7 {
            assert(checks[i].message_prefix@ == fixed_prefix());
        }
    }
    assert(v =~= t);
}

/// With every parse result taken from the parser, the verdict over the checks is the verdict
/// over their plain values.
proof fn lemma_verdict_named(
    candidate: u32,
    checks: Seq<ConflictCheck>,
    ids: Seq<Result<u32, String>>,
    i: int,
)
    requires
        ids.len() == checks.len(),
        0 <= i,
        forall|k: int|
            i <= k < checks.len() && !checks[k].skip ==> res_view(#[trigger] ids[k])
                == hotkey_result(checks[k].shortcut@),
    ensures
        verdict_from(candidate, checks, ids, i) == slots_verdict(
            candidate,
            checks.map_values(|c: ConflictCheck| slot_view(c)),
            i,
        ),
    decreases checks.len() - i,
{
    let v = checks.map_values(|c: ConflictCheck| slot_view(c));
    if i < checks.len() {
        lemma_verdict_named(candidate, checks, ids, i + 1);
        assert(v[i] == slot_view(checks[i]));
        if !checks[i].skip {
            assert(res_view(ids[i]) == hotkey_result(checks[i].shortcut@));
        }
    }
}

/// Every slot not skipped parses, and none that reads the same on every platform has the
/// id `c` of a platform-neutral candidate.
pub open spec fn clear_of(candidate: Seq<char>, c: u32, slots: Seq<(Seq<char>, Seq<char>, bool)>) -> bool {
    forall|k: int|
        0 <= k < slots.len() && !(#[trigger] slots[k]).2 ==> (hotkey_result(slots[k].1) matches Ok(
            id,
        ) && (platform_neutral(candidate) && platform_neutral(slots[k].1) ==> id != c))
}

/// An accepting verdict passed every check not skipped: each parsed, to another id.
proof fn lemma_verdict_ok(candidate: u32, checks: Seq<ConflictCheck>, ids: Seq<Result<u32, String>>, i: int)
    requires
        ids.len() == checks.len(),
        0 <= i,
        verdict_from(candidate, checks, ids, i) is Ok,
    ensures
        forall|k: int|
            i <= k < checks.len() && !checks[k].skip ==> (#[trigger] ids[k] matches Ok(id) && id
                != candidate),
    decreases checks.len() - i,
{
    if i < checks.len() {
        lemma_verdict_ok(candidate, checks, ids, i + 1);
    }
}

/// Make sure `candidate` collides with neither the fixed trail keys nor the other slots.
/// What collides is decided by the hotkey parser's ids (see `conflict_verdict`); its parse
/// errors are returned as they are. For platform-neutral texts the outcome is
/// `conflict_outcome`. Whatever the texts, the candidate's parse error is returned, and an
/// accepted candidate is `clear_of` the slots: a slot that does not parse, or a clash of
/// platform-neutral texts, is refused. Only the ids of texts spelling `CmdOrCtrl`, which
/// depend on the platform, are left unstated.
pub fn ensure_no_conflict(
    candidate: &str,
    owner: ShortcutOwner,
    follow: &str,
    compare: &str,
    hosts_quick: &str,
    brightness_quick: &str,
) -> (r: Result<(), String>)
    ensures
        platform_neutral(candidate@) && platform_neutral(follow@) && platform_neutral(compare@)
            && platform_neutral(hosts_quick@) && platform_neutral(brightness_quick@) ==> match conflict_outcome(
            candidate@,
            owner,
            follow@,
            compare@,
            hosts_quick@,
            brightness_quick@,
        ) {
            Ok(()) => r is Ok,
            Err(e) => r matches Err(m) && m@ == e,
        },
        match hotkey_result(candidate@) {
            Err(e) => r matches Err(m) && m@ == e,
            Ok(c) => r is Ok ==> clear_of(
                candidate@,
                c,
                slots_for(owner, follow@, compare@, hosts_quick@, brightness_quick@),
            ),
        },
{
    let candidate_id = shortcut_id(candidate)?;
    let checks = conflict_checks(owner, follow, compare, hosts_quick, brightness_quick);
    let mut ids: Vec<Result<u32, String>> = Vec::new();
    let mut i: usize = 0;
    while i < checks.len()
        invariant
            i <= checks@.len(),
            ids@.len() == i,
            forall|k: int|
                0 <= k < i && !checks@[k].skip && platform_neutral(checks@[k].shortcut@)
                    ==> res_view(#[trigger] ids@[k]) == hotkey_result(checks@[k].shortcut@),
            forall|k: int|
                0 <= k < i && !checks@[k].skip ==> ((#[trigger] ids@[k]) is Ok <==> hotkey_result(
                    checks@[k].shortcut@,
                ) is Ok),
        decreases checks@.len() - i,
    {
        if checks[i].skip {
            ids.push(Ok(candidate_id));
        } else {
            ids.push(shortcut_id(checks[i].shortcut.as_str()));
        }
        i = i + 1;
    }
    proof {
        if platform_neutral(candidate@) && platform_neutral(follow@) && platform_neutral(compare@)
            && platform_neutral(hosts_quick@) && platform_neutral(brightness_quick@) {
            lemma_fixed_keys_neutral();
            assert forall|k: int| 0 <= k < checks@.len() implies platform_neutral(
                #[trigger] checks@[k].shortcut@,
            ) by {
                if 1 <= k < 7 {
                    assert(checks@[k].shortcut@ == trail_effect_shortcut(k - 1));
                }
            }
            lemma_verdict_named(candidate_id, checks@, ids@, 0);
        }
        lemma_checks_slots(owner, follow@, compare@, hosts_quick@, brightness_quick@, checks@);
    }
    let r = conflict_verdict(candidate_id, &checks, &ids);
    proof {
        if r is Ok {
            lemma_verdict_ok(candidate_id, checks@, ids@, 0);
            let sl = slots_for(owner, follow@, compare@, hosts_quick@, brightness_quick@);
            let c = hotkey_result(candidate@)->Ok_0;
            assert forall|k: int| 0 <= k < sl.len() && !(#[trigger] sl[k]).2 implies (hotkey_result(
                sl[k].1,
            ) matches Ok(id) && (platform_neutral(candidate@) && platform_neutral(sl[k].1) ==> id
                != c)) by {
                assert(checks@.map_values(|x: ConflictCheck| slot_view(x))[k] == slot_view(checks@[k]));
                assert(ids@[k] matches Ok(id) && id != candidate_id);
            }
        }
    }
    r
}

/// The shortcuts to register, in order: mouse follow and compare when enabled, the trail arm
/// key, the six trail effect keys, then hosts quick-switch and brightness when enabled.
pub open spec fn registration_order(
    follow_on: bool,
    follow: Seq<char>,
    compare_on: bool,
    compare: Seq<char>,
    hosts_on: bool,
    hosts_quick: Seq<char>,
    brightness_on: bool,
    brightness_quick: Seq<char>,
) -> Seq<Seq<char>> {
    (if follow_on {
        seq![follow]
    } else {
        Seq::empty()
    }) + (if compare_on {
        seq![compare]
    } else {
        Seq::empty()
    }) + seq![
        TRAIL_ARM_SHORTCUT@,
        trail_effect_shortcut(0),
        trail_effect_shortcut(1),
        trail_effect_shortcut(2),
        trail_effect_shortcut(3),
        trail_effect_shortcut(4),
        trail_effect_shortcut(5),
    ] + (if hosts_on {
        seq![hosts_quick]
    } else {
        Seq::empty()
    }) + (if brightness_on {
        seq![brightness_quick]
    } else {
        Seq::empty()
    })
}

pub open spec fn views(v: Seq<String>) -> Seq<Seq<char>> {
    v.map_values(|s: String| s@)
}

pub fn registration_plan(
    follow_on: bool,
    follow: &str,
    compare_on: bool,
    compare: &str,
    hosts_on: bool,
    hosts_quick: &str,
    brightness_on: bool,
    brightness_quick: &str,
) -> (r: Vec<String>)
    ensures
        views(r@) == registration_order(
            follow_on,
            follow@,
            compare_on,
            compare@,
            hosts_on,
            hosts_quick@,
            brightness_on,
            brightness_quick@,
        ),
{
    let ghost target = registration_order(
        follow_on,
        follow@,
        compare_on,
        compare@,
        hosts_on,
        hosts_quick@,
        brightness_on,
        brightness_quick@,
    );
    let mut v: Vec<String> = Vec::new();
    if follow_on {
        v.push(String::from_str(follow));
    }
    if compare_on {
        v.push(String::from_str(compare));
    }
    v.push(String::from_str(TRAIL_ARM_SHORTCUT));
    let effects = trail_effect_shortcuts();
    let ghost n0 = v@.len();
    assert(forall|k: int| 0 <= k < n0 ==> #[trigger] views(v@)[k] == target[k]);
    let mut i: usize = 0;
    while i < 6
        invariant
            i <= 6,
            effects@.len() == 6,
            forall|k: int| 0 <= k < 6 ==> (#[trigger] effects@[k])@ == trail_effect_shortcut(k),
            v@.len() == n0 + i,
            n0 == (if follow_on { 1int } else { 0 }) + (if compare_on { 1int } else { 0 }) + 1,
            target == registration_order(
                follow_on,
                follow@,
                compare_on,
                compare@,
                hosts_on,
                hosts_quick@,
                brightness_on,
                brightness_quick@,
            ),
            forall|k: int| 0 <= k < v@.len() ==> #[trigger] views(v@)[k] == target[k],
        decreases 6 - i,
    {
        let ghost prev = v@;
        let ghost c: Seq<Seq<char>> = seq![
            TRAIL_ARM_SHORTCUT@,
            trail_effect_shortcut(0),
            trail_effect_shortcut(1),
            trail_effect_shortcut(2),
            trail_effect_shortcut(3),
            trail_effect_shortcut(4),
            trail_effect_shortcut(5),
        ];
        let ghost ab: Seq<Seq<char>> = (if follow_on {
            seq![follow@]
        } else {
            Seq::empty()
        }) + (if compare_on {
            seq![compare@]
        } else {
            Seq::empty()
        });
        assert(target[n0 + i] == (ab + c)[n0 + i]);
        assert((ab + c)[n0 + i] == c[i + 1]);
        v.push(String::from_str(effects[i]));
        assert forall|k: int| 0 <= k < v@.len() implies #[trigger] views(v@)[k] == target[k] by {
            if k < prev.len() {
                assert(views(prev)[k] == target[k]);
                assert(v@[k] == prev[k]);
            }
        }
        i = i + 1;
    }
    let ghost mid = v@;
    assert(views(mid).len() == n0 + 6);
    if hosts_on {
        v.push(String::from_str(hosts_quick));
    }
    if brightness_on {
        v.push(String::from_str(brightness_quick));
    }
    assert forall|k: int| 0 <= k < v@.len() implies #[trigger] views(v@)[k] == target[k] by {
        if k < mid.len() {
            assert(views(mid)[k] == target[k]);
            assert(v@[k] == mid[k]);
        }
    }
    assert(views(v@) =~= target);
    v
}

/// A pressed shortcut triggers its slot when the slot is enabled and the slot's configured
/// shortcut parses to the pressed id.
pub fn shortcut_matches(enabled: bool, pressed_id: u32, expected: &Result<u32, String>) -> (r: bool)
    ensures
        r == (enabled && (expected matches Ok(id) && id == pressed_id)),
{
    if !enabled {
        return false;
    }
    match expected {
        Ok(id) => *id == pressed_id,
        Err(_) => false,
    }
}

/// Whether the pressed shortcut `pressed_id` is the one configured as `expected` (parsed by
/// the hotkey parser) while the slot is enabled. A text that does not parse never matches;
/// the id of a text spelling `CmdOrCtrl` depends on the platform, so for such a text that
/// parses the match itself is left unstated.
pub fn pressed_is(enabled: bool, pressed_id: u32, expected: &str) -> (r: bool)
    ensures
        !enabled ==> !r,
        r ==> hotkey_result(expected@) is Ok,
        enabled && platform_neutral(expected@) ==> r == (hotkey_result(expected@) matches Ok(id)
            && id == pressed_id),
{
    if !enabled {
        return false;
    }
    let parsed = shortcut_id(expected);
    shortcut_matches(enabled, pressed_id, &parsed)
}

} // verus!
