//! Plugins: the three plugin slots (mouse trail, editor theme, crypto preset) and what
//! importing, enabling and resetting does to them; checking an imported manifest; the
//! options a mouse-trail plugin contributes; and the list of plugin manifests found on disk.
use vstd::prelude::*;
use crate::json::{JsonV, JsonValue, as_str_opt, get, get_opt, get_opt_exec, opt_view, str_of};
use crate::text::{append_str, is_blank, str_eq, trim};

verus! {

pub const KIND_MOUSE_TRAIL: &'static str = "mouse-trail";
pub const KIND_EDITOR_THEME: &'static str = "editor-theme";
pub const KIND_CRYPTO_PRESET: &'static str = "crypto-preset";
pub const BUILTIN_METEOR_ID: &'static str = "builtin-meteor";
pub const BUILTIN_METEOR_NAME: &'static str = "绚丽流星";
pub const DEFAULT_METEOR_COLOR: &'static str = "#F8EC85";
/// Largest plugin file that can be imported, in bytes.
pub const MAX_IMPORT_BYTES: usize = 1048576;

/// The plugin a slot holds.
pub struct PluginSlotCurrent {
    pub id: String,
    pub name: String,
    pub file_name: Option<String>,
}

/// A plugin slot: its kind, whether it is on, where its plugin came from (`preset` or
/// `imported`) and the plugin.
pub struct PluginSlot {
    pub kind: String,
    pub enabled: bool,
    pub source: String,
    pub current: Option<PluginSlotCurrent>,
}

pub struct PluginSlotsState {
    pub slots: Vec<PluginSlot>,
}

/// What a mouse-trail plugin asks of the effect.
pub struct MouseTrailEffectOptions {
    pub color: String,
}

pub ghost struct CurrentV {
    pub id: Seq<char>,
    pub name: Seq<char>,
    pub file_name: Option<Seq<char>>,
}

pub ghost struct SlotV {
    pub kind: Seq<char>,
    pub enabled: bool,
    pub source: Seq<char>,
    pub current: Option<CurrentV>,
}

pub open spec fn opt_str_view(o: Option<String>) -> Option<Seq<char>> {
    match o {
        Some(s) => Some(s@),
        None => None,
    }
}

pub open spec fn current_view(c: Option<PluginSlotCurrent>) -> Option<CurrentV> {
    match c {
        Some(c) => Some(CurrentV { id: c.id@, name: c.name@, file_name: opt_str_view(c.file_name) }),
        None => None,
    }
}

impl View for PluginSlot {
    type V = SlotV;

    open spec fn view(&self) -> SlotV {
        SlotV {
            kind: self.kind@,
            enabled: self.enabled,
            source: self.source@,
            current: current_view(self.current),
        }
    }
}

pub open spec fn slots_view(s: Seq<PluginSlot>) -> Seq<SlotV> {
    s.map_values(|p: PluginSlot| p@)
}

impl PluginSlotCurrent {
    pub fn duplicate(&self) -> (r: PluginSlotCurrent)
        ensures
            current_view(Some(r)) == current_view(Some(*self)),
    {
        PluginSlotCurrent {
            id: self.id.clone(),
            name: self.name.clone(),
            file_name: match &self.file_name {
                Some(f) => Some(f.clone()),
                None => None,
            },
        }
    }
}

impl PluginSlot {
    pub fn duplicate(&self) -> (r: PluginSlot)
        ensures
            r@ == self@,
    {
        PluginSlot {
            kind: self.kind.clone(),
            enabled: self.enabled,
            source: self.source.clone(),
            current: match &self.current {
                Some(c) => Some(c.duplicate()),
                None => None,
            },
        }
    }
}

pub fn default_entry() -> (r: String)
    ensures
        r@ == "index.js"@,
{
    String::from_str("index.js")
}

pub fn default_enabled() -> (r: bool)
    ensures
        r,
{
    true
}

/// The built-in meteor effect.
pub open spec fn builtin_current() -> CurrentV {
    CurrentV { id: BUILTIN_METEOR_ID@, name: BUILTIN_METEOR_NAME@, file_name: None }
}

/// The slots of a fresh install: all off, from the presets; the mouse-trail slot holds the
/// built-in meteor effect.
pub open spec fn default_slots_v() -> Seq<SlotV> {
    seq![
        SlotV {
            kind: KIND_MOUSE_TRAIL@,
            enabled: false,
            source: "preset"@,
            current: Some(builtin_current()),
        },
        SlotV { kind: KIND_EDITOR_THEME@, enabled: false, source: "preset"@, current: None },
        SlotV { kind: KIND_CRYPTO_PRESET@, enabled: false, source: "preset"@, current: None },
    ]
}

fn builtin_meteor() -> (r: PluginSlotCurrent)
    ensures
        current_view(Some(r)) == Some(builtin_current()),
{
    PluginSlotCurrent {
        id: String::from_str(BUILTIN_METEOR_ID),
        name: String::from_str(BUILTIN_METEOR_NAME),
        file_name: None,
    }
}

pub fn default_slots() -> (r: PluginSlotsState)
    ensures
        slots_view(r.slots@) == default_slots_v(),
{
    let mut slots: Vec<PluginSlot> = Vec::new();
    slots.push(
        PluginSlot {
            kind: String::from_str(KIND_MOUSE_TRAIL),
            enabled: false,
            source: String::from_str("preset"),
            current: Some(builtin_meteor()),
        },
    );
    slots.push(
        PluginSlot {
            kind: String::from_str(KIND_EDITOR_THEME),
            enabled: false,
            source: String::from_str("preset"),
            current: None,
        },
    );
    slots.push(
        PluginSlot {
            kind: String::from_str(KIND_CRYPTO_PRESET),
            enabled: false,
            source: String::from_str("preset"),
            current: None,
        },
    );
    assert(slots_view(slots@) =~= default_slots_v());
    PluginSlotsState { slots }
}

pub open spec fn known_kind(kind: Seq<char>) -> bool {
    kind == KIND_MOUSE_TRAIL@ || kind == KIND_EDITOR_THEME@ || kind == KIND_CRYPTO_PRESET@
}

pub fn normalize_kind(kind: &str) -> (r: Option<String>)
    ensures
        known_kind(kind@) ==> (r matches Some(k) && k@ == kind@),
        !known_kind(kind@) ==> r is None,
{
    if str_eq(kind, KIND_MOUSE_TRAIL) || str_eq(kind, KIND_EDITOR_THEME) || str_eq(
        kind,
        KIND_CRYPTO_PRESET,
    ) {
        Some(String::from_str(kind))
    } else {
        None
    }
}

/// The first slot of `kind`.
pub open spec fn slot_of_kind(s: Seq<SlotV>, kind: Seq<char>) -> Option<int>
    decreases s.len(),
{
    if s.len() == 0 {
        None
    } else {
        match slot_of_kind(s.drop_last(), kind) {
            Some(i) => Some(i),
            None => if s.last().kind == kind {
                Some(s.len() - 1)
            } else {
                None
            },
        }
    }
}

proof fn lemma_slot_of_kind(s: Seq<SlotV>, kind: Seq<char>)
    ensures
        match slot_of_kind(s, kind) {
            Some(i) => 0 <= i < s.len() && s[i].kind == kind && forall|j: int|
                0 <= j < i ==> (#[trigger] s[j]).kind != kind,
            None => forall|j: int| 0 <= j < s.len() ==> (#[trigger] s[j]).kind != kind,
        },
    decreases s.len(),
{
    if s.len() > 0 {
        lemma_slot_of_kind(s.drop_last(), kind);
        assert forall|j: int| 0 <= j < s.len() - 1 implies s.drop_last()[j] == s[j] by {}
    }
}

/// A default slot with what was saved for its kind (if anything) laid over it.
pub open spec fn overlaid(d: SlotV, saved: Seq<SlotV>) -> SlotV {
    match slot_of_kind(saved, d.kind) {
        Some(i) => SlotV { enabled: saved[i].enabled, source: saved[i].source, current: saved[i].current, ..d },
        None => d,
    }
}

/// The slots as loaded: the three default slots in their order, each with what was saved
/// for its kind; a mouse-trail slot left without a plugin gets the built-in meteor back.
pub open spec fn merged_v(raw: Option<Seq<SlotV>>) -> Seq<SlotV> {
    match raw {
        None => default_slots_v(),
        Some(saved) => {
            let d = default_slots_v();
            let m0 = overlaid(d[0], saved);
            let first = if m0.current is None {
                SlotV { current: Some(builtin_current()), source: "preset"@, ..m0 }
            } else {
                m0
            };
            seq![first, overlaid(d[1], saved), overlaid(d[2], saved)]
        },
    }
}

fn find_kind(slots: &Vec<PluginSlot>, kind: &str) -> (r: Option<usize>)
    ensures
        match r {
            Some(i) => slot_of_kind(slots_view(slots@), kind@) == Some(i as int) && i
                < slots@.len() && slots@[i as int].kind@ == kind@,
            None => slot_of_kind(slots_view(slots@), kind@) is None,
        },
{
    let ghost sv = slots_view(slots@);
    proof {
        lemma_slot_of_kind(sv, kind@);
    }
    let mut i: usize = 0;
    while i < slots.len()
        invariant
            i <= slots@.len(),
            sv == slots_view(slots@),
            forall|j: int| 0 <= j < i ==> (#[trigger] sv[j]).kind != kind@,
            match slot_of_kind(sv, kind@) {
                Some(k) => 0 <= k < sv.len() && sv[k].kind == kind@ && forall|j: int|
                    0 <= j < k ==> (#[trigger] sv[j]).kind != kind@,
                None => forall|j: int| 0 <= j < sv.len() ==> (#[trigger] sv[j]).kind != kind@,
            },
        decreases slots@.len() - i,
    {
        if str_eq(slots[i].kind.as_str(), kind) {
            assert(sv[i as int].kind == kind@);
            return Some(i);
        }
        i = i + 1;
    }
    None
}

fn overlay_slot(d: PluginSlot, saved: &Vec<PluginSlot>) -> (r: PluginSlot)
    ensures
        r@ == overlaid(d@, slots_view(saved@)),
{
    match find_kind(saved, d.kind.as_str()) {
        Some(i) => {
            let s = &saved[i];
            PluginSlot {
                kind: d.kind,
                enabled: s.enabled,
                source: s.source.clone(),
                current: match &s.current {
                    Some(c) => Some(c.duplicate()),
                    None => None,
                },
            }
        },
        None => d,
    }
}

pub fn merge_slots(raw: Option<PluginSlotsState>) -> (r: PluginSlotsState)
    ensures
        slots_view(r.slots@) == merged_v(
            match raw {
                Some(s) => Some(slots_view(s.slots@)),
                None => None,
            },
        ),
{
    let defaults = default_slots();
    let raw = match raw {
        None => return defaults,
        Some(r) => r,
    };
    let mut d = defaults.slots;
    let ghost dv = slots_view(d@);
    assert(dv.len() == d@.len());
    let third = d.pop().unwrap();
    let second = d.pop().unwrap();
    let first = d.pop().unwrap();
    proof {
        assert(first@ == dv[0] && second@ == dv[1] && third@ == dv[2]);
    }
    let mut m0 = overlay_slot(first, &raw.slots);
    if m0.current.is_none() {
        m0.current = Some(builtin_meteor());
        m0.source = String::from_str("preset");
    }
    let m1 = overlay_slot(second, &raw.slots);
    let m2 = overlay_slot(third, &raw.slots);
    let mut slots: Vec<PluginSlot> = Vec::new();
    slots.push(m0);
    slots.push(m1);
    slots.push(m2);
    let ghost target = merged_v(Some(slots_view(raw.slots@)));
    assert(slots_view(slots@) =~= target);
    PluginSlotsState { slots }
}

/// Merging what a merge gave changes nothing.
pub proof fn law_merge_slots_idempotent(raw: Option<Seq<SlotV>>)
    ensures
        merged_v(Some(merged_v(raw))) == merged_v(raw),
{
    reveal_strlit("mouse-trail");
    reveal_strlit("editor-theme");
    reveal_strlit("crypto-preset");
    let m = merged_v(raw);
    let d = default_slots_v();
    assert(m[0].kind == d[0].kind && m[1].kind == d[1].kind && m[2].kind == d[2].kind);
    assert(d[0].kind != d[1].kind && d[0].kind != d[2].kind && d[1].kind != d[2].kind) by {
        assert(d[0].kind.len() != d[1].kind.len());
        assert(d[0].kind.len() != d[2].kind.len());
        assert(d[1].kind.len() != d[2].kind.len());
    }
    lemma_slot_of_kind(m, d[0].kind);
    lemma_slot_of_kind(m, d[1].kind);
    lemma_slot_of_kind(m, d[2].kind);
    assert(slot_of_kind(m, d[0].kind) == Some(0int)) by {
        reveal_with_fuel(slot_of_kind, 4);
        assert(m.drop_last().drop_last().drop_last() =~= Seq::<SlotV>::empty());
    }
    assert(slot_of_kind(m, d[1].kind) == Some(1int)) by {
        reveal_with_fuel(slot_of_kind, 4);
        assert(m.drop_last().drop_last().drop_last() =~= Seq::<SlotV>::empty());
    }
    assert(slot_of_kind(m, d[2].kind) == Some(2int)) by {
        reveal_with_fuel(slot_of_kind, 4);
        assert(m.drop_last().drop_last().drop_last() =~= Seq::<SlotV>::empty());
    }
    assert(merged_v(Some(m)) =~= m);
}

/// The slot of `kind` reset: off, from the preset, holding the built-in meteor for the
/// mouse trail and nothing for the others.
pub open spec fn reset_v(s: SlotV) -> SlotV {
    SlotV {
        enabled: false,
        source: "preset"@,
        current: if s.kind == KIND_MOUSE_TRAIL@ {
            Some(builtin_current())
        } else {
            None
        },
        ..s
    }
}

pub fn reset_slot_defaults(slot: &mut PluginSlot)
    ensures
        final(slot)@ == reset_v(old(slot)@),
{
    slot.enabled = false;
    slot.source = String::from_str("preset");
    if str_eq(slot.kind.as_str(), KIND_MOUSE_TRAIL) {
        slot.current = Some(builtin_meteor());
    } else {
        slot.current = None;
    }
}

pub open spec fn msg_unknown_kind(kind: Seq<char>) -> Seq<char> {
    "未知插件类型: "@ + kind
}

pub open spec fn msg_no_slot(kind: Seq<char>) -> Seq<char> {
    "未找到插件槽位: "@ + kind
}

fn prefixed(prefix: &str, s: &str) -> (r: String)
    ensures
        r@ == prefix@ + s@,
{
    let mut out = String::from_str(prefix);
    append_str(&mut out, s);
    out
}

/// The slots after `f` is applied to the first slot of a known `kind`; the errors for an
/// unknown kind and for a kind without a slot.
pub open spec fn slot_update(slots: Seq<SlotV>, kind: Seq<char>, new_slot: spec_fn(SlotV) -> SlotV) -> Result<
    Seq<SlotV>,
    Seq<char>,
> {
    if !known_kind(kind) {
        Err(msg_unknown_kind(kind))
    } else {
        match slot_of_kind(slots, kind) {
            None => Err(msg_no_slot(kind)),
            Some(i) => Ok(slots.update(i, new_slot(slots[i]))),
        }
    }
}

pub open spec fn result_view(r: Result<PluginSlotsState, String>) -> Result<Seq<SlotV>, Seq<char>> {
    match r {
        Ok(s) => Ok(slots_view(s.slots@)),
        Err(e) => Err(e@),
    }
}

/// Switch the slot of `kind` on or off.
pub fn set_plugin_slot_enabled(state: PluginSlotsState, kind: &str, enabled: bool) -> (r: Result<
    PluginSlotsState,
    String,
>)
    ensures
        result_view(r) == slot_update(
            slots_view(state.slots@),
            kind@,
            |s: SlotV| SlotV { enabled, ..s },
        ),
{
    if normalize_kind(kind).is_none() {
        return Err(prefixed("未知插件类型: ", kind));
    }
    let mut slots = state.slots;
    let ghost sv = slots_view(slots@);
    match find_kind(&slots, kind) {
        None => Err(prefixed("未找到插件槽位: ", kind)),
        Some(i) => {
            let mut s = slots[i].duplicate();
            s.enabled = enabled;
            slots.set(i, s);
            assert(slots_view(slots@) =~= sv.update(i as int, SlotV { enabled, ..sv[i as int] }));
            Ok(PluginSlotsState { slots })
        },
    }
}

/// Put the slot of `kind` back to its defaults (see `reset_v`).
pub fn reset_plugin_slot(state: PluginSlotsState, kind: &str) -> (r: Result<PluginSlotsState, String>)
    ensures
        result_view(r) == slot_update(slots_view(state.slots@), kind@, |s: SlotV| reset_v(s)),
{
    if normalize_kind(kind).is_none() {
        return Err(prefixed("未知插件类型: ", kind));
    }
    let mut slots = state.slots;
    let ghost sv = slots_view(slots@);
    match find_kind(&slots, kind) {
        None => Err(prefixed("未找到插件槽位: ", kind)),
        Some(i) => {
            let mut s = slots[i].duplicate();
            reset_slot_defaults(&mut s);
            slots.set(i, s);
            assert(slots_view(slots@) =~= sv.update(i as int, reset_v(sv[i as int])));
            Ok(PluginSlotsState { slots })
        },
    }
}

/// The slot of `kind` now holds an imported plugin.
pub fn import_plugin(state: PluginSlotsState, kind: &str, id: String, name: String, file_name: String) -> (r:
    Result<PluginSlotsState, String>)
    ensures
        result_view(r) == slot_update(
            slots_view(state.slots@),
            kind@,
            |s: SlotV|
                SlotV {
                    source: "imported"@,
                    current: Some(CurrentV { id: id@, name: name@, file_name: Some(file_name@) }),
                    ..s
                },
        ),
{
    if normalize_kind(kind).is_none() {
        return Err(prefixed("未知插件类型: ", kind));
    }
    let mut slots = state.slots;
    let ghost sv = slots_view(slots@);
    match find_kind(&slots, kind) {
        None => Err(prefixed("未找到插件槽位: ", kind)),
        Some(i) => {
            let mut s = slots[i].duplicate();
            s.source = String::from_str("imported");
            s.current = Some(PluginSlotCurrent { id, name, file_name: Some(file_name) });
            slots.set(i, s);
            assert(slots_view(slots@) =~= sv.update(
                i as int,
                SlotV {
                    source: "imported"@,
                    current: Some(CurrentV { id: id@, name: name@, file_name: Some(file_name@) }),
                    ..sv[i as int]
                },
            ));
            Ok(PluginSlotsState { slots })
        },
    }
}

/// Whether the mouse-trail slot is on (off when there is none).
pub fn mouse_trail_slot_enabled(state: &PluginSlotsState) -> (r: bool)
    ensures
        r == match slot_of_kind(slots_view(state.slots@), KIND_MOUSE_TRAIL@) {
            Some(i) => slots_view(state.slots@)[i].enabled,
            None => false,
        },
{
    match find_kind(&state.slots, KIND_MOUSE_TRAIL) {
        Some(i) => state.slots[i].enabled,
        None => false,
    }
}

/// A string member that is there and not blank.
pub open spec fn present_str(o: Option<JsonV>) -> Option<Seq<char>> {
    match str_of(o) {
        Some(s) => if trim(s).len() == 0 {
            None
        } else {
            Some(s)
        },
        None => None,
    }
}

/// An imported manifest (`None` when the text was not JSON) checked against the slot kind:
/// it needs a `type` equal to the kind and non-blank `id` and `name`, which it gives back.
pub open spec fn manifest_check(parsed: Option<JsonV>, kind: Seq<char>) -> Result<(Seq<char>, Seq<char>), Seq<char>> {
    match parsed {
        None => Err("插件文件必须是合法的 JSON"@),
        Some(v) => match str_of(get(v, "type"@)) {
            None => Err("插件文件缺少 type 字段"@),
            Some(t) => if t != kind {
                Err("插件类型不匹配，期望 "@ + kind)
            } else {
                match present_str(get(v, "id"@)) {
                    None => Err("插件文件缺少 id 字段"@),
                    Some(id) => match present_str(get(v, "name"@)) {
                        None => Err("插件文件缺少 name 字段"@),
                        Some(name) => Ok((id, name)),
                    },
                }
            },
        },
    }
}

pub fn validate_import_manifest(parsed: Option<&JsonValue>, kind: &str) -> (r: Result<(String, String), String>)
    ensures
        match manifest_check(opt_view(parsed), kind@) {
            Ok((id, name)) => r matches Ok(p) && p.0@ == id && p.1@ == name,
            Err(e) => r matches Err(s) && s@ == e,
        },
{
    let v = match parsed {
        None => return Err(String::from_str("插件文件必须是合法的 JSON")),
        Some(v) => v,
    };
    let t = match as_str_opt(v.get_field("type")) {
        None => return Err(String::from_str("插件文件缺少 type 字段")),
        Some(t) => t,
    };
    if !str_eq(t.as_str(), kind) {
        return Err(prefixed("插件类型不匹配，期望 ", kind));
    }
    let id = match as_str_opt(v.get_field("id")) {
        Some(s) => if is_blank(s.as_str()) {
            return Err(String::from_str("插件文件缺少 id 字段"));
        } else {
            s.clone()
        },
        None => return Err(String::from_str("插件文件缺少 id 字段")),
    };
    let name = match as_str_opt(v.get_field("name")) {
        Some(s) => if is_blank(s.as_str()) {
            return Err(String::from_str("插件文件缺少 name 字段"));
        } else {
            s.clone()
        },
        None => return Err(String::from_str("插件文件缺少 name 字段")),
    };
    Ok((id, name))
}

/// The checks before an import touches the disk, in order: a known kind, at most 1 MiB, UTF-8
/// text (`text_ok`), then the manifest (see `manifest_check`).
pub open spec fn import_check(kind: Seq<char>, byte_len: nat, text_ok: bool, parsed: Option<JsonV>) -> Result<
    (Seq<char>, Seq<char>),
    Seq<char>,
> {
    if !known_kind(kind) {
        Err(msg_unknown_kind(kind))
    } else if byte_len > MAX_IMPORT_BYTES {
        Err("插件文件不能超过 1MB"@)
    } else if !text_ok {
        Err("插件文件必须是 UTF-8 编码"@)
    } else {
        manifest_check(parsed, kind)
    }
}

pub fn prepare_import(kind: &str, byte_len: usize, text_ok: bool, parsed: Option<&JsonValue>) -> (r:
    Result<(String, String), String>)
    ensures
        match import_check(kind@, byte_len as nat, text_ok, opt_view(parsed)) {
            Ok((id, name)) => r matches Ok(p) && p.0@ == id && p.1@ == name,
            Err(e) => r matches Err(s) && s@ == e,
        },
{
    if normalize_kind(kind).is_none() {
        return Err(prefixed("未知插件类型: ", kind));
    }
    if byte_len > MAX_IMPORT_BYTES {
        return Err(String::from_str("插件文件不能超过 1MB"));
    }
    if !text_ok {
        return Err(String::from_str("插件文件必须是 UTF-8 编码"));
    }
    validate_import_manifest(parsed, kind)
}

/// The colour a mouse-trail manifest sets at `/contributes/options/color` (a non-empty
/// string), else the default meteor colour.
pub open spec fn effect_color(manifest: Option<JsonV>) -> Seq<char> {
    match str_of(get_opt(get_opt(get_opt(manifest, "contributes"@), "options"@), "color"@)) {
        Some(c) => if c.len() > 0 {
            c
        } else {
            DEFAULT_METEOR_COLOR@
        },
        None => DEFAULT_METEOR_COLOR@,
    }
}

pub fn get_mouse_trail_effect_options(manifest: Option<&JsonValue>) -> (r: MouseTrailEffectOptions)
    ensures
        r.color@ == effect_color(opt_view(manifest)),
{
    let c = get_opt_exec(get_opt_exec(get_opt_exec(manifest, "contributes"), "options"), "color");
    match as_str_opt(c) {
        Some(s) => {
            if crate::text::chars_of(s.as_str()).len() == 0 {
                MouseTrailEffectOptions { color: String::from_str(DEFAULT_METEOR_COLOR) }
            } else {
                MouseTrailEffectOptions { color: s.clone() }
            }
        },
        None => MouseTrailEffectOptions { color: String::from_str(DEFAULT_METEOR_COLOR) },
    }
}

/// A plugin manifest (`plugin.json`) as found on disk; `dir` is where it was found.
pub struct PluginManifest {
    pub id: String,
    pub name: String,
    pub version: String,
    pub entry: String,
    pub permissions: Vec<String>,
    pub contributes: JsonValue,
    pub enabled: bool,
    pub dir: String,
}

pub ghost struct ManifestV {
    pub id: Seq<char>,
    pub name: Seq<char>,
    pub version: Seq<char>,
    pub entry: Seq<char>,
    pub permissions: Seq<Seq<char>>,
    pub contributes: JsonV,
    pub enabled: bool,
    pub dir: Seq<char>,
}

impl View for PluginManifest {
    type V = ManifestV;

    open spec fn view(&self) -> ManifestV {
        ManifestV {
            id: self.id@,
            name: self.name@,
            version: self.version@,
            entry: self.entry@,
            permissions: self.permissions@.map_values(|p: String| p@),
            contributes: self.contributes@,
            enabled: self.enabled,
            dir: self.dir@,
        }
    }
}

pub open spec fn manifests_view(s: Seq<PluginManifest>) -> Seq<ManifestV> {
    s.map_values(|m: PluginManifest| m@)
}

/// A manifest read from `dir`: kept (with its directory) unless its id is blank.
pub fn accept_manifest(manifest: PluginManifest, dir: String) -> (r: Option<PluginManifest>)
    ensures
        trim(manifest.id@).len() == 0 ==> r is None,
        trim(manifest.id@).len() != 0 ==> (r matches Some(m) && m@ == ManifestV { dir: dir@, ..manifest@ }),
{
    if is_blank(manifest.id.as_str()) {
        return None;
    }
    let mut m = manifest;
    m.dir = dir;
    Some(m)
}

/// `a` sorts before or equal to `b`: the order of `str` (code point by code point).
pub open spec fn name_le(a: Seq<char>, b: Seq<char>) -> bool
    decreases a.len(),
{
    if a.len() == 0 {
        true
    } else if b.len() == 0 {
        false
    } else if a[0] != b[0] {
        a[0] < b[0]
    } else {
        name_le(a.drop_first(), b.drop_first())
    }
}

fn name_le_exec(a: &String, b: &String) -> (r: bool)
    ensures
        r == name_le(a@, b@),
{
    let av = crate::text::chars_of(a.as_str());
    let bv = crate::text::chars_of(b.as_str());
    let mut i: usize = 0;
    assert(av@.skip(0) =~= av@);
    assert(bv@.skip(0) =~= bv@);
    while i < av.len() && i < bv.len() && av[i] == bv[i]
        invariant
            i <= av@.len(),
            i <= bv@.len(),
            name_le(av@.skip(i as int), bv@.skip(i as int)) == name_le(av@, bv@),
        decreases av@.len() - i,
    {
        assert(av@.skip(i as int).drop_first() =~= av@.skip(i as int + 1));
        assert(bv@.skip(i as int).drop_first() =~= bv@.skip(i as int + 1));
        i = i + 1;
    }
    if i == av.len() {
        return true;
    }
    if i == bv.len() {
        return false;
    }
    assert(av@.skip(i as int)[0] == av@[i as int]);
    assert(bv@.skip(i as int)[0] == bv@[i as int]);
    av[i] < bv[i]
}

/// Duplicates by id dropped, the first one kept.
pub open spec fn dedup_ids(s: Seq<ManifestV>) -> Seq<ManifestV>
    decreases s.len(),
{
    if s.len() == 0 {
        s
    } else {
        let r = dedup_ids(s.drop_last());
        if exists|k: int| 0 <= k < r.len() && (#[trigger] r[k]).id == s.last().id {
            r
        } else {
            r.push(s.last())
        }
    }
}

/// Where `x` goes in a list sorted by name: before the first entry named after it.
pub open spec fn insert_pos(r: Seq<ManifestV>, x: ManifestV, j: int) -> int
    decreases r.len() - j,
{
    if j < 0 || j >= r.len() {
        r.len() as int
    } else if !name_le(r[j].name, x.name) {
        j
    } else {
        insert_pos(r, x, j + 1)
    }
}

/// Stable sort by name.
pub open spec fn sorted_by_name(s: Seq<ManifestV>) -> Seq<ManifestV>
    decreases s.len(),
{
    if s.len() == 0 {
        s
    } else {
        let r = sorted_by_name(s.drop_last());
        r.insert(insert_pos(r, s.last(), 0), s.last())
    }
}

proof fn lemma_insert_pos(r: Seq<ManifestV>, x: ManifestV, j: int)
    requires
        0 <= j <= r.len(),
    ensures
        j <= insert_pos(r, x, j) <= r.len(),
    decreases r.len() - j,
{
    if j < r.len() && name_le(r[j].name, x.name) {
        lemma_insert_pos(r, x, j + 1);
    }
}

proof fn lemma_name_le_total(a: Seq<char>, b: Seq<char>)
    ensures
        name_le(a, b) || name_le(b, a),
    decreases a.len(),
{
    if a.len() > 0 && b.len() > 0 && a[0] == b[0] {
        lemma_name_le_total(a.drop_first(), b.drop_first());
    }
}

proof fn lemma_name_le_trans(a: Seq<char>, b: Seq<char>, c: Seq<char>)
    requires
        name_le(a, b),
        name_le(b, c),
    ensures
        name_le(a, c),
    decreases a.len(),
{
    if a.len() > 0 && b.len() > 0 && c.len() > 0 && a[0] == b[0] && b[0] == c[0] {
        lemma_name_le_trans(a.drop_first(), b.drop_first(), c.drop_first());
    }
}

pub open spec fn sorted_names(r: Seq<ManifestV>) -> bool {
    forall|i: int, j: int| 0 <= i < j < r.len() ==> name_le(#[trigger] r[i].name, #[trigger] r[j].name)
}

proof fn lemma_insert_pos_bounds(r: Seq<ManifestV>, x: ManifestV, j: int)
    requires
        0 <= j <= r.len(),
        forall|k: int| 0 <= k < j ==> name_le(#[trigger] r[k].name, x.name),
    ensures
        forall|k: int| 0 <= k < insert_pos(r, x, j) ==> name_le(#[trigger] r[k].name, x.name),
        insert_pos(r, x, j) < r.len() ==> !name_le(r[insert_pos(r, x, j)].name, x.name),
        j <= insert_pos(r, x, j) <= r.len(),
    decreases r.len() - j,
{
    if j < r.len() && name_le(r[j].name, x.name) {
        lemma_insert_pos_bounds(r, x, j + 1);
    }
}

/// The plugin list is in name order: every manifest sorts at or before the ones after it.
pub proof fn law_plugins_sorted_by_name(s: Seq<ManifestV>)
    ensures
        sorted_names(sorted_by_name(s)),
    decreases s.len(),
{
    if s.len() > 0 {
        let r = sorted_by_name(s.drop_last());
        law_plugins_sorted_by_name(s.drop_last());
        let x = s.last();
        lemma_insert_pos_bounds(r, x, 0);
        let p = insert_pos(r, x, 0);
        let t = r.insert(p, x);
        assert(t == sorted_by_name(s));
        if p < r.len() {
            lemma_name_le_total(r[p].name, x.name);
        }
        assert forall|i: int, j: int| 0 <= i < j < t.len() implies name_le(
            #[trigger] t[i].name,
            #[trigger] t[j].name,
        ) by {
            if j < p {
                assert(t[i] == r[i] && t[j] == r[j]);
            } else if j == p {
                assert(t[i] == r[i] && t[j] == x);
            } else if i > p {
                assert(t[i] == r[i - 1] && t[j] == r[j - 1]);
            } else if i == p {
                assert(t[i] == x && t[j] == r[j - 1]);
                assert(name_le(x.name, r[p].name));
                if j - 1 > p {
                    lemma_name_le_trans(x.name, r[p].name, r[j - 1].name);
                }
            } else {
                assert(t[i] == r[i] && t[j] == r[j - 1]);
            }
        }
    }
}

/// Sorting the plugin list neither drops nor adds a manifest.
pub proof fn law_plugins_sort_keeps_manifests(s: Seq<ManifestV>)
    ensures
        sorted_by_name(s).to_multiset() == s.to_multiset(),
    decreases s.len(),
{
    broadcast use vstd::seq_lib::to_multiset_insert, vstd::seq_lib::to_multiset_build;

    if s.len() == 0 {
        assert(sorted_by_name(s) == s);
    } else {
        law_plugins_sort_keeps_manifests(s.drop_last());
        let r = sorted_by_name(s.drop_last());
        lemma_insert_pos(r, s.last(), 0);
        assert(s.drop_last().push(s.last()) =~= s);
    }
}

/// No two manifests kept share an id.
pub proof fn law_plugins_unique_ids(s: Seq<ManifestV>)
    ensures
        forall|i: int, j: int|
            0 <= i < j < dedup_ids(s).len() ==> (#[trigger] dedup_ids(s)[i]).id != (#[trigger] dedup_ids(
                s,
            )[j]).id,
    decreases s.len(),
{
    if s.len() > 0 {
        law_plugins_unique_ids(s.drop_last());
    }
}

/// The manifests found, in the order the directories were read: duplicates by id dropped
/// (the first kept), then sorted by name (stable).
pub fn collect_plugins(found: Vec<PluginManifest>) -> (r: Vec<PluginManifest>)
    ensures
        manifests_view(r@) == sorted_by_name(dedup_ids(manifests_view(found@))),
{
    let ghost fv = manifests_view(found@);
    let mut rest = found;
    let mut kept: Vec<PluginManifest> = Vec::new();
    let ghost mut taken: int = 0;
    while rest.len() > 0
        invariant
            0 <= taken <= fv.len(),
            manifests_view(rest@) == fv.skip(taken),
            manifests_view(kept@) == dedup_ids(fv.take(taken)),
        decreases rest@.len(),
    {
        let ghost rv = manifests_view(rest@);
        assert(rv.len() == rest@.len());
        assert(taken < fv.len());
        assert(rv[0] == rest@[0]@);
        let item = rest.remove(0);
        assert(item@ == fv[taken]) by {
            assert(rv[0] == fv.skip(taken)[0]);
        }
        assert(fv.take(taken + 1).drop_last() =~= fv.take(taken));
        assert(fv.take(taken + 1).last() == fv[taken]);
        let ghost kv = manifests_view(kept@);
        let mut dup = false;
        let mut k: usize = 0;
        while k < kept.len()
            invariant
                k <= kept@.len(),
                kv == manifests_view(kept@),
                dup == exists|j: int| 0 <= j < k && (#[trigger] kv[j]).id == item@.id,
            decreases kept@.len() - k,
        {
            assert(kv[k as int] == kept@[k as int]@);
            if crate::text::str_eq(kept[k].id.as_str(), item.id.as_str()) {
                dup = true;
            }
            k = k + 1;
        }
        if !dup {
            kept.push(item);
            assert(manifests_view(kept@) =~= kv.push(item@));
        }
        proof {
            assert(manifests_view(rest@) =~= rv.drop_first());
            assert(fv.skip(taken).drop_first() =~= fv.skip(taken + 1));
            taken = taken + 1;
        }
    }
    assert(fv.take(taken) =~= fv);
    let ghost dv = manifests_view(kept@);
    let mut sorted: Vec<PluginManifest> = Vec::new();
    let ghost mut done: int = 0;
    while kept.len() > 0
        invariant
            0 <= done <= dv.len(),
            manifests_view(kept@) == dv.skip(done),
            manifests_view(sorted@) == sorted_by_name(dv.take(done)),
        decreases kept@.len(),
    {
        let ghost kv = manifests_view(kept@);
        assert(kv.len() == kept@.len());
        assert(done < dv.len());
        assert(kv[0] == kept@[0]@);
        let item = kept.remove(0);
        assert(item@ == dv[done]) by {
            assert(kv[0] == dv.skip(done)[0]);
        }
        assert(dv.take(done + 1).drop_last() =~= dv.take(done));
        assert(dv.take(done + 1).last() == dv[done]);
        let ghost sv = manifests_view(sorted@);
        proof {
            lemma_insert_pos(sv, item@, 0);
        }
        let mut pos: usize = 0;
        while pos < sorted.len() && name_le_exec(&sorted[pos].name, &item.name)
            invariant
                pos <= sorted@.len(),
                sv == manifests_view(sorted@),
                insert_pos(sv, item@, pos as int) == insert_pos(sv, item@, 0),
            decreases sorted@.len() - pos,
        {
            pos = pos + 1;
        }
        sorted.insert(pos, item);
        assert(manifests_view(sorted@) =~= sv.insert(pos as int, item@));
        proof {
            assert(manifests_view(kept@) =~= kv.drop_first());
            assert(dv.skip(done).drop_first() =~= dv.skip(done + 1));
            done = done + 1;
        }
    }
    assert(dv.take(done) =~= dv);
    sorted
}

} // verus!
