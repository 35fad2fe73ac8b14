//! Hosts schemes: their normalization, editing rules, and the managed block
//! written into the system hosts file.
use vstd::prelude::*;
use crate::calendar::{format_last_refresh, refresh_stamp};
use crate::text::{append_str, chars_of, eq_lit, hex, hex_chars, is_blank, lemma_hex_digits, lower, lower_chars, push_char, str_eq, string_of, trim, trim_chars, trim_str};

verus! {

pub const NATURE_KEEP: &'static str = "keep";
pub const NATURE_EXCLUSIVE: &'static str = "exclusive";
pub const TYPE_LOCAL: &'static str = "local";
pub const TYPE_REMOTE: &'static str = "remote";

/// One hosts scheme as stored and shown.
pub struct HostsScheme {
    pub id: String,
    pub title: String,
    pub content: String,
    pub enabled: bool,
    pub source: String,
    /// "keep" | "exclusive".
    pub nature: String,
    /// Readonly schemes cannot edit hosts content.
    pub readonly: bool,
    /// "local" | "remote".
    pub scheme_type: String,
    /// Remote URL.
    pub url: String,
    /// Seconds; 0 = never.
    pub refresh_interval: u64,
    pub last_refresh: String,
    pub last_refresh_ms: u64,
}

/// The value of a scheme, strings taken as character sequences.
pub ghost struct SchemeV {
    pub id: Seq<char>,
    pub title: Seq<char>,
    pub content: Seq<char>,
    pub enabled: bool,
    pub source: Seq<char>,
    pub nature: Seq<char>,
    pub readonly: bool,
    pub scheme_type: Seq<char>,
    pub url: Seq<char>,
    pub refresh_interval: u64,
    pub last_refresh: Seq<char>,
    pub last_refresh_ms: u64,
}

impl View for HostsScheme {
    type V = SchemeV;

    open spec fn view(&self) -> SchemeV {
        SchemeV {
            id: self.id@,
            title: self.title@,
            content: self.content@,
            enabled: self.enabled,
            source: self.source@,
            nature: self.nature@,
            readonly: self.readonly,
            scheme_type: self.scheme_type@,
            url: self.url@,
            refresh_interval: self.refresh_interval,
            last_refresh: self.last_refresh@,
            last_refresh_ms: self.last_refresh_ms,
        }
    }
}

impl HostsScheme {
    /// A field-by-field copy.
    pub fn duplicate(&self) -> (r: HostsScheme)
        ensures
            r@ == self@,
    {
        HostsScheme {
            id: self.id.clone(),
            title: self.title.clone(),
            content: self.content.clone(),
            enabled: self.enabled,
            source: self.source.clone(),
            nature: self.nature.clone(),
            readonly: self.readonly,
            scheme_type: self.scheme_type.clone(),
            url: self.url.clone(),
            refresh_interval: self.refresh_interval,
            last_refresh: self.last_refresh.clone(),
            last_refresh_ms: self.last_refresh_ms,
        }
    }
}

pub open spec fn seqs_of(v: Seq<HostsScheme>) -> Seq<SchemeV> {
    v.map_values(|s: HostsScheme| s@)
}

/// The nature a stored scheme without one gets.
pub fn default_nature() -> (r: String)
    ensures
        r@ == NATURE_KEEP@,
{
    String::from_str(NATURE_KEEP)
}

/// The type a stored scheme without one gets.
pub fn default_scheme_type() -> (r: String)
    ensures
        r@ == TYPE_LOCAL@,
{
    String::from_str(TYPE_LOCAL)
}

pub open spec fn msg_invalid_nature() -> Seq<char> {
    "性质无效，仅支持 keep（保留）或 exclusive（单开）"@
}

pub open spec fn msg_invalid_type() -> Seq<char> {
    "类型无效，仅支持 local 或 remote"@
}

pub open spec fn msg_invalid_interval() -> Seq<char> {
    "刷新间隔无效"@
}

/// The nature named by `raw` after trimming, or the error when it names none.
pub open spec fn nature_of(raw: Seq<char>) -> Result<Seq<char>, Seq<char>> {
    let t = trim(raw);
    if t == NATURE_KEEP@ {
        Ok(NATURE_KEEP@)
    } else if t == NATURE_EXCLUSIVE@ {
        Ok(NATURE_EXCLUSIVE@)
    } else {
        Err(msg_invalid_nature())
    }
}

pub fn normalize_nature(raw: &str) -> (r: Result<String, String>)
    ensures
        match r {
            Ok(s) => nature_of(raw@) == Ok::<Seq<char>, Seq<char>>(s@),
            Err(e) => nature_of(raw@) == Err::<Seq<char>, Seq<char>>(e@),
        },
{
    let t = trim_chars(chars_of(raw).as_slice());
    if eq_lit(t.as_slice(), NATURE_KEEP) {
        Ok(String::from_str(NATURE_KEEP))
    } else if eq_lit(t.as_slice(), NATURE_EXCLUSIVE) {
        Ok(String::from_str(NATURE_EXCLUSIVE))
    } else {
        Err(String::from_str("性质无效，仅支持 keep（保留）或 exclusive（单开）"))
    }
}

pub open spec fn is_exclusive_v(s: SchemeV) -> bool {
    s.nature == NATURE_EXCLUSIVE@
}

pub fn is_exclusive(scheme: &HostsScheme) -> (b: bool)
    ensures
        b == is_exclusive_v(scheme@),
{
    eq_lit(chars_of(scheme.nature.as_str()).as_slice(), NATURE_EXCLUSIVE)
}

pub open spec fn is_remote_v(s: SchemeV) -> bool {
    s.scheme_type == TYPE_REMOTE@ || trim(s.url).len() != 0
}

pub fn is_remote(scheme: &HostsScheme) -> (b: bool)
    ensures
        b == is_remote_v(scheme@),
{
    eq_lit(chars_of(scheme.scheme_type.as_str()).as_slice(), TYPE_REMOTE)
        || trim_chars(chars_of(scheme.url.as_str()).as_slice()).len() != 0
}

/// Remote metadata filled in from the url after load.
pub open spec fn normalized_v(s: SchemeV) -> SchemeV {
    if trim(s.url).len() != 0 {
        SchemeV { scheme_type: TYPE_REMOTE@, readonly: true, ..s }
    } else if s.scheme_type != TYPE_REMOTE@ {
        SchemeV { scheme_type: TYPE_LOCAL@, ..s }
    } else {
        s
    }
}

pub fn normalize_scheme(scheme: &mut HostsScheme)
    ensures
        final(scheme)@ == normalized_v(old(scheme)@),
{
    if trim_chars(chars_of(scheme.url.as_str()).as_slice()).len() != 0 {
        scheme.scheme_type = String::from_str(TYPE_REMOTE);
        scheme.readonly = true;
    } else if !eq_lit(chars_of(scheme.scheme_type.as_str()).as_slice(), TYPE_REMOTE) {
        scheme.scheme_type = String::from_str(TYPE_LOCAL);
    }
}

/// Schemes are normalised on every load: a scheme that was saved normalised loads unchanged.
pub proof fn law_normalize_scheme_idempotent(s: SchemeV)
    ensures
        normalized_v(normalized_v(s)) == normalized_v(s),
{
    reveal_strlit("local");
    reveal_strlit("remote");
    assert(TYPE_LOCAL@ != TYPE_REMOTE@) by {
        assert(TYPE_LOCAL@.len() != TYPE_REMOTE@.len());
    }
}

/// The scheme type named by `raw` (trimmed, case-insensitive; empty means local).
pub open spec fn scheme_type_of(raw: Seq<char>) -> Result<Seq<char>, Seq<char>> {
    let t = lower(trim(raw));
    if t.len() == 0 || t == TYPE_LOCAL@ {
        Ok(TYPE_LOCAL@)
    } else if t == TYPE_REMOTE@ {
        Ok(TYPE_REMOTE@)
    } else {
        Err(msg_invalid_type())
    }
}

pub fn normalize_scheme_type(raw: &str) -> (r: Result<String, String>)
    ensures
        match r {
            Ok(s) => scheme_type_of(raw@) == Ok::<Seq<char>, Seq<char>>(s@),
            Err(e) => scheme_type_of(raw@) == Err::<Seq<char>, Seq<char>>(e@),
        },
{
    let t = lower_chars(trim_chars(chars_of(raw).as_slice()).as_slice());
    if t.len() == 0 || eq_lit(t.as_slice(), TYPE_LOCAL) {
        Ok(String::from_str(TYPE_LOCAL))
    } else if eq_lit(t.as_slice(), TYPE_REMOTE) {
        Ok(String::from_str(TYPE_REMOTE))
    } else {
        Err(String::from_str("类型无效，仅支持 local 或 remote"))
    }
}

/// Refresh intervals a scheme may carry, in seconds.
pub open spec fn allowed_interval(v: u64) -> bool {
    v == 0 || v == 300 || v == 600 || v == 1800 || v == 3600 || v == 7200 || v == 14400 || v
        == 21600 || v == 43200 || v == 86400
}

pub fn is_allowed_interval(v: u64) -> (b: bool)
    ensures
        b == allowed_interval(v),
{
    v == 0 || v == 300 || v == 600 || v == 1800 || v == 3600 || v == 7200 || v == 14400 || v
        == 21600 || v == 43200 || v == 86400
}

pub fn normalize_refresh_interval(raw: u64) -> (r: Result<u64, String>)
    ensures
        allowed_interval(raw) ==> r == Ok::<u64, String>(raw),
        !allowed_interval(raw) ==> (r matches Err(e) && e@ == msg_invalid_interval()),
{
    if is_allowed_interval(raw) {
        Ok(raw)
    } else {
        Err(String::from_str("刷新间隔无效"))
    }
}

pub open spec fn msg_not_found() -> Seq<char> {
    "方案不存在"@
}

pub open spec fn msg_empty_title() -> Seq<char> {
    "方案标题不能为空"@
}

pub open spec fn msg_remote_needs_url() -> Seq<char> {
    "远程方案必须填写 URL"@
}

pub open spec fn msg_not_remote() -> Seq<char> {
    "仅远程方案支持刷新"@
}

pub open spec fn msg_empty_url() -> Seq<char> {
    "远程 URL 不能为空"@
}

/// First index at or after `i` of a scheme with id `id`, or -1.
pub open spec fn index_from(v: Seq<SchemeV>, id: Seq<char>, i: int) -> int
    decreases v.len() - i,
{
    if i < 0 || i >= v.len() {
        -1
    } else if v[i].id == id {
        i
    } else {
        index_from(v, id, i + 1)
    }
}

/// Index of the first scheme with id `id`, or -1 when there is none.
pub open spec fn index_of_id(v: Seq<SchemeV>, id: Seq<char>) -> int {
    index_from(v, id, 0)
}

pub proof fn lemma_index_from(v: Seq<SchemeV>, id: Seq<char>, i: int)
    requires
        0 <= i,
    ensures
        index_from(v, id, i) == -1 || (i <= index_from(v, id, i) < v.len() && v[index_from(
            v,
            id,
            i,
        )].id == id),
        index_from(v, id, i) == -1 ==> forall|k: int| i <= k < v.len() ==> v[k].id != id,
        forall|k: int| i <= k < index_from(v, id, i) ==> v[k].id != id,
    decreases v.len() - i,
{
    if i < v.len() && v[i].id != id {
        lemma_index_from(v, id, i + 1);
    }
}

/// Index of the first scheme with id `id`.
pub fn find_scheme(schemes: &Vec<HostsScheme>, id: &str) -> (r: Option<usize>)
    ensures
        match r {
            Some(i) => i as int == index_of_id(seqs_of(schemes@), id@),
            None => index_of_id(seqs_of(schemes@), id@) == -1,
        },
        r matches Some(i) ==> i < schemes@.len(),
{
    let ghost v = seqs_of(schemes@);
    let mut i: usize = 0;
    while i < schemes.len()
        invariant
            i <= schemes@.len(),
            v == seqs_of(schemes@),
            index_from(v, id@, i as int) == index_of_id(v, id@),
        decreases schemes@.len() - i,
    {
        if str_eq(schemes[i].id.as_str(), id) {
            return Some(i);
        }
        i = i + 1;
    }
    None
}

/// The schemes after enabling `id`: when that scheme is enabled and exclusive,
/// every other exclusive scheme is switched off.
pub open spec fn mutex_v(v: Seq<SchemeV>, id: Seq<char>) -> Seq<SchemeV> {
    let t = index_of_id(v, id);
    if t < 0 || !v[t].enabled || !is_exclusive_v(v[t]) {
        v
    } else {
        v.map_values(
            |s: SchemeV|
                if s.id != id && is_exclusive_v(s) {
                    SchemeV { enabled: false, ..s }
                } else {
                    s
                },
        )
    }
}

pub fn apply_exclusive_mutex(schemes: &mut Vec<HostsScheme>, enabled_id: &str)
    ensures
        seqs_of(final(schemes)@) == mutex_v(seqs_of(old(schemes)@), enabled_id@),
        index_of_id(seqs_of(old(schemes)@), enabled_id@) >= 0 && seqs_of(old(schemes)@)[index_of_id(
            seqs_of(old(schemes)@),
            enabled_id@,
        )].enabled && is_exclusive_v(
            seqs_of(old(schemes)@)[index_of_id(seqs_of(old(schemes)@), enabled_id@)],
        ) ==> forall|i: int|
            0 <= i < final(schemes)@.len() && #[trigger] final(schemes)@[i].enabled
                && is_exclusive_v(final(schemes)@[i]@) ==> final(schemes)@[i].id@ == enabled_id@,
{
    let ghost v0 = seqs_of(schemes@);
    let t = match find_scheme(schemes, enabled_id) {
        Some(t) => t,
        None => {
            assert(seqs_of(schemes@) =~= mutex_v(v0, enabled_id@));
            return ;
        },
    };
    if !schemes[t].enabled || !is_exclusive(&schemes[t]) {
        assert(seqs_of(schemes@) =~= mutex_v(v0, enabled_id@));
        return ;
    }
    let ghost target = mutex_v(v0, enabled_id@);
    let mut i: usize = 0;
    while i < schemes.len()
        invariant
            i <= schemes@.len(),
            schemes@.len() == v0.len(),
            target.len() == v0.len(),
            target == mutex_v(v0, enabled_id@),
            index_of_id(v0, enabled_id@) >= 0,
            v0[index_of_id(v0, enabled_id@)].enabled,
            is_exclusive_v(v0[index_of_id(v0, enabled_id@)]),
            forall|k: int| 0 <= k < i ==> #[trigger] schemes@[k]@ == target[k],
            forall|k: int| i <= k < schemes@.len() ==> #[trigger] schemes@[k]@ == v0[k],
        decreases schemes@.len() - i,
    {
        if !str_eq(schemes[i].id.as_str(), enabled_id) && is_exclusive(&schemes[i]) {
            schemes[i].enabled = false;
        }
        i = i + 1;
    }
    assert(seqs_of(schemes@) =~= target);
}

/// What the settings window asks of `upsert_scheme`.
pub struct UpsertRequest {
    /// Present and non-empty: the scheme to edit; otherwise a new scheme.
    pub id: Option<String>,
    pub title: String,
    pub content: String,
    pub enabled: Option<bool>,
    pub nature: Option<String>,
    pub scheme_type: Option<String>,
    pub url: Option<String>,
    pub refresh_interval: Option<u64>,
}

/// What the caller still has to do after an upsert.
pub struct UpsertOutcome {
    pub target_id: String,
    /// The target scheme is enabled: the system hosts file must be written again.
    pub should_apply: bool,
    /// The target is remote and has never been fetched (or its url changed).
    pub need_first_refresh: bool,
}

pub open spec fn opt_view(o: Option<String>) -> Option<Seq<char>> {
    match o {
        Some(s) => Some(s@),
        None => None,
    }
}

/// An explicit type change: local clears remote metadata, remote marks the scheme readonly.
pub open spec fn with_type(s: SchemeV, st: Option<Seq<char>>) -> Result<SchemeV, Seq<char>> {
    match st {
        None => Ok(s),
        Some(t) => match scheme_type_of(t) {
            Err(e) => Err(e),
            Ok(nt) => if nt == TYPE_LOCAL@ {
                Ok(
                    SchemeV {
                        scheme_type: TYPE_LOCAL@,
                        url: Seq::empty(),
                        refresh_interval: 0,
                        last_refresh: Seq::empty(),
                        last_refresh_ms: 0,
                        readonly: false,
                        ..s
                    },
                )
            } else {
                Ok(SchemeV { scheme_type: TYPE_REMOTE@, readonly: true, ..s })
            },
        },
    }
}

pub open spec fn with_url(s: SchemeV, url: Option<Seq<char>>) -> SchemeV {
    match url {
        Some(u) => SchemeV { url: trim(u), ..s },
        None => s,
    }
}

pub open spec fn with_interval(s: SchemeV, ri: Option<u64>) -> Result<SchemeV, Seq<char>> {
    match ri {
        None => Ok(s),
        Some(r) => if allowed_interval(r) {
            Ok(SchemeV { refresh_interval: r, ..s })
        } else {
            Err(msg_invalid_interval())
        },
    }
}

/// A url present always makes the scheme remote.
pub open spec fn url_forces_remote(s: SchemeV) -> SchemeV {
    if trim(s.url).len() != 0 {
        SchemeV { scheme_type: TYPE_REMOTE@, readonly: true, ..s }
    } else {
        s
    }
}

/// The remaining edits, once the type and url are settled. Readonly schemes (remote ones,
/// and any other marked readonly) keep their hosts content.
pub open spec fn with_rest(
    s: SchemeV,
    title: Seq<char>,
    content: Seq<char>,
    enabled: Option<bool>,
    nature: Option<Seq<char>>,
) -> Result<SchemeV, Seq<char>> {
    if s.scheme_type == TYPE_REMOTE@ && trim(s.url).len() == 0 {
        Err(msg_remote_needs_url())
    } else {
        let s1 = SchemeV {
            title: title,
            content: if s.scheme_type != TYPE_REMOTE@ && !s.readonly {
                content
            } else {
                s.content
            },
            enabled: match enabled {
                Some(e) => e,
                None => s.enabled,
            },
            ..s
        };
        match nature {
            None => Ok(s1),
            Some(n) => match nature_of(n) {
                Err(e) => Err(e),
                Ok(k) => Ok(SchemeV { nature: k, ..s1 }),
            },
        }
    }
}

/// The edited scheme, or the first error met, in the order the edits are made.
pub open spec fn edited(s: SchemeV, req: UpsertRequest) -> Result<SchemeV, Seq<char>> {
    match with_type(s, opt_view(req.scheme_type)) {
        Err(e) => Err(e),
        Ok(s1) => match with_interval(with_url(s1, opt_view(req.url)), req.refresh_interval) {
            Err(e) => Err(e),
            Ok(s2) => with_rest(
                url_forces_remote(s2),
                trim(req.title@),
                req.content@,
                req.enabled,
                opt_view(req.nature),
            ),
        },
    }
}

/// The new scheme that an upsert without id creates, or the first error met.
pub open spec fn created(req: UpsertRequest, new_id: Seq<char>) -> Result<SchemeV, Seq<char>> {
    let nature = match opt_view(req.nature) {
        Some(n) => nature_of(n),
        None => Ok(NATURE_EXCLUSIVE@),
    };
    let st = match opt_view(req.scheme_type) {
        Some(t) => scheme_type_of(t),
        None => Ok(TYPE_LOCAL@),
    };
    let url = match opt_view(req.url) {
        Some(u) => trim(u),
        None => Seq::empty(),
    };
    let ri = match req.refresh_interval {
        Some(v) => if allowed_interval(v) {
            Ok(v)
        } else {
            Err(msg_invalid_interval())
        },
        None => Ok(0u64),
    };
    match nature {
        Err(e) => Err(e),
        Ok(n) => match st {
            Err(e) => Err(e),
            Ok(t) => match ri {
                Err(e) => Err(e),
                Ok(r) => if t == TYPE_REMOTE@ && url.len() == 0 {
                    Err(msg_remote_needs_url())
                } else {
                    let remote = t == TYPE_REMOTE@;
                    Ok(
                        SchemeV {
                            id: new_id,
                            title: trim(req.title@),
                            content: if remote {
                                Seq::empty()
                            } else {
                                req.content@
                            },
                            enabled: match req.enabled {
                                Some(e) => e,
                                None => false,
                            },
                            source: "local"@,
                            nature: n,
                            readonly: remote,
                            scheme_type: t,
                            url: url,
                            refresh_interval: if remote {
                                r
                            } else {
                                0
                            },
                            last_refresh: Seq::empty(),
                            last_refresh_ms: 0,
                        },
                    )
                },
            },
        },
    }
}

pub open spec fn edits_existing(req: UpsertRequest) -> bool {
    req.id matches Some(i) && i@.len() > 0
}

fn apply_type(s: &mut HostsScheme, st: &Option<String>) -> (r: Result<(), String>)
    ensures
        match r {
            Ok(_) => with_type(old(s)@, opt_view(*st)) == Ok::<SchemeV, Seq<char>>(final(s)@),
            Err(e) => with_type(old(s)@, opt_view(*st)) == Err::<SchemeV, Seq<char>>(e@),
        },
{
    match st {
        None => Ok(()),
        Some(raw) => {
            let nt = normalize_scheme_type(raw.as_str())?;
            if eq_lit(chars_of(nt.as_str()).as_slice(), TYPE_LOCAL) {
                s.scheme_type = String::from_str(TYPE_LOCAL);
                s.url = String::new();
                s.refresh_interval = 0;
                s.last_refresh = String::new();
                s.last_refresh_ms = 0;
                s.readonly = false;
            } else {
                s.scheme_type = String::from_str(TYPE_REMOTE);
                s.readonly = true;
            }
            Ok(())
        },
    }
}

fn apply_rest(
    s: &mut HostsScheme,
    title: &String,
    content: &String,
    enabled: Option<bool>,
    nature: &Option<String>,
) -> (r: Result<(), String>)
    ensures
        match r {
            Ok(_) => with_rest(old(s)@, title@, content@, enabled, opt_view(*nature)) == Ok::<
                SchemeV,
                Seq<char>,
            >(final(s)@),
            Err(e) => with_rest(old(s)@, title@, content@, enabled, opt_view(*nature)) == Err::<
                SchemeV,
                Seq<char>,
            >(e@),
        },
{
    let remote = eq_lit(chars_of(s.scheme_type.as_str()).as_slice(), TYPE_REMOTE);
    if remote && is_blank(s.url.as_str()) {
        return Err(String::from_str("远程方案必须填写 URL"));
    }
    s.title = title.clone();
    if !remote && !s.readonly {
        s.content = content.clone();
    }
    if let Some(e) = enabled {
        s.enabled = e;
    }
    match nature {
        None => Ok(()),
        Some(n) => {
            let k = normalize_nature(n.as_str())?;
            s.nature = k;
            Ok(())
        },
    }
}

/// The scheme `s` edited as `req` asks.
pub fn edit_scheme(s: &mut HostsScheme, req: &UpsertRequest) -> (r: Result<(), String>)
    ensures
        match r {
            Ok(_) => edited(old(s)@, *req) == Ok::<SchemeV, Seq<char>>(final(s)@),
            Err(e) => edited(old(s)@, *req) == Err::<SchemeV, Seq<char>>(e@),
        },
{
    apply_type(s, &req.scheme_type)?;
    if let Some(u) = &req.url {
        s.url = trim_str(u.as_str());
    }
    if let Some(ri) = req.refresh_interval {
        s.refresh_interval = normalize_refresh_interval(ri)?;
    }
    if !is_blank(s.url.as_str()) {
        s.scheme_type = String::from_str(TYPE_REMOTE);
        s.readonly = true;
    }
    let title = trim_str(req.title.as_str());
    apply_rest(s, &title, &req.content, req.enabled, &req.nature)
}

/// The new scheme for an upsert without id.
pub fn create_scheme(req: &UpsertRequest, new_id: String) -> (r: Result<HostsScheme, String>)
    ensures
        match r {
            Ok(s) => created(*req, new_id@) == Ok::<SchemeV, Seq<char>>(s@),
            Err(e) => created(*req, new_id@) == Err::<SchemeV, Seq<char>>(e@),
        },
{
    let nature = match &req.nature {
        Some(n) => normalize_nature(n.as_str())?,
        None => String::from_str(NATURE_EXCLUSIVE),
    };
    let scheme_type = match &req.scheme_type {
        Some(t) => normalize_scheme_type(t.as_str())?,
        None => String::from_str(TYPE_LOCAL),
    };
    let url = match &req.url {
        Some(u) => trim_str(u.as_str()),
        None => String::new(),
    };
    let refresh_interval = match req.refresh_interval {
        Some(v) => normalize_refresh_interval(v)?,
        None => 0,
    };
    let remote = eq_lit(chars_of(scheme_type.as_str()).as_slice(), TYPE_REMOTE);
    if remote && url.as_str().unicode_len() == 0 {
        return Err(String::from_str("远程方案必须填写 URL"));
    }
    Ok(
        HostsScheme {
            id: new_id,
            title: trim_str(req.title.as_str()),
            content: if remote {
                String::new()
            } else {
                req.content.clone()
            },
            enabled: match req.enabled {
                Some(e) => e,
                None => false,
            },
            source: String::from_str("local"),
            nature,
            readonly: remote,
            scheme_type,
            url,
            refresh_interval: if remote {
                refresh_interval
            } else {
                0
            },
            last_refresh: String::new(),
            last_refresh_ms: 0,
        },
    )
}

/// The schemes after an upsert, with the target id, whether to apply, and whether a first
/// fetch is due; or the first error met (the schemes then stay as they were).
pub open spec fn upsert_v(v: Seq<SchemeV>, req: UpsertRequest, new_id: Seq<char>) -> Result<
    (Seq<SchemeV>, Seq<char>, bool, bool),
    Seq<char>,
> {
    if trim(req.title@).len() == 0 {
        Err(msg_empty_title())
    } else if edits_existing(req) {
        let id = req.id->0@;
        let t = index_of_id(v, id);
        if t < 0 {
            Err(msg_not_found())
        } else {
            match edited(v[t], req) {
                Err(e) => Err(e),
                Ok(s2) => {
                    let nfr = s2.scheme_type == TYPE_REMOTE@ && trim(s2.url).len() != 0 && (v[t].url
                        != s2.url || v[t].last_refresh_ms == 0);
                    let v2 = v.update(t, s2);
                    let v3 = if s2.enabled {
                        mutex_v(v2, s2.id)
                    } else {
                        v2
                    };
                    Ok((v3, s2.id, s2.enabled, nfr))
                },
            }
        }
    } else {
        match created(req, new_id) {
            Err(e) => Err(e),
            Ok(s) => {
                let v2 = v.push(s);
                let v3 = if s.enabled {
                    mutex_v(v2, new_id)
                } else {
                    v2
                };
                Ok((v3, new_id, s.enabled, s.scheme_type == TYPE_REMOTE@))
            },
        }
    }
}

/// Creates a scheme, or edits the one `req.id` names (`new_id` is the id a new scheme gets).
/// When the result is enabled, other exclusive schemes are switched off.
pub fn upsert_scheme(schemes: &mut Vec<HostsScheme>, req: &UpsertRequest, new_id: String) -> (r:
    Result<UpsertOutcome, String>)
    ensures
        match r {
            Ok(o) => upsert_v(seqs_of(old(schemes)@), *req, new_id@) == Ok::<
                (Seq<SchemeV>, Seq<char>, bool, bool),
                Seq<char>,
            >((seqs_of(final(schemes)@), o.target_id@, o.should_apply, o.need_first_refresh)),
            Err(e) => upsert_v(seqs_of(old(schemes)@), *req, new_id@) == Err::<
                (Seq<SchemeV>, Seq<char>, bool, bool),
                Seq<char>,
            >(e@) && final(schemes)@ == old(schemes)@,
        },
{
    if is_blank(req.title.as_str()) {
        return Err(String::from_str("方案标题不能为空"));
    }
    let ghost v = seqs_of(schemes@);
    let existing = match &req.id {
        Some(i) => i.as_str().unicode_len() > 0,
        None => false,
    };
    if existing {
        let id = match &req.id {
            Some(i) => i,
            None => {
                assert(false);
                return Err(String::new());
            },
        };
        let t = match find_scheme(schemes, id.as_str()) {
            Some(t) => t,
            None => return Err(String::from_str("方案不存在")),
        };
        let mut item = schemes[t].duplicate();
        let prev_url = item.url.clone();
        let prev_last = item.last_refresh_ms;
        edit_scheme(&mut item, req)?;
        let need_first_refresh = eq_lit(chars_of(item.scheme_type.as_str()).as_slice(), TYPE_REMOTE)
            && !is_blank(item.url.as_str()) && (!str_eq(prev_url.as_str(), item.url.as_str())
            || prev_last == 0);
        let should_apply = item.enabled;
        let target_id = item.id.clone();
        schemes.set(t, item);
        assert(seqs_of(schemes@) =~= v.update(t as int, schemes@[t as int]@));
        if should_apply {
            apply_exclusive_mutex(schemes, target_id.as_str());
        }
        Ok(UpsertOutcome { target_id, should_apply, need_first_refresh })
    } else {
        let s = create_scheme(req, new_id)?;
        let should_apply = s.enabled;
        let remote = eq_lit(chars_of(s.scheme_type.as_str()).as_slice(), TYPE_REMOTE);
        let target_id = s.id.clone();
        schemes.push(s);
        assert(seqs_of(schemes@) =~= v.push(schemes@[schemes@.len() - 1]@));
        if should_apply {
            apply_exclusive_mutex(schemes, target_id.as_str());
        }
        Ok(UpsertOutcome { target_id, should_apply, need_first_refresh: remote })
    }
}

/// The schemes whose id is not `id`, in order.
pub open spec fn without_id(v: Seq<SchemeV>, id: Seq<char>) -> Seq<SchemeV>
    decreases v.len(),
{
    if v.len() == 0 {
        v
    } else {
        let r = without_id(v.drop_last(), id);
        if v.last().id == id {
            r
        } else {
            r.push(v.last())
        }
    }
}

proof fn lemma_without_id_len(v: Seq<SchemeV>, id: Seq<char>)
    ensures
        without_id(v, id).len() <= v.len(),
        without_id(v, id).len() == v.len() <==> index_of_id(v, id) == -1,
    decreases v.len(),
{
    if v.len() > 0 {
        lemma_without_id_len(v.drop_last(), id);
        lemma_index_from(v, id, 0);
        lemma_index_from(v.drop_last(), id, 0);
        if index_of_id(v.drop_last(), id) >= 0 {
            let k = index_of_id(v.drop_last(), id);
            assert(v[k].id == id);
        }
        if index_of_id(v, id) >= 0 && v.last().id != id {
            let k = index_of_id(v, id);
            assert(k < v.len() - 1);
            assert(v.drop_last()[k].id == id);
        }
    }
}

/// Removes every scheme with id `id`; gives whether the first of them was enabled.
pub fn delete_scheme(schemes: &mut Vec<HostsScheme>, id: &str) -> (r: Result<bool, String>)
    ensures
        index_of_id(seqs_of(old(schemes)@), id@) == -1 <==> r is Err,
        r matches Err(e) ==> e@ == msg_not_found() && final(schemes)@ == old(schemes)@,
        r matches Ok(was) ==> was == seqs_of(old(schemes)@)[index_of_id(
            seqs_of(old(schemes)@),
            id@,
        )].enabled && seqs_of(final(schemes)@) == without_id(seqs_of(old(schemes)@), id@),
{
    let ghost v = seqs_of(schemes@);
    let was_enabled = match find_scheme(schemes, id) {
        Some(t) => schemes[t].enabled,
        None => false,
    };
    let mut kept: Vec<HostsScheme> = Vec::new();
    let mut i: usize = 0;
    while i < schemes.len()
        invariant
            i <= schemes@.len(),
            v == seqs_of(schemes@),
            seqs_of(kept@) == without_id(v.take(i as int), id@),
        decreases schemes@.len() - i,
    {
        assert(v.take(i + 1).drop_last() =~= v.take(i as int));
        if !str_eq(schemes[i].id.as_str(), id) {
            kept.push(schemes[i].duplicate());
        }
        i = i + 1;
        assert(seqs_of(kept@) =~= without_id(v.take(i as int), id@));
    }
    assert(v.take(schemes@.len() as int) =~= v);
    proof {
        lemma_without_id_len(v, id@);
    }
    if kept.len() == schemes.len() {
        return Err(String::from_str("方案不存在"));
    }
    *schemes = kept;
    Ok(was_enabled)
}

/// Gives the scheme `id` a new (trimmed, non-blank) title.
pub fn rename_scheme(schemes: &mut Vec<HostsScheme>, id: &str, title: &str) -> (r: Result<
    (),
    String,
>)
    ensures
        r matches Err(e) ==> final(schemes)@ == old(schemes)@,
        trim(title@).len() == 0 ==> (r matches Err(e) && e@ == msg_empty_title()),
        trim(title@).len() != 0 && index_of_id(seqs_of(old(schemes)@), id@) == -1 ==> (r matches Err(
            e,
        ) && e@ == msg_not_found()),
        trim(title@).len() != 0 && index_of_id(seqs_of(old(schemes)@), id@) >= 0 ==> r is Ok
            && seqs_of(final(schemes)@) == seqs_of(old(schemes)@).update(
            index_of_id(seqs_of(old(schemes)@), id@),
            SchemeV {
                title: trim(title@),
                ..seqs_of(old(schemes)@)[index_of_id(seqs_of(old(schemes)@), id@)]
            },
        ),
{
    if is_blank(title) {
        return Err(String::from_str("方案标题不能为空"));
    }
    let ghost v = seqs_of(schemes@);
    let t = match find_scheme(schemes, id) {
        Some(t) => t,
        None => return Err(String::from_str("方案不存在")),
    };
    schemes[t].title = trim_str(title);
    assert(seqs_of(schemes@) =~= v.update(t as int, SchemeV { title: trim(title@), ..v[t as int] }));
    Ok(())
}

/// Sets the nature of scheme `id`; an enabled exclusive scheme switches the other
/// exclusive ones off. Gives whether the scheme is enabled (the hosts file must be written again).
pub fn set_nature(schemes: &mut Vec<HostsScheme>, id: &str, nature: &str) -> (r: Result<
    bool,
    String,
>)
    ensures
        r matches Err(e) ==> final(schemes)@ == old(schemes)@,
        nature_of(nature@) matches Err(e) ==> (r matches Err(e2) && e2@ == e),
        nature_of(nature@) is Ok && index_of_id(seqs_of(old(schemes)@), id@) == -1 ==> (r matches Err(
            e,
        ) && e@ == msg_not_found()),
        nature_of(nature@) is Ok && index_of_id(seqs_of(old(schemes)@), id@) >= 0 ==> ({
            let v = seqs_of(old(schemes)@);
            let t = index_of_id(v, id@);
            let v2 = v.update(t, SchemeV { nature: nature_of(nature@)->Ok_0, ..v[t] });
            &&& r == Ok::<bool, String>(v[t].enabled)
            &&& seqs_of(final(schemes)@) == (if v[t].enabled {
                mutex_v(v2, id@)
            } else {
                v2
            })
        }),
{
    let k = normalize_nature(nature)?;
    let ghost v = seqs_of(schemes@);
    let t = match find_scheme(schemes, id) {
        Some(t) => t,
        None => return Err(String::from_str("方案不存在")),
    };
    schemes[t].nature = k;
    let enabled = schemes[t].enabled;
    let exclusive = is_exclusive(&schemes[t]);
    let ghost v2 = seqs_of(schemes@);
    assert(v2 =~= v.update(t as int, SchemeV { nature: nature_of(nature@)->Ok_0, ..v[t as int] }));
    proof {
        lemma_index_from(v, id@, 0);
        lemma_index_from(v2, id@, 0);
        assert(index_of_id(v2, id@) == t) by {
            lemma_index_same(v, v2, id@, 0);
        }
    }
    if enabled && exclusive {
        apply_exclusive_mutex(schemes, id);
    } else {
        assert(seqs_of(schemes@) =~= mutex_v(v2, id@) || !enabled);
    }
    Ok(enabled)
}

/// Updating a scheme without touching its id keeps every id search unchanged.
proof fn lemma_index_same(v: Seq<SchemeV>, w: Seq<SchemeV>, id: Seq<char>, i: int)
    requires
        v.len() == w.len(),
        forall|k: int| 0 <= k < v.len() ==> #[trigger] v[k].id == w[k].id,
    ensures
        index_from(v, id, i) == index_from(w, id, i),
    decreases v.len() - i,
{
    if 0 <= i < v.len() {
        lemma_index_same(v, w, id, i + 1);
    }
}

/// Switches scheme `id` on or off; switching on an exclusive scheme switches
/// the other exclusive ones off.
pub fn set_enabled(schemes: &mut Vec<HostsScheme>, id: &str, enabled: bool) -> (r: Result<
    (),
    String,
>)
    ensures
        r matches Err(e) ==> final(schemes)@ == old(schemes)@ && e@ == msg_not_found(),
        r is Err <==> index_of_id(seqs_of(old(schemes)@), id@) == -1,
        r is Ok ==> ({
            let v = seqs_of(old(schemes)@);
            let t = index_of_id(v, id@);
            let v2 = v.update(t, SchemeV { enabled: enabled, ..v[t] });
            seqs_of(final(schemes)@) == (if enabled {
                mutex_v(v2, id@)
            } else {
                v2
            })
        }),
{
    let ghost v = seqs_of(schemes@);
    let t = match find_scheme(schemes, id) {
        Some(t) => t,
        None => return Err(String::from_str("方案不存在")),
    };
    schemes[t].enabled = enabled;
    let ghost v2 = seqs_of(schemes@);
    assert(v2 =~= v.update(t as int, SchemeV { enabled: enabled, ..v[t as int] }));
    if enabled {
        apply_exclusive_mutex(schemes, id);
    }
    Ok(())
}

/// Every scheme switched off (before the managed block is cleared).
pub fn disable_all(schemes: &mut Vec<HostsScheme>)
    ensures
        seqs_of(final(schemes)@) == seqs_of(old(schemes)@).map_values(
            |s: SchemeV| SchemeV { enabled: false, ..s },
        ),
{
    let ghost v = seqs_of(schemes@);
    let mut i: usize = 0;
    while i < schemes.len()
        invariant
            i <= schemes@.len(),
            schemes@.len() == v.len(),
            forall|k: int| 0 <= k < i ==> #[trigger] schemes@[k]@ == (SchemeV { enabled: false, ..v[k] }),
            forall|k: int| i <= k < schemes@.len() ==> #[trigger] schemes@[k]@ == v[k],
        decreases schemes@.len() - i,
    {
        let ghost before = schemes@[i as int]@;
        schemes[i].enabled = false;
        assert(schemes@[i as int]@ == (SchemeV { enabled: false, ..before }));
        i = i + 1;
    }
    assert(seqs_of(schemes@) =~= v.map_values(|s: SchemeV| SchemeV { enabled: false, ..s }));
}

/// The index and url of the scheme `id` to refresh; the url is to be fetched and given
/// to `mark_refreshed`.
pub fn prepare_refresh(schemes: &Vec<HostsScheme>, id: &str) -> (r: Result<(usize, String), String>)
    ensures
        ({
            let v = seqs_of(schemes@);
            let t = index_of_id(v, id@);
            &&& t == -1 ==> (r matches Err(e) && e@ == msg_not_found())
            &&& t >= 0 && !is_remote_v(v[t]) ==> (r matches Err(e) && e@ == msg_not_remote())
            &&& t >= 0 && is_remote_v(v[t]) && trim(v[t].url).len() == 0 ==> (r matches Err(e) && e@
                == msg_empty_url())
            &&& t >= 0 && is_remote_v(v[t]) && trim(v[t].url).len() != 0 ==> (r matches Ok(p) && p.0
                == t && p.1@ == v[t].url)
        }),
{
    let t = match find_scheme(schemes, id) {
        Some(t) => t,
        None => return Err(String::from_str("方案不存在")),
    };
    if !is_remote(&schemes[t]) {
        return Err(String::from_str("仅远程方案支持刷新"));
    }
    let url = schemes[t].url.clone();
    if is_blank(url.as_str()) {
        return Err(String::from_str("远程 URL 不能为空"));
    }
    Ok((t, url))
}

/// Stores freshly fetched content and stamps the refresh time `now_ms`.
pub fn mark_refreshed(scheme: &mut HostsScheme, content: String, now_ms: u64)
    ensures
        final(scheme)@ == (SchemeV {
            content: content@,
            last_refresh_ms: now_ms,
            last_refresh: refresh_stamp(now_ms as nat),
            ..old(scheme)@
        }),
{
    scheme.content = content;
    scheme.last_refresh_ms = now_ms;
    scheme.last_refresh = format_last_refresh(now_ms);
}

/// A remote scheme with a url and a refresh interval whose interval has passed at `now`.
pub open spec fn refresh_due(s: SchemeV, now: u64) -> bool {
    &&& is_remote_v(s)
    &&& trim(s.url).len() != 0
    &&& s.refresh_interval > 0
    &&& (if now >= s.last_refresh_ms {
        now - s.last_refresh_ms
    } else {
        0
    }) >= (if s.refresh_interval * 1000 <= u64::MAX {
        s.refresh_interval * 1000
    } else {
        u64::MAX as int
    })
}

/// Ids of the schemes due for refresh at `now`, in order.
pub open spec fn due_ids(v: Seq<SchemeV>, now: u64) -> Seq<Seq<char>>
    decreases v.len(),
{
    if v.len() == 0 {
        Seq::empty()
    } else {
        let r = due_ids(v.drop_last(), now);
        if refresh_due(v.last(), now) {
            r.push(v.last().id)
        } else {
            r
        }
    }
}

pub fn due_refresh_ids(schemes: &Vec<HostsScheme>, now: u64) -> (out: Vec<String>)
    ensures
        out@.len() == due_ids(seqs_of(schemes@), now).len(),
        forall|k: int| 0 <= k < out@.len() ==> #[trigger] out@[k]@ == due_ids(seqs_of(schemes@), now)[k],
{
    let ghost v = seqs_of(schemes@);
    let mut out: Vec<String> = Vec::new();
    let mut i: usize = 0;
    while i < schemes.len()
        invariant
            i <= schemes@.len(),
            v == seqs_of(schemes@),
            out@.len() == due_ids(v.take(i as int), now).len(),
            forall|k: int| 0 <= k < out@.len() ==> #[trigger] out@[k]@ == due_ids(v.take(i as int), now)[k],
        decreases schemes@.len() - i,
    {
        assert(v.take(i + 1).drop_last() =~= v.take(i as int));
        let s = &schemes[i];
        let elapsed = now.saturating_sub(s.last_refresh_ms);
        let needed: u64 = if s.refresh_interval <= u64::MAX / 1000 {
            s.refresh_interval * 1000
        } else {
            u64::MAX
        };
        if is_remote(s) && !is_blank(s.url.as_str()) && s.refresh_interval > 0 && elapsed >= needed {
            out.push(s.id.clone());
        }
        i = i + 1;
    }
    assert(v.take(schemes@.len() as int) =~= v);
    out
}

/// `s` joined with `sep` between neighbours.
pub open spec fn join_with(parts: Seq<Seq<char>>, sep: Seq<char>) -> Seq<char>
    decreases parts.len(),
{
    if parts.len() == 0 {
        Seq::empty()
    } else if parts.len() == 1 {
        parts[0]
    } else {
        join_with(parts.drop_last(), sep) + sep + parts.last()
    }
}

/// One block per enabled scheme with a non-blank body: `# [title]` then the trimmed content.
pub open spec fn managed_parts(v: Seq<SchemeV>) -> Seq<Seq<char>>
    decreases v.len(),
{
    if v.len() == 0 {
        Seq::empty()
    } else {
        let r = managed_parts(v.drop_last());
        let s = v.last();
        let body = trim(s.content);
        if s.enabled && body.len() != 0 {
            r.push(seq!['#', ' ', '['] + s.title + seq![']', '\n'] + body)
        } else {
            r
        }
    }
}

/// The managed text written between the markers: the blocks separated by a blank line.
pub open spec fn managed_text_v(v: Seq<SchemeV>) -> Seq<char> {
    join_with(managed_parts(v), seq!['\n', '\n'])
}

proof fn lemma_managed_parts_nonempty(v: Seq<SchemeV>)
    ensures
        forall|k: int| 0 <= k < managed_parts(v).len() ==> (#[trigger] managed_parts(v)[k]).len() > 0,
    decreases v.len(),
{
    if v.len() > 0 {
        lemma_managed_parts_nonempty(v.drop_last());
        let r = managed_parts(v.drop_last());
        let s = v.last();
        let b = seq!['#', ' ', '['] + s.title + seq![']', '\n'] + trim(s.content);
        assert(b.len() >= 3);
        if s.enabled && trim(s.content).len() != 0 {
            assert(managed_parts(v) == r.push(b));
            assert forall|k: int| 0 <= k < managed_parts(v).len() implies (#[trigger] managed_parts(v)[k]).len() > 0 by {
                if k < r.len() {
                    assert(managed_parts(v)[k] == r[k]);
                }
            }
        }
    }
}

/// The managed text grows scheme by scheme: a scheme that is enabled and has a non-blank body,
/// local or remote, adds the block `# [title]`, a line break and its trimmed body, after a
/// blank line when text is already there; any other scheme adds nothing.
pub proof fn law_managed_text_appends(v: Seq<SchemeV>, s: SchemeV)
    ensures
        s.enabled && trim(s.content).len() > 0 ==> managed_text_v(v.push(s)) == (if managed_text_v(
            v,
        ).len() == 0 {
            Seq::<char>::empty()
        } else {
            managed_text_v(v) + seq!['\n', '\n']
        }) + seq!['#', ' ', '['] + s.title + seq![']', '\n'] + trim(s.content),
        !(s.enabled && trim(s.content).len() > 0) ==> managed_text_v(v.push(s)) == managed_text_v(v),
{
    let w = v.push(s);
    assert(w.drop_last() =~= v);
    let p = managed_parts(v);
    lemma_managed_parts_nonempty(v);
    if p.len() > 0 {
        assert(p.last() == p[p.len() - 1]);
        assert(managed_text_v(v).len() >= p.last().len()) by {
            if p.len() > 1 {
                assert(join_with(p, seq!['\n', '\n']) == join_with(p.drop_last(), seq!['\n', '\n'])
                    + seq!['\n', '\n'] + p.last());
            }
        }
    }
    if s.enabled && trim(s.content).len() > 0 {
        let b = seq!['#', ' ', '['] + s.title + seq![']', '\n'] + trim(s.content);
        let q = managed_parts(w);
        assert(q == p.push(b));
        assert(q.drop_last() =~= p);
        assert(q.last() == b);
        if p.len() == 0 {
            assert(q.len() == 1);
            assert(managed_text_v(w) == q[0]);
            assert(Seq::<char>::empty() + b =~= b);
        }
    }
}

/// The managed text for the enabled schemes.
pub fn managed_text(schemes: &Vec<HostsScheme>) -> (out: String)
    ensures
        out@ == managed_text_v(seqs_of(schemes@)),
{
    let ghost v = seqs_of(schemes@);
    let mut out = String::new();
    let mut count: usize = 0;
    let mut i: usize = 0;
    while i < schemes.len()
        invariant
            i <= schemes@.len(),
            v == seqs_of(schemes@),
            count == managed_parts(v.take(i as int)).len(),
            out@ == join_with(managed_parts(v.take(i as int)), seq!['\n', '\n']),
            count <= i,
        decreases schemes@.len() - i,
    {
        assert(v.take(i + 1).drop_last() =~= v.take(i as int));
        let s = &schemes[i];
        let body = trim_str(s.content.as_str());
        if s.enabled && body.as_str().unicode_len() != 0 {
            let ghost before = out@;
            if count > 0 {
                push_char(&mut out, '\n');
                push_char(&mut out, '\n');
            }
            append_str(&mut out, "# [");
            append_str(&mut out, s.title.as_str());
            append_str(&mut out, "]\n");
            append_str(&mut out, body.as_str());
            proof {
                reveal_strlit("# [");
                reveal_strlit("]\n");
                let part = seq!['#', ' ', '['] + s.title@ + seq![']', '\n'] + body@;
                let ps = managed_parts(v.take(i + 1));
                assert(ps == managed_parts(v.take(i as int)).push(part));
                assert(ps.drop_last() =~= managed_parts(v.take(i as int)));
                if count > 0 {
                    assert(out@ =~= before + seq!['\n', '\n'] + part);
                } else {
                    assert(out@ =~= part);
                    assert(before =~= Seq::<char>::empty());
                }
            }
            count = count + 1;
        }
        i = i + 1;
    }
    assert(v.take(schemes@.len() as int) =~= v);
    out
}

/// After an import, only the first enabled exclusive scheme stays enabled.
pub open spec fn single_exclusive_v(v: Seq<SchemeV>, seen: bool) -> Seq<SchemeV>
    decreases v.len(),
{
    if v.len() == 0 {
        v
    } else {
        let s = v[0];
        if !is_exclusive_v(s) || !s.enabled {
            seq![s] + single_exclusive_v(v.drop_first(), seen)
        } else if seen {
            seq![SchemeV { enabled: false, ..s }] + single_exclusive_v(v.drop_first(), true)
        } else {
            seq![s] + single_exclusive_v(v.drop_first(), true)
        }
    }
}

pub open spec fn on_and_exclusive(s: SchemeV) -> bool {
    s.enabled && is_exclusive_v(s)
}

proof fn lemma_single_exclusive(v: Seq<SchemeV>, seen: bool)
    ensures
        single_exclusive_v(v, seen).len() == v.len(),
        seen ==> forall|i: int|
            0 <= i < v.len() ==> !on_and_exclusive(#[trigger] single_exclusive_v(v, seen)[i]),
        forall|i: int, j: int|
            0 <= i < j < v.len() && on_and_exclusive(#[trigger] single_exclusive_v(v, seen)[i])
                ==> !on_and_exclusive(#[trigger] single_exclusive_v(v, seen)[j]),
    decreases v.len(),
{
    if v.len() > 0 {
        let s = v[0];
        let next = if !is_exclusive_v(s) || !s.enabled {
            seen
        } else {
            true
        };
        lemma_single_exclusive(v.drop_first(), next);
        let r = single_exclusive_v(v, seen);
        let t = single_exclusive_v(v.drop_first(), next);
        assert forall|i: int| 1 <= i < v.len() implies #[trigger] r[i] == t[i - 1] by {}
        lemma_single_exclusive(v.drop_first(), true);
    }
}

pub fn keep_single_exclusive(schemes: &mut Vec<HostsScheme>)
    ensures
        seqs_of(final(schemes)@) == single_exclusive_v(seqs_of(old(schemes)@), false),
        forall|i: int, j: int|
            0 <= i < j < final(schemes)@.len() && on_and_exclusive(#[trigger] final(schemes)@[i]@)
                ==> !on_and_exclusive(#[trigger] final(schemes)@[j]@),
{
    proof {
        lemma_single_exclusive(seqs_of(schemes@), false);
    }
    let ghost v = seqs_of(schemes@);
    let mut seen = false;
    let mut i: usize = 0;
    assert(v.skip(0) =~= v);
    while i < schemes.len()
        invariant
            i <= schemes@.len(),
            schemes@.len() == v.len(),
            forall|k: int| i <= k < schemes@.len() ==> #[trigger] schemes@[k]@ == v[k],
            seqs_of(schemes@).take(i as int) + single_exclusive_v(v.skip(i as int), seen)
                == single_exclusive_v(v, false),
        decreases schemes@.len() - i,
    {
        let ghost pre = seqs_of(schemes@);
        assert(v.skip(i as int)[0] == v[i as int]);
        assert(v.skip(i as int).drop_first() =~= v.skip(i + 1));
        if is_exclusive(&schemes[i]) && schemes[i].enabled {
            if seen {
                let ghost before = schemes@[i as int]@;
                schemes[i].enabled = false;
                assert(schemes@[i as int]@ == (SchemeV { enabled: false, ..before }));
            } else {
                seen = true;
            }
        }
        assert(seqs_of(schemes@).take(i + 1) =~= pre.take(i as int).push(seqs_of(schemes@)[i as int]));
        i = i + 1;
    }
    assert(v.skip(v.len() as int) =~= Seq::<SchemeV>::empty());
    assert(seqs_of(schemes@).take(v.len() as int) =~= seqs_of(schemes@));
    let ghost r = seqs_of(schemes@);
    assert forall|i: int, j: int|
        0 <= i < j < schemes@.len() && on_and_exclusive(#[trigger] schemes@[i]@) implies !on_and_exclusive(
        #[trigger] schemes@[j]@) by {
        assert(r[i] == schemes@[i]@);
        assert(r[j] == schemes@[j]@);
    }
}

/// The id given to a new scheme: `h-{ms:x}-{seq:x}`.
pub open spec fn scheme_id(ms: u64, seq: u64) -> Seq<char> {
    seq!['h', '-'] + hex(ms as nat) + seq!['-'] + hex(seq as nat)
}

/// Scheme ids made from different times or sequence numbers never collide: the id gives back
/// both.
pub proof fn law_scheme_ids_unique(ms1: u64, seq1: u64, ms2: u64, seq2: u64)
    ensures
        scheme_id(ms1, seq1) == scheme_id(ms2, seq2) ==> ms1 == ms2 && seq1 == seq2,
{
    if scheme_id(ms1, seq1) == scheme_id(ms2, seq2) {
        let (a, b, c, d) = (hex(ms1 as nat), hex(seq1 as nat), hex(ms2 as nat), hex(seq2 as nat));
        let (la, lc) = (a.len() as int, c.len() as int);
        lemma_hex_digits(ms1 as nat);
        lemma_hex_digits(seq1 as nat);
        lemma_hex_digits(ms2 as nat);
        lemma_hex_digits(seq2 as nat);
        let id = scheme_id(ms1, seq1);
        assert(id == seq!['h', '-'] + c + seq!['-'] + d);
        if la < lc {
            assert(id[2 + la] == '-');
            assert((seq!['h', '-'] + c + seq!['-'] + d)[2 + la] == c[la]);
            assert(false);
        } else if lc < la {
            assert((seq!['h', '-'] + a + seq!['-'] + b)[2 + lc] == a[lc]);
            assert(id[2 + lc] == '-');
            assert(false);
        } else {
            assert(a =~= id.subrange(2, 2 + la));
            assert(c =~= id.subrange(2, 2 + lc));
            assert(b =~= id.skip(3 + la));
            assert(d =~= id.skip(3 + lc));
        }
    }
}

/// A new scheme id from the creation time in milliseconds and a per-process sequence number.
pub fn format_scheme_id(ms: u64, seq: u64) -> (out: String)
    ensures
        out@ == scheme_id(ms, seq),
{
    let mut v: Vec<char> = Vec::new();
    v.push('h');
    v.push('-');
    let a = hex_chars(ms);
    let b = hex_chars(seq);
    let mut i: usize = 0;
    while i < a.len()
        invariant
            i <= a@.len(),
            v@ == seq!['h', '-'] + a@.take(i as int),
        decreases a@.len() - i,
    {
        v.push(a[i]);
        i = i + 1;
        assert(v@ =~= seq!['h', '-'] + a@.take(i as int));
    }
    v.push('-');
    let mut j: usize = 0;
    assert(a@.take(a@.len() as int) =~= a@);
    while j < b.len()
        invariant
            j <= b@.len(),
            v@ == seq!['h', '-'] + a@ + seq!['-'] + b@.take(j as int),
        decreases b@.len() - j,
    {
        v.push(b[j]);
        j = j + 1;
        assert(v@ =~= seq!['h', '-'] + a@ + seq!['-'] + b@.take(j as int));
    }
    assert(b@.take(b@.len() as int) =~= b@);
    string_of(v.as_slice())
}

} // verus!
