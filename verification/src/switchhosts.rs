//! SwitchHosts backups (PotDb `swh_data.json` shape):
//! `{ version, data: { list: { tree: [...] }, collection: { hosts: { data: [{id, content}] } } } }`.
//! Tree nodes carry metadata (`title` / `type` / `on` / `id` / `children`); a node's hosts body
//! is joined by `id` from `collection.hosts.data` (id `"0"` is the system hosts and is skipped).
use vstd::prelude::*;
use crate::hosts::{
    allowed_interval, index_of_id, is_remote, is_remote_v, is_allowed_interval, lemma_index_from, scheme_id, seqs_of,
    format_scheme_id, find_scheme, HostsScheme, SchemeV, NATURE_EXCLUSIVE, TYPE_LOCAL, TYPE_REMOTE,
};
use crate::json::{
    array_of, as_array_opt, as_bool_opt, as_str_opt, as_u64_opt, bool_of, get, get_opt,
    get_opt_exec, jsize, jsizes, lemma_get_smaller, lemma_jsizes_elem, lemma_views_of, opt_view,
    str_of, u64_of, views_of, fviews_of, field_of, JsonField, JsonNumber, JsonV, JsonValue,
};
use crate::text::{ascii_lower, chars_of, dec, dec_chars, eq_lit, lower, lower_chars, seq_eq, str_eq, string_of, trim, trim_str};

verus! {

/// Where ids come from for imported schemes that have none: creation time and the
/// next per-process sequence number.
pub struct IdSource {
    pub ms: u64,
    pub next_seq: u64,
}

/// Hosts bodies by id, as `(id, content)` pairs; a later pair wins over an earlier one.
pub struct ContentMap {
    pub rows: Vec<(String, String)>,
}

pub open spec fn rows_view(rows: Seq<(String, String)>) -> Seq<(Seq<char>, Seq<char>)> {
    rows.map_values(|p: (String, String)| (p.0@, p.1@))
}

/// The content of the last pair with id `k`.
pub open spec fn map_get(m: Seq<(Seq<char>, Seq<char>)>, k: Seq<char>) -> Option<Seq<char>>
    decreases m.len(),
{
    if m.len() == 0 {
        None
    } else if m.last().0 == k {
        Some(m.last().1)
    } else {
        map_get(m.drop_last(), k)
    }
}

/// The id of a node or row: a string as is, a number as its text, anything else empty.
pub open spec fn id_text(o: Option<JsonV>) -> Seq<char> {
    match o {
        Some(JsonV::Str(s)) => s,
        Some(JsonV::Number(_, t)) => t,
        _ => Seq::empty(),
    }
}

/// The (id, content) pairs of the collection rows: rows with an empty id, id `"0"`
/// or no string content are left out.
pub open spec fn content_rows(rows: Seq<JsonV>) -> Seq<(Seq<char>, Seq<char>)>
    decreases rows.len(),
{
    if rows.len() == 0 {
        Seq::empty()
    } else {
        let r = content_rows(rows.drop_last());
        let row = rows.last();
        let id = id_text(get(row, "id"@));
        if id.len() == 0 || id == "0"@ {
            r
        } else {
            match str_of(get(row, "content"@)) {
                Some(c) => r.push((id, c)),
                None => r,
            }
        }
    }
}

/// The rows at `/collection/hosts/data` of the backup's `data` object.
pub open spec fn hosts_rows(data: JsonV) -> Seq<JsonV> {
    match array_of(get_opt(get_opt(get(data, "collection"@), "hosts"@), "data"@)) {
        Some(a) => a,
        None => Seq::empty(),
    }
}

fn id_text_exec(o: Option<&JsonValue>) -> (r: String)
    ensures
        r@ == id_text(opt_view(o)),
{
    match o {
        Some(JsonValue::Str(s)) => s.clone(),
        Some(JsonValue::Number(n)) => n.text.clone(),
        _ => String::new(),
    }
}

/// Hosts bodies of the backup's `data` object, by id.
pub fn build_hosts_content_map(data: &JsonValue) -> (m: ContentMap)
    ensures
        rows_view(m.rows@) == content_rows(hosts_rows(data@)),
{
    let mut rows: Vec<(String, String)> = Vec::new();
    let arr = as_array_opt(
        get_opt_exec(get_opt_exec(data.get_field("collection"), "hosts"), "data"),
    );
    let items = match arr {
        Some(a) => a,
        None => {
            assert(rows_view(rows@) =~= content_rows(hosts_rows(data@)));
            return ContentMap { rows };
        },
    };
    let ghost hr = hosts_rows(data@);
    proof {
        lemma_views_of(items@);
    }
    let mut i: usize = 0;
    while i < items.len()
        invariant
            i <= items@.len(),
            hr == views_of(items@),
            hr.len() == items@.len(),
            forall|k: int| 0 <= k < items@.len() ==> #[trigger] hr[k] == items@[k]@,
            rows_view(rows@) == content_rows(hr.take(i as int)),
        decreases items@.len() - i,
    {
        assert(hr.take(i + 1).drop_last() =~= hr.take(i as int));
        assert(hr.take(i + 1).last() == items@[i as int]@);
        let row = &items[i];
        let id = id_text_exec(row.get_field("id"));
        let idc = chars_of(id.as_str());
        if idc.len() != 0 && !eq_lit(idc.as_slice(), "0") {
            match as_str_opt(row.get_field("content")) {
                Some(c) => {
                    rows.push((id, c.clone()));
                },
                None => {},
            }
        }
        i = i + 1;
        assert(rows_view(rows@) =~= content_rows(hr.take(i as int)));
    }
    assert(hr.take(items@.len() as int) =~= hr);
    ContentMap { rows }
}

impl ContentMap {
    /// The body stored for `id`.
    pub fn lookup(&self, id: &str) -> (r: Option<&String>)
        ensures
            match r {
                Some(c) => map_get(rows_view(self.rows@), id@) == Some(c@),
                None => map_get(rows_view(self.rows@), id@) is None,
            },
    {
        let ghost m = rows_view(self.rows@);
        let mut i: usize = self.rows.len();
        assert(m.take(i as int) =~= m);
        while i > 0
            invariant
                i <= self.rows@.len(),
                m == rows_view(self.rows@),
                map_get(m.take(i as int), id@) == map_get(m, id@),
            decreases i,
        {
            assert(m.take(i as int).drop_last() =~= m.take(i - 1));
            if str_eq(self.rows[i - 1].0.as_str(), id) {
                return Some(&self.rows[i - 1].1);
            }
            i = i - 1;
        }
        None
    }
}

/// Import progress: the schemes so far, the counts, and the next sequence number for ids.
pub ghost struct ImportS {
    pub schemes: Seq<SchemeV>,
    pub imported: nat,
    pub skipped: nat,
    pub seq: nat,
}

pub open spec fn skip_one(st: ImportS) -> ImportS {
    ImportS { skipped: st.skipped + 1, ..st }
}

/// First index of an earlier import titled `title`, or -1.
pub open spec fn title_slot_from(v: Seq<SchemeV>, title: Seq<char>, i: int) -> int
    decreases v.len() - i,
{
    if i < 0 || i >= v.len() {
        -1
    } else if v[i].source == "imported"@ && v[i].title == title {
        i
    } else {
        title_slot_from(v, title, i + 1)
    }
}

/// An imported scheme merged by id; else it replaces an earlier import with the same
/// title (legacy rows had random ids); else it is appended. A replaced scheme keeps its nature.
pub open spec fn upsert_imported_v(v: Seq<SchemeV>, inc: SchemeV) -> Seq<SchemeV> {
    let t = index_of_id(v, inc.id);
    if t >= 0 {
        v.update(t, SchemeV { nature: v[t].nature, source: "imported"@, ..inc })
    } else {
        let p = title_slot_from(v, inc.title, 0);
        if p >= 0 {
            v.update(p, SchemeV { nature: v[p].nature, ..inc })
        } else {
            v.push(inc)
        }
    }
}

/// Importing a scheme whose id is already there merges it in place: the count stays, the
/// scheme at that place takes the imported fields, keeps its nature and is marked imported.
pub proof fn law_reimport_merges_by_id(v: Seq<SchemeV>, inc: SchemeV)
    requires
        index_of_id(v, inc.id) >= 0,
    ensures
        upsert_imported_v(v, inc).len() == v.len(),
        upsert_imported_v(v, inc)[index_of_id(v, inc.id)] == (SchemeV {
            nature: v[index_of_id(v, inc.id)].nature,
            source: "imported"@,
            ..inc
        }),
        forall|j: int|
            0 <= j < v.len() && j != index_of_id(v, inc.id) ==> #[trigger] upsert_imported_v(
                v,
                inc,
            )[j] == v[j],
{
    lemma_index_from(v, inc.id, 0);
}

pub open spec fn str_or_empty(o: Option<JsonV>) -> Seq<char> {
    match str_of(o) {
        Some(s) => s,
        None => Seq::empty(),
    }
}

/// The scheme title of a node: its trimmed title, or "未命名方案" when that is missing or blank.
pub open spec fn node_title(node: JsonV) -> Seq<char> {
    match str_of(get(node, "title"@)) {
        Some(t) => if trim(t).len() != 0 {
            trim(t)
        } else {
            "未命名方案"@
        },
        None => "未命名方案"@,
    }
}

/// The body of a node: from the collection by id, else its own `content`, trimmed.
pub open spec fn node_content(node: JsonV, m: Seq<(Seq<char>, Seq<char>)>) -> Seq<char> {
    let id = id_text(get(node, "id"@));
    trim(
        match map_get(m, id) {
            Some(c) => c,
            None => str_or_empty(get(node, "content"@)),
        },
    )
}

/// The scheme a local or remote node becomes, with id `sid`.
pub open spec fn imported_scheme(
    node: JsonV,
    remote: bool,
    m: Seq<(Seq<char>, Seq<char>)>,
    sid: Seq<char>,
) -> SchemeV {
    let ri = match u64_of(get(node, "refresh_interval"@)) {
        Some(v) => if allowed_interval(v) {
            v
        } else {
            0
        },
        None => 0,
    };
    SchemeV {
        id: sid,
        title: node_title(node),
        content: node_content(node, m),
        enabled: match bool_of(get(node, "on"@)) {
            Some(b) => b,
            None => false,
        },
        source: "imported"@,
        nature: NATURE_EXCLUSIVE@,
        readonly: remote,
        scheme_type: if remote {
            TYPE_REMOTE@
        } else {
            TYPE_LOCAL@
        },
        url: if remote {
            trim(str_or_empty(get(node, "url"@)))
        } else {
            Seq::empty()
        },
        refresh_interval: if remote {
            ri
        } else {
            0
        },
        last_refresh: if remote {
            str_or_empty(get(node, "last_refresh"@))
        } else {
            Seq::empty()
        },
        last_refresh_ms: if remote {
            match u64_of(get(node, "last_refresh_ms"@)) {
                Some(v) => v,
                None => 0,
            }
        } else {
            0
        },
    }
}

/// A local or remote node: skipped when its id is `"0"`, or when it has no body and is
/// not a remote with a url; otherwise merged in (an empty id gets a fresh one).
pub open spec fn import_leaf(
    node: JsonV,
    remote: bool,
    m: Seq<(Seq<char>, Seq<char>)>,
    st: ImportS,
    ms: u64,
) -> ImportS {
    let id = id_text(get(node, "id"@));
    let url = trim(str_or_empty(get(node, "url"@)));
    if id == "0"@ {
        skip_one(st)
    } else if node_content(node, m).len() == 0 && !(remote && url.len() != 0) {
        skip_one(st)
    } else {
        let fresh = id.len() == 0;
        let sid = if fresh {
            scheme_id(ms, st.seq as u64)
        } else {
            id
        };
        ImportS {
            schemes: upsert_imported_v(st.schemes, imported_scheme(node, remote, m, sid)),
            imported: st.imported + 1,
            seq: if fresh {
                st.seq + 1
            } else {
                st.seq
            },
            ..st
        }
    }
}

/// The node type, lower-cased; a missing or non-string `type` means local.
pub open spec fn node_type(node: JsonV) -> Seq<char> {
    lower(
        match str_of(get(node, "type"@)) {
            Some(t) => t,
            None => "local"@,
        },
    )
}

/// One tree node: system nodes are skipped, folders and groups are flattened into their
/// children (skipped without a children array), local and remote nodes are imported,
/// anything else is skipped.
pub open spec fn import_node(node: JsonV, m: Seq<(Seq<char>, Seq<char>)>, st: ImportS, ms: u64) -> ImportS
    decreases jsize(node), 0nat,
{
    let typ = node_type(node);
    if typ == "system"@ {
        skip_one(st)
    } else if typ == "folder"@ || typ == "group"@ {
        match get(node, "children"@) {
            Some(JsonV::Array(v)) => {
                proof {
                    lemma_get_smaller(node, "children"@);
                }
                import_nodes(v, m, st, ms)
            },
            _ => skip_one(st),
        }
    } else if typ == "local"@ || typ == "remote"@ {
        import_leaf(node, typ == "remote"@, m, st, ms)
    } else {
        skip_one(st)
    }
}

/// The nodes `ns` imported in order.
pub open spec fn import_nodes(ns: Seq<JsonV>, m: Seq<(Seq<char>, Seq<char>)>, st: ImportS, ms: u64) -> ImportS
    decreases jsizes(ns), 1nat,
{
    if ns.len() == 0 {
        st
    } else {
        import_node(ns.last(), m, import_nodes(ns.drop_last(), m, st, ms), ms)
    }
}

proof fn lemma_import_bounds_node(node: JsonV, m: Seq<(Seq<char>, Seq<char>)>, st: ImportS, ms: u64)
    ensures
        ({
            let r = import_node(node, m, st, ms);
            &&& r.imported >= st.imported
            &&& r.skipped >= st.skipped
            &&& r.imported + r.skipped <= st.imported + st.skipped + jsize(node)
            &&& st.seq <= r.seq <= st.seq + jsize(node)
        }),
    decreases jsize(node), 0nat,
{
    let typ = node_type(node);
    if typ == "folder"@ || typ == "group"@ {
        if let Some(JsonV::Array(v)) = get(node, "children"@) {
            lemma_get_smaller(node, "children"@);
            lemma_import_bounds_nodes(v, m, st, ms);
        }
    }
}

proof fn lemma_import_bounds_nodes(ns: Seq<JsonV>, m: Seq<(Seq<char>, Seq<char>)>, st: ImportS, ms: u64)
    ensures
        ({
            let r = import_nodes(ns, m, st, ms);
            &&& r.imported >= st.imported
            &&& r.skipped >= st.skipped
            &&& r.imported + r.skipped <= st.imported + st.skipped + jsizes(ns)
            &&& st.seq <= r.seq <= st.seq + jsizes(ns)
        }),
    decreases jsizes(ns), 1nat,
{
    if ns.len() > 0 {
        assert(jsize(ns.last()) >= 1);
        assert(jsizes(ns) == jsizes(ns.drop_last()) + jsize(ns.last()));
        lemma_import_bounds_nodes(ns.drop_last(), m, st, ms);
        lemma_import_bounds_node(ns.last(), m, import_nodes(ns.drop_last(), m, st, ms), ms);
    }
}

proof fn lemma_jsizes_take(s: Seq<JsonV>, i: int)
    requires
        0 <= i <= s.len(),
    ensures
        jsizes(s.take(i)) <= jsizes(s),
    decreases s.len(),
{
    if i < s.len() {
        lemma_jsizes_take(s.drop_last(), i);
        assert(s.drop_last().take(i) =~= s.take(i));
    } else {
        assert(s.take(i) =~= s);
    }
}

/// First index of an earlier import titled `title`.
fn find_title_slot(schemes: &Vec<HostsScheme>, title: &str) -> (r: Option<usize>)
    ensures
        match r {
            Some(i) => i as int == title_slot_from(seqs_of(schemes@), title@, 0),
            None => title_slot_from(seqs_of(schemes@), title@, 0) == -1,
        },
{
    let ghost v = seqs_of(schemes@);
    let mut i: usize = 0;
    while i < schemes.len()
        invariant
            i <= schemes@.len(),
            v == seqs_of(schemes@),
            title_slot_from(v, title@, i as int) == title_slot_from(v, title@, 0),
        decreases schemes@.len() - i,
    {
        if eq_lit(chars_of(schemes[i].source.as_str()).as_slice(), "imported") && str_eq(
            schemes[i].title.as_str(),
            title,
        ) {
            return Some(i);
        }
        i = i + 1;
    }
    None
}

proof fn lemma_title_slot(v: Seq<SchemeV>, title: Seq<char>, i: int)
    requires
        0 <= i,
    ensures
        title_slot_from(v, title, i) == -1 || i <= title_slot_from(v, title, i) < v.len(),
    decreases v.len() - i,
{
    if 0 <= i < v.len() && !(v[i].source == "imported"@ && v[i].title == title) {
        lemma_title_slot(v, title, i + 1);
    }
}

/// Merges an imported scheme by SwitchHosts id; falls back to the same title among
/// earlier imports; else appends it.
pub fn upsert_imported_scheme(schemes: &mut Vec<HostsScheme>, incoming: HostsScheme)
    ensures
        seqs_of(final(schemes)@) == upsert_imported_v(seqs_of(old(schemes)@), incoming@),
{
    let ghost v = seqs_of(schemes@);
    proof {
        lemma_index_from(v, incoming.id@, 0);
        lemma_title_slot(v, incoming.title@, 0);
    }
    if let Some(t) = find_scheme(schemes, incoming.id.as_str()) {
        let kept_nature = schemes[t].nature.clone();
        let mut next = incoming;
        next.nature = kept_nature;
        next.source = String::from_str("imported");
        schemes.set(t, next);
        assert(seqs_of(schemes@) =~= upsert_imported_v(v, incoming@));
        return ;
    }
    if let Some(p) = find_title_slot(schemes, incoming.title.as_str()) {
        let kept_nature = schemes[p].nature.clone();
        let mut next = incoming;
        next.nature = kept_nature;
        schemes.set(p, next);
        assert(seqs_of(schemes@) =~= upsert_imported_v(v, incoming@));
        return ;
    }
    schemes.push(incoming);
    assert(seqs_of(schemes@) =~= upsert_imported_v(v, incoming@));
}

pub open spec fn state_of(schemes: Seq<HostsScheme>, imported: u32, skipped: u32, ids: IdSource) -> ImportS {
    ImportS { schemes: seqs_of(schemes), imported: imported as nat, skipped: skipped as nat, seq: ids.next_seq as nat }
}

fn str_or_empty_exec(o: Option<&JsonValue>) -> (r: String)
    ensures
        r@ == str_or_empty(opt_view(o)),
{
    match as_str_opt(o) {
        Some(s) => s.clone(),
        None => String::new(),
    }
}

fn import_leaf_exec(
    node: &JsonValue,
    remote: bool,
    content_by_id: &ContentMap,
    schemes: &mut Vec<HostsScheme>,
    imported: &mut u32,
    skipped: &mut u32,
    ids: &mut IdSource,
)
    requires
        *old(imported) + *old(skipped) + 1 <= u32::MAX,
        old(ids).next_seq + 1 <= u64::MAX,
    ensures
        state_of(final(schemes)@, *final(imported), *final(skipped), *final(ids)) == import_leaf(
            node@,
            remote,
            rows_view(content_by_id.rows@),
            state_of(old(schemes)@, *old(imported), *old(skipped), *old(ids)),
            old(ids).ms,
        ),
        final(ids).ms == old(ids).ms,
{
    let ghost m = rows_view(content_by_id.rows@);
    let id = id_text_exec(node.get_field("id"));
    if eq_lit(chars_of(id.as_str()).as_slice(), "0") {
        *skipped = *skipped + 1;
        return ;
    }
    let content = match content_by_id.lookup(id.as_str()) {
        Some(c) => trim_str(c.as_str()),
        None => trim_str(str_or_empty_exec(node.get_field("content")).as_str()),
    };
    let url = trim_str(str_or_empty_exec(node.get_field("url")).as_str());
    let content_blank = content.as_str().unicode_len() == 0;
    let url_blank = url.as_str().unicode_len() == 0;
    if content_blank && !(remote && !url_blank) {
        *skipped = *skipped + 1;
        return ;
    }
    let ri = match as_u64_opt(node.get_field("refresh_interval")) {
        Some(v) => if is_allowed_interval(v) {
            v
        } else {
            0
        },
        None => 0,
    };
    let last_refresh = str_or_empty_exec(node.get_field("last_refresh"));
    let last_refresh_ms = match as_u64_opt(node.get_field("last_refresh_ms")) {
        Some(v) => v,
        None => 0,
    };
    let title = match as_str_opt(node.get_field("title")) {
        Some(t) => {
            let tt = trim_str(t.as_str());
            if tt.as_str().unicode_len() != 0 {
                tt
            } else {
                String::from_str("未命名方案")
            }
        },
        None => String::from_str("未命名方案"),
    };
    let enabled = match as_bool_opt(node.get_field("on")) {
        Some(b) => b,
        None => false,
    };
    let fresh = id.as_str().unicode_len() == 0;
    let sid = if fresh {
        let nid = format_scheme_id(ids.ms, ids.next_seq);
        ids.next_seq = ids.next_seq + 1;
        nid
    } else {
        id
    };
    let incoming = HostsScheme {
        id: sid,
        title,
        content,
        enabled,
        source: String::from_str("imported"),
        nature: String::from_str(NATURE_EXCLUSIVE),
        readonly: remote,
        scheme_type: if remote {
            String::from_str(TYPE_REMOTE)
        } else {
            String::from_str(TYPE_LOCAL)
        },
        url: if remote {
            url
        } else {
            String::new()
        },
        refresh_interval: if remote {
            ri
        } else {
            0
        },
        last_refresh: if remote {
            last_refresh
        } else {
            String::new()
        },
        last_refresh_ms: if remote {
            last_refresh_ms
        } else {
            0
        },
    };
    assert(incoming@ == imported_scheme(node@, remote, m, incoming.id@));
    upsert_imported_scheme(schemes, incoming);
    *imported = *imported + 1;
}

fn node_type_exec(node: &JsonValue) -> (r: Vec<char>)
    ensures
        r@ == node_type(node@),
{
    match as_str_opt(node.get_field("type")) {
        Some(t) => lower_chars(chars_of(t.as_str()).as_slice()),
        None => lower_chars(chars_of("local").as_slice()),
    }
}

/// Imports one tree node (recursively for folders and groups) into `schemes`,
/// counting imported and skipped nodes.
pub fn collect_import_nodes(
    node: &JsonValue,
    content_by_id: &ContentMap,
    schemes: &mut Vec<HostsScheme>,
    imported: &mut u32,
    skipped: &mut u32,
    ids: &mut IdSource,
)
    requires
        *old(imported) + *old(skipped) + jsize(node@) <= u32::MAX,
        old(ids).next_seq + jsize(node@) <= u64::MAX,
    ensures
        state_of(final(schemes)@, *final(imported), *final(skipped), *final(ids)) == import_node(
            node@,
            rows_view(content_by_id.rows@),
            state_of(old(schemes)@, *old(imported), *old(skipped), *old(ids)),
            old(ids).ms,
        ),
        final(ids).ms == old(ids).ms,
    decreases jsize(node@),
{
    let ghost m = rows_view(content_by_id.rows@);
    let ghost st0 = state_of(schemes@, *imported, *skipped, *ids);
    let typ = node_type_exec(node);
    if eq_lit(typ.as_slice(), "system") {
        *skipped = *skipped + 1;
        return ;
    }
    if eq_lit(typ.as_slice(), "folder") || eq_lit(typ.as_slice(), "group") {
        match as_array_opt(node.get_field("children")) {
            Some(children) => {
                let ghost cv = views_of(children@);
                proof {
                    lemma_views_of(children@);
                    lemma_get_smaller(node@, "children"@);
                    assert(cv.take(0) =~= Seq::<JsonV>::empty());
                }
                let mut i: usize = 0;
                while i < children.len()
                    invariant
                        i <= children@.len(),
                        cv == views_of(children@),
                        cv.len() == children@.len(),
                        forall|k: int| 0 <= k < children@.len() ==> #[trigger] cv[k] == children@[k]@,
                        jsizes(cv) < jsize(node@),
                        st0.imported + st0.skipped + jsize(node@) <= u32::MAX,
                        st0.seq + jsize(node@) <= u64::MAX,
                        state_of(schemes@, *imported, *skipped, *ids) == import_nodes(cv.take(i as int), m, st0, old(ids).ms),
                        ids.ms == old(ids).ms,
                        m == rows_view(content_by_id.rows@),
                    decreases children@.len() - i,
                {
                    proof {
                        lemma_import_bounds_nodes(cv.take(i as int), m, st0, ids.ms);
                        lemma_jsizes_take(cv, i + 1);
                        assert(cv.take(i + 1).drop_last() =~= cv.take(i as int));
                        assert(cv.take(i + 1).last() == cv[i as int]);
                        lemma_jsizes_elem(cv, i as int);
                    }
                    collect_import_nodes(&children[i], content_by_id, schemes, imported, skipped, ids);
                    i = i + 1;
                }
                assert(cv.take(children@.len() as int) =~= cv);
            },
            None => {
                *skipped = *skipped + 1;
            },
        }
        return ;
    }
    if eq_lit(typ.as_slice(), "local") || eq_lit(typ.as_slice(), "remote") {
        let remote = eq_lit(typ.as_slice(), "remote");
        import_leaf_exec(node, remote, content_by_id, schemes, imported, skipped, ids);
        return ;
    }
    *skipped = *skipped + 1;
}

/// Counts and schemes after an import.
pub struct ImportResult {
    pub imported: u32,
    pub skipped: u32,
    pub schemes: Vec<HostsScheme>,
}

pub open spec fn msg_no_data() -> Seq<char> {
    "备份格式不正确：缺少 data 字段"@
}

pub open spec fn msg_data_not_object() -> Seq<char> {
    "备份格式不正确：data 应为对象（SwitchHosts PotDb：list.tree + collection.hosts）"@
}

pub open spec fn msg_no_tree() -> Seq<char> {
    "备份格式不正确：缺少 data.list.tree 数组"@
}

/// The import of a parsed backup into `v`: the tree imported node by node, then only the
/// first enabled exclusive scheme left enabled; or the error for a malformed backup.
pub open spec fn import_backup_v(value: JsonV, v: Seq<SchemeV>, ids: IdSource) -> Result<
    (ImportS, Seq<SchemeV>),
    Seq<char>,
> {
    match get(value, "data"@) {
        None => Err(msg_no_data()),
        Some(data) => if !(data is Object) {
            Err(msg_data_not_object())
        } else {
            match array_of(get_opt(get(data, "list"@), "tree"@)) {
                None => Err(msg_no_tree()),
                Some(tree) => {
                    let st = import_nodes(
                        tree,
                        content_rows(hosts_rows(data)),
                        ImportS { schemes: v, imported: 0, skipped: 0, seq: ids.next_seq as nat },
                        ids.ms,
                    );
                    Ok((st, crate::hosts::single_exclusive_v(st.schemes, false)))
                },
            }
        }
    }
}

/// Imports a parsed SwitchHosts backup into `schemes`. Imports are exclusive: at most one
/// exclusive scheme stays enabled.
pub fn import_switchhosts(value: &JsonValue, schemes: Vec<HostsScheme>, ids: &mut IdSource) -> (r:
    Result<ImportResult, String>)
    requires
        jsize(value@) <= u32::MAX,
        old(ids).next_seq + jsize(value@) <= u64::MAX,
    ensures
        match r {
            Ok(res) => import_backup_v(value@, seqs_of(schemes@), *old(ids)) matches Ok((st, v))
                && res.imported == st.imported && res.skipped == st.skipped && seqs_of(
                res.schemes@,
            ) == v && final(ids).next_seq == st.seq,
            Err(e) => import_backup_v(value@, seqs_of(schemes@), *old(ids)) == Err::<
                (ImportS, Seq<SchemeV>),
                Seq<char>,
            >(e@),
        },
        final(ids).ms == old(ids).ms,
{
    let data = match value.get_field("data") {
        Some(d) => d,
        None => return Err(String::from_str("备份格式不正确：缺少 data 字段")),
    };
    if !data.is_object() {
        return Err(
            String::from_str(
                "备份格式不正确：data 应为对象（SwitchHosts PotDb：list.tree + collection.hosts）",
            ),
        );
    }
    let tree = match as_array_opt(get_opt_exec(data.get_field("list"), "tree")) {
        Some(t) => t,
        None => return Err(String::from_str("备份格式不正确：缺少 data.list.tree 数组")),
    };
    let ghost tv = views_of(tree@);
    proof {
        lemma_get_smaller(value@, "data"@);
        lemma_get_smaller(data@, "list"@);
        lemma_get_smaller(get(data@, "list"@)->0, "tree"@);
        lemma_views_of(tree@);
        assert(tv.take(0) =~= Seq::<JsonV>::empty());
    }
    let content_by_id = build_hosts_content_map(data);
    let ghost m = rows_view(content_by_id.rows@);
    let mut schemes = schemes;
    let mut imported: u32 = 0;
    let mut skipped: u32 = 0;
    let ghost st0 = state_of(schemes@, 0, 0, *ids);
    let mut i: usize = 0;
    while i < tree.len()
        invariant
            i <= tree@.len(),
            tv == views_of(tree@),
            tv.len() == tree@.len(),
            forall|k: int| 0 <= k < tree@.len() ==> #[trigger] tv[k] == tree@[k]@,
            jsizes(tv) < jsize(value@),
            jsize(value@) <= u32::MAX,
            st0.seq + jsize(value@) <= u64::MAX,
            st0.imported == 0 && st0.skipped == 0,
            state_of(schemes@, imported, skipped, *ids) == import_nodes(tv.take(i as int), m, st0, old(ids).ms),
            ids.ms == old(ids).ms,
            m == rows_view(content_by_id.rows@),
        decreases tree@.len() - i,
    {
        proof {
            lemma_import_bounds_nodes(tv.take(i as int), m, st0, ids.ms);
            lemma_jsizes_take(tv, i + 1);
            assert(tv.take(i + 1).drop_last() =~= tv.take(i as int));
            assert(tv.take(i + 1).last() == tv[i as int]);
            lemma_jsizes_elem(tv, i as int);
        }
        collect_import_nodes(&tree[i], &content_by_id, &mut schemes, &mut imported, &mut skipped, ids);
        i = i + 1;
    }
    assert(tv.take(tree@.len() as int) =~= tv);
    crate::hosts::keep_single_exclusive(&mut schemes);
    Ok(ImportResult { imported, skipped, schemes })
}

pub open spec fn jnum(v: u64) -> JsonV {
    JsonV::Number(Some(v), dec(v as nat))
}

pub open spec fn jstr(s: Seq<char>) -> JsonV {
    JsonV::Str(s)
}

/// The tree node exported for a scheme: remote ones carry type, url, interval and refresh stamps.
pub open spec fn tree_node_v(s: SchemeV) -> JsonV {
    if is_remote_v(s) {
        JsonV::Object(
            seq![("type"@, jstr(TYPE_REMOTE@)), ("title"@, jstr(s.title)), ("url"@, jstr(s.url))]
                + (if s.refresh_interval > 0 {
                seq![("refresh_interval"@, jnum(s.refresh_interval))]
            } else {
                Seq::empty()
            }) + seq![("id"@, jstr(s.id))] + (if s.last_refresh.len() != 0 {
                seq![("last_refresh"@, jstr(s.last_refresh))]
            } else {
                Seq::empty()
            }) + (if s.last_refresh_ms > 0 {
                seq![("last_refresh_ms"@, jnum(s.last_refresh_ms))]
            } else {
                Seq::empty()
            }) + seq![("on"@, JsonV::Bool(s.enabled))],
        )
    } else {
        JsonV::Object(
            seq![("title"@, jstr(s.title)), ("id"@, jstr(s.id)), ("on"@, JsonV::Bool(s.enabled))],
        )
    }
}

/// A row of `collection.hosts.data`.
pub open spec fn hosts_row_v(id: Seq<char>, content: Seq<char>, n: nat) -> JsonV {
    JsonV::Object(seq![("id"@, jstr(id)), ("content"@, jstr(content)), ("_id"@, jstr(dec(n)))])
}

pub open spec fn export_tree_v(v: Seq<SchemeV>) -> Seq<JsonV> {
    Seq::new(v.len(), |i: int| tree_node_v(v[i]))
}

/// Row 0 is the system hosts; scheme `i` gets row `_id` `i + 2`.
pub open spec fn export_rows_v(v: Seq<SchemeV>, system: Seq<char>) -> Seq<JsonV> {
    seq![hosts_row_v("0"@, system, 1)] + Seq::new(
        v.len(),
        |i: int| hosts_row_v(v[i].id, v[i].content, (i + 2) as nat),
    )
}

/// The `data` object of an export.
pub open spec fn export_data_v(v: Seq<SchemeV>, system: Seq<char>) -> JsonV {
    JsonV::Object(
        seq![
            ("dict"@, JsonV::Object(Seq::empty())),
            ("list"@, JsonV::Object(seq![("tree"@, JsonV::Array(export_tree_v(v)))])),
            ("set"@, JsonV::Object(Seq::empty())),
            (
                "collection"@,
                JsonV::Object(
                    seq![
                        (
                            "history"@,
                            JsonV::Object(
                                seq![
                                    ("meta"@, JsonV::Object(seq![("index"@, jnum(0))])),
                                    ("data"@, JsonV::Array(Seq::empty())),
                                    ("index_keys"@, JsonV::Array(Seq::empty())),
                                ],
                            ),
                        ),
                        (
                            "hosts"@,
                            JsonV::Object(
                                seq![
                                    ("meta"@, JsonV::Object(seq![("index"@, jnum((v.len() + 1) as u64))])),
                                    ("data"@, JsonV::Array(export_rows_v(v, system))),
                                    ("index_keys"@, JsonV::Array(Seq::empty())),
                                ],
                            ),
                        ),
                    ],
                ),
            ),
        ],
    )
}

/// A SwitchHosts PotDb backup of the schemes, with `system` as the system hosts.
pub open spec fn export_v(v: Seq<SchemeV>, system: Seq<char>) -> JsonV {
    JsonV::Object(
        seq![
            ("data"@, export_data_v(v, system)),
            ("version"@, JsonV::Array(seq![jnum(4), jnum(1), jnum(1), jnum(6077)])),
        ],
    )
}

pub fn json_num(v: u64) -> (j: JsonValue)
    ensures
        j@ == jnum(v),
{
    JsonValue::Number(JsonNumber { as_u64: Some(v), text: string_of(dec_chars(v).as_slice()) })
}

pub fn json_str(s: String) -> (j: JsonValue)
    ensures
        j@ == jstr(s@),
{
    JsonValue::Str(s)
}

/// An object member `key: value`.
pub fn member(key: &str, value: JsonValue) -> (f: JsonField)
    ensures
        f.key@ == key@,
        f.value == value,
{
    JsonField { key: String::from_str(key), value }
}

proof fn lemma_fviews_push(fs: Seq<JsonField>, f: JsonField)
    ensures
        fviews_of(fs.push(f)) == fviews_of(fs).push((f.key@, f.value@)),
{
    assert(fs.push(f).drop_last() =~= fs);
}

proof fn lemma_views_push(vs: Seq<JsonValue>, j: JsonValue)
    ensures
        views_of(vs.push(j)) == views_of(vs).push(j@),
{
    assert(vs.push(j).drop_last() =~= vs);
}

fn push_member(fs: &mut Vec<JsonField>, key: &str, value: JsonValue)
    ensures
        fviews_of(final(fs)@) == fviews_of(old(fs)@).push((key@, value@)),
{
    let f = member(key, value);
    proof {
        lemma_fviews_push(fs@, f);
    }
    fs.push(f);
}

fn empty_object() -> (j: JsonValue)
    ensures
        j@ == JsonV::Object(Seq::empty()),
{
    let fs: Vec<JsonField> = Vec::new();
    assert(fviews_of(fs@) =~= Seq::<(Seq<char>, JsonV)>::empty());
    JsonValue::Object(fs)
}

fn empty_array() -> (j: JsonValue)
    ensures
        j@ == JsonV::Array(Seq::empty()),
{
    let vs: Vec<JsonValue> = Vec::new();
    assert(views_of(vs@) =~= Seq::<JsonV>::empty());
    JsonValue::Array(vs)
}

/// The tree node exported for one scheme.
pub fn export_tree_node(s: &HostsScheme) -> (j: JsonValue)
    ensures
        j@ == tree_node_v(s@),
{
    let mut fs: Vec<JsonField> = Vec::new();
    assert(fviews_of(fs@) =~= Seq::<(Seq<char>, JsonV)>::empty());
    if is_remote(s) {
        push_member(&mut fs, "type", json_str(String::from_str(TYPE_REMOTE)));
        push_member(&mut fs, "title", json_str(s.title.clone()));
        push_member(&mut fs, "url", json_str(s.url.clone()));
        let ghost a = fviews_of(fs@);
        if s.refresh_interval > 0 {
            push_member(&mut fs, "refresh_interval", json_num(s.refresh_interval));
        }
        let ghost b = fviews_of(fs@);
        push_member(&mut fs, "id", json_str(s.id.clone()));
        let ghost c = fviews_of(fs@);
        if s.last_refresh.as_str().unicode_len() != 0 {
            push_member(&mut fs, "last_refresh", json_str(s.last_refresh.clone()));
        }
        let ghost d = fviews_of(fs@);
        if s.last_refresh_ms > 0 {
            push_member(&mut fs, "last_refresh_ms", json_num(s.last_refresh_ms));
        }
        let ghost e = fviews_of(fs@);
        push_member(&mut fs, "on", JsonValue::Bool(s.enabled));
        proof {
            let sv = s@;
            let tail1 = if sv.refresh_interval > 0 {
                seq![("refresh_interval"@, jnum(sv.refresh_interval))]
            } else {
                Seq::empty()
            };
            let tail2 = if sv.last_refresh.len() != 0 {
                seq![("last_refresh"@, jstr(sv.last_refresh))]
            } else {
                Seq::empty()
            };
            let tail3 = if sv.last_refresh_ms > 0 {
                seq![("last_refresh_ms"@, jnum(sv.last_refresh_ms))]
            } else {
                Seq::empty()
            };
            assert(a =~= seq![("type"@, jstr(TYPE_REMOTE@)), ("title"@, jstr(sv.title)), ("url"@, jstr(sv.url))]);
            assert(b =~= a + tail1);
            assert(c =~= a + tail1 + seq![("id"@, jstr(sv.id))]);
            assert(d =~= c + tail2);
            assert(e =~= d + tail3);
            assert(fviews_of(fs@) =~= e + seq![("on"@, JsonV::Bool(sv.enabled))]);
        }
    } else {
        push_member(&mut fs, "title", json_str(s.title.clone()));
        push_member(&mut fs, "id", json_str(s.id.clone()));
        push_member(&mut fs, "on", JsonValue::Bool(s.enabled));
        assert(fviews_of(fs@) =~= seq![("title"@, jstr(s.title@)), ("id"@, jstr(s.id@)), ("on"@, JsonV::Bool(s.enabled))]);
    }
    JsonValue::Object(fs)
}

fn hosts_row(id: String, content: String, n: u64) -> (j: JsonValue)
    ensures
        j@ == hosts_row_v(id@, content@, n as nat),
{
    let mut fs: Vec<JsonField> = Vec::new();
    assert(fviews_of(fs@) =~= Seq::<(Seq<char>, JsonV)>::empty());
    push_member(&mut fs, "id", json_str(id));
    push_member(&mut fs, "content", json_str(content));
    push_member(&mut fs, "_id", json_str(string_of(dec_chars(n).as_slice())));
    assert(fviews_of(fs@) =~= seq![("id"@, jstr(id@)), ("content"@, jstr(content@)), ("_id"@, jstr(dec(n as nat)))]);
    JsonValue::Object(fs)
}

fn object1(key: &str, value: JsonValue) -> (j: JsonValue)
    ensures
        j@ == JsonV::Object(seq![(key@, value@)]),
{
    let mut fs: Vec<JsonField> = Vec::new();
    assert(fviews_of(fs@) =~= Seq::<(Seq<char>, JsonV)>::empty());
    push_member(&mut fs, key, value);
    assert(fviews_of(fs@) =~= seq![(key@, value@)]);
    JsonValue::Object(fs)
}

fn object3(k1: &str, v1: JsonValue, k2: &str, v2: JsonValue, k3: &str, v3: JsonValue) -> (j: JsonValue)
    ensures
        j@ == JsonV::Object(seq![(k1@, v1@), (k2@, v2@), (k3@, v3@)]),
{
    let mut fs: Vec<JsonField> = Vec::new();
    assert(fviews_of(fs@) =~= Seq::<(Seq<char>, JsonV)>::empty());
    push_member(&mut fs, k1, v1);
    push_member(&mut fs, k2, v2);
    push_member(&mut fs, k3, v3);
    assert(fviews_of(fs@) =~= seq![(k1@, v1@), (k2@, v2@), (k3@, v3@)]);
    JsonValue::Object(fs)
}

/// Exports schemes as a SwitchHosts PotDb backup (the sample fixture's shape), `system_content`
/// being the system hosts without the managed block.
pub fn build_switchhosts_export(schemes: &Vec<HostsScheme>, system_content: &str) -> (j: JsonValue)
    requires
        schemes@.len() + 2 <= u64::MAX,
    ensures
        j@ == export_v(seqs_of(schemes@), system_content@),
{
    let ghost v = seqs_of(schemes@);
    let mut tree: Vec<JsonValue> = Vec::new();
    let mut rows: Vec<JsonValue> = Vec::new();
    let row0 = hosts_row(String::from_str("0"), String::from_str(system_content), 1);
    proof {
        lemma_views_push(rows@, row0);
        assert(views_of(rows@) =~= Seq::<JsonV>::empty());
    }
    rows.push(row0);
    assert(views_of(rows@) =~= export_rows_v(v.take(0), system_content@));
    let mut i: usize = 0;
    while i < schemes.len()
        invariant
            i <= schemes@.len(),
            v == seqs_of(schemes@),
            schemes@.len() + 2 <= u64::MAX,
            views_of(tree@) == export_tree_v(v.take(i as int)),
            views_of(rows@) == export_rows_v(v.take(i as int), system_content@),
            rows@.len() == i + 1,
        decreases schemes@.len() - i,
    {
        let node = export_tree_node(&schemes[i]);
        let row = hosts_row(schemes[i].id.clone(), schemes[i].content.clone(), (i as u64) + 2);
        proof {
            lemma_views_push(tree@, node);
            lemma_views_push(rows@, row);
        }
        tree.push(node);
        rows.push(row);
        i = i + 1;
        assert(views_of(tree@) =~= export_tree_v(v.take(i as int)));
        assert(views_of(rows@) =~= export_rows_v(v.take(i as int), system_content@));
    }
    assert(v.take(schemes@.len() as int) =~= v);
    let hosts_index = rows.len() as u64;
    assert(hosts_index == schemes@.len() + 1);
    let history = object3(
        "meta",
        object1("index", json_num(0)),
        "data",
        empty_array(),
        "index_keys",
        empty_array(),
    );
    let ghost rows_seq = views_of(rows@);
    let hosts = object3(
        "meta",
        object1("index", json_num(hosts_index)),
        "data",
        JsonValue::Array(rows),
        "index_keys",
        empty_array(),
    );
    let ghost history_v = history@;
    let ghost hosts_v = hosts@;
    let mut collection: Vec<JsonField> = Vec::new();
    assert(fviews_of(collection@) =~= Seq::<(Seq<char>, JsonV)>::empty());
    push_member(&mut collection, "history", history);
    push_member(&mut collection, "hosts", hosts);
    let ghost coll_v = fviews_of(collection@);
    let mut data: Vec<JsonField> = Vec::new();
    assert(fviews_of(data@) =~= Seq::<(Seq<char>, JsonV)>::empty());
    push_member(&mut data, "dict", empty_object());
    let ghost tree_seq = views_of(tree@);
    push_member(&mut data, "list", object1("tree", JsonValue::Array(tree)));
    push_member(&mut data, "set", empty_object());
    push_member(&mut data, "collection", JsonValue::Object(collection));
    let mut version: Vec<JsonValue> = Vec::new();
    assert(views_of(version@) =~= Seq::<JsonV>::empty());
    let n4 = json_num(4);
    proof { lemma_views_push(version@, n4); }
    version.push(n4);
    let n1 = json_num(1);
    proof { lemma_views_push(version@, n1); }
    version.push(n1);
    let n1b = json_num(1);
    proof { lemma_views_push(version@, n1b); }
    version.push(n1b);
    let n6077 = json_num(6077);
    proof { lemma_views_push(version@, n6077); }
    version.push(n6077);
    assert(views_of(version@) =~= seq![jnum(4), jnum(1), jnum(1), jnum(6077)]);
    let mut top: Vec<JsonField> = Vec::new();
    assert(fviews_of(top@) =~= Seq::<(Seq<char>, JsonV)>::empty());
    let ghost tree_v = JsonV::Array(tree_seq);
    let data_obj = JsonValue::Object(data);
    proof {
        assert(tree_v == JsonV::Array(export_tree_v(v)));
        let hist = JsonV::Object(
            seq![
                ("meta"@, JsonV::Object(seq![("index"@, jnum(0))])),
                ("data"@, JsonV::Array(Seq::empty())),
                ("index_keys"@, JsonV::Array(Seq::empty())),
            ],
        );
        let hv = JsonV::Object(
            seq![
                ("meta"@, JsonV::Object(seq![("index"@, jnum((v.len() + 1) as u64))])),
                ("data"@, JsonV::Array(export_rows_v(v, system_content@))),
                ("index_keys"@, JsonV::Array(Seq::empty())),
            ],
        );
        assert(rows_seq =~= export_rows_v(v, system_content@));
        assert(history_v == hist);
        assert(hosts_v == hv);
        assert(coll_v =~= seq![("history"@, hist), ("hosts"@, hv)]);
        assert(fviews_of(data@) =~= seq![
            ("dict"@, JsonV::Object(Seq::empty())),
            ("list"@, JsonV::Object(seq![("tree"@, JsonV::Array(export_tree_v(v)))])),
            ("set"@, JsonV::Object(Seq::empty())),
            ("collection"@, JsonV::Object(seq![("history"@, hist), ("hosts"@, hv)])),
        ]);
        assert(data_obj@ == export_data_v(v, system_content@));
    }
    push_member(&mut top, "data", data_obj);
    push_member(&mut top, "version", JsonValue::Array(version));
    assert(fviews_of(top@) =~= seq![("data"@, export_data_v(v, system_content@)), ("version"@, JsonV::Array(seq![jnum(4), jnum(1), jnum(1), jnum(6077)]))]);
    JsonValue::Object(top)
}

proof fn lemma_field_concat(a: Seq<(Seq<char>, JsonV)>, b: Seq<(Seq<char>, JsonV)>, key: Seq<char>)
    ensures
        field_of(a + b, key) == (if field_of(a, key) is Some {
            field_of(a, key)
        } else {
            field_of(b, key)
        }),
    decreases a.len(),
{
    if a.len() > 0 {
        assert((a + b).drop_first() =~= a.drop_first() + b);
        assert((a + b)[0] == a[0]);
        lemma_field_concat(a.drop_first(), b, key);
    } else {
        assert(a + b =~= b);
    }
}

proof fn lemma_field_one(k: Seq<char>, v: JsonV, key: Seq<char>)
    ensures
        field_of(seq![(k, v)], key) == (if k == key {
            Some(v)
        } else {
            None::<JsonV>
        }),
{
    let fs = seq![(k, v)];
    assert(fs.drop_first() =~= Seq::<(Seq<char>, JsonV)>::empty());
    assert(fs[0] == (k, v));
    assert(field_of(fs.drop_first(), key) is None);
}

proof fn lemma_field_empty(key: Seq<char>)
    ensures
        field_of(Seq::<(Seq<char>, JsonV)>::empty(), key) is None,
{
}

proof fn lemma_field_list3(
    k1: Seq<char>,
    v1: JsonV,
    k2: Seq<char>,
    v2: JsonV,
    k3: Seq<char>,
    v3: JsonV,
    key: Seq<char>,
)
    ensures
        field_of(seq![(k1, v1), (k2, v2), (k3, v3)], key) == (if k1 == key {
            Some(v1)
        } else if k2 == key {
            Some(v2)
        } else if k3 == key {
            Some(v3)
        } else {
            None::<JsonV>
        }),
{
    let fs = seq![(k1, v1), (k2, v2), (k3, v3)];
    assert(fs =~= seq![(k1, v1)] + seq![(k2, v2)] + seq![(k3, v3)]);
    lemma_field_concat(seq![(k1, v1)] + seq![(k2, v2)], seq![(k3, v3)], key);
    lemma_field_concat(seq![(k1, v1)], seq![(k2, v2)], key);
    lemma_field_one(k1, v1, key);
    lemma_field_one(k2, v2, key);
    lemma_field_one(k3, v3, key);
}

/// The scheme that importing the export of `s` gives back.
pub open spec fn roundtrip_v(s: SchemeV) -> SchemeV {
    let remote = is_remote_v(s);
    SchemeV {
        id: s.id,
        title: if trim(s.title).len() != 0 {
            trim(s.title)
        } else {
            "未命名方案"@
        },
        content: trim(s.content),
        enabled: s.enabled,
        source: "imported"@,
        nature: NATURE_EXCLUSIVE@,
        readonly: remote,
        scheme_type: if remote {
            TYPE_REMOTE@
        } else {
            TYPE_LOCAL@
        },
        url: if remote {
            trim(s.url)
        } else {
            Seq::empty()
        },
        refresh_interval: if remote && allowed_interval(s.refresh_interval) {
            s.refresh_interval
        } else {
            0
        },
        last_refresh: if remote {
            s.last_refresh
        } else {
            Seq::empty()
        },
        last_refresh_ms: if remote {
            s.last_refresh_ms
        } else {
            0
        },
    }
}

/// Schemes that an export and import carries over one for one: ids non-empty, not `"0"` and
/// distinct, titles distinct after import, and each with a body or a remote url.
pub open spec fn exportable(v: Seq<SchemeV>) -> bool {
    &&& forall|i: int| 0 <= i < v.len() ==> (#[trigger] v[i]).id.len() != 0 && v[i].id != "0"@
    &&& forall|i: int, j: int|
        0 <= i < j < v.len() ==> (#[trigger] v[i]).id != (#[trigger] v[j]).id && roundtrip_v(
            v[i],
        ).title != roundtrip_v(v[j]).title
    &&& forall|i: int|
        0 <= i < v.len() ==> trim((#[trigger] v[i]).content).len() != 0 || (is_remote_v(v[i])
            && trim(v[i].url).len() != 0)
}

proof fn lemma_key_facts()
    ensures
        "type"@ != "title"@,
        "type"@ != "url"@,
        "type"@ != "refresh_interval"@,
        "type"@ != "id"@,
        "type"@ != "last_refresh"@,
        "type"@ != "last_refresh_ms"@,
        "type"@ != "on"@,
        "title"@ != "url"@,
        "title"@ != "refresh_interval"@,
        "title"@ != "id"@,
        "title"@ != "last_refresh"@,
        "title"@ != "last_refresh_ms"@,
        "title"@ != "on"@,
        "url"@ != "refresh_interval"@,
        "url"@ != "id"@,
        "url"@ != "last_refresh"@,
        "url"@ != "last_refresh_ms"@,
        "url"@ != "on"@,
        "refresh_interval"@ != "id"@,
        "refresh_interval"@ != "last_refresh"@,
        "refresh_interval"@ != "last_refresh_ms"@,
        "refresh_interval"@ != "on"@,
        "id"@ != "last_refresh"@,
        "id"@ != "last_refresh_ms"@,
        "id"@ != "on"@,
        "last_refresh"@ != "last_refresh_ms"@,
        "last_refresh"@ != "on"@,
        "last_refresh_ms"@ != "on"@,
        "content"@ != "type"@,
        "content"@ != "title"@,
        "content"@ != "url"@,
        "content"@ != "refresh_interval"@,
        "content"@ != "id"@,
        "content"@ != "last_refresh"@,
        "content"@ != "last_refresh_ms"@,
        "content"@ != "on"@,
        "id"@ != "content"@,
        "id"@ != "_id"@,
        "content"@ != "_id"@,
        "dict"@ != "collection"@,
        "list"@ != "collection"@,
        "set"@ != "collection"@,
        "dict"@ != "list"@,
        "data"@ != "version"@,
        "history"@ != "hosts"@,
        "meta"@ != "data"@,
        "meta"@ != "hosts"@,
        "index_keys"@ != "data"@,
        lower(TYPE_REMOTE@) == TYPE_REMOTE@,
        lower("local"@) == TYPE_LOCAL@,
        TYPE_REMOTE@ != "system"@,
        TYPE_REMOTE@ != "folder"@,
        TYPE_REMOTE@ != "group"@,
        TYPE_LOCAL@ != "system"@,
        TYPE_LOCAL@ != "folder"@,
        TYPE_LOCAL@ != "group"@,
        TYPE_LOCAL@ != TYPE_REMOTE@,
        "0"@ == seq!['0'],
{
    reveal_strlit("type");
    reveal_strlit("title");
    reveal_strlit("url");
    reveal_strlit("refresh_interval");
    reveal_strlit("id");
    reveal_strlit("last_refresh");
    reveal_strlit("last_refresh_ms");
    reveal_strlit("on");
    reveal_strlit("content");
    reveal_strlit("_id");
    reveal_strlit("dict");
    reveal_strlit("collection");
    reveal_strlit("list");
    reveal_strlit("set");
    reveal_strlit("data");
    reveal_strlit("version");
    reveal_strlit("history");
    reveal_strlit("hosts");
    reveal_strlit("meta");
    reveal_strlit("index_keys");
    reveal_strlit("remote");
    reveal_strlit("local");
    reveal_strlit("system");
    reveal_strlit("folder");
    reveal_strlit("group");
    reveal_strlit("0");
    assert("type"@[1] != "title"@[1]);
    assert("refresh_interval"@[0] != "last_refresh"@[0]);
    assert("last_refresh"@.len() != "last_refresh_ms"@.len());
    assert(TYPE_REMOTE@[0] != "system"@[0]);
    assert(TYPE_LOCAL@[0] != "group"@[0]);
    assert("refresh_interval"@[0] != "last_refresh_ms"@[0]);
    assert("id"@[0] != "on"@[0]);
    assert("url"@[0] != "_id"@[0]);
    assert("dict"@[0] != "list"@[0]);
    assert("data"@[0] != "meta"@[0]);
    assert("history"@[0] != "hosts"@[0] || "history"@.len() != "hosts"@.len());
    assert("content"@[0] != "history"@[0]);
    assert("collection"@[0] != "index_keys"@[0]);
    assert(lower(TYPE_REMOTE@) =~= TYPE_REMOTE@);
    assert(lower("local"@) =~= TYPE_LOCAL@);
}

/// Member lookup in the exported node of a remote scheme, member by member.
pub open spec fn remote_lookup(s: SchemeV, key: Seq<char>) -> Option<JsonV> {
    if key == "type"@ {
        Some(jstr(TYPE_REMOTE@))
    } else if key == "title"@ {
        Some(jstr(s.title))
    } else if key == "url"@ {
        Some(jstr(s.url))
    } else if key == "refresh_interval"@ && s.refresh_interval > 0 {
        Some(jnum(s.refresh_interval))
    } else if key == "id"@ {
        Some(jstr(s.id))
    } else if key == "last_refresh"@ && s.last_refresh.len() != 0 {
        Some(jstr(s.last_refresh))
    } else if key == "last_refresh_ms"@ && s.last_refresh_ms > 0 {
        Some(jnum(s.last_refresh_ms))
    } else if key == "on"@ {
        Some(JsonV::Bool(s.enabled))
    } else {
        None
    }
}

proof fn lemma_remote_lookup(s: SchemeV, key: Seq<char>)
    requires
        is_remote_v(s),
    ensures
        get(tree_node_v(s), key) == remote_lookup(s, key),
{
    lemma_key_facts();
    let a = seq![("type"@, jstr(TYPE_REMOTE@)), ("title"@, jstr(s.title)), ("url"@, jstr(s.url))];
    let t1 = if s.refresh_interval > 0 {
        seq![("refresh_interval"@, jnum(s.refresh_interval))]
    } else {
        Seq::empty()
    };
    let b = seq![("id"@, jstr(s.id))];
    let t2 = if s.last_refresh.len() != 0 {
        seq![("last_refresh"@, jstr(s.last_refresh))]
    } else {
        Seq::empty()
    };
    let t3 = if s.last_refresh_ms > 0 {
        seq![("last_refresh_ms"@, jnum(s.last_refresh_ms))]
    } else {
        Seq::empty()
    };
    let c = seq![("on"@, JsonV::Bool(s.enabled))];
    lemma_field_concat(a + t1 + b + t2 + t3, c, key);
    lemma_field_concat(a + t1 + b + t2, t3, key);
    lemma_field_concat(a + t1 + b, t2, key);
    lemma_field_concat(a + t1, b, key);
    lemma_field_concat(a, t1, key);
    lemma_field_list3("type"@, jstr(TYPE_REMOTE@), "title"@, jstr(s.title), "url"@, jstr(s.url), key);
    lemma_field_one("id"@, jstr(s.id), key);
    lemma_field_one("on"@, JsonV::Bool(s.enabled), key);
    lemma_field_one("refresh_interval"@, jnum(s.refresh_interval), key);
    lemma_field_one("last_refresh"@, jstr(s.last_refresh), key);
    lemma_field_one("last_refresh_ms"@, jnum(s.last_refresh_ms), key);
    lemma_field_empty(key);
}

proof fn lemma_local_lookup(s: SchemeV, key: Seq<char>)
    requires
        !is_remote_v(s),
    ensures
        get(tree_node_v(s), key) == (if key == "title"@ {
            Some(jstr(s.title))
        } else if key == "id"@ {
            Some(jstr(s.id))
        } else if key == "on"@ {
            Some(JsonV::Bool(s.enabled))
        } else {
            None::<JsonV>
        }),
{
    lemma_field_list3("title"@, jstr(s.title), "id"@, jstr(s.id), "on"@, JsonV::Bool(s.enabled), key);
}

/// Importing the exported node of `s` merges in `roundtrip_v(s)`.
proof fn lemma_node_roundtrip(s: SchemeV, m: Seq<(Seq<char>, Seq<char>)>, st: ImportS, ms: u64)
    requires
        s.id.len() != 0,
        s.id != "0"@,
        map_get(m, s.id) == Some(s.content),
        trim(s.content).len() != 0 || (is_remote_v(s) && trim(s.url).len() != 0),
    ensures
        import_node(tree_node_v(s), m, st, ms) == (ImportS {
            schemes: upsert_imported_v(st.schemes, roundtrip_v(s)),
            imported: st.imported + 1,
            ..st
        }),
{
    lemma_key_facts();
    let n = tree_node_v(s);
    let remote = is_remote_v(s);
    if remote {
        lemma_remote_lookup(s, "type"@);
        lemma_remote_lookup(s, "id"@);
        lemma_remote_lookup(s, "url"@);
        lemma_remote_lookup(s, "title"@);
        lemma_remote_lookup(s, "on"@);
        lemma_remote_lookup(s, "content"@);
        lemma_remote_lookup(s, "refresh_interval"@);
        lemma_remote_lookup(s, "last_refresh"@);
        lemma_remote_lookup(s, "last_refresh_ms"@);
        assert(node_type(n) == TYPE_REMOTE@);
    } else {
        lemma_local_lookup(s, "type"@);
        lemma_local_lookup(s, "id"@);
        lemma_local_lookup(s, "url"@);
        lemma_local_lookup(s, "title"@);
        lemma_local_lookup(s, "on"@);
        lemma_local_lookup(s, "content"@);
        assert(node_type(n) == TYPE_LOCAL@);
    }
    assert(id_text(get(n, "id"@)) == s.id);
    assert(node_content(n, m) == trim(s.content));
    if s.last_refresh.len() == 0 {
        assert(s.last_refresh =~= Seq::<char>::empty());
    }
    let a = imported_scheme(n, remote, m, s.id);
    let b = roundtrip_v(s);
    assert(a.title == b.title);
    assert(a.enabled == b.enabled);
    assert(a.url == b.url);
    assert(a.refresh_interval == b.refresh_interval);
    assert(a.last_refresh == b.last_refresh);
    assert(a.last_refresh_ms == b.last_refresh_ms);
    assert(a == b);
}

proof fn lemma_field_list2(k1: Seq<char>, v1: JsonV, k2: Seq<char>, v2: JsonV, key: Seq<char>)
    ensures
        field_of(seq![(k1, v1), (k2, v2)], key) == (if k1 == key {
            Some(v1)
        } else if k2 == key {
            Some(v2)
        } else {
            None::<JsonV>
        }),
{
    assert(seq![(k1, v1), (k2, v2)] =~= seq![(k1, v1)] + seq![(k2, v2)]);
    lemma_field_concat(seq![(k1, v1)], seq![(k2, v2)], key);
    lemma_field_one(k1, v1, key);
    lemma_field_one(k2, v2, key);
}

proof fn lemma_field_list4(
    k1: Seq<char>,
    v1: JsonV,
    k2: Seq<char>,
    v2: JsonV,
    k3: Seq<char>,
    v3: JsonV,
    k4: Seq<char>,
    v4: JsonV,
    key: Seq<char>,
)
    ensures
        field_of(seq![(k1, v1), (k2, v2), (k3, v3), (k4, v4)], key) == (if k1 == key {
            Some(v1)
        } else if k2 == key {
            Some(v2)
        } else if k3 == key {
            Some(v3)
        } else if k4 == key {
            Some(v4)
        } else {
            None::<JsonV>
        }),
{
    assert(seq![(k1, v1), (k2, v2), (k3, v3), (k4, v4)] =~= seq![(k1, v1), (k2, v2), (k3, v3)]
        + seq![(k4, v4)]);
    lemma_field_concat(seq![(k1, v1), (k2, v2), (k3, v3)], seq![(k4, v4)], key);
    lemma_field_list3(k1, v1, k2, v2, k3, v3, key);
    lemma_field_one(k4, v4, key);
}

/// The (id, content) pairs of the schemes.
pub open spec fn id_content_pairs(v: Seq<SchemeV>) -> Seq<(Seq<char>, Seq<char>)> {
    Seq::new(v.len(), |i: int| (v[i].id, v[i].content))
}

proof fn lemma_export_rows(v: Seq<SchemeV>, system: Seq<char>)
    requires
        forall|i: int| 0 <= i < v.len() ==> (#[trigger] v[i]).id.len() != 0 && v[i].id != "0"@,
    ensures
        content_rows(export_rows_v(v, system)) == id_content_pairs(v),
    decreases v.len(),
{
    lemma_key_facts();
    if v.len() == 0 {
        let rows = export_rows_v(v, system);
        assert(rows =~= seq![hosts_row_v("0"@, system, 1)]);
        lemma_field_list3("id"@, jstr("0"@), "content"@, jstr(system), "_id"@, jstr(dec(1)), "id"@);
        assert(rows.drop_last() =~= Seq::<JsonV>::empty());
        assert(rows.last() == hosts_row_v("0"@, system, 1));
        assert(id_text(get(rows.last(), "id"@)) == "0"@);
        assert(content_rows(rows.drop_last()) =~= Seq::<(Seq<char>, Seq<char>)>::empty());
        assert(content_rows(rows) =~= Seq::<(Seq<char>, Seq<char>)>::empty());
        assert(id_content_pairs(v) =~= Seq::<(Seq<char>, Seq<char>)>::empty());
    } else {
        let p = v.drop_last();
        assert forall|i: int| 0 <= i < p.len() implies (#[trigger] p[i]).id.len() != 0 && p[i].id
            != "0"@ by {
            assert(p[i] == v[i]);
        }
        lemma_export_rows(p, system);
        let rows = export_rows_v(v, system);
        let last = v.last();
        assert(rows.drop_last() =~= export_rows_v(p, system));
        assert(rows.last() == hosts_row_v(last.id, last.content, (v.len() + 1) as nat));
        lemma_field_list3(
            "id"@,
            jstr(last.id),
            "content"@,
            jstr(last.content),
            "_id"@,
            jstr(dec((v.len() + 1) as nat)),
            "id"@,
        );
        lemma_field_list3(
            "id"@,
            jstr(last.id),
            "content"@,
            jstr(last.content),
            "_id"@,
            jstr(dec((v.len() + 1) as nat)),
            "content"@,
        );
        assert(v[v.len() - 1] == last);
        assert(content_rows(rows) =~= id_content_pairs(v));
    }
}

proof fn lemma_pairs_get(v: Seq<SchemeV>, i: int)
    requires
        0 <= i < v.len(),
        forall|a: int, b: int| 0 <= a < b < v.len() ==> (#[trigger] v[a]).id != (#[trigger] v[b]).id,
    ensures
        map_get(id_content_pairs(v), v[i].id) == Some(v[i].content),
    decreases v.len(),
{
    let m = id_content_pairs(v);
    if i < v.len() - 1 {
        let p = v.drop_last();
        assert(m.drop_last() =~= id_content_pairs(p));
        assert(v[i].id != v[v.len() - 1].id);
        assert forall|a: int, b: int| 0 <= a < b < p.len() implies (#[trigger] p[a]).id != (
        #[trigger] p[b]).id by {
            assert(p[a] == v[a]);
            assert(p[b] == v[b]);
        }
        lemma_pairs_get(p, i);
        assert(p[i] == v[i]);
    }
}

/// Importing the first `k` exported nodes into no schemes gives their round trips, in order.
proof fn lemma_tree_prefix(v: Seq<SchemeV>, m: Seq<(Seq<char>, Seq<char>)>, k: int, seq: nat, ms: u64)
    requires
        exportable(v),
        m == id_content_pairs(v),
        0 <= k <= v.len(),
    ensures
        import_nodes(export_tree_v(v).take(k), m, ImportS { schemes: Seq::empty(), imported: 0, skipped: 0, seq: seq }, ms)
            == (ImportS { schemes: Seq::new(k as nat, |i: int| roundtrip_v(v[i])), imported: k as nat, skipped: 0, seq: seq }),
    decreases k,
{
    let st0 = ImportS { schemes: Seq::empty(), imported: 0, skipped: 0, seq: seq };
    let t = export_tree_v(v);
    if k == 0 {
        assert(t.take(0) =~= Seq::<JsonV>::empty());
        assert(Seq::new(0, |i: int| roundtrip_v(v[i])) =~= Seq::<SchemeV>::empty());
    } else {
        lemma_tree_prefix(v, m, k - 1, seq, ms);
        assert(t.take(k).drop_last() =~= t.take(k - 1));
        assert(t.take(k).last() == tree_node_v(v[k - 1]));
        let prev = Seq::new((k - 1) as nat, |i: int| roundtrip_v(v[i]));
        let st = ImportS { schemes: prev, imported: (k - 1) as nat, skipped: 0, seq: seq };
        let s = v[k - 1];
        lemma_pairs_get(v, k - 1);
        lemma_node_roundtrip(s, m, st, ms);
        let inc = roundtrip_v(s);
        lemma_index_from(prev, inc.id, 0);
        lemma_title_slot(prev, inc.title, 0);
        assert(index_of_id(prev, inc.id) == -1) by {
            if index_of_id(prev, inc.id) >= 0 {
                let j = index_of_id(prev, inc.id);
                assert(prev[j].id == v[j].id);
                assert(v[j].id != v[k - 1].id);
            }
        }
        assert(title_slot_from(prev, inc.title, 0) == -1) by {
            if title_slot_from(prev, inc.title, 0) >= 0 {
                let j = title_slot_from(prev, inc.title, 0);
                lemma_title_slot_found(prev, inc.title, 0);
                assert(prev[j] == roundtrip_v(v[j]));
                assert(roundtrip_v(v[j]).title != roundtrip_v(v[k - 1]).title);
            }
        }
        assert(prev.push(inc) =~= Seq::new(k as nat, |i: int| roundtrip_v(v[i])));
    }
}

proof fn lemma_title_slot_found(v: Seq<SchemeV>, title: Seq<char>, i: int)
    requires
        0 <= i,
        title_slot_from(v, title, i) >= 0,
    ensures
        v[title_slot_from(v, title, i)].title == title,
    decreases v.len() - i,
{
    if 0 <= i < v.len() && !(v[i].source == "imported"@ && v[i].title == title) {
        lemma_title_slot_found(v, title, i + 1);
    }
}

/// Exporting schemes and importing the backup into an empty list gives every scheme back, in
/// order, with its id, title, body, on/off state, type, url, refresh interval and refresh stamps
/// (as `roundtrip_v` states), counting all as imported and none as skipped. It fails for
/// schemes that are not `exportable` (a missing or duplicate id, a duplicate title, no body).
pub proof fn law_export_import_roundtrip(v: Seq<SchemeV>, system: Seq<char>, ids: IdSource)
    requires
        exportable(v),
    ensures
        import_backup_v(export_v(v, system), Seq::empty(), ids) matches Ok((st, _)) && st == (ImportS {
            schemes: Seq::new(v.len(), |i: int| roundtrip_v(v[i])),
            imported: v.len(),
            skipped: 0,
            seq: ids.next_seq as nat,
        }),
{
    lemma_key_facts();
    let data = export_data_v(v, system);
    let e = export_v(v, system);
    lemma_field_list2("data"@, data, "version"@, JsonV::Array(seq![jnum(4), jnum(1), jnum(1), jnum(6077)]), "data"@);
    assert(get(e, "data"@) == Some(data));
    let hist = JsonV::Object(
        seq![
            ("meta"@, JsonV::Object(seq![("index"@, jnum(0))])),
            ("data"@, JsonV::Array(Seq::empty())),
            ("index_keys"@, JsonV::Array(Seq::empty())),
        ],
    );
    let hv = JsonV::Object(
        seq![
            ("meta"@, JsonV::Object(seq![("index"@, jnum((v.len() + 1) as u64))])),
            ("data"@, JsonV::Array(export_rows_v(v, system))),
            ("index_keys"@, JsonV::Array(Seq::empty())),
        ],
    );
    let coll = JsonV::Object(seq![("history"@, hist), ("hosts"@, hv)]);
    let list = JsonV::Object(seq![("tree"@, JsonV::Array(export_tree_v(v)))]);
    lemma_field_list4("dict"@, JsonV::Object(Seq::empty()), "list"@, list, "set"@, JsonV::Object(Seq::empty()), "collection"@, coll, "list"@);
    lemma_field_list4("dict"@, JsonV::Object(Seq::empty()), "list"@, list, "set"@, JsonV::Object(Seq::empty()), "collection"@, coll, "collection"@);
    lemma_field_one("tree"@, JsonV::Array(export_tree_v(v)), "tree"@);
    lemma_field_list2("history"@, hist, "hosts"@, hv, "hosts"@);
    lemma_field_list3(
        "meta"@,
        JsonV::Object(seq![("index"@, jnum((v.len() + 1) as u64))]),
        "data"@,
        JsonV::Array(export_rows_v(v, system)),
        "index_keys"@,
        JsonV::Array(Seq::empty()),
        "data"@,
    );
    assert(hosts_rows(data) == export_rows_v(v, system));
    lemma_export_rows(v, system);
    let m = id_content_pairs(v);
    lemma_tree_prefix(v, m, v.len() as int, ids.next_seq as nat, ids.ms);
    assert(export_tree_v(v).take(v.len() as int) =~= export_tree_v(v));
}


/// A local or remote node that `import_leaf` merges in rather than skips.
pub open spec fn leaf_kept(node: JsonV, remote: bool, m: Seq<(Seq<char>, Seq<char>)>) -> bool {
    let id = id_text(get(node, "id"@));
    let url = trim(str_or_empty(get(node, "url"@)));
    id != "0"@ && !(node_content(node, m).len() == 0 && !(remote && url.len() != 0))
}

/// The (id, title) of every node of a tree that an import merges in, in import order.
pub open spec fn node_leaves(node: JsonV, m: Seq<(Seq<char>, Seq<char>)>) -> Seq<(Seq<char>, Seq<char>)>
    decreases jsize(node), 0nat,
{
    let typ = node_type(node);
    if typ == "system"@ {
        Seq::empty()
    } else if typ == "folder"@ || typ == "group"@ {
        match get(node, "children"@) {
            Some(JsonV::Array(v)) => {
                proof {
                    lemma_get_smaller(node, "children"@);
                }
                nodes_leaves(v, m)
            },
            _ => Seq::empty(),
        }
    } else if (typ == "local"@ || typ == "remote"@) && leaf_kept(node, typ == "remote"@, m) {
        seq![(id_text(get(node, "id"@)), node_title(node))]
    } else {
        Seq::empty()
    }
}

/// `node_leaves` of each node of `ns`, in order.
pub open spec fn nodes_leaves(ns: Seq<JsonV>, m: Seq<(Seq<char>, Seq<char>)>) -> Seq<(Seq<char>, Seq<char>)>
    decreases jsizes(ns), 1nat,
{
    if ns.len() == 0 {
        Seq::empty()
    } else {
        proof {
            assert(jsizes(ns) == jsizes(ns.drop_last()) + jsize(ns.last()));
            assert(jsize(ns.last()) >= 1);
        }
        nodes_leaves(ns.drop_last(), m) + node_leaves(ns.last(), m)
    }
}

/// Leaves that share an id share a title.
pub open spec fn consistent_leaves(w: Seq<(Seq<char>, Seq<char>)>) -> bool {
    forall|i: int, j: int|
        0 <= i < w.len() && 0 <= j < w.len() && #[trigger] w[i].0 == #[trigger] w[j].0 ==> w[i].1
            == w[j].1
}

/// `e` is one of the leaves `w`.
pub open spec fn leaf_in(w: Seq<(Seq<char>, Seq<char>)>, e: (Seq<char>, Seq<char>)) -> bool {
    exists|k: int| 0 <= k < w.len() && w[k] == e
}

/// Scheme `j` of `v` is an import titled `title` whose (id, title) is one of the leaves `w`.
pub open spec fn slot_for(v: Seq<SchemeV>, w: Seq<(Seq<char>, Seq<char>)>, j: int, title: Seq<char>) -> bool {
    &&& 0 <= j < v.len()
    &&& v[j].source == "imported"@
    &&& v[j].title == title
    &&& leaf_in(w, (v[j].id, v[j].title))
}

/// Some scheme of `v` is a slot for `title`.
pub open spec fn has_slot(v: Seq<SchemeV>, w: Seq<(Seq<char>, Seq<char>)>, title: Seq<char>) -> bool {
    exists|j: int| #[trigger] slot_for(v, w, j, title)
}

/// Every leaf merged in so far has a scheme that `slot_for` holds of.
pub open spec fn merged_for(v: Seq<SchemeV>, w: Seq<(Seq<char>, Seq<char>)>) -> bool {
    forall|k: int| 0 <= k < w.len() ==> #[trigger] has_slot(v, w, w[k].1)
}

proof fn lemma_title_slot_first(v: Seq<SchemeV>, title: Seq<char>, i: int, j: int)
    requires
        0 <= i <= j < v.len(),
        v[j].source == "imported"@,
        v[j].title == title,
    ensures
        i <= title_slot_from(v, title, i) <= j,
    decreases j - i,
{
    if !(v[i].source == "imported"@ && v[i].title == title) {
        lemma_title_slot_first(v, title, i + 1, j);
    }
}

proof fn lemma_title_slot_imported(v: Seq<SchemeV>, title: Seq<char>, i: int)
    requires
        0 <= i,
        title_slot_from(v, title, i) >= 0,
    ensures
        v[title_slot_from(v, title, i)].source == "imported"@,
        v[title_slot_from(v, title, i)].title == title,
    decreases v.len() - i,
{
    if 0 <= i < v.len() && !(v[i].source == "imported"@ && v[i].title == title) {
        lemma_title_slot_imported(v, title, i + 1);
    }
}

proof fn lemma_leaf_in_push(w: Seq<(Seq<char>, Seq<char>)>, x: (Seq<char>, Seq<char>), e: (Seq<char>, Seq<char>))
    ensures
        leaf_in(w, e) ==> leaf_in(w.push(x), e),
        leaf_in(w.push(x), x),
{
    let w2 = w.push(x);
    assert(w2[w.len() as int] == x);
    if leaf_in(w, e) {
        let k = choose|k: int| 0 <= k < w.len() && w[k] == e;
        assert(w2[k] == w[k]);
    }
}

/// Where `upsert_imported_v` writes `inc`, and that it leaves every other scheme alone.
proof fn lemma_upsert_slot(v: Seq<SchemeV>, inc: SchemeV) -> (u: int)
    requires
        inc.source == "imported"@,
    ensures
        0 <= u < upsert_imported_v(v, inc).len(),
        u <= v.len(),
        upsert_imported_v(v, inc).len() == if u < v.len() { v.len() } else { v.len() + 1 },
        upsert_imported_v(v, inc)[u].source == "imported"@,
        upsert_imported_v(v, inc)[u].title == inc.title,
        upsert_imported_v(v, inc)[u].id == inc.id,
        forall|j: int| 0 <= j < v.len() && j != u ==> upsert_imported_v(v, inc)[j] == v[j],
        u < v.len() ==> v[u].id == inc.id || (v[u].source == "imported"@ && v[u].title == inc.title),
        u == v.len() ==> title_slot_from(v, inc.title, 0) < 0,
{
    let t = index_of_id(v, inc.id);
    lemma_index_from(v, inc.id, 0);
    let p = title_slot_from(v, inc.title, 0);
    lemma_title_slot(v, inc.title, 0);
    if t >= 0 {
        t
    } else if p >= 0 {
        lemma_title_slot_imported(v, inc.title, 0);
        p
    } else {
        v.len() as int
    }
}

/// The leaf at `k` of the merged list still has a slot after one more merge.
proof fn lemma_merge_step_at(v: Seq<SchemeV>, w: Seq<(Seq<char>, Seq<char>)>, inc: SchemeV, k: int)
    requires
        merged_for(v, w),
        inc.source == "imported"@,
        forall|i: int| 0 <= i < w.len() && w[i].0 == inc.id ==> w[i].1 == inc.title,
        0 <= k <= w.len(),
    ensures
        has_slot(upsert_imported_v(v, inc), w.push((inc.id, inc.title)), w.push((inc.id, inc.title))[k].1),
{
    let e = (inc.id, inc.title);
    let w2 = w.push(e);
    let v2 = upsert_imported_v(v, inc);
    let u = lemma_upsert_slot(v, inc);
    lemma_leaf_in_push(w, e, e);
    if k == w.len() {
        assert(w2[k] == e);
        assert(slot_for(v2, w2, u, w2[k].1));
    } else {
        assert(w2[k] == w[k]);
        assert(has_slot(v, w, w[k].1));
        let j = choose|j: int| #[trigger] slot_for(v, w, j, w[k].1);
        lemma_leaf_in_push(w, e, (v[j].id, v[j].title));
        if j == u {
            if v[u].id == inc.id {
                let k2 = choose|k2: int| 0 <= k2 < w.len() && w[k2] == (v[j].id, v[j].title);
                assert(w[k2].0 == inc.id);
            }
            assert(w[k].1 == inc.title);
            assert(slot_for(v2, w2, u, w2[k].1));
        } else {
            assert(v2[j] == v[j]);
            assert(slot_for(v2, w2, j, w2[k].1));
        }
    }
}

/// One merged scheme keeps `merged_for`.
proof fn lemma_merge_step(v: Seq<SchemeV>, w: Seq<(Seq<char>, Seq<char>)>, inc: SchemeV)
    requires
        merged_for(v, w),
        inc.source == "imported"@,
        forall|k: int| 0 <= k < w.len() && w[k].0 == inc.id ==> w[k].1 == inc.title,
    ensures
        merged_for(upsert_imported_v(v, inc), w.push((inc.id, inc.title))),
{
    let w2 = w.push((inc.id, inc.title));
    let v2 = upsert_imported_v(v, inc);
    assert forall|k: int| 0 <= k < w2.len() implies #[trigger] has_slot(v2, w2, w2[k].1) by {
        lemma_merge_step_at(v, w, inc, k);
    }
}

/// A leaf already merged adds no scheme when merged again.
proof fn lemma_merge_again(v: Seq<SchemeV>, w: Seq<(Seq<char>, Seq<char>)>, inc: SchemeV)
    requires
        merged_for(v, w),
        inc.source == "imported"@,
        leaf_in(w, (inc.id, inc.title)),
    ensures
        upsert_imported_v(v, inc).len() == v.len(),
{
    let k = choose|k: int| 0 <= k < w.len() && w[k] == (inc.id, inc.title);
    assert(has_slot(v, w, w[k].1));
    let j = choose|j: int| #[trigger] slot_for(v, w, j, w[k].1);
    assert(slot_for(v, w, j, w[k].1));
    lemma_title_slot_first(v, inc.title, 0, j);
    let u = lemma_upsert_slot(v, inc);
}

proof fn lemma_consistent_parts(w: Seq<(Seq<char>, Seq<char>)>, a: Seq<(Seq<char>, Seq<char>)>, b: Seq<(Seq<char>, Seq<char>)>)
    requires
        consistent_leaves(w + (a + b)),
    ensures
        consistent_leaves(w + a),
        consistent_leaves((w + a) + b),
        w + (a + b) == (w + a) + b,
{
    assert(w + (a + b) =~= (w + a) + b);
    let x = w + a;
    let y = w + (a + b);
    assert forall|i: int, j: int|
        0 <= i < x.len() && 0 <= j < x.len() && #[trigger] x[i].0 == #[trigger] x[j].0 implies x[i].1
            == x[j].1 by {
        assert(x[i] == y[i] && x[j] == y[j]);
    }
}

/// All of `ls` are among `w`.
pub open spec fn all_in(w: Seq<(Seq<char>, Seq<char>)>, ls: Seq<(Seq<char>, Seq<char>)>) -> bool {
    forall|k: int| 0 <= k < ls.len() ==> #[trigger] leaf_in(w, ls[k])
}

proof fn lemma_merge_node(
    node: JsonV,
    m: Seq<(Seq<char>, Seq<char>)>,
    st: ImportS,
    ms: u64,
    w: Seq<(Seq<char>, Seq<char>)>,
)
    requires
        merged_for(st.schemes, w),
        consistent_leaves(w + node_leaves(node, m)),
        forall|k: int| 0 <= k < node_leaves(node, m).len() ==> (#[trigger] node_leaves(node, m)[k]).0.len() > 0,
    ensures
        merged_for(import_node(node, m, st, ms).schemes, w + node_leaves(node, m)),
        import_node(node, m, st, ms).imported == st.imported + node_leaves(node, m).len(),
        all_in(w, node_leaves(node, m)) ==> import_node(node, m, st, ms).schemes.len() == st.schemes.len(),
    decreases jsize(node), 0nat,
{
    let typ = node_type(node);
    let ls = node_leaves(node, m);
    if typ == "system"@ {
        assert(w + ls =~= w);
    } else if typ == "folder"@ || typ == "group"@ {
        match get(node, "children"@) {
            Some(JsonV::Array(v)) => {
                lemma_get_smaller(node, "children"@);
                lemma_merge_nodes(v, m, st, ms, w);
            },
            _ => {
                assert(w + ls =~= w);
            },
        }
    } else if (typ == "local"@ || typ == "remote"@) && leaf_kept(node, typ == "remote"@, m) {
        let id = id_text(get(node, "id"@));
        let e = (id, node_title(node));
        assert(ls == seq![e]);
        assert(ls[0] == e);
        assert(id.len() > 0);
        let inc = imported_scheme(node, typ == "remote"@, m, id);
        assert(w + ls =~= w.push(e));
        assert forall|k: int| 0 <= k < w.len() && w[k].0 == inc.id implies w[k].1 == inc.title by {
            let y = w + ls;
            assert(y[k] == w[k] && y[w.len() as int] == e);
        }
        lemma_merge_step(st.schemes, w, inc);
        if all_in(w, ls) {
            assert(leaf_in(w, ls[0]));
            lemma_merge_again(st.schemes, w, inc);
        }
    } else {
        assert(w + ls =~= w);
    }
}

proof fn lemma_merge_nodes(
    ns: Seq<JsonV>,
    m: Seq<(Seq<char>, Seq<char>)>,
    st: ImportS,
    ms: u64,
    w: Seq<(Seq<char>, Seq<char>)>,
)
    requires
        merged_for(st.schemes, w),
        consistent_leaves(w + nodes_leaves(ns, m)),
        forall|k: int| 0 <= k < nodes_leaves(ns, m).len() ==> (#[trigger] nodes_leaves(ns, m)[k]).0.len() > 0,
    ensures
        merged_for(import_nodes(ns, m, st, ms).schemes, w + nodes_leaves(ns, m)),
        import_nodes(ns, m, st, ms).imported == st.imported + nodes_leaves(ns, m).len(),
        all_in(w, nodes_leaves(ns, m)) ==> import_nodes(ns, m, st, ms).schemes.len() == st.schemes.len(),
    decreases jsizes(ns), 1nat,
{
    if ns.len() == 0 {
        assert(w + nodes_leaves(ns, m) =~= w);
    } else {
        let a = nodes_leaves(ns.drop_last(), m);
        let b = node_leaves(ns.last(), m);
        assert(nodes_leaves(ns, m) == a + b);
        assert(jsizes(ns) == jsizes(ns.drop_last()) + jsize(ns.last()));
        assert(jsize(ns.last()) >= 1);
        lemma_consistent_parts(w, a, b);
        assert forall|k: int| 0 <= k < a.len() implies (#[trigger] a[k]).0.len() > 0 by {
            assert((a + b)[k] == a[k]);
        }
        assert forall|k: int| 0 <= k < b.len() implies (#[trigger] b[k]).0.len() > 0 by {
            assert((a + b)[a.len() + k] == b[k]);
        }
        lemma_merge_nodes(ns.drop_last(), m, st, ms, w);
        let mid = import_nodes(ns.drop_last(), m, st, ms);
        lemma_merge_node(ns.last(), m, mid, ms, w + a);
        if all_in(w, a + b) {
            assert forall|k: int| 0 <= k < a.len() implies #[trigger] leaf_in(w, a[k]) by {
                assert((a + b)[k] == a[k]);
                assert(leaf_in(w, (a + b)[k]));
            }
            assert forall|k: int| 0 <= k < b.len() implies #[trigger] leaf_in(w + a, b[k]) by {
                assert((a + b)[a.len() + k] == b[k]);
                assert(leaf_in(w, (a + b)[a.len() + k]));
                let k2 = choose|k2: int| 0 <= k2 < w.len() && w[k2] == b[k];
                assert((w + a)[k2] == w[k2]);
            }
        }
    }
}

proof fn lemma_consistent_twice(w: Seq<(Seq<char>, Seq<char>)>)
    requires
        consistent_leaves(w),
    ensures
        consistent_leaves(w + w),
{
    let y = w + w;
    assert forall|i: int, j: int|
        0 <= i < y.len() && 0 <= j < y.len() && #[trigger] y[i].0 == #[trigger] y[j].0 implies y[i].1
            == y[j].1 by {
        let i2 = if i < w.len() { i } else { i - w.len() };
        let j2 = if j < w.len() { j } else { j - w.len() };
        assert(y[i] == w[i2] && y[j] == w[j2]);
    }
}

/// Importing a backup twice merges by id: the second import adds no scheme and imports as
/// many nodes as the first. Stated for backups whose imported leaves have non-empty ids (an
/// empty id gets a fresh one each time) and where leaves sharing an id share a title (so
/// pairwise distinct ids suffice), from any starting list.
pub proof fn law_reimport_tree_keeps_count(
    tree: Seq<JsonV>,
    m: Seq<(Seq<char>, Seq<char>)>,
    s0: Seq<SchemeV>,
    seq: nat,
    ms: u64,
)
    requires
        consistent_leaves(nodes_leaves(tree, m)),
        forall|k: int|
            0 <= k < nodes_leaves(tree, m).len() ==> (#[trigger] nodes_leaves(tree, m)[k]).0.len() > 0,
    ensures
        ({
            let st1 = import_nodes(
                tree,
                m,
                ImportS { schemes: s0, imported: 0, skipped: 0, seq: seq },
                ms,
            );
            let st2 = import_nodes(
                tree,
                m,
                ImportS { schemes: st1.schemes, imported: 0, skipped: 0, seq: st1.seq },
                ms,
            );
            &&& st2.schemes.len() == st1.schemes.len()
            &&& st2.imported == st1.imported
        }),
{
    let w = nodes_leaves(tree, m);
    let e = Seq::<(Seq<char>, Seq<char>)>::empty();
    let init = ImportS { schemes: s0, imported: 0, skipped: 0, seq: seq };
    assert(e + w =~= w);
    lemma_merge_nodes(tree, m, init, ms, e);
    let st1 = import_nodes(tree, m, init, ms);
    lemma_consistent_twice(w);
    let init2 = ImportS { schemes: st1.schemes, imported: 0, skipped: 0, seq: st1.seq };
    lemma_merge_nodes(tree, m, init2, ms, w);
    assert forall|k: int| 0 <= k < w.len() implies #[trigger] leaf_in(w, w[k]) by {
        assert(w[k] == w[k]);
    }
}

} // verus!
