use jdd_crypto::app_update::parse_latest_release;
use jdd_crypto::hosts::{HostsScheme, NATURE_EXCLUSIVE, NATURE_KEEP, TYPE_LOCAL, TYPE_REMOTE};
use jdd_crypto::hosts_file::{compose_hosts_file, MARKER_BEGIN, MARKER_END};
use jdd_crypto::intranet::{normalize_base, DEFAULT_SERVER_BASE};
use jdd_crypto::json::{as_array_opt, as_str_opt, as_u64_opt, JsonValue};
use jdd_crypto::switchhosts::{
    build_hosts_content_map, build_switchhosts_export, collect_import_nodes, json_num, json_str,
    member, IdSource,
};

#[test]
fn parses_latest_semver_and_notes() {
    let text = r#"## 多多解密升级日志 ##

【0.3.3】
1. old item

【0.4.3】
1. new ui
2. update check
"#;
    let (version, notes) = parse_latest_release(text).expect("parsed");
    assert_eq!(version, "0.4.3");
    assert!(notes.contains("new ui"));
    assert!(notes.contains("update check"));
}

#[test]
fn compose_inserts_and_replaces_marker_block() {
    let existing = "127.0.0.1 localhost\n";
    let once = compose_hosts_file(existing, "1.1.1.1 a.test");
    assert!(once.contains(MARKER_BEGIN));
    assert!(once.contains("1.1.1.1 a.test"));
    assert!(once.contains("127.0.0.1 localhost"));

    let twice = compose_hosts_file(&once, "2.2.2.2 b.test");
    assert_eq!(twice.matches(MARKER_BEGIN).count(), 1);
    assert!(twice.contains("2.2.2.2 b.test"));
    assert!(!twice.contains("1.1.1.1 a.test"));
}

#[test]
fn compose_clears_block_when_empty() {
    let with_block = format!("127.0.0.1 localhost\n\n{MARKER_BEGIN}\nold\n{MARKER_END}\n");
    let cleared = compose_hosts_file(&with_block, "");
    assert!(!cleared.contains(MARKER_BEGIN));
    assert!(cleared.contains("127.0.0.1 localhost"));
}

#[test]
fn normalize_adds_trailing_slash() {
    assert_eq!(
        normalize_base("http://172.20.2.169:7101").unwrap(),
        "http://172.20.2.169:7101/"
    );
}

#[test]
fn normalize_empty_uses_default() {
    assert_eq!(normalize_base("  ").unwrap(), DEFAULT_SERVER_BASE);
}

#[test]
fn normalize_rejects_non_http() {
    assert!(normalize_base("ftp://example.com").is_err());
}

fn scheme(
    id: &str,
    title: &str,
    content: &str,
    enabled: bool,
    nature: &str,
    readonly: bool,
    scheme_type: &str,
    url: &str,
    refresh_interval: u64,
    last_refresh: &str,
    last_refresh_ms: u64,
) -> HostsScheme {
    HostsScheme {
        id: id.to_string(),
        title: title.to_string(),
        content: content.to_string(),
        enabled,
        source: "imported".to_string(),
        nature: nature.to_string(),
        readonly,
        scheme_type: scheme_type.to_string(),
        url: url.to_string(),
        refresh_interval,
        last_refresh: last_refresh.to_string(),
        last_refresh_ms,
    }
}

fn pointer<'a>(value: &'a JsonValue, path: &[&str]) -> Option<&'a JsonValue> {
    let mut cur = Some(value);
    for key in path {
        cur = cur.and_then(|v| v.get_field(key));
    }
    cur
}

#[test]
fn export_matches_switchhosts_shape_and_roundtrips() {
    let schemes = vec![
        scheme(
            "19d546e9-6488-48fb-b471-47403388d9e7",
            "本地",
            "1.1.1.1 local.test",
            true,
            NATURE_KEEP,
            false,
            TYPE_LOCAL,
            "",
            0,
            "",
            0,
        ),
        scheme(
            "2e24af79-dabe-4981-aec0-09ae83a7ad4a",
            "测试-流量池",
            "2.2.2.2 remote.test",
            false,
            NATURE_EXCLUSIVE,
            true,
            TYPE_REMOTE,
            "http://example.com/hosts",
            300,
            "2026-09-03 14:39:00",
            1788417540808,
        ),
    ];
    let value = build_switchhosts_export(&schemes, "127.0.0.1 localhost\n");
    assert!(as_array_opt(pointer(&value, &["data", "list", "tree"])).is_some());
    assert!(as_array_opt(pointer(&value, &["data", "collection", "hosts", "data"])).is_some());
    assert_eq!(as_array_opt(pointer(&value, &["version"])).map(|a| a.len()), Some(4));
    let tree = as_array_opt(pointer(&value, &["data", "list", "tree"])).unwrap();
    assert!(tree[0].get_field("type").is_none());
    assert_eq!(
        as_str_opt(tree[1].get_field("type")).map(|s| s.as_str()),
        Some("remote")
    );
    assert_eq!(as_u64_opt(tree[1].get_field("refresh_interval")), Some(300));

    let data = value.get_field("data").unwrap();
    let content_by_id = build_hosts_content_map(data);
    let mut imported_schemes = Vec::new();
    let mut imported = 0u32;
    let mut skipped = 0u32;
    let mut ids = IdSource { ms: 0, next_seq: 0 };
    for node in tree {
        collect_import_nodes(
            node,
            &content_by_id,
            &mut imported_schemes,
            &mut imported,
            &mut skipped,
            &mut ids,
        );
    }
    assert_eq!(imported_schemes.len(), 2);
    assert_eq!(imported_schemes[0].id, schemes[0].id);
    assert_eq!(imported_schemes[1].scheme_type, TYPE_REMOTE);
    assert_eq!(imported_schemes[1].url, "http://example.com/hosts");
    assert_eq!(imported_schemes[1].refresh_interval, 300);
}

fn object(fields: Vec<(&str, JsonValue)>) -> JsonValue {
    JsonValue::Object(fields.into_iter().map(|(k, v)| member(k, v)).collect())
}

fn text(s: &str) -> JsonValue {
    json_str(s.to_string())
}

/// A SwitchHosts PotDb backup: `data.list.tree` with a local node, a remote node without a
/// refresh interval and a folder holding a remote node with one; bodies in
/// `data.collection.hosts.data`.
fn potdb_backup() -> JsonValue {
    let tree = JsonValue::Array(vec![
        object(vec![
            ("id", text("19d546e9-6488-48fb-b471-47403388d9e7")),
            ("title", text("本地")),
            ("type", text("local")),
            ("on", JsonValue::Bool(true)),
        ]),
        object(vec![
            ("id", text("a73cf8fd-fed2-413a-83b8-8b7b86a9f02f")),
            ("title", text("基础")),
            ("type", text("remote")),
            ("url", text("http://example.com/base")),
            ("on", JsonValue::Bool(false)),
        ]),
        object(vec![
            ("title", text("分组")),
            ("type", text("folder")),
            (
                "children",
                JsonValue::Array(vec![object(vec![
                    ("id", text("2e24af79-dabe-4981-aec0-09ae83a7ad4a")),
                    ("title", text("测试-流量池")),
                    ("type", text("remote")),
                    ("url", text("http://example.com/pool")),
                    ("refresh_interval", json_num(300)),
                    ("last_refresh", text("2026-09-03 14:39:00")),
                    ("last_refresh_ms", json_num(1788417540808)),
                ])]),
            ),
        ]),
    ]);
    let hosts = JsonValue::Array(vec![
        object(vec![
            ("id", text("19d546e9-6488-48fb-b471-47403388d9e7")),
            ("content", text("1.1.1.1 local.test")),
        ]),
        object(vec![
            ("id", text("a73cf8fd-fed2-413a-83b8-8b7b86a9f02f")),
            ("content", text("3.3.3.3 base.test")),
        ]),
    ]);
    object(vec![(
        "data",
        object(vec![
            ("list", object(vec![("tree", tree)])),
            ("collection", object(vec![("hosts", object(vec![("data", hosts)]))])),
        ]),
    )])
}

#[test]
fn import_parses_swh_potdb_shape() {
    let value = potdb_backup();
    let data = value.get_field("data").unwrap();
    let tree = as_array_opt(pointer(data, &["list", "tree"])).unwrap();
    let content_by_id = build_hosts_content_map(data);
    let mut schemes = Vec::new();
    let mut imported = 0u32;
    let mut skipped = 0u32;
    let mut ids = IdSource { ms: 0, next_seq: 0 };
    for node in tree {
        collect_import_nodes(node, &content_by_id, &mut schemes, &mut imported, &mut skipped, &mut ids);
    }
    assert!(imported >= 2);
    assert_eq!(schemes[0].title, "本地");
    assert_eq!(schemes[0].id, "19d546e9-6488-48fb-b471-47403388d9e7");
    assert!(schemes[0].enabled);
    assert_eq!(schemes[0].scheme_type, TYPE_LOCAL);
    assert_eq!(schemes[1].title, "基础");
    assert_eq!(schemes[1].id, "a73cf8fd-fed2-413a-83b8-8b7b86a9f02f");
    assert_eq!(schemes[1].scheme_type, TYPE_REMOTE);
    assert!(!schemes[1].url.is_empty());
    assert_eq!(schemes[1].refresh_interval, 0); // missing in the backup => never
    assert!(!schemes[0].readonly);
    assert!(schemes[1].readonly);
    let with_interval = schemes
        .iter()
        .find(|s| s.title.contains("流量池"))
        .expect("remote with refresh_interval");
    assert_eq!(with_interval.id, "2e24af79-dabe-4981-aec0-09ae83a7ad4a");
    assert_eq!(with_interval.refresh_interval, 300);
    assert!(!with_interval.url.is_empty());
    assert!(with_interval.last_refresh_ms > 0);

    // The stored shape keeps the scheme type and url.
    assert_eq!(schemes[1].scheme_type, "remote");
    assert!(schemes[1].url.len() > 0);

    // Re-import merges by id: the count must not grow.
    let before = schemes.len();
    let mut imported2 = 0u32;
    let mut skipped2 = 0u32;
    for node in tree {
        collect_import_nodes(node, &content_by_id, &mut schemes, &mut imported2, &mut skipped2, &mut ids);
    }
    assert_eq!(schemes.len(), before);
    assert_eq!(imported2, imported);

    // A legacy h- id with the same title is repaired (url filled, id replaced).
    let mut legacy = vec![scheme(
        "h-legacy-1", "基础", "old", false, NATURE_KEEP, false, TYPE_LOCAL, "", 0, "", 0,
    )];
    legacy[0].source = "imported".to_string();
    let mut imp = 0u32;
    let mut skip = 0u32;
    // Only the "基础" remote node.
    collect_import_nodes(&tree[1], &content_by_id, &mut legacy, &mut imp, &mut skip, &mut ids);
    assert_eq!(legacy.len(), 1);
    assert_eq!(legacy[0].id, "a73cf8fd-fed2-413a-83b8-8b7b86a9f02f");
    assert_eq!(legacy[0].scheme_type, TYPE_REMOTE);
    assert!(!legacy[0].url.is_empty());
    assert_eq!(legacy[0].nature, NATURE_KEEP); // preserved
}
