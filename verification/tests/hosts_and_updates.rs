use jdd_crypto::app_update::{
    check_update, installer_file_name, installer_url, parse_latest_release, parse_version,
    update_log_url, version_lt,
};
use jdd_crypto::calendar::{civil_from_days, format_last_refresh};
use jdd_crypto::hosts::{
    apply_exclusive_mutex, delete_scheme, due_refresh_ids, format_scheme_id, managed_text,
    normalize_nature, normalize_refresh_interval, normalize_scheme, normalize_scheme_type,
    rename_scheme,
    set_enabled, upsert_scheme, HostsScheme, UpsertRequest, NATURE_EXCLUSIVE, NATURE_KEEP,
    TYPE_LOCAL, TYPE_REMOTE,
};
use jdd_crypto::hosts_file::{compose_hosts_file, strip_managed_block, MARKER_BEGIN, MARKER_END};
use jdd_crypto::hosts_system::{
    elevated_copy_took_effect, macos_copy_script, should_elevate, system_hosts_path,
    windows_copy_script, windows_elevate_command,
};
use jdd_crypto::intranet::{hosts_preset_url, load_base, normalize_base, update_resource_base};

fn local(id: &str, title: &str, content: &str, enabled: bool, nature: &str) -> HostsScheme {
    HostsScheme {
        id: id.to_string(),
        title: title.to_string(),
        content: content.to_string(),
        enabled,
        source: "user".to_string(),
        nature: nature.to_string(),
        readonly: false,
        scheme_type: TYPE_LOCAL.to_string(),
        url: String::new(),
        refresh_interval: 0,
        last_refresh: String::new(),
        last_refresh_ms: 0,
    }
}

#[test]
fn versions_compare_numerically() {
    assert_eq!(parse_version("0.4.10"), Some((0, 4, 10)));
    assert_eq!(parse_version("+1.2.3"), Some((1, 2, 3)));
    assert_eq!(parse_version("1.2"), None);
    assert_eq!(parse_version("1.2.3.4"), None);
    assert_eq!(parse_version("1.x.3"), None);
    assert_eq!(parse_version("4294967296.0.0"), None);
    assert!(version_lt("0.4.9", "0.4.10"));
    assert!(!version_lt("0.4.10", "0.4.9"));
    assert!(!version_lt("0.4.3", "0.4.3"));
    assert!(!version_lt("bad", "0.4.3"));
}

#[test]
fn latest_release_is_the_highest_version_not_the_last() {
    let text = "【0.5.0】\n new\n【junk】\n skip\n【0.4.9】\n old\n";
    let (version, notes) = parse_latest_release(text).unwrap();
    assert_eq!(version, "0.5.0");
    assert_eq!(notes, "new");
    assert_eq!(parse_latest_release("no blocks here"), None);
    assert_eq!(parse_latest_release("【x.y】 notes"), None);
}

#[test]
fn update_check_outcomes() {
    let found = check_update("0.4.3".to_string(), Ok("【0.4.4】\n1.说明一".to_string()), true).unwrap();
    assert!(found.available);
    assert_eq!(found.latest_version.as_deref(), Some("0.4.4"));
    assert_eq!(found.notes.as_deref(), Some("1.说明一"));
    let same = check_update("0.4.4".to_string(), Ok("【0.4.4】\n1".to_string()), true).unwrap();
    assert!(!same.available);
    assert_eq!(
        check_update("0.4.3".to_string(), Err("无法连接更新服务器".to_string()), true).err(),
        Some("无法连接更新服务器".to_string())
    );
    let quiet = check_update("0.4.3".to_string(), Err("x".to_string()), false).unwrap();
    assert!(!quiet.available && quiet.latest_version.is_none() && quiet.notes.is_none());
    assert_eq!(
        check_update("0.4.3".to_string(), Ok("nothing".to_string()), true).err(),
        Some("更新日志格式无效".to_string())
    );
}

#[test]
fn update_urls_are_percent_encoded() {
    assert_eq!(
        update_log_url(),
        "http://172.20.2.169:7101/appStore/Software/PC/developer/jdd-crypto/%E6%9B%B4%E6%96%B0%E6%97%A5%E5%BF%97.txt"
    );
    assert_eq!(installer_file_name("0.4.4", false), "多多解密_0.4.4_x64-setup.exe");
    assert_eq!(installer_file_name("0.4.4", true), "多多解密_0.4.4_universal.dmg");
    assert_eq!(
        installer_url("0.4.4", false),
        "http://172.20.2.169:7101/appStore/Software/PC/developer/jdd-crypto/%E5%A4%9A%E5%A4%9A%E8%A7%A3%E5%AF%86_0.4.4_x64-setup.exe"
    );
    assert_eq!(
        installer_url("0.4.4", true),
        "http://172.20.2.169:7101/appStore/Software/PC/developer/jdd-crypto/%E5%A4%9A%E5%A4%9A%E8%A7%A3%E5%AF%86_0.4.4_universal.dmg"
    );
}

#[test]
fn server_base_normalisation() {
    assert_eq!(normalize_base("  https://a.b//  ").unwrap(), "https://a.b/");
    assert_eq!(
        normalize_base("http://").err(),
        Some("服务器地址需以 http:// 或 https:// 开头".to_string())
    );
    assert_eq!(normalize_base("http:///").err(), Some("服务器地址需以 http:// 或 https:// 开头".to_string()));
    assert_eq!(normalize_base("http://x").unwrap(), "http://x/");
    let once = normalize_base(" http://host:1/// ").unwrap();
    assert_eq!(normalize_base(&once).unwrap(), once);
    assert_eq!(load_base(Some("ftp://x")), "http://172.20.2.169:7101/");
    assert_eq!(load_base(None), "http://172.20.2.169:7101/");
    assert_eq!(load_base(Some("http://h")), "http://h/");
    assert_eq!(
        hosts_preset_url("http://h/"),
        "http://h/appStore/Software/PC/developer/jdd-crypto/swh_data.json"
    );
    assert_eq!(
        update_resource_base("http://h/"),
        "http://h/appStore/Software/PC/developer/jdd-crypto"
    );
}

#[test]
fn civil_dates_and_refresh_stamps() {
    assert_eq!(civil_from_days(0), (1970, 1, 1));
    assert_eq!(civil_from_days(59), (1970, 3, 1));
    assert_eq!(civil_from_days(11016), (2000, 2, 29));
    assert_eq!(civil_from_days(-1), (1969, 12, 31));
    assert_eq!(format_last_refresh(0), "1970-01-01 00:00:00");
    assert_eq!(format_last_refresh(1788417540808), "2026-09-03 06:39:00");
}

#[test]
fn civil_dates_before_year_zero_and_at_the_limits() {
    assert_eq!(civil_from_days(-719528), (0, 1, 1));
    assert_eq!(civil_from_days(-719529), (-1, 12, 31));
    assert_eq!(civil_from_days(-1157759), (-1200, 3, 1));
    // Years beyond 32 bits are truncated.
    assert_eq!(civil_from_days(i64::MIN), (2030437271, 6, 7));
    assert_eq!(civil_from_days(i64::MAX - 719468), (-2030435302, 9, 25));
}

#[test]
fn scheme_ids_from_different_stamps_differ() {
    let a = format_scheme_id(0x1a, 0x1);
    let b = format_scheme_id(0x1, 0xa1);
    assert_eq!(a, "h-1a-1");
    assert_eq!(b, "h-1-a1");
    assert_ne!(a, b);
    assert_ne!(format_scheme_id(5, 6), format_scheme_id(5, 7));
}

#[test]
fn loading_a_scheme_twice_normalises_once() {
    let mut remote = local("a", "A", "", true, NATURE_KEEP);
    remote.url = " http://h/hosts ".to_string();
    normalize_scheme(&mut remote);
    assert_eq!(remote.scheme_type, TYPE_REMOTE);
    assert!(remote.readonly);
    let once = remote.duplicate();
    normalize_scheme(&mut remote);
    assert_eq!(remote.scheme_type, once.scheme_type);
    assert_eq!(remote.readonly, once.readonly);

    let mut odd = local("b", "B", "x", false, NATURE_KEEP);
    odd.scheme_type = "ftp".to_string();
    normalize_scheme(&mut odd);
    assert_eq!(odd.scheme_type, TYPE_LOCAL);
    normalize_scheme(&mut odd);
    assert_eq!(odd.scheme_type, TYPE_LOCAL);
}

#[test]
fn scheme_field_normalisation_errors() {
    assert_eq!(normalize_nature(" exclusive ").unwrap(), NATURE_EXCLUSIVE);
    assert!(normalize_nature("both").is_err());
    assert_eq!(normalize_scheme_type("remote").unwrap(), TYPE_REMOTE);
    assert!(normalize_scheme_type("ftp").is_err());
    assert_eq!(normalize_refresh_interval(300), Ok(300));
    assert_eq!(normalize_refresh_interval(0), Ok(0));
    assert!(normalize_refresh_interval(7).is_err());
    assert_eq!(format_scheme_id(255, 16), "h-ff-10");
}

#[test]
fn exclusive_scheme_turns_the_others_off() {
    let mut schemes = vec![
        local("a", "A", "1.1.1.1 a", true, NATURE_EXCLUSIVE),
        local("b", "B", "2.2.2.2 b", true, NATURE_KEEP),
        local("c", "C", "3.3.3.3 c", true, NATURE_EXCLUSIVE),
    ];
    apply_exclusive_mutex(&mut schemes, "c");
    assert!(!schemes[0].enabled);
    assert!(schemes[2].enabled);
    assert_eq!(managed_text(&schemes), "# [B]\n2.2.2.2 b\n\n# [C]\n3.3.3.3 c");
}

#[test]
fn scheme_editing_errors_and_effects() {
    let mut schemes = vec![local("a", "A", "x", false, NATURE_KEEP)];
    assert!(rename_scheme(&mut schemes, "missing", "T").is_err());
    assert!(rename_scheme(&mut schemes, "a", "  ").is_err());
    rename_scheme(&mut schemes, "a", "New").unwrap();
    assert_eq!(schemes[0].title, "New");
    set_enabled(&mut schemes, "a", true).unwrap();
    assert!(schemes[0].enabled);
    assert!(delete_scheme(&mut schemes, "zz").is_err());
    assert_eq!(delete_scheme(&mut schemes, "a"), Ok(true));
    assert!(schemes.is_empty());
}

#[test]
fn upsert_creates_and_edits() {
    let mut schemes: Vec<HostsScheme> = Vec::new();
    let req = UpsertRequest {
        id: None,
        title: "T".to_string(),
        content: "1.1.1.1 t".to_string(),
        enabled: Some(true),
        nature: None,
        scheme_type: None,
        url: None,
        refresh_interval: None,
    };
    let out = upsert_scheme(&mut schemes, &req, "h-1-0".to_string()).unwrap();
    assert_eq!(out.target_id, "h-1-0");
    assert!(out.should_apply);
    assert_eq!(schemes.len(), 1);
    assert_eq!(schemes[0].nature, NATURE_EXCLUSIVE);
    let blank = UpsertRequest { title: " ".to_string(), ..req };
    assert!(upsert_scheme(&mut schemes, &blank, "h-2-0".to_string()).is_err());
    assert_eq!(schemes.len(), 1);
}

#[test]
fn readonly_schemes_keep_their_content() {
    let mut ro = local("ro", "RO", "1.1.1.1 keep", false, NATURE_KEEP);
    ro.readonly = true;
    let mut schemes = vec![ro, local("rw", "RW", "2.2.2.2 old", false, NATURE_KEEP)];
    let edit = |id: &str| UpsertRequest {
        id: Some(id.to_string()),
        title: "New".to_string(),
        content: "9.9.9.9 new".to_string(),
        enabled: None,
        nature: None,
        scheme_type: None,
        url: None,
        refresh_interval: None,
    };
    upsert_scheme(&mut schemes, &edit("ro"), "h-9-0".to_string()).unwrap();
    upsert_scheme(&mut schemes, &edit("rw"), "h-9-1".to_string()).unwrap();
    assert_eq!(schemes[0].title, "New");
    assert_eq!(schemes[0].content, "1.1.1.1 keep");
    assert_eq!(schemes[1].content, "9.9.9.9 new");
}

#[test]
fn lines_keep_a_final_carriage_return() {
    assert_eq!(strip_managed_block("a\r"), "a\r\n");
    assert_eq!(strip_managed_block("a\r\nb"), "a\nb\n");
    assert_eq!(compose_hosts_file("a\r", ""), "a\r\n");
    assert_eq!(compose_hosts_file("a\r\r\n", ""), "a\r\n");
}

#[test]
fn due_remote_schemes() {
    let mut r = local("r", "R", "", true, NATURE_KEEP);
    r.scheme_type = TYPE_REMOTE.to_string();
    r.url = "http://x".to_string();
    r.refresh_interval = 60;
    r.last_refresh_ms = 1_000;
    let schemes = vec![r, local("l", "L", "", true, NATURE_KEEP)];
    assert!(due_refresh_ids(&schemes, 60_999).is_empty());
    assert_eq!(due_refresh_ids(&schemes, 61_000), vec!["r".to_string()]);
}

#[test]
fn managed_block_is_replaced_not_duplicated() {
    let base = "127.0.0.1 localhost\n";
    let first = compose_hosts_file(base, "1.1.1.1 a");
    let expected = format!("127.0.0.1 localhost\n\n{MARKER_BEGIN}\n1.1.1.1 a\n{MARKER_END}\n");
    assert_eq!(first, expected);
    let second = compose_hosts_file(&first, "2.2.2.2 b");
    assert_eq!(second, format!("127.0.0.1 localhost\n\n{MARKER_BEGIN}\n2.2.2.2 b\n{MARKER_END}\n"));
    assert_eq!(strip_managed_block(&second), "127.0.0.1 localhost\n\n");
    assert_eq!(compose_hosts_file(&second, "  "), "127.0.0.1 localhost\n\n");
}

#[test]
fn elevation_scripts_quote_their_paths() {
    assert_eq!(system_hosts_path(true), "C:\\Windows\\System32\\drivers\\etc\\hosts");
    assert_eq!(system_hosts_path(false), "/etc/hosts");
    assert!(should_elevate(false, false, true));
    assert!(!should_elevate(false, false, false));
    assert_eq!(
        windows_copy_script("C:\\t\\a'b.tmp", "C:\\hosts"),
        "Copy-Item -LiteralPath 'C:\\t\\a''b.tmp' -Destination 'C:\\hosts' -Force\r\n"
    );
    assert!(windows_elevate_command("C:\\x'.ps1").ends_with("'-File','C:\\x''.ps1'"));
    assert_eq!(
        macos_copy_script("/tmp/a\"b", "/etc/hosts"),
        "do shell script \"cp \\\"/tmp/a\\\"b\\\" \\\"/etc/hosts\\\"\" with administrator privileges"
    );
    let prepared = format!("x\n{MARKER_BEGIN}\ny\n");
    assert!(!elevated_copy_took_effect(&prepared, "x\n"));
    assert!(elevated_copy_took_effect(&prepared, &prepared));
    assert!(elevated_copy_took_effect("plain", "other"));
}

#[test]
fn a_new_apply_replaces_a_managed_block_with_padded_lines() {
    let existing = "127.0.0.1 localhost\n";
    let first = jdd_crypto::hosts_file::compose_hosts_file(existing, "\n  10.0.0.1 a.test  \n\t# a comment\n");
    let second = jdd_crypto::hosts_file::compose_hosts_file(&first, "10.0.0.2 b.test");
    assert_eq!(second, jdd_crypto::hosts_file::compose_hosts_file(existing, "10.0.0.2 b.test"));
    assert_eq!(
        second,
        "127.0.0.1 localhost\n\n# >>> jdd-crypto-hosts-begin\n10.0.0.2 b.test\n# <<< jdd-crypto-hosts-end\n"
    );
}
