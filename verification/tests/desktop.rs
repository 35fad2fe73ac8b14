use jdd_crypto::autostart::{autostart_sync, load_pref, AutostartSync};
use jdd_crypto::brightness::{
    bubble_height, ddc_level, ddc_reading, list_displays, list_displays_macos,
    set_display_brightness, set_display_brightness_macos, set_display_brightness_other, wmi_error_message, wmi_set_script,
    Backend, MonitorProbe,
};
use jdd_crypto::clipboard::{classify_clipboard, watch_poll};
use jdd_crypto::commands::{
    accept_clipboard_action, crypto_transform, navigate_hint, set_badge_size_pref,
    take_pending_app_update, CryptoRequest,
};
use jdd_crypto::compare_mode::{
    accept_capture, get_pending_compare_bubble, report_fail, report_plain, toggle,
    CompareSession, CompareToggle, ReportOutcome,
};
use jdd_crypto::json::{JsonField, JsonValue};
use jdd_crypto::mouse_follow::{
    capture_hint, click_step, double_click_interval, double_click_tolerance, is_double_click,
    start_follow, stop_follow, toggle_follow, ClickTracker, FollowToggle,
};
use jdd_crypto::mouse_trail::{
    cursor_feed_step, normalize_color, normalize_effect, overlay_action, overlay_label,
    parse_overlay_index, pref_from_store, pref_with_color, pref_with_color_reset,
    MouseTrailPref, OverlayAction,
};
use jdd_crypto::overlay_toast::{
    schedule_show, take_pending, toast_center_origin, toast_message, toast_window_width,
};
use jdd_crypto::screensaver::{normalize_background, normalize_clock, pref_from_store_value};
use jdd_crypto::shortcuts::{
    check_shortcut_shape, conflict_checks, conflict_verdict, ensure_no_conflict, is_modifier,
    pressed_is, registration_plan, shortcut_matches, validate_shortcut, ShortcutOwner,
};
use jdd_crypto::spotlight::{
    clear_keys_down, hook_hide_request, key_hook_event, key_poll, normalize_size,
    reset_shake, shake_step, ShakeState, WM_KEYDOWN, WM_KEYUP,
};
use jdd_crypto::state::{normalize_badge_size, AppState};
use jdd_crypto::tray::{handle_menu_id, tray_click, tray_tooltip, MenuAction, TrayButton};
use jdd_crypto::windows::{
    clamp_origin_to_work_area, feature_spec, is_short_bubble_text, monitor_for_point,
    nearest_work_area, normalize_theme_pref, popup_origin, rects_intersect, relocation_target,
    WorkArea,
};

#[test]
fn overlay_labels_round_trip() {
    assert_eq!(overlay_label(3), "mouse-trail-3");
    assert_eq!(parse_overlay_index(&overlay_label(17)), Some(17));
    assert_eq!(parse_overlay_index("mouse-trail-"), None);
    assert_eq!(parse_overlay_index("spotlight-1"), None);
    assert_eq!(jdd_crypto::spotlight::parse_overlay_index("spotlight-7"), Some(7));
    assert_eq!(jdd_crypto::spotlight::parse_overlay_index("spotlight-8"), None);
}

#[test]
fn trail_colours_and_effects_normalise_once() {
    assert_eq!(normalize_effect("dots"), "dots");
    assert_eq!(normalize_effect("sparkles"), "ribbon");
    assert_eq!(normalize_color("  ##A1b2C3 ", "#000000"), "#a1b2c3");
    assert_eq!(normalize_color("red", "#F8EC85"), "#f8ec85");
    assert_eq!(normalize_color("red", "nope"), "#ffffff");
    let once = normalize_color(" #ABCDEF", "#000000");
    assert_eq!(normalize_color(&once, "#000000"), once);
    let stored = MouseTrailPref {
        enabled: true,
        effect: "x".to_string(),
        colors: jdd_crypto::mouse_trail::MouseTrailColors {
            meteor: "bad".to_string(),
            dots: "#00FF00".to_string(),
            heart: "".to_string(),
        },
    };
    let p = pref_from_store(Some(stored));
    assert!(p.enabled);
    assert_eq!(p.effect, "ribbon");
    assert_eq!(p.colors.meteor, "#f8ec85");
    assert_eq!(p.colors.dots, "#00ff00");
    assert_eq!(p.colors.heart, "#ff2ec8");
    let d = pref_from_store(None);
    assert!(!d.enabled);
    assert_eq!(d.colors.meteor, "#F8EC85");
}

#[test]
fn trail_colour_changes() {
    let p = pref_from_store(None);
    assert_eq!(
        pref_with_color(p, "ribbon", "#123456").err(),
        Some("该特效不支持自定义颜色".to_string())
    );
    let p = pref_with_color(pref_from_store(None), "heart", "#ABCDEF").unwrap();
    assert_eq!(p.colors.heart, "#abcdef");
    assert_eq!(p.colors.meteor, "#F8EC85");
    let p = pref_with_color_reset(p, "heart").unwrap();
    assert_eq!(p.colors.heart, "#FF2EC8");
}

#[test]
fn cursor_feed_sends_moves_once() {
    let (last, emit, wait) = cursor_feed_step(None, true, Some((1, 2)));
    assert_eq!(last, Some((1, 2)));
    assert!(emit.is_some());
    assert_eq!(wait, 33);
    let (_, emit, _) = cursor_feed_step(last, true, Some((1, 2)));
    assert!(emit.is_none());
    let (last, emit, wait) = cursor_feed_step(Some((1, 2)), false, Some((5, 5)));
    assert_eq!((last, emit.is_none(), wait), (None, true, 100));
}

#[test]
fn overlay_plan() {
    assert!(matches!(overlay_action(2, 2, true, true), OverlayAction::Close));
    assert!(matches!(overlay_action(2, 2, false, true), OverlayAction::Nothing));
    assert!(matches!(overlay_action(0, 2, true, false), OverlayAction::Update { show: false }));
    assert!(matches!(overlay_action(1, 2, false, true), OverlayAction::Create));
    assert!(matches!(overlay_action(1, 2, false, false), OverlayAction::Nothing));
    assert!(matches!(
        jdd_crypto::spotlight::overlay_action(0, 2, true, false),
        OverlayAction::Close
    ));
}

/// A back-and-forth path: `legs` strokes of `steps` moves of `step` pixels each.
fn zigzag(steps: i32, step: i32, legs: i32) -> Vec<i32> {
    let mut out = vec![0];
    let mut x = 0;
    for leg in 0..legs {
        let dir = if leg % 2 == 0 { 1 } else { -1 };
        for _ in 0..steps {
            x += dir * step;
            out.push(x);
        }
    }
    out
}

fn run_shake(path: &[i32], dt: u64) -> (ShakeState, bool) {
    let mut s = reset_shake();
    let mut fired = false;
    let mut t = 1_000u64;
    for &x in path {
        let (next, f) = shake_step(s, x, 500, t);
        s = next;
        fired = fired || f;
        t += dt;
    }
    (s, fired)
}

#[test]
fn four_quick_reversals_make_a_shake() {
    let (s, fired) = run_shake(&zigzag(5, 20, 5), 20);
    assert!(fired);
    assert_eq!(s.reversals, 0);
    let (_, fired) = run_shake(&zigzag(5, 20, 4), 20);
    assert!(!fired);
}

#[test]
fn slow_or_small_moves_are_no_shake() {
    let (_, fired) = run_shake(&zigzag(5, 20, 5), 100);
    assert!(!fired);
    let (_, fired) = run_shake(&zigzag(3, 10, 9), 20);
    assert!(!fired);
    let (_, fired) = run_shake(&zigzag(1, 100, 9), 20);
    assert!(!fired);
}

#[test]
fn spotlight_keys_and_size() {
    assert_eq!(normalize_size(10, 120, 400), 120);
    assert_eq!(normalize_size(999, 120, 400), 400);
    assert_eq!(normalize_size(200, 120, 400), 200);
    let mut keys = clear_keys_down();
    assert!(key_hook_event(&mut keys, WM_KEYDOWN, 0x41, 0));
    assert!(!key_hook_event(&mut keys, WM_KEYDOWN, 0x41, 0));
    assert!(!key_hook_event(&mut keys, WM_KEYUP, 0x41, 0));
    assert!(key_hook_event(&mut keys, WM_KEYDOWN, 0x141, 0));
    assert_eq!(hook_hide_request(true, true, true), (false, true));
    assert_eq!(hook_hide_request(true, true, false), (true, false));
    assert_eq!(hook_hide_request(false, true, true), (false, false));
    let mut prev = vec![false; 128];
    let mut now = vec![false; 128];
    now[5] = true;
    now[9] = true;
    assert!(key_poll(&mut prev, &now));
    assert!(prev[5] == false && prev[9] == false);
}

#[test]
fn shortcut_shapes() {
    assert_eq!(check_shortcut_shape(" ctrl + shift +G ").unwrap(), "ctrl+shift+G");
    assert_eq!(
        check_shortcut_shape("G").err(),
        Some("快捷键需为 2–4 个键，且包含修饰键和主键".to_string())
    );
    assert_eq!(
        check_shortcut_shape("Ctrl+Shift").err(),
        Some("至少需要一个修饰键和一个主键".to_string())
    );
    assert!(check_shortcut_shape("Ctrl+Alt+Shift+Meta+K").is_err());
    assert!(is_modifier("COMMAND"));
    assert!(!is_modifier("K"));
    assert_eq!(validate_shortcut("Ctrl+Shift+G").unwrap(), "Ctrl+Shift+G");
    assert!(validate_shortcut("Ctrl+Shift+NoSuchKey").is_err());
}

#[test]
fn shortcut_conflicts_and_registration() {
    let checks = conflict_checks(ShortcutOwner::Compare, "Ctrl+Shift+G", "Ctrl+Shift+D", "Ctrl+Shift+H", "Ctrl+Shift+B");
    assert_eq!(checks.len(), 11);
    assert!(checks[8].skip);
    let mut ids: Vec<Result<u32, String>> = (0..11).map(|i| Ok(100 + i)).collect();
    assert!(conflict_verdict(7, &checks, &ids).is_ok());
    assert_eq!(
        conflict_verdict(107, &checks, &ids).err(),
        Some("与鼠标跟随快捷键 Ctrl+Shift+G 冲突".to_string())
    );
    assert!(conflict_verdict(108, &checks, &ids).is_ok());
    assert_eq!(
        conflict_verdict(100, &checks, &ids).err(),
        Some("与固定快捷键 Ctrl+T 冲突".to_string())
    );
    ids[2] = Err("bad".to_string());
    assert_eq!(conflict_verdict(7, &checks, &ids).err(), Some("bad".to_string()));
    let plan = registration_plan(true, "A+1", false, "B+2", true, "C+3", false, "D+4");
    assert_eq!(
        plan,
        vec!["A+1", "Ctrl+T", "Ctrl+1", "Ctrl+2", "Ctrl+3", "Ctrl+4", "Ctrl+5", "Ctrl+6", "C+3"]
    );
    assert!(shortcut_matches(true, 5, &Ok(5)));
    assert!(!shortcut_matches(false, 5, &Ok(5)));
    assert!(!shortcut_matches(true, 5, &Err("x".to_string())));
}

#[test]
fn follow_toggles_and_saves_the_way_home() {
    let mut state = AppState::default();
    assert!(matches!(toggle_follow(&state), FollowToggle::Start));
    assert!(start_follow(&mut state, Some(Some((10, 20)))));
    assert!(state.mouse_follow_enabled);
    assert_eq!(state.saved_badge_pos, Some((10, 20)));
    assert!(matches!(toggle_follow(&state), FollowToggle::Stop));
    stop_follow(&mut state);
    assert!(state.mouse_follow_returning && !state.mouse_follow_enabled);
    start_follow(&mut state, Some(Some((99, 99))));
    assert_eq!(state.saved_badge_pos, Some((10, 20)));
    state.mouse_follow_pref_enabled = false;
    assert!(matches!(toggle_follow(&state), FollowToggle::Ignored));
}

#[test]
fn clicks_drags_and_double_clicks() {
    assert_eq!(double_click_interval(0), 1);
    assert_eq!(double_click_interval(500), 500);
    assert_eq!(double_click_tolerance(2, 9), (4, 9));
    assert!(is_double_click(Some((100, 5, 5)), (7, 6), 400, 500, (4, 4)));
    assert!(!is_double_click(Some((100, 5, 5)), (7, 6), 700, 500, (4, 4)));
    assert!(!is_double_click(None, (7, 6), 400, 500, (4, 4)));
    let t = ClickTracker { was_down: false, press: (0, 0), last_short_up: None };
    let (t, c) = click_step(t, (10, 10), true, 0, 500, (4, 4));
    assert!(!c);
    let (t, c) = click_step(t, (30, 10), false, 10, 500, (4, 4));
    assert!(c);
    let (t, c) = click_step(t, (50, 50), true, 20, 500, (4, 4));
    assert!(!c);
    let (t, c) = click_step(t, (50, 51), false, 30, 500, (4, 4));
    assert!(!c);
    assert_eq!(t.last_short_up, Some((30, 50, 50)));
    let (t, _) = click_step(t, (51, 50), true, 100, 500, (4, 4));
    let (_, c) = click_step(t, (51, 50), false, 120, 500, (4, 4));
    assert!(c);
}

#[test]
fn captured_text_becomes_a_hint() {
    let mut state = AppState::default();
    let (hint, bubble) = capture_hint(&mut state, "SGVsbG8gV29ybGQhISEh".to_string());
    assert_eq!(hint.mode, "decrypt");
    assert!(bubble);
    assert_eq!(state.last_clipboard, "SGVsbG8gV29ybGQhISEh");
    let long = "字".repeat(1101);
    let (hint, bubble) = capture_hint(&mut state, long);
    assert_eq!(hint.mode, "encrypt");
    assert!(!bubble);
}

#[test]
fn clipboard_kinds_and_watching() {
    assert_eq!(classify_clipboard("   "), "unknown");
    assert_eq!(classify_clipboard("SGVsbG8g V29y bGQh ISEh"), "maybe_cipher");
    assert_eq!(classify_clipboard("SGVsbG8gV29ybGQ"), "maybe_plain");
    assert_eq!(classify_clipboard("hello world, plain text!"), "maybe_plain");
    let mut state = AppState::default();
    let c = watch_poll(&mut state, Some("hello".to_string())).unwrap();
    assert_eq!(c.kind, "maybe_plain");
    assert!(watch_poll(&mut state, Some("hello".to_string())).is_none());
    assert!(watch_poll(&mut state, Some("  ".to_string())).is_none());
    state.mouse_follow_enabled = true;
    assert!(watch_poll(&mut state, Some("other".to_string())).is_none());
}

#[test]
fn compare_session_flow() {
    let mut state = AppState::default();
    let mut session = CompareSession::new();
    assert!(matches!(toggle(&mut state, &mut session), CompareToggle::Started));
    assert!(accept_capture(&mut state, &session, "cipher"));
    assert!(!accept_capture(&mut state, &session, "   "));
    assert!(matches!(report_plain(&state, &mut session, "   "), ReportOutcome::Ignored));
    assert!(matches!(report_plain(&state, &mut session, " left "), ReportOutcome::AskSecond));
    match report_plain(&state, &mut session, " right ") {
        ReportOutcome::ShowBubble(p) => {
            assert_eq!(p.left, "left");
            assert_eq!(p.right, "right");
        }
        _ => panic!("expected a bubble"),
    }
    assert_eq!(get_pending_compare_bubble(&session).map(|p| p.left), Some("left".to_string()));
    assert!(matches!(report_plain(&state, &mut session, "again"), ReportOutcome::Ignored));
    assert!(report_fail(&state));
    assert!(matches!(toggle(&mut state, &mut session), CompareToggle::Stopped));
    assert!(get_pending_compare_bubble(&session).is_none());
    assert!(!report_fail(&state));
}

#[test]
fn window_geometry() {
    assert!(rects_intersect(0, 0, 10, 10, 5, 5, 10, 10));
    assert!(!rects_intersect(0, 0, 10, 10, 10, 0, 10, 10));
    let a = WorkArea { x: 0, y: 0, width: 1920, height: 1080 };
    let b = WorkArea { x: 1920, y: 0, width: 1280, height: 1024 };
    assert_eq!(nearest_work_area(3500, 100, &[a, b]), Some(1));
    assert_eq!(nearest_work_area(-50, 100, &[a, b]), Some(0));
    assert_eq!(nearest_work_area(0, 0, &[]), None);
    assert_eq!(clamp_origin_to_work_area(5000, -40, 300, 200, &b), (2900, 0));
    assert_eq!(relocation_target("main", 5000, 100, 300, 200, &[a, b]), Some((2900, 100)));
    assert_eq!(relocation_target("main", 100, 100, 300, 200, &[a, b]), None);
    assert_eq!(relocation_target("mouse-trail-0", 5000, 100, 300, 200, &[a, b]), None);
    assert_eq!(monitor_for_point(2000, 10, &[a, b]), Some(1));
    assert_eq!(monitor_for_point(-5, -5, &[a, b]), Some(0));
    assert_eq!(popup_origin(1900, 1070, 16, Some(a), 244, 116), (1676, 964));
    assert_eq!(popup_origin(10, 10, 16, None, 244, 116), (26, 26));
    assert_eq!(normalize_theme_pref("dark"), "dark");
    assert_eq!(normalize_theme_pref("blue"), "system");
    assert!(is_short_bubble_text(&"a".repeat(1100)));
    assert!(!is_short_bubble_text(&"a".repeat(1101)));
    assert_eq!(feature_spec("about").map(|f| (f.width, f.height)), Some((480, 420)));
    assert!(feature_spec("hosts").is_none());
}

#[test]
fn toast_width_and_position() {
    assert_eq!(toast_window_width("hi"), 320);
    assert_eq!(toast_window_width(&"字".repeat(30)), 514);
    assert_eq!(toast_window_width(&"x".repeat(500)), 1100);
    assert_eq!(toast_message("  "), None);
    assert_eq!(toast_message(" ok "), Some("ok".to_string()));
    let mut pending = Some("m".to_string());
    assert_eq!(take_pending(&mut pending), Some("m".to_string()));
    assert_eq!(take_pending(&mut pending), None);
    let w = WorkArea { x: 0, y: 0, width: 1000, height: 800 };
    assert_eq!(toast_center_origin(w, 400, 56), (300, 372));
    assert_eq!(toast_center_origin(w, 5000, 56), (12, 372));
    let small = WorkArea { x: 0, y: 0, width: 10, height: 10 };
    assert_eq!(toast_center_origin(small, 100, 57), (12, -23));
}

#[test]
fn brightness_list_binds_wmi_to_the_laptop_panel() {
    let probes = vec![
        MonitorProbe {
            handle: 1,
            device_name: "\\\\.\\DISPLAY1".to_string(),
            ddc: None,
        },
        MonitorProbe {
            handle: 2,
            device_name: "ignored".to_string(),
            ddc: Some(ddc_reading(0, 70, 0, " ".to_string())),
        },
    ];
    let (out, cache) = list_displays(probes, vec![("PANEL_0".to_string(), 40), ("EXTRA".to_string(), 60)]);
    assert_eq!(out.len(), 3);
    assert_eq!(out[0].name, "内建屏幕 1");
    assert_eq!((out[0].brightness, out[0].supported), (40, true));
    assert_eq!(out[1].name, "显示器 2");
    assert_eq!((out[1].brightness, out[1].max), (70, 1));
    assert_eq!(out[2].id, "disp-2");
    assert_eq!(out[2].name, "内建屏幕 3");
    assert!(matches!(set_display_brightness(&cache, "disp-0"), Ok(Backend::Wmi { .. })));
    assert!(matches!(set_display_brightness(&cache, "disp-1"), Ok(Backend::Ddc { hmonitor: 2 })));
    assert_eq!(
        set_display_brightness(&cache, "disp-9").err(),
        Some("未找到显示器，请重新打开亮度面板".to_string())
    );
    assert_eq!(ddc_level(150, 10, 100), 100);
    assert_eq!(ddc_level(5, 10, 100), 10);
    assert_eq!(ddc_level(50, 10, 0), 10);
    assert!(wmi_set_script("A'B", 250).contains("-eq 'A''B' }"));
    assert!(wmi_set_script("A", 250).contains("Brightness=100}"));
    assert_eq!(wmi_error_message("  "), "调节内建亮度失败");
    assert_eq!(wmi_error_message(" boom "), "调节内建亮度失败: boom");
    assert_eq!(bubble_height(0), 128);
    assert_eq!(bubble_height(3), 272);
    assert_eq!(bubble_height(50), 800);
    assert_eq!(list_displays_macos(7)[0].id, "cg-7");
    assert!(set_display_brightness_macos().is_err());
    assert_eq!(set_display_brightness_other(), Err("当前平台不支持调节亮度".to_string()));
}

#[test]
fn tray_and_menu() {
    assert!(matches!(handle_menu_id("quit"), MenuAction::Quit));
    assert!(matches!(handle_menu_id("hosts"), MenuAction::ShowFeature("hosts")));
    assert!(matches!(handle_menu_id("other"), MenuAction::Nothing));
    assert!(matches!(tray_click(TrayButton::Left, true), MenuAction::ShowMain));
    assert!(matches!(tray_click(TrayButton::Middle, false), MenuAction::Nothing));
    assert_eq!(
        tray_tooltip("0.4.3"),
        "多多解密 v0.4.3\n左键打开加解密主界面\n中键打开 Host 管理\n右击打开菜单"
    );
}

#[test]
fn commands_over_the_state() {
    let mut state = AppState::default();
    assert!(accept_clipboard_action(&mut state, "encrypt", Some("  ".to_string())).is_none());
    state.last_candidate = Some(jdd_crypto::state::ClipboardCandidate {
        text: "from prompt".to_string(),
        kind: "maybe_plain".to_string(),
    });
    let (hint, bubble) = accept_clipboard_action(&mut state, "other", None).unwrap();
    assert_eq!((hint.text.as_str(), hint.mode.as_str(), bubble), ("from prompt", "decrypt", true));
    assert!(state.last_candidate.is_none());
    let (hint, _) = accept_clipboard_action(&mut state, "encrypt", Some(" t ".to_string())).unwrap();
    assert_eq!((hint.text.as_str(), hint.mode.as_str()), ("t", "encrypt"));
    assert_eq!(set_badge_size_pref(&mut state, 50), Some(false));
    assert_eq!(state.badge_size, 68);
    state.mouse_follow_enabled = true;
    assert_eq!(set_badge_size_pref(&mut state, 96), None);
    assert_eq!(state.badge_size, 96);
    assert_eq!(normalize_badge_size(0), 0);
    assert_eq!(normalize_badge_size(1), 68);
    assert!(take_pending_app_update(&mut state).is_none());
    assert!(navigate_hint(Some("encrypt".to_string()), None).is_none());
    let req = CryptoRequest {
        mode: "encrypt".to_string(),
        algorithm: "aes".to_string(),
        key_id: None,
        iv_id: None,
        plaintext: Some("p".to_string()),
        ciphertext: None,
    };
    assert_eq!(
        crypto_transform(req).err(),
        Some("crypto_transform is a stub (mode=encrypt, plaintext=p, ciphertext=)".to_string())
    );
}

#[test]
fn screensaver_and_autostart_prefs() {
    assert_eq!(normalize_background("snow"), "snow");
    assert_eq!(normalize_background("rain"), "parallax");
    assert_eq!(normalize_clock("off"), "off");
    assert_eq!(normalize_clock("digital"), "lcd3d");
    let legacy = JsonValue::Object(vec![JsonField {
        key: "effect".to_string(),
        value: JsonValue::Str("corona".to_string()),
    }]);
    let p = pref_from_store_value(&legacy);
    assert_eq!((p.background.as_str(), p.clock.as_str()), ("corona", "lcd3d"));
    let modern = JsonValue::Object(vec![
        JsonField { key: "background".to_string(), value: JsonValue::Str("x".to_string()) },
        JsonField { key: "clock".to_string(), value: JsonValue::Str("analog".to_string()) },
    ]);
    let p = pref_from_store_value(&modern);
    assert_eq!((p.background.as_str(), p.clock.as_str()), ("parallax", "analog"));
    assert!(matches!(autostart_sync(None, true), AutostartSync::RecordEnabled));
    assert!(matches!(autostart_sync(Some(true), false), AutostartSync::Enable));
    assert!(matches!(autostart_sync(Some(true), true), AutostartSync::Nothing));
    assert!(matches!(autostart_sync(Some(false), false), AutostartSync::Nothing));
    assert!(!load_pref(None));
}

#[test]
fn conflicts_and_presses_go_by_the_parsed_hotkey() {
    let slots = ("Ctrl+Shift+G", "Ctrl+Shift+D", "Ctrl+Shift+H", "Ctrl+Shift+B");
    assert_eq!(
        ensure_no_conflict("ctrl+t", ShortcutOwner::MouseFollow, slots.0, slots.1, slots.2, slots.3),
        Err("与固定快捷键 Ctrl+T 冲突".to_string())
    );
    assert_eq!(
        ensure_no_conflict("Shift+Ctrl+D", ShortcutOwner::MouseFollow, slots.0, slots.1, slots.2, slots.3),
        Err("与对照模式快捷键 Ctrl+Shift+D 冲突".to_string())
    );
    assert_eq!(
        ensure_no_conflict("Ctrl+Shift+G", ShortcutOwner::MouseFollow, slots.0, slots.1, slots.2, slots.3),
        Ok(())
    );
    assert!(ensure_no_conflict("Ctrl+Nope", ShortcutOwner::Compare, slots.0, slots.1, slots.2, slots.3).is_err());

    let id = "Ctrl+Shift+G".parse::<global_hotkey::hotkey::HotKey>().unwrap().id();
    assert!(pressed_is(true, id, "shift+ctrl+g"));
    assert!(!pressed_is(false, id, "Ctrl+Shift+G"));
    assert!(!pressed_is(true, id ^ 1, "Ctrl+Shift+G"));
    assert!(!pressed_is(true, id, "Ctrl+NoSuchKey"));
}

#[test]
fn toast_show_trims_and_skips_blank_messages() {
    let mut pending = Some("older".to_string());
    assert_eq!(schedule_show(&mut pending, "   "), None);
    assert_eq!(pending, Some("older".to_string()));
    assert_eq!(schedule_show(&mut pending, "  已复制  "), Some("已复制".to_string()));
    assert_eq!(pending, Some("已复制".to_string()));
    assert_eq!(take_pending(&mut pending), Some("已复制".to_string()));
    assert_eq!(pending, None);
}

#[test]
fn shortcut_validation_follows_the_parser() {
    assert_eq!(validate_shortcut(" Ctrl + Shift + G ").unwrap(), "Ctrl+Shift+G");
    assert_eq!(validate_shortcut("Ctrl+Shift+G").unwrap(), "Ctrl+Shift+G");
    let err = validate_shortcut("Ctrl+Shift+NoSuchKey").unwrap_err();
    let parser = "Ctrl+Shift+NoSuchKey".parse::<global_hotkey::hotkey::HotKey>().unwrap_err();
    assert_eq!(err, parser.to_string());
    assert!(validate_shortcut("Shift+Ctrl+G+Alt").is_err());
}
