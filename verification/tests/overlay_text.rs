use mci_client::{
    button_colors, button_visual, closes_label, error_update, font_height, label_height, load_settings_values,
    loword, next_click_count, reload_update, reset_failure_update, rgb, run_gui, save_settings,
    start_action, text_color, timer_interval_ms, tray_action, validate_settings, values_update,
    wrap_label_text, DotEnvStore, LabelKind, MciError, TrayAction, SETTINGS_SAVE,
};

#[test]
fn colours_are_colorrefs() {
    assert_eq!(rgb(1, 2, 3), 0x030201);
    assert_eq!(text_color(LabelKind::Normal, false), 0x008000);
    assert_eq!(text_color(LabelKind::Error, true), rgb(255, 140, 140));
    assert_eq!(text_color(LabelKind::Busy, false), rgb(184, 134, 11));
    assert_eq!(loword(0x1234_5678), 0x5678);
}

#[test]
fn wraps_words_and_breaks_long_ones() {
    let long = "a".repeat(100);
    assert_eq!(wrap_label_text(&long), format!("{}\n{}", "a".repeat(78), "a".repeat(22)));
    assert_eq!(wrap_label_text("Error:   a  b\n\nc"), "Error: a b\n\nc");
    let words = vec!["word"; 20].join(" ");
    let wrapped = wrap_label_text(&words);
    for line in wrapped.lines() {
        assert!(line.chars().count() <= 78);
    }
    assert_eq!(wrapped.split_whitespace().count(), 20);
    assert_eq!(wrap_label_text(""), "");
}

#[test]
fn value_labels() {
    let labels = vec!["  13018.87 MB".to_string(), "     1.00 MB".to_string()];
    let u = values_update(&labels, false);
    assert_eq!(u.text, "  13018.87 MB\n     1.00 MB");
    assert_eq!(u.kind, LabelKind::Normal);
    assert_eq!(values_update(&vec![], false).text, "No unusedAmount found");
    assert_eq!(values_update(&vec![], true).text, "Session reset\nNo unusedAmount found");
    let r = reload_update(Err("timeout"), false);
    assert_eq!((r.text.as_str(), r.kind), ("Error: timeout", LabelKind::Error));
    assert_eq!(reload_update(Ok(&labels), true).text, "Session reset\n  13018.87 MB\n     1.00 MB");
    assert_eq!(reset_failure_update("denied").text, "Reset failed: denied");
    assert_eq!(error_update("x").kind, LabelKind::Error);
}

#[test]
fn starting_a_fetch() {
    let s = start_action(false, Some("Loading..."));
    assert!(s.spawn);
    assert_eq!(s.label.unwrap().text, "Loading...");
    let busy = start_action(true, Some("Reloading..."));
    assert!(!busy.spawn);
    let label = busy.label.unwrap();
    assert_eq!((label.text.as_str(), label.kind), ("Busy...", LabelKind::Busy));
    let timer = start_action(true, None);
    assert!(!timer.spawn && timer.label.is_none());
}

#[test]
fn window_geometry_and_timing() {
    assert_eq!(label_height("one line"), 36);
    assert_eq!(label_height("a\nb\nc"), 84);
    assert_eq!(label_height(&"x\n".repeat(40)), 360);
    assert_eq!(label_height(""), 36);
    assert_eq!(timer_interval_ms(10), 10_000);
    assert_eq!(timer_interval_ms(0), 250);
    assert_eq!(timer_interval_ms(u64::MAX), u32::MAX);
    assert_eq!(font_height(14), -18);
    assert_eq!(font_height(100), -96);
    assert_eq!(font_height(1), -10);
}

#[test]
fn triple_right_click_closes() {
    let one = next_click_count(0, false);
    let two = next_click_count(one, true);
    let three = next_click_count(two, true);
    assert!(!closes_label(two));
    assert!(closes_label(three));
    assert_eq!(next_click_count(255, true), 255);
    assert_eq!(next_click_count(5, false), 1);
}

#[test]
fn tray_menu_choices() {
    assert_eq!(tray_action(1001), Some(TrayAction::Manage));
    assert_eq!(tray_action(1002), Some(TrayAction::Reload));
    assert_eq!(tray_action(1003), Some(TrayAction::Reset));
    assert_eq!(tray_action(1004), Some(TrayAction::Quit));
    assert_eq!(tray_action(7), None);
}

#[test]
fn settings_defaults_and_stored_values() {
    let d = load_settings_values(None, 0);
    assert_eq!(d.username, "");
    assert_eq!(d.interval_seconds, 1);
    assert_eq!(d.label_font, "IRANSansWeb");
    assert_eq!(d.label_font_size, 14);
    let env = DotEnvStore::new(
        ".env",
        Some("MCI_USERNAME=u\nPULL_INTERVAL_SECONDS=0\nMCI_LABEL_FONT_FAMILY=\"  \"\nMCI_LABEL_FONT_SIZE=80\n"),
    );
    let v = load_settings_values(Some(&env), 25);
    assert_eq!(v.username, "u");
    assert_eq!(v.interval_seconds, 25);
    assert_eq!(v.label_font, "IRANSansWeb");
    assert_eq!(v.label_font_size, 14);
}

#[test]
fn entered_settings_are_checked_and_read_back() {
    assert!(matches!(
        validate_settings("u", "p", "0", "", "14"),
        Err("Error: Pull interval must be a positive number")
    ));
    assert!(matches!(
        validate_settings("u", "p", "10", "", "7"),
        Err("Error: Label size must be between 8 and 72")
    ));
    let v = validate_settings(" u ", " p ", " 30 ", "  Tahoma ", " 20 ").unwrap();
    assert_eq!(v.username, "u");
    assert_eq!(v.password, " p ");
    assert_eq!(v.interval_seconds, 30);
    assert_eq!(v.label_font, "Tahoma");
    assert_eq!(v.label_font_size, 20);
    let mut env = DotEnvStore::new(".env", None);
    save_settings(&mut env, &v);
    let again = DotEnvStore::new(".env", Some(&env.render()));
    let back = load_settings_values(Some(&again), 10);
    assert_eq!(
        (back.username, back.password, back.interval_seconds, back.label_font, back.label_font_size),
        (v.username, v.password, v.interval_seconds, v.label_font, v.label_font_size)
    );
}

#[test]
fn button_looks() {
    let save = button_visual(SETTINGS_SAVE).unwrap();
    assert_eq!(save.label, "Save changes");
    assert_eq!(save.fill, rgb(20, 111, 237));
    assert_eq!(button_visual(2013).unwrap().label, "Close");
    assert!(button_visual(2000).is_none());
}

#[test]
fn label_mode_needs_win32_here() {
    match run_gui(".env", 10) {
        Err(MciError::Gui(m)) => assert_eq!(m, "GUI mode is currently implemented for Windows only."),
        other => panic!("unexpected {other:?}"),
    }
}

#[test]
fn button_colours_follow_its_state() {
    let save = button_visual(SETTINGS_SAVE).unwrap();
    assert_eq!(button_colors(&save, false, false, false), (save.fill, save.text));
    assert_eq!(button_colors(&save, false, false, true), (save.hot_fill, save.text));
    assert_eq!(button_colors(&save, false, true, true), (save.pressed_fill, save.text));
    assert_eq!(
        button_colors(&save, true, true, true),
        (rgb(235, 238, 242), rgb(142, 153, 166))
    );
}
