use meowmic::settings::{
    autostart_on_save, autostart_sync, hotkey_bindings, offered_input_devices, tray_labels, AppSettings,
    AutostartChange, BgmConfig, HotkeyAction,
};

#[test]
fn default_settings() {
    let s = AppSettings::default();
    assert_eq!(s.hotkey, "Ctrl+Shift+D");
    assert!(s.hotkey_enabled);
    assert_eq!(s.hotkey_explode, "");
    assert!(!s.hotkey_explode_enabled);
    assert_eq!(s.hotkey_monitor, "");
    assert_eq!(s.hotkey_bgm, "");
    assert_eq!(s.hotkey_eq, "");
    assert!(!s.autostart);
    assert_eq!(s.language, "zh-CN");
}

#[test]
fn default_bgm_config_is_empty() {
    let c = BgmConfig::default();
    assert!(c.process_names.is_empty());
    assert!(c.process_pids.is_empty());
}

#[test]
fn empty_key_combinations_are_not_registered() {
    let b = hotkey_bindings("Ctrl+D", "", "F9", "", "F10");
    assert_eq!(
        b,
        vec![
            ("Ctrl+D".to_string(), HotkeyAction::Denoise),
            ("F9".to_string(), HotkeyAction::Monitor),
            ("F10".to_string(), HotkeyAction::Eq),
        ]
    );
    assert!(hotkey_bindings("", "", "", "", "").is_empty());
}

#[test]
fn startup_registers_enabled_slots_only() {
    let mut s = AppSettings::default();
    s.hotkey_explode = "F8".to_string();
    s.hotkey_explode_enabled = false;
    s.hotkey_bgm = "F7".to_string();
    s.hotkey_bgm_enabled = true;
    s.hotkey_eq_enabled = true;
    let b = s.startup_bindings();
    assert_eq!(
        b,
        vec![("Ctrl+Shift+D".to_string(), HotkeyAction::Denoise), ("F7".to_string(), HotkeyAction::Bgm)]
    );
}

#[test]
fn event_names() {
    assert_eq!(HotkeyAction::Denoise.event_name(), "toggle-denoise");
    assert_eq!(HotkeyAction::Explode.event_name(), "toggle-explode");
    assert_eq!(HotkeyAction::Monitor.event_name(), "toggle-monitor");
    assert_eq!(HotkeyAction::Bgm.event_name(), "toggle-bgm");
    assert_eq!(HotkeyAction::Eq.event_name(), "toggle-eq");
}

#[test]
fn autostart_is_brought_in_line() {
    assert_eq!(autostart_sync(true, false), AutostartChange::Enable);
    assert_eq!(autostart_sync(false, true), AutostartChange::Disable);
    assert_eq!(autostart_sync(true, true), AutostartChange::Keep);
    assert_eq!(autostart_sync(false, false), AutostartChange::Keep);
    assert_eq!(autostart_on_save(true), AutostartChange::Enable);
    assert_eq!(autostart_on_save(false), AutostartChange::Disable);
}

#[test]
fn tray_labels_by_language() {
    let (a, b, c) = tray_labels("en");
    assert_eq!((a.as_str(), b.as_str(), c.as_str()), ("Show Window", "Hide Window", "Quit"));
    let (a, b, c) = tray_labels("zh-CN");
    assert_eq!((a.as_str(), b.as_str(), c.as_str()), ("显示窗口", "隐藏窗口", "退出"));
    let (a, _, _) = tray_labels("EN");
    assert_eq!(a, "显示窗口");
}

#[test]
fn cable_output_is_not_offered_as_input() {
    let names = vec![
        "Microphone (USB)".to_string(),
        "CABLE Output (VB-Audio Virtual Cable)".to_string(),
        "Line In".to_string(),
    ];
    assert_eq!(
        offered_input_devices(&names),
        vec!["Microphone (USB)".to_string(), "Line In".to_string()]
    );
}
