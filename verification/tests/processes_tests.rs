use meowmic::processes::{
    app_names, clean_window_title, first_found, distinct_named, friendly_name, is_known_player, known_app_name,
    registry_key_paths, session_offered, strip_exe_suffix, unique_pids, version_queries, window_title,
};

#[test]
fn table_has_all_known_applications() {
    let t = app_names();
    assert_eq!(t.len(), 23);
    assert_eq!(t[0], ("qqbrowser", "QQ 浏览器"));
    assert_eq!(t[22], ("qq", "QQ"));
}

#[test]
fn longest_matching_fragment_wins() {
    assert_eq!(known_app_name("qqmusic.exe"), Some("QQ 音乐"));
    assert_eq!(known_app_name("qq.exe"), Some("QQ"));
    assert_eq!(known_app_name("obs64.exe"), Some("OBS Studio"));
    assert_eq!(known_app_name("cloudmusic.exe"), Some("网易云音乐"));
    assert_eq!(known_app_name("notepad.exe"), None);
}

#[test]
fn later_entry_wins_a_tie() {
    // "kuwo" and "aimp" are both four characters long; "aimp" comes later.
    assert_eq!(known_app_name("kuwoaimp.exe"), Some("AIMP"));
}

#[test]
fn known_players() {
    assert!(is_known_player("spotify.exe"));
    assert!(is_known_player("chrome.exe"));
    assert!(!is_known_player("notepad.exe"));
}

#[test]
fn offered_sessions() {
    assert!(!session_offered(0, 5, true, "spotify.exe"));
    assert!(!session_offered(5, 5, true, "spotify.exe"));
    assert!(session_offered(7, 5, false, "spotify.exe"));
    assert!(!session_offered(7, 5, false, "notepad.exe"));
    assert!(session_offered(7, 5, true, "notepad.exe"));
}

#[test]
fn window_titles_lose_dynamic_parts() {
    assert_eq!(clean_window_title("OBS 32.1.2 - 配置文件: xxx - 场景: xxx"), "OBS");
    assert_eq!(clean_window_title("Player 2"), "Player 2");
    assert_eq!(clean_window_title("App 1."), "App");
    assert_eq!(clean_window_title("Version .."), "Version");
    assert_eq!(clean_window_title("Media Player"), "Media Player");
    assert_eq!(clean_window_title("NoSpaces"), "NoSpaces");
}

#[test]
fn short_prefix_keeps_the_whole_title() {
    assert_eq!(clean_window_title("A - B"), "A - B");
    assert_eq!(clean_window_title("中 - B"), "中");
    assert_eq!(clean_window_title(" - x"), " - x");
}

#[test]
fn exe_suffix_is_stripped() {
    assert_eq!(strip_exe_suffix("foobar2000.exe"), "foobar2000");
    assert_eq!(strip_exe_suffix("tool.EXE"), "tool.EXE");
    assert_eq!(strip_exe_suffix(".exe"), "");
    assert_eq!(strip_exe_suffix("exe"), "exe");
}

#[test]
fn friendly_name_order() {
    assert_eq!(friendly_name("spotify.exe", "Spotify.exe", Some("Song - Artist"), Some("Desc"), None, None), "Spotify");
    assert_eq!(friendly_name("game.exe", "Game.exe", Some("My Game 1.2 - Level"), Some("Desc"), None, None), "My Game");
    assert_eq!(friendly_name("game.exe", "Game.exe", Some("X"), Some("Desc"), Some("Reg"), None), "Desc");
    assert_eq!(friendly_name("game.exe", "Game.exe", None, None, Some("Reg"), Some("Prod")), "Reg");
    assert_eq!(friendly_name("game.exe", "Game.exe", None, None, None, Some("Prod")), "Prod");
    assert_eq!(friendly_name("game.exe", "Game.exe", None, None, None, None), "Game");
}

#[test]
fn pids_are_deduplicated_in_order() {
    assert_eq!(unique_pids(&[3, 1, 3, 2, 1]), vec![3, 1, 2]);
    assert_eq!(unique_pids(&[]), Vec::<u32>::new());
}

#[test]
fn empty_and_repeated_names_are_dropped() {
    let entries = vec![
        ("A".to_string(), "a.exe".to_string(), 1u32),
        ("".to_string(), "b.exe".to_string(), 2u32),
        ("A".to_string(), "c.exe".to_string(), 3u32),
        ("B".to_string(), "d.exe".to_string(), 4u32),
    ];
    let kept = distinct_named(entries);
    assert_eq!(
        kept,
        vec![("A".to_string(), "a.exe".to_string(), 1u32), ("B".to_string(), "d.exe".to_string(), 4u32)]
    );
}

#[test]
fn registry_paths_for_an_executable() {
    let p = registry_key_paths("foo");
    assert_eq!(p[0], "SOFTWARE\\Microsoft\\Windows\\CurrentVersion\\App Paths\\foo.exe");
    assert_eq!(p[1], "SOFTWARE\\WOW6432Node\\Microsoft\\Windows\\CurrentVersion\\Uninstall\\foo");
    assert_eq!(p[2], "SOFTWARE\\Microsoft\\Windows\\CurrentVersion\\Uninstall\\foo");
}

#[test]
fn version_queries_start_with_the_declared_language() {
    let q = version_queries(Some((0x0409, 0x04E4)), "ProductName");
    assert_eq!(q.len(), 5);
    assert_eq!(q[0], "\\StringFileInfo\\040904E4\\ProductName");
    assert_eq!(q[1], "\\StringFileInfo\\080404B0\\ProductName");
    assert_eq!(q[4], "\\StringFileInfo\\040404B0\\ProductName");
    let q = version_queries(Some((0xABCD, 0x0F00)), "FileDescription");
    assert_eq!(q[0], format!("\\StringFileInfo\\{:04X}{:04X}\\FileDescription", 0xABCDu16, 0x0F00u16));
    let q = version_queries(None, "FileDescription");
    assert_eq!(q.len(), 4);
    assert_eq!(q[0], "\\StringFileInfo\\080404B0\\FileDescription");
}

#[test]
fn first_found_value_that_is_not_empty() {
    let values = vec![None, Some(String::new()), Some("Foo Player".to_string()), Some("Bar".to_string())];
    assert_eq!(first_found(&values), Some("Foo Player".to_string()));
    assert_eq!(first_found(&[None, Some(String::new())]), None);
    assert_eq!(first_found(&[]), None);
}

#[test]
fn last_visible_titled_window_names_the_process() {
    let windows = vec![
        (7, true, "First".to_string()),
        (8, true, "Other".to_string()),
        (7, false, "Hidden".to_string()),
        (7, true, "Second".to_string()),
        (7, true, String::new()),
    ];
    assert_eq!(window_title(&windows, 7), Some("Second".to_string()));
    assert_eq!(window_title(&windows, 8), Some("Other".to_string()));
    assert_eq!(window_title(&windows, 9), None);
}
