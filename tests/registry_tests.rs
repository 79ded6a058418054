use peek_datastore::registry::AppRegistry;
use peek_datastore::themes::{
    is_valid_color_scheme, theme_info, theme_state, ThemeManifest,
};

#[test]
fn windows_are_keyed_by_label() {
    let mut reg = AppRegistry::new();
    reg.register_window("main", "app", "peek://app/index.html", 10);
    reg.register_window("settings", "app", "peek://app/settings.html", 20);
    reg.register_window("main", "ext", "peek://ext/page.html", 30);
    let windows = reg.list_windows();
    assert_eq!(windows.len(), 2);
    assert_eq!(windows[0].label, "main");
    assert_eq!(windows[0].source, "ext");
    assert_eq!(windows[0].url, "peek://ext/page.html");
    assert_eq!(windows[0].created_at, 30);
    reg.unregister_window("main");
    reg.unregister_window("missing");
    let windows = reg.list_windows();
    assert_eq!(windows.len(), 1);
    assert_eq!(windows[0].label, "settings");
}

#[test]
fn commands_are_keyed_by_name() {
    let mut reg = AppRegistry::new();
    reg.register_command("open", "Open a page", "core");
    reg.register_command("note", "Add a note", "notes");
    reg.register_command("open", "Open anything", "ext");
    let all = reg.get_all_commands();
    assert_eq!(all.len(), 2);
    assert_eq!(all[0].name, "open");
    assert_eq!(all[0].description, "Open anything");
    reg.unregister_command("open");
    assert_eq!(reg.get_all_commands().len(), 1);
}

#[test]
fn shortcuts_are_found_by_host_format() {
    let mut reg = AppRegistry::new();
    reg.register_shortcut("Option+Space", "Alt+Space", "main");
    let s = reg.find_shortcut("Alt+Space").expect("registered");
    assert_eq!(s.original, "Option+Space");
    assert_eq!(s.source, "main");
    assert!(reg.find_shortcut("Option+Space").is_none());
    reg.unregister_shortcut("Alt+Space");
    assert!(reg.find_shortcut("Alt+Space").is_none());
}

#[test]
fn color_schemes() {
    assert!(is_valid_color_scheme("system"));
    assert!(is_valid_color_scheme("light"));
    assert!(is_valid_color_scheme("dark"));
    assert!(!is_valid_color_scheme("blue"));
    let s = theme_state("basic".to_string(), "system".to_string());
    assert!(s.is_dark);
    assert_eq!(s.effective_scheme, "dark");
    let s = theme_state("basic".to_string(), "light".to_string());
    assert!(!s.is_dark);
    assert_eq!(s.effective_scheme, "light");
    assert_eq!(s.theme_id, "basic");
}

#[test]
fn theme_info_defaults() {
    let m = ThemeManifest { id: "dark".to_string(), name: None, version: None, description: None };
    let info = theme_info("dark-registered", &m);
    assert_eq!(info.id, "dark");
    assert_eq!(info.name, "dark-registered");
    assert_eq!(info.version, "1.0.0");
    let m = ThemeManifest {
        id: "x".to_string(),
        name: Some("X".to_string()),
        version: Some("2.0.0".to_string()),
        description: None,
    };
    let info = theme_info("x", &m);
    assert_eq!(info.name, "X");
    assert_eq!(info.version, "2.0.0");
}
