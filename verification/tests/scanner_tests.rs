use vanta::scanner::{parse_desktop_file, scan_desktop_entries, DesktopFile};

#[test]
fn test_parse_desktop_file_fields() {
    let text = "[Desktop Entry]\nName=Firefox\nGenericName=Web Browser\nComment=Browse the Web\nExec=firefox %u\nIcon=firefox\nTerminal=false\nStartupWMClass=firefox\nCategories=Network;WebBrowser;\n";
    let e = parse_desktop_file("/usr/share/applications/firefox.desktop", text).unwrap();
    assert_eq!(e.name, "Firefox");
    assert_eq!(e.generic_name.as_deref(), Some("Web Browser"));
    assert_eq!(e.comment.as_deref(), Some("Browse the Web"));
    assert_eq!(e.exec_cmd, "firefox %u");
    assert_eq!(e.icon.as_deref(), Some("firefox"));
    assert_eq!(e.categories, vec!["Network".to_string(), "WebBrowser".to_string()]);
    assert!(!e.terminal);
    assert_eq!(e.startup_wm_class.as_deref(), Some("firefox"));
    assert_eq!(e.desktop_file_path, "/usr/share/applications/firefox.desktop");
}

#[test]
fn test_parse_desktop_file_requires_name_and_exec() {
    assert!(parse_desktop_file("/a", "[Desktop Entry]\nName=OnlyName\n").is_none());
    assert!(parse_desktop_file("/a", "[Desktop Entry]\nExec=only-exec\n").is_none());
}

#[test]
fn test_parse_desktop_file_skips_hidden() {
    let t = "[Desktop Entry]\nName=X\nExec=x\nNoDisplay=true\n";
    assert!(parse_desktop_file("/a", t).is_none());
    let t2 = "[Desktop Entry]\nName=X\nExec=x\nHidden=TRUE\n";
    assert!(parse_desktop_file("/a", t2).is_none());
}

#[test]
fn test_parse_desktop_file_ignores_other_sections() {
    let t = "[Desktop Entry]\nName=X\nExec=x\n[Desktop Action New]\nName=Other\n";
    let e = parse_desktop_file("/a", t).unwrap();
    assert_eq!(e.name, "X");
}

fn file(path: &str, name: &str, exec: &str) -> DesktopFile {
    DesktopFile {
        path: path.to_string(),
        contents: format!("[Desktop Entry]\nName={}\nExec={}\n", name, exec),
    }
}

#[test]
fn test_scan_dedup_first_directory_wins() {
    let files = vec![
        file("/usr/share/applications/edit.desktop", "Editor", "system-editor"),
        file("/home/u/.local/share/applications/edit.desktop", "Editor", "user-editor"),
    ];
    let entries = scan_desktop_entries(&files);
    let editors: Vec<_> = entries.iter().filter(|e| e.name == "Editor").collect();
    assert_eq!(editors.len(), 1, "exactly one entry survives per name");
    assert_eq!(editors[0].exec_cmd, "system-editor", "the higher-priority directory wins");
}

#[test]
fn test_scan_injects_store_entry_and_sorts() {
    let files = vec![file("/a/zz.desktop", "zz", "zz"), file("/a/aa.desktop", "aa", "aa")];
    let entries = scan_desktop_entries(&files);
    assert_eq!(entries.len(), 3);
    assert!(entries.iter().any(|e| e.name == "Install Script (Vanta Store)"));
    let names: Vec<_> = entries.iter().map(|e| e.name.to_lowercase()).collect();
    let mut sorted = names.clone();
    sorted.sort();
    assert_eq!(names, sorted);
}

use vanta::scanner::IconCache;

#[test]
fn test_icon_cache_ops() {
    let mut c = IconCache::new();
    assert!(c.get("firefox").is_none());
    c.insert("firefox", "/usr/share/icons/firefox.png");
    assert_eq!(c.get("firefox").as_deref(), Some("/usr/share/icons/firefox.png"));
    c.insert("firefox", "/new/path.png");
    assert_eq!(c.get("firefox").as_deref(), Some("/new/path.png"));
    c.insert("term", "/t.png");
    c.remove("firefox");
    assert!(c.get("firefox").is_none());
    assert_eq!(c.get("term").as_deref(), Some("/t.png"));
}

#[test]
fn test_icon_cache_from_pairs_first_wins() {
    let c = IconCache::from_pairs(vec![
        ("a".to_string(), "/one".to_string()),
        ("a".to_string(), "/two".to_string()),
    ]);
    assert_eq!(c.get("a").as_deref(), Some("/one"));
}
