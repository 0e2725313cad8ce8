use vanta::engine::{get_suggestions, search, EngineMetrics, Metrics, ProviderConfig, SearchConfig};
use vanta::files::{make_file_entry, rebuild, search_index};
use vanta::history::UsageMap;
use vanta::matcher::{fuzzy_search, ResultSource};
use vanta::scanner::AppEntry;
use vanta::windows::{collect_sway_windows, SwayNode, WindowEntry, WindowsCache};

fn app(name: &str, generic: Option<&str>, comment: Option<&str>, exec: &str) -> AppEntry {
    AppEntry {
        name: name.to_string(),
        generic_name: generic.map(|s| s.to_string()),
        comment: comment.map(|s| s.to_string()),
        exec_cmd: exec.to_string(),
        icon: None,
        categories: Vec::new(),
        terminal: false,
        startup_wm_class: None,
        desktop_file_path: String::new(),
    }
}

fn all_enabled() -> SearchConfig {
    SearchConfig {
        applications: ProviderConfig { enabled: true, weight: 100 },
        windows: ProviderConfig { enabled: false, weight: 100 },
        calculator: ProviderConfig { enabled: true, weight: 100 },
        files: ProviderConfig { enabled: true, weight: 100 },
    }
}

#[test]
fn test_fuzzy_search_matches_name() {
    let apps = vec![app("Firefox", Some("Web Browser"), None, "firefox %u"), app(
        "Files",
        None,
        None,
        "nautilus",
    )];
    let usage = UsageMap::new();
    let r = fuzzy_search("firef", &apps, 8, &usage);
    assert_eq!(r.len(), 1);
    assert_eq!(r[0].title, "Firefox");
    assert_eq!(r[0].exec_cmd, "firefox %u");
    assert!(!r[0].match_indices.is_empty());
}

#[test]
fn test_fuzzy_search_empty_query_is_empty() {
    let apps = vec![app("Firefox", None, None, "firefox")];
    let usage = UsageMap::new();
    assert!(fuzzy_search("", &apps, 8, &usage).is_empty());
}

#[test]
fn test_fuzzy_search_usage_bonus_reorders() {
    let apps = vec![app("Terminal A", None, None, "terma"), app("Terminal B", None, None, "termb")];
    let mut usage = UsageMap::new();
    for _ in 0..10 {
        usage.bump("termb");
    }
    let r = fuzzy_search("terminal", &apps, 8, &usage);
    assert_eq!(r.len(), 2);
    assert_eq!(r[0].exec_cmd, "termb", "the frequently used entry ranks first");
}

#[test]
fn test_fuzzy_search_name_beats_comment_field() {
    let apps = vec![
        app("calc", None, Some("calc utility calc"), "calc-a"),
        app("calc", None, None, "calc-b"),
    ];
    let usage = UsageMap::new();
    let r = fuzzy_search("calc", &apps, 8, &usage);
    assert_eq!(r.len(), 2);
    assert_eq!(r[0].score, r[1].score, "a comment match never adds to a name match");
}

#[test]
fn test_fuzzy_search_truncates() {
    let apps = vec![
        app("Term 1", None, None, "t1"),
        app("Term 2", None, None, "t2"),
        app("Term 3", None, None, "t3"),
    ];
    let usage = UsageMap::new();
    assert_eq!(fuzzy_search("term", &apps, 2, &usage).len(), 2);
}

#[test]
fn test_file_entry_icon_tags() {
    let e = make_file_entry("Report.PDF".to_string(), "/h/Report.PDF".to_string(), false);
    assert_eq!(e.name, "report.pdf");
    assert_eq!(e.icon, "file:pdf");
    let d = make_file_entry("Documents".to_string(), "/h/Documents".to_string(), true);
    assert_eq!(d.icon, "dir");
    let n = make_file_entry("README".to_string(), "/h/README".to_string(), false);
    assert_eq!(n.icon, "file");
}

#[test]
fn test_search_index_prefix_strip_and_case() {
    let index = vec![
        make_file_entry("Documents".to_string(), "/h/Documents".to_string(), true),
        make_file_entry("notes.txt".to_string(), "/h/notes.txt".to_string(), false),
    ];
    let r = search_index(&index, "~/Doc", 10);
    assert_eq!(r.len(), 1);
    assert_eq!(r[0].title, "Documents");
    assert_eq!(r[0].score, 50);
    assert!(matches!(r[0].source, ResultSource::File));
}

#[test]
fn test_search_index_empty_term_lists_up_to_limit() {
    let mut index = Vec::new();
    for i in 0..30 {
        let name = format!("file{}", i);
        index.push(make_file_entry(name.clone(), format!("/h/{}", name), false));
    }
    assert_eq!(search_index(&index, "~/", 10).len(), 10);
    assert_eq!(search_index(&index, "/", 40).len(), 30);
}

#[test]
fn test_rebuild_replaces_snapshot() {
    let mut index = vec![make_file_entry("a".to_string(), "/a".to_string(), false)];
    rebuild(&mut index, Vec::new());
    assert!(index.is_empty());
}

#[test]
fn test_search_calculator_result() {
    let apps = Vec::new();
    let windows = Vec::new();
    let index = Vec::new();
    let usage = UsageMap::new();
    let r = search("2+2", &apps, &windows, &index, &usage, &all_enabled(), "/home/u", 8);
    assert_eq!(r.len(), 1);
    assert_eq!(r[0].title, "= 4");
    assert_eq!(r[0].exec_cmd, "copy:4");
    assert!(matches!(r[0].source, ResultSource::Calculator));
    assert_eq!(r[0].score, 900000);
}

#[test]
fn test_search_file_mode_is_exclusive() {
    let apps = vec![app("Doc Viewer", None, None, "docview")];
    let windows = Vec::new();
    let index = vec![make_file_entry("Documents".to_string(), "/h/Documents".to_string(), true)];
    let usage = UsageMap::new();
    let r = search("/Doc", &apps, &windows, &index, &usage, &all_enabled(), "/home/u", 8);
    assert_eq!(r.len(), 1);
    assert_eq!(r[0].title, "Documents");
    assert_eq!(r[0].score, 50, "a weight of 100 leaves the base score");
}

#[test]
fn test_search_file_mode_disabled_returns_nothing() {
    let mut cfg = all_enabled();
    cfg.files.enabled = false;
    let apps = vec![app("Doc Viewer", None, None, "docview")];
    let index = vec![make_file_entry("Documents".to_string(), "/h/Documents".to_string(), true)];
    let usage = UsageMap::new();
    let r = search("/Doc", &apps, &Vec::new(), &index, &usage, &cfg, "/home/u", 8);
    assert!(r.is_empty());
}

#[test]
fn test_search_install_missing_path_is_web_script() {
    let usage = UsageMap::new();
    let r = search(
        "install /tmp/missing",
        &Vec::new(),
        &Vec::new(),
        &Vec::new(),
        &usage,
        &all_enabled(),
        "/tmp/nonexistent-home",
        8,
    );
    assert!(!r.is_empty());
    assert_eq!(r[0].title, "Install Web Script: /tmp/missing");
    assert_eq!(r[0].exec_cmd, "install:/tmp/missing");
    assert_eq!(r[0].score, 1000000);
}

#[test]
fn test_search_window_results() {
    let mut cfg = all_enabled();
    cfg.windows.enabled = true;
    cfg.windows.weight = 100;
    let windows = vec![WindowEntry {
        title: "Mail - Inbox".to_string(),
        class: "mailer".to_string(),
        address: "0x77".to_string(),
        workspace: "3".to_string(),
    }];
    let usage = UsageMap::new();
    let r = search("inbox", &Vec::new(), &windows, &Vec::new(), &usage, &cfg, "/h", 8);
    assert_eq!(r.len(), 1);
    assert_eq!(r[0].exec_cmd, "focus:0x77");
    assert_eq!(r[0].score, 950000);
    assert_eq!(r[0].subtitle.as_deref(), Some("Switch to Window (Workspace 3)"));
}

#[test]
fn test_get_suggestions_ranks_by_usage() {
    let apps = vec![app("A", None, None, "a"), app("B", None, None, "b")];
    let mut usage = UsageMap::new();
    for _ in 0..5 {
        usage.bump("b");
    }
    let r = get_suggestions(&apps, &usage, 8, true, 100);
    assert_eq!(r.len(), 2);
    assert_eq!(r[0].title, "B");
    assert_eq!(r[0].score, 100);
    assert!(get_suggestions(&apps, &usage, 8, false, 100).is_empty());
    assert_eq!(get_suggestions(&apps, &usage, 1, true, 100).len(), 1);
}

#[test]
fn test_metrics_record_latency() {
    let mut m = Metrics::new();
    m.record_latency(5);
    m.record_latency(3);
    m.record_latency(9);
    assert_eq!(m.calls, 3);
    assert_eq!(m.total_ms, 17);
    assert_eq!(m.max_ms, 9);
    let e = EngineMetrics::new();
    assert_eq!(e.search.calls, 0);
}

#[test]
fn test_windows_cache_ttl() {
    let mut c = WindowsCache::new();
    assert!(!c.is_fresh(1000));
    c.store(Vec::new(), 1000);
    assert!(c.is_fresh(1399));
    assert!(!c.is_fresh(1400));
}

fn leaf(id: i64, name: Option<&str>, pid: Option<i32>) -> SwayNode {
    SwayNode {
        id,
        name: name.map(|s| s.to_string()),
        app_id: Some("term".to_string()),
        window_properties: None,
        nodes: Vec::new(),
        floating_nodes: Vec::new(),
        pid,
        focused: false,
    }
}

#[test]
fn test_collect_sway_windows() {
    let mut root = leaf(1, None, None);
    root.nodes.push(leaf(10, Some("Editor"), Some(42)));
    root.nodes.push(leaf(11, Some(""), Some(43)));
    root.floating_nodes.push(leaf(12, Some("Float"), Some(44)));
    let mut out = Vec::new();
    collect_sway_windows(&root, &mut out);
    assert_eq!(out.len(), 2);
    assert_eq!(out[0].title, "Editor");
    assert_eq!(out[0].address, "10");
    assert_eq!(out[0].workspace, "Unknown");
    assert_eq!(out[1].title, "Float");
}

use vanta::windows::list_windows;

#[test]
fn test_list_windows_respects_ttl() {
    let mut c = WindowsCache::new();
    c.store(
        vec![WindowEntry {
            title: "T".to_string(),
            class: "c".to_string(),
            address: "1".to_string(),
            workspace: "1".to_string(),
        }],
        1000,
    );
    assert_eq!(list_windows(&c, 1200).unwrap().len(), 1);
    assert!(list_windows(&c, 1400).is_none());
}
