use vanta::history::{History, UsageMap};
use vanta::math::evaluate;
use vanta::{usage_bonus, weighted_score};

#[test]
fn test_usage_bonus_values() {
    assert_eq!(usage_bonus(0), 0);
    assert_eq!(usage_bonus(1), 5);
    assert_eq!(usage_bonus(39), 195);
    assert_eq!(usage_bonus(40), 200);
    assert_eq!(usage_bonus(u32::MAX), 200);
}

#[test]
fn test_weighted_score_scaling() {
    assert_eq!(weighted_score(1000, 50), 500);
    assert_eq!(weighted_score(1000, 100), 1000);
    assert_eq!(weighted_score(1000, 300), 3000);
    assert_eq!(weighted_score(900000, 100), 900000);
}

#[test]
fn test_weighted_score_clamps() {
    assert_eq!(weighted_score(1000, 0), 100);
    assert_eq!(weighted_score(1000, 9), 100);
    assert_eq!(weighted_score(1000, 1000), 3000);
}

#[test]
fn test_weighted_score_saturates() {
    assert_eq!(weighted_score(u32::MAX, 300), u32::MAX);
    assert_eq!(weighted_score(u32::MAX, 100), u32::MAX);
}

#[test]
fn test_usage_map_counts() {
    let mut m = UsageMap::new();
    assert_eq!(m.get("firefox"), 0);
    m.bump("firefox");
    m.bump("firefox");
    m.bump("htop");
    assert_eq!(m.get("firefox"), 2);
    assert_eq!(m.get("htop"), 1);
    assert_eq!(m.get("other"), 0);
}

#[test]
fn test_usage_map_from_pairs_first_wins() {
    let m = UsageMap::from_pairs(vec![
        ("a".to_string(), 7),
        ("b".to_string(), 2),
        ("a".to_string(), 99),
    ]);
    assert_eq!(m.get("a"), 7);
    assert_eq!(m.get("b"), 2);
}

#[test]
fn test_history_debounce_count() {
    let mut h = History::new(1000);
    let mut flushed = 0;
    for i in 0..19 {
        let f = h.increment("app", 1000 + i);
        assert!(!f, "no flush within the first nineteen increments");
        if f {
            flushed += 1;
        }
    }
    let f20 = h.increment("app", 1020);
    assert!(f20, "the twentieth increment flushes");
    assert_eq!(flushed, 0);
    assert_eq!(h.get_usage("app"), 20);
}

#[test]
fn test_history_debounce_time() {
    let mut h = History::new(1000);
    assert!(!h.increment("x", 1500));
    assert!(h.increment("x", 3100), "two seconds after the last flush a flush is due");
    assert!(!h.increment("x", 3200));
}

#[test]
fn test_history_pending() {
    let mut h = History::new(0);
    assert!(!h.has_pending());
    h.increment("x", 100);
    assert!(h.has_pending());
    h.mark_flushed(200);
    assert!(!h.has_pending());
}

#[test]
fn test_evaluate_simple() {
    assert_eq!(evaluate("2+2").as_deref(), Some("4"));
    assert_eq!(evaluate(" 6*7 ").as_deref(), Some("42"));
}

#[test]
fn test_evaluate_rejects_text_without_digits() {
    assert!(evaluate("vanta").is_none());
    assert!(evaluate("pi").is_none());
    assert!(evaluate("").is_none());
    assert!(evaluate("   ").is_none());
}

#[test]
fn test_evaluate_rejects_malformed() {
    assert!(evaluate("2++").is_none());
    assert!(evaluate("1/0").is_none(), "an infinite value is no match");
}

use vanta::errors::VantaError;

#[test]
fn test_error_messages() {
    assert_eq!(VantaError::Config("bad key".to_string()).message(), "Config error: bad key");
    assert_eq!(VantaError::Scanner("x".to_string()).message(), "Scanner error: x");
    assert_eq!(VantaError::Matcher("x".to_string()).message(), "Matcher error: x");
    assert_eq!(VantaError::Window("x".to_string()).message(), "Window error: x");
    assert_eq!(VantaError::Script("x".to_string()).message(), "Script error: x");
    assert_eq!(VantaError::Io("x".to_string()).message(), "I/O error: x");
}

#[test]
fn test_config_defaults() {
    let c = vanta::config::FilesConfig::default();
    assert_eq!(c.max_depth, 3);
    assert!(!c.include_hidden);
    assert_eq!(c.file_manager, "default");
    assert_eq!(vanta::config::default_max_depth(), 3);
    assert_eq!(vanta::config::default_opener(), "default");
    assert_eq!(vanta::config::default_theme(), "default");
    assert!(vanta::config::config_path().ends_with("/vanta/config.json"));
}
