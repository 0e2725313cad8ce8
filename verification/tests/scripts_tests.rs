use vanta::scripts::{
    default_urgency, find_script_by_keyword, interpret_script_result, parse_script_metadata,
    parse_script_output, scan_scripts, ScriptSource, Urgency, WaitOutcome,
};

#[test]
fn test_parse_script_output() {
    let json = r#"{"items": [{"title": "Hello", "subtitle": "World", "action": {"type": "copy", "value": "hello"}}]}"#;
    let output = parse_script_output(json).unwrap();
    assert_eq!(output.items.len(), 1);
    assert_eq!(output.items[0].title, "Hello");
    assert!(output.items[0].action.is_some());
}

#[test]
fn test_parse_script_output_minimal() {
    let json = r#"{"items": [{"title": "Minimal"}]}"#;
    let output = parse_script_output(json).unwrap();
    assert_eq!(output.items.len(), 1);
    assert_eq!(output.items[0].title, "Minimal");
    assert!(output.items[0].action.is_none());
    assert!(output.items[0].badge.is_none());
    assert!(matches!(output.items[0].urgency, Urgency::Normal));
}

#[test]
fn test_parse_script_output_with_badge_and_urgency() {
    let json = r#"{"items": [{"title": "CPU", "badge": "90%", "urgency": "critical"}]}"#;
    let output = parse_script_output(json).unwrap();
    assert_eq!(output.items[0].badge.as_deref(), Some("90%"));
    assert!(matches!(output.items[0].urgency, Urgency::Critical));
}

#[test]
fn test_invalid_json_errors() {
    let result = parse_script_output("not json");
    assert!(result.is_err());
}

#[test]
fn test_parse_output_rejects_missing_title() {
    assert!(parse_script_output(r#"{"items": [{"subtitle": "x"}]}"#).is_err());
}

#[test]
fn test_parse_output_ignores_unknown_fields() {
    let json = r#"{"items": [{"title": "T", "extra": [1, 2.5, {"k": null}], "n": -3e2}]}"#;
    let output = parse_script_output(json).unwrap();
    assert_eq!(output.items[0].title, "T");
}

#[test]
fn test_parse_output_string_escapes() {
    let json = "{\"items\": [{\"title\": \"a\\n\\t\\\"b\\u0041\"}]}";
    let output = parse_script_output(json).unwrap();
    assert_eq!(output.items[0].title, "a\n\t\"bA");
}

#[test]
fn test_default_urgency_is_normal() {
    assert!(matches!(default_urgency(), Urgency::Normal));
}

#[test]
fn test_parse_script_metadata_keys() {
    let head = "#!/bin/sh\n# vanta:name=Weather\n# vanta:description=Shows weather\n# vanta:icon=cloud\n# vanta:other=ignored\n# vanta:name=TooLate";
    let (name, description, icon) = parse_script_metadata(head);
    assert_eq!(name.as_deref(), Some("Weather"));
    assert_eq!(description.as_deref(), Some("Shows weather"));
    assert_eq!(icon.as_deref(), Some("cloud"));
}

#[test]
fn test_parse_script_metadata_slash_comments() {
    let head = "// vanta:name=Node Tool\nconsole.log(1);";
    let (name, description, icon) = parse_script_metadata(head);
    assert_eq!(name.as_deref(), Some("Node Tool"));
    assert!(description.is_none());
    assert!(icon.is_none());
}

fn src(stem: &str, path: &str) -> ScriptSource {
    ScriptSource { stem: stem.to_string(), path: path.to_string(), head: String::new() }
}

#[test]
fn test_scan_scripts_sorted_and_skips_empty_stems() {
    let files = vec![src("zeta", "/s/zeta.sh"), src("", "/s/.hidden"), src("alpha", "/s/alpha.py")];
    let entries = scan_scripts(&files);
    assert_eq!(entries.len(), 2);
    assert_eq!(entries[0].keyword, "alpha");
    assert_eq!(entries[1].keyword, "zeta");
}

#[test]
fn test_find_script_by_keyword() {
    let files = vec![src("a", "/s/a.sh"), src("b", "/s/b.sh")];
    assert_eq!(find_script_by_keyword(&files, "b").unwrap(), "/s/b.sh");
    let err = find_script_by_keyword(&files, "c").unwrap_err();
    assert_eq!(err, "Script 'c' not found");
}

#[test]
fn test_interpret_timeout() {
    let r = interpret_script_result("clock", 5000, WaitOutcome::TimedOut, "", "");
    assert_eq!(r.unwrap_err(), "Script 'clock' timed out after 5000ms");
}

#[test]
fn test_interpret_nonzero_exit_uses_stderr_first_line() {
    let r = interpret_script_result(
        "w",
        1000,
        WaitOutcome::Completed(false, Some(2)),
        "",
        "boom happened\nmore detail",
    );
    assert_eq!(r.unwrap_err(), "Script 'w' error: boom happened");
}

#[test]
fn test_interpret_nonzero_exit_without_stderr_reports_code() {
    let r = interpret_script_result("w", 1000, WaitOutcome::Completed(false, Some(3)), "", "");
    assert_eq!(r.unwrap_err(), "Script 'w' exited with code Some(3)");
}

#[test]
fn test_interpret_empty_output() {
    let r = interpret_script_result("w", 1000, WaitOutcome::Completed(true, Some(0)), "  \n", "");
    assert_eq!(r.unwrap_err(), "Script 'w' produced no output");
}

#[test]
fn test_interpret_success() {
    let r = interpret_script_result(
        "w",
        1000,
        WaitOutcome::Completed(true, Some(0)),
        " {\"items\": [{\"title\": \"Ok\"}]} \n",
        "",
    );
    assert_eq!(r.unwrap().items[0].title, "Ok");
}

#[test]
fn test_interpret_invalid_output_message() {
    let r = interpret_script_result("w", 1000, WaitOutcome::Completed(true, Some(0)), "nope", "");
    assert_eq!(r.unwrap_err(), "Invalid JSON output from 'w'. Run the script manually to debug.");
}

use vanta::scripts::build_script_invocation;

#[test]
fn test_build_script_invocation_splits_args() {
    let files = vec![src("greet", "/s/greet.sh")];
    let (path, argv) = build_script_invocation(&files, "greet", "hello 'big world'").unwrap();
    assert_eq!(path, "/s/greet.sh");
    assert_eq!(argv, vec!["hello".to_string(), "big world".to_string()]);
}

#[test]
fn test_build_script_invocation_rejects_bad_quoting() {
    let files = vec![src("greet", "/s/greet.sh")];
    let err = build_script_invocation(&files, "greet", "'oops").unwrap_err();
    assert_eq!(err, "Invalid script args for 'greet': missing closing quote");
}

#[test]
fn test_scan_scripts_stem_collision_last_wins() {
    let files = vec![src("todo", "/s/todo.sh"), src("other", "/s/other.sh"), src("todo", "/s/todo.py")];
    let entries = scan_scripts(&files);
    assert_eq!(entries.len(), 2);
    let todo: Vec<_> = entries.iter().filter(|e| e.keyword == "todo").collect();
    assert_eq!(todo.len(), 1, "one entry per keyword");
    assert_eq!(todo[0].path, "/s/todo.py", "the last-scanned file owns the keyword");
}

#[test]
fn test_find_script_stem_collision_last_wins() {
    let files = vec![src("todo", "/s/todo.sh"), src("todo", "/s/todo.py")];
    assert_eq!(find_script_by_keyword(&files, "todo").unwrap(), "/s/todo.py");
}
