use vanta::launcher::{plan_launch, strip_field_codes, LaunchPlan};

#[test]
fn test_strip_field_codes_basic() {
    assert_eq!(strip_field_codes("firefox %u"), "firefox");
    assert_eq!(strip_field_codes("code %F"), "code");
    assert_eq!(strip_field_codes("nautilus %U"), "nautilus");
}

#[test]
fn test_strip_field_codes_no_codes() {
    assert_eq!(strip_field_codes("htop"), "htop");
    assert_eq!(strip_field_codes("alacritty -e vim"), "alacritty -e vim");
}

#[test]
fn test_strip_field_codes_literal_percent() {
    assert_eq!(strip_field_codes("echo %%"), "echo %");
}

#[test]
fn test_strip_field_codes_multiple() {
    assert_eq!(strip_field_codes("cmd %f --flag %U"), "cmd --flag");
}

#[test]
fn test_plan_launch_install() {
    match plan_launch("install:https://example.org/pack") {
        Ok(LaunchPlan::Install(url)) => assert_eq!(url, "https://example.org/pack"),
        _ => panic!("expected an install plan"),
    }
}

#[test]
fn test_plan_launch_install_empty_is_error() {
    assert!(plan_launch("install:").is_err());
}

#[test]
fn test_plan_launch_focus() {
    match plan_launch("focus:0xdeadbeef") {
        Ok(LaunchPlan::Focus(addr)) => assert_eq!(addr, "0xdeadbeef"),
        _ => panic!("expected a focus plan"),
    }
}

#[test]
fn test_plan_launch_command_cleans_codes() {
    match plan_launch("firefox %u") {
        Ok(LaunchPlan::Command(cmd)) => assert_eq!(cmd, "firefox"),
        _ => panic!("expected a command plan"),
    }
}

#[test]
fn test_plan_launch_empty_command_is_error() {
    assert!(plan_launch("%u").is_err());
}
