use rusty_pee::strict::{
    format_spawn_failure, format_unknown_flag, parse_argv, pre_scan_strict_flag, UnknownFlag,
};

fn argv(parts: &[&str]) -> Vec<String> {
    parts.iter().map(|s| String::from(*s)).collect()
}

#[test]
fn parse_no_flags_yields_no_commands() {
    let r = parse_argv(&argv(&["pee"])).unwrap();
    assert!(r.commands.is_empty());
}

#[test]
fn strict_parse_two_commands() {
    let r = parse_argv(&argv(&["pee", "wc -l", "grep foo"])).unwrap();
    assert_eq!(r.commands, vec!["wc -l", "grep foo"]);
}

#[test]
fn parse_rejects_help() {
    let err = parse_argv(&argv(&["pee", "--help"])).unwrap_err();
    assert_eq!(err, UnknownFlag::Long(String::from("help")));
}

#[test]
fn parse_rejects_version() {
    let err = parse_argv(&argv(&["pee", "--version"])).unwrap_err();
    assert_eq!(err, UnknownFlag::Long(String::from("version")));
}

#[test]
fn parse_rejects_capture() {
    let err = parse_argv(&argv(&["pee", "--capture"])).unwrap_err();
    assert_eq!(err, UnknownFlag::Long(String::from("capture")));
}

#[test]
fn parse_rejects_completions_subcommand() {
    let err = parse_argv(&argv(&["pee", "completions", "bash"])).unwrap_err();
    assert_eq!(err, UnknownFlag::Long(String::from("completions")));
}

#[test]
fn parse_completions_after_other_positional_treated_as_command() {
    let r = parse_argv(&argv(&["pee", "wc -l", "completions"])).unwrap();
    assert_eq!(r.commands, vec!["wc -l", "completions"]);
}

#[test]
fn parse_rejects_unknown_long_flag() {
    let err = parse_argv(&argv(&["pee", "--foo"])).unwrap_err();
    assert_eq!(err, UnknownFlag::Long(String::from("foo")));
}

#[test]
fn parse_rejects_unknown_short_flag() {
    let err = parse_argv(&argv(&["pee", "-x"])).unwrap_err();
    assert_eq!(err, UnknownFlag::Short('x'));
}

#[test]
fn parse_first_unknown_wins() {
    let err = parse_argv(&argv(&["pee", "-x", "--foo"])).unwrap_err();
    assert_eq!(err, UnknownFlag::Short('x'));
    let err = parse_argv(&argv(&["pee", "--foo", "-x"])).unwrap_err();
    assert_eq!(err, UnknownFlag::Long(String::from("foo")));
}

#[test]
fn parse_double_dash_treats_rest_as_commands() {
    let r = parse_argv(&argv(&["pee", "--", "--help", "-x"])).unwrap();
    assert_eq!(
        r.commands,
        vec!["--help", "-x"],
        "after `--` everything is a command"
    );
}

#[test]
fn pre_scan_detects_strict() {
    assert_eq!(
        pre_scan_strict_flag(&argv(&["rusty-pee", "--strict"])),
        Some(true)
    );
}

#[test]
fn pre_scan_stops_at_double_dash() {
    assert_eq!(
        pre_scan_strict_flag(&argv(&["rusty-pee", "--", "--strict"])),
        None
    );
}

#[test]
fn format_unknown_short_matches_spec() {
    assert_eq!(
        format_unknown_flag(&UnknownFlag::Short('x')),
        "rusty-pee: invalid option -- 'x'"
    );
}

#[test]
fn format_unknown_long_matches_spec() {
    assert_eq!(
        format_unknown_flag(&UnknownFlag::Long(String::from("foo"))),
        "rusty-pee: unknown option -- 'foo'"
    );
}

#[test]
fn format_spawn_failure_uses_two_word_can_not() {
    assert_eq!(
        format_spawn_failure("nonexistent"),
        "pee: Can not open pipe to 'nonexistent'"
    );
}

#[test]
fn parse_long_flag_with_value_reports_name_only() {
    let err = parse_argv(&argv(&["pee", "--color=always", "cat"])).unwrap_err();
    assert_eq!(err, UnknownFlag::Long(String::from("color")));
    let err = parse_argv(&argv(&["pee", "--=x"])).unwrap_err();
    assert_eq!(err, UnknownFlag::Long(String::new()));
}

#[test]
fn parse_short_flag_cluster_reports_first_letter() {
    let err = parse_argv(&argv(&["pee", "-vx"])).unwrap_err();
    assert_eq!(err, UnknownFlag::Short('v'));
}

#[test]
fn parse_lone_dash_is_a_command() {
    let r = parse_argv(&argv(&["pee", "-", "cat"])).unwrap();
    assert_eq!(r.commands, vec!["-", "cat"]);
}

#[test]
fn parse_skips_mode_flags_before_double_dash() {
    let r = parse_argv(&argv(&["pee", "--strict", "cat", "--no-strict", "wc"])).unwrap();
    assert_eq!(r.commands, vec!["cat", "wc"]);
    let r = parse_argv(&argv(&["pee", "--", "--strict"])).unwrap();
    assert_eq!(r.commands, vec!["--strict"]);
}

#[test]
fn parse_mode_flag_keeps_completions_first() {
    let err = parse_argv(&argv(&["pee", "--strict", "completions"])).unwrap_err();
    assert_eq!(err, UnknownFlag::Long(String::from("completions")));
}

#[test]
fn parse_empty_argv_is_ok() {
    let r = parse_argv(&[]).unwrap();
    assert!(r.commands.is_empty());
}

#[test]
fn pre_scan_last_flag_wins() {
    assert_eq!(
        pre_scan_strict_flag(&argv(&["rusty-pee", "--strict", "cat", "--no-strict"])),
        Some(false)
    );
    assert_eq!(
        pre_scan_strict_flag(&argv(&["rusty-pee", "--no-strict", "--strict", "--", "--no-strict"])),
        Some(true)
    );
    assert_eq!(pre_scan_strict_flag(&argv(&["rusty-pee", "cat"])), None);
    assert_eq!(pre_scan_strict_flag(&argv(&["--strict"])), None);
}

#[test]
fn format_unknown_flag_non_ascii() {
    assert_eq!(
        format_unknown_flag(&UnknownFlag::Short('é')),
        "rusty-pee: invalid option -- 'é'"
    );
}
