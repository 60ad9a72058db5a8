use hyprwatch::{parse_config, HyprError, WorkspaceInfoConfig};

#[test]
fn declarations_are_read_in_order() {
    let v = parse_config("workspace = 3, monitor:DP-1\nworkspace_swipe = 1\nworkspace=name:web").unwrap();
    assert_eq!(
        v,
        vec![
            WorkspaceInfoConfig { id: Some(3), name: None, monitor: Some("DP-1".to_string()) },
            WorkspaceInfoConfig { id: None, name: Some("web".to_string()), monitor: None },
        ]
    );
}

#[test]
fn last_monitor_attribute_wins_and_other_lines_are_ignored() {
    let text = "# comment\n  workspace = 2, monitor:DP-1, default:true, monitor:HDMI-A-1\r\nmonitor=DP-1,preferred,auto,1\n";
    let v = parse_config(text).unwrap();
    assert_eq!(
        v,
        vec![WorkspaceInfoConfig { id: Some(2), name: None, monitor: Some("HDMI-A-1".to_string()) }]
    );
    assert_eq!(parse_config("").unwrap(), vec![]);
}

#[test]
fn malformed_declaration_fails_with_its_line() {
    assert_eq!(
        parse_config("workspace = 1\nworkspace = main, monitor:DP-1").unwrap_err(),
        HyprError::ConfigLine("workspace = main, monitor:DP-1".to_string())
    );
    assert_eq!(
        parse_config("workspace = -4").unwrap_err(),
        HyprError::ConfigLine("workspace = -4".to_string())
    );
}

#[test]
fn unicode_blanks_are_trimmed() {
    let v = parse_config("\u{a0}workspace = 4 ,\u{2003}monitor:DP-2\u{3000}\n").unwrap();
    assert_eq!(
        v,
        vec![WorkspaceInfoConfig { id: Some(4), name: None, monitor: Some("DP-2".to_string()) }]
    );
}
