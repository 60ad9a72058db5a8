use hyprwatch::{
    batch_request, decode_events, get_hypr_socket, next_step, parse_batch_response,
    runtime_hypr_dir, split_response, HyprError, Json, Mode, Step,
};

#[test]
fn batch_request_joins_resources() {
    let r = batch_request(&vec!["monitors".to_string(), "workspaces".to_string()]);
    assert_eq!(r, "[[BATCH]] j/monitors ; j/workspaces");
    assert_eq!(batch_request(&vec!["clients".to_string()]), "[[BATCH]] j/clients");
}

#[test]
fn response_round_trip_one_two_three_documents() {
    let a = r#"[{"id":1,"name":"x"}]"#;
    let b = r#"[{"id":2}]"#;
    let c = r#"[]"#;
    for docs in [vec![a], vec![a, b], vec![a, b, c]] {
        let joined = docs.concat();
        let pieces = split_response(joined.as_bytes());
        let expected: Vec<Vec<u8>> = docs.iter().map(|d| d.as_bytes().to_vec()).collect();
        assert_eq!(pieces, expected);
        let parsed = parse_batch_response(joined.as_bytes()).unwrap();
        assert_eq!(parsed.len(), docs.len());
    }
}

#[test]
fn response_cut_at_each_boundary_pair() {
    let pieces = split_response(b"{}[1]{}");
    assert_eq!(pieces, vec![b"{}".to_vec(), b"[1]".to_vec(), b"{}".to_vec()]);
    assert_eq!(split_response(b""), vec![Vec::<u8>::new()]);
}

#[test]
fn response_values_are_read() {
    let parsed = parse_batch_response(br#"[{"id":-3,"n":"a","f":true}][7]"#).unwrap();
    match &parsed[0] {
        Json::Array(items) => {
            assert_eq!(items[0].i64_at("id"), Some(-3));
            assert_eq!(items[0].str_at("n").map(|s| s.as_str()), Some("a"));
            assert_eq!(items[0].bool_at("f"), Some(true));
        }
        other => panic!("unexpected {:?}", other),
    }
}

#[test]
fn response_with_invalid_json_is_an_error() {
    match parse_batch_response(b"[1,][2]") {
        Err(HyprError::InvalidJson(msg)) => assert!(!msg.is_empty()),
        other => panic!("unexpected {:?}", other),
    }
}

#[test]
fn events_are_decoded() {
    let events = decode_events(b"activewindow>>kitty,Window Title\n\nworkspace>>2\nfullscreen\n".to_vec()).unwrap();
    assert_eq!(
        events,
        vec![
            ("activewindow".to_string(), vec!["kitty".to_string(), "Window Title".to_string()]),
            ("workspace".to_string(), vec!["2".to_string()]),
            ("fullscreen".to_string(), vec![]),
        ]
    );
}

#[test]
fn events_only_take_the_second_piece() {
    let events = decode_events(b"a>>x,y>>z".to_vec()).unwrap();
    assert_eq!(events, vec![("a".to_string(), vec!["x".to_string(), "y".to_string()])]);
}

#[test]
fn events_that_are_not_utf8_are_an_error() {
    assert_eq!(decode_events(vec![0x66, 0xff, 0x0a]).unwrap_err(), HyprError::InvalidUtf8);
}

#[test]
fn empty_read_decodes_to_no_events() {
    assert_eq!(decode_events(Vec::new()).unwrap(), vec![]);
}

#[test]
fn monitors_mode_gating() {
    assert!(!Mode::Monitors.is_keyword(&"openwindow".to_string()));
    assert!(Mode::Monitors.is_keyword(&"monitoradded".to_string()));
    let open = vec![("openwindow".to_string(), vec!["0x1".to_string()])];
    assert_eq!(next_step(Mode::Monitors, Some(&open)), Step::Idle);
    let added = vec![
        ("openwindow".to_string(), vec![]),
        ("monitoradded".to_string(), vec!["DP-3".to_string()]),
    ];
    assert_eq!(next_step(Mode::Monitors, Some(&added)), Step::Emit);
    assert_eq!(next_step(Mode::Clients, Some(&open)), Step::Emit);
    assert_eq!(Mode::Workspaces.keywords().len(), 11);
}

#[test]
fn closed_socket_is_distinct_from_irrelevant_batch() {
    let empty: Vec<(String, Vec<String>)> = Vec::new();
    assert_eq!(next_step(Mode::Workspaces, Some(&empty)), Step::Closed);
    let other = vec![("windowtitle".to_string(), vec![])];
    assert_eq!(next_step(Mode::Workspaces, Some(&other)), Step::Idle);
    assert_eq!(next_step(Mode::Workspaces, None), Step::ReadFailed);
}

#[test]
fn socket_paths() {
    let p = get_hypr_socket("socket2", &Some("abc".to_string()), &None).unwrap();
    assert_eq!(p, "/tmp/hypr/abc/.socket2.sock");
    let dir = runtime_hypr_dir("/run/user/1000");
    assert_eq!(dir, "/run/user/1000/hypr");
    let p = get_hypr_socket("socket", &Some("abc".to_string()), &Some(dir)).unwrap();
    assert_eq!(p, "/run/user/1000/hypr/abc/.socket.sock");
    assert_eq!(get_hypr_socket("socket", &None, &None).unwrap_err(), HyprError::MissingInstance);
    assert!(HyprError::MissingInstance.message().contains("instance"));
}

#[test]
fn response_that_is_not_utf8_is_an_error() {
    assert_eq!(parse_batch_response(&[0x5b, 0xc3, 0x28, 0x5d]).unwrap_err(), HyprError::InvalidUtf8);
}
