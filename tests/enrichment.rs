use hyprwatch::{
    parse_batch_response, prepare_clients, prepare_monitors, prepare_workspaces, HyprError, Json,
    JsonNumber, WorkspaceInfoConfig,
};
use serde_json::Value;

fn to_value(j: &Json) -> Value {
    match j {
        Json::Null => Value::Null,
        Json::Bool(b) => Value::Bool(*b),
        Json::Number(JsonNumber::PosInt(u)) => Value::from(*u),
        Json::Number(JsonNumber::NegInt(i)) => Value::from(*i),
        Json::Number(JsonNumber::Other(s)) => serde_json::from_str(s).unwrap(),
        Json::Str(s) => Value::String(s.clone()),
        Json::Array(items) => Value::Array(items.iter().map(to_value).collect()),
        Json::Object(fs) => {
            let mut m = serde_json::Map::new();
            for (k, v) in fs {
                m.insert(k.clone(), to_value(v));
            }
            Value::Object(m)
        }
    }
}

fn docs(text: &str) -> Vec<Json> {
    parse_batch_response(text.as_bytes()).unwrap()
}

fn expect(text: &str) -> Value {
    serde_json::from_str(text).unwrap()
}

const MONITORS: &str = r#"[{"id":0,"name":"DP-1","activeWorkspace":{"id":1,"name":"1"},"specialWorkspace":{"id":0,"name":""},"focused":true}]"#;

#[test]
fn workspace_shown_and_active_follow_monitors() {
    let data = docs(&format!(
        r#"[{{"id":2,"name":"2","monitor":"DP-1"}},{{"id":1,"name":"1","monitor":"DP-1"}}]{}"#,
        MONITORS
    ));
    let out = prepare_workspaces(data, &None, None, &None).unwrap();
    assert_eq!(
        to_value(&out),
        expect(
            r#"[{"id":1,"name":"1","monitor":"DP-1","shown":true,"active":true,"exists":true},
                {"id":2,"name":"2","monitor":"DP-1","shown":false,"active":false,"exists":true}]"#
        )
    );
}

#[test]
fn workspace_on_unfocused_monitor_is_shown_not_active() {
    let data = docs(
        r#"[{"id":3,"name":"3","monitor":"HDMI-A-1"}][{"id":1,"name":"HDMI-A-1","activeWorkspace":{"id":3},"focused":false}]"#,
    );
    let out = prepare_workspaces(data, &None, None, &None).unwrap();
    assert_eq!(
        to_value(&out),
        expect(r#"[{"id":3,"name":"3","monitor":"HDMI-A-1","shown":true,"active":false,"exists":true}]"#)
    );
}

#[test]
fn special_workspace_is_shown_and_active() {
    let data = docs(
        r#"[{"id":-98,"name":"special:magic","monitor":"DP-1"},{"id":1,"name":"1","monitor":"DP-1"}][{"id":0,"name":"DP-1","activeWorkspace":{"id":1},"specialWorkspace":{"id":-98},"focused":false}]"#,
    );
    let out = prepare_workspaces(data, &None, None, &None).unwrap();
    assert_eq!(
        to_value(&out),
        expect(
            r#"[{"id":-98,"name":"special:magic","monitor":"DP-1","shown":true,"active":true,"exists":true},
                {"id":1,"name":"1","monitor":"DP-1","shown":true,"active":false,"exists":true}]"#
        )
    );
}

#[test]
fn workspace_filters_by_monitor_and_special_status() {
    let text = format!(
        r#"[{{"id":1,"name":"1","monitor":"DP-1"}},{{"id":4,"name":"4","monitor":"DP-2"}},{{"id":-98,"name":"special:s","monitor":"DP-1"}}]{}"#,
        MONITORS
    );
    let out = prepare_workspaces(docs(&text), &Some("DP-2".to_string()), None, &None).unwrap();
    assert_eq!(
        to_value(&out),
        expect(r#"[{"id":4,"name":"4","monitor":"DP-2","shown":false,"active":false,"exists":true}]"#)
    );
    let out = prepare_workspaces(docs(&text), &Some("DP-1".to_string()), Some(true), &None).unwrap();
    assert_eq!(
        to_value(&out),
        expect(r#"[{"id":-98,"name":"special:s","monitor":"DP-1","shown":false,"active":false,"exists":true}]"#)
    );
}

#[test]
fn declared_workspace_missing_from_live_is_added() {
    let text = format!(r#"[{{"id":1,"name":"1","monitor":"DP-1"}}]{}"#, MONITORS);
    let config = Some(vec![WorkspaceInfoConfig {
        id: Some(5),
        name: None,
        monitor: Some("DP-1".to_string()),
    }]);
    let out = prepare_workspaces(docs(&text), &Some("DP-1".to_string()), None, &config).unwrap();
    assert_eq!(
        to_value(&out),
        expect(
            r#"[{"id":1,"name":"1","monitor":"DP-1","shown":true,"active":true,"exists":true,"dynamic":true},
                {"id":5,"monitor":"DP-1","dynamic":false,"exists":false}]"#
        )
    );
}

#[test]
fn declared_workspace_that_is_live_is_not_duplicated() {
    let text = format!(
        r#"[{{"id":5,"name":"5","monitor":"DP-1"}},{{"id":1,"name":"1","monitor":"DP-1"}}]{}"#,
        MONITORS
    );
    let config = Some(vec![WorkspaceInfoConfig {
        id: Some(5),
        name: None,
        monitor: Some("DP-1".to_string()),
    }]);
    let out = prepare_workspaces(docs(&text), &None, None, &config).unwrap();
    assert_eq!(
        to_value(&out),
        expect(
            r#"[{"id":1,"name":"1","monitor":"DP-1","shown":true,"active":true,"exists":true,"dynamic":true},
                {"id":5,"name":"5","monitor":"DP-1","shown":false,"active":false,"exists":true,"dynamic":false}]"#
        )
    );
}

#[test]
fn declared_workspace_matches_by_name_and_other_monitor_is_left_out() {
    let text = format!(r#"[{{"id":7,"name":"web","monitor":"DP-1"}}]{}"#, MONITORS);
    let config = Some(vec![
        WorkspaceInfoConfig { id: None, name: Some("web".to_string()), monitor: None },
        WorkspaceInfoConfig { id: None, name: Some("chat".to_string()), monitor: Some("DP-2".to_string()) },
        WorkspaceInfoConfig { id: None, name: Some("mail".to_string()), monitor: None },
    ]);
    let out = prepare_workspaces(docs(&text), &Some("DP-1".to_string()), None, &config).unwrap();
    assert_eq!(
        to_value(&out),
        expect(
            r#"[{"id":7,"name":"web","monitor":"DP-1","shown":false,"active":false,"exists":true,"dynamic":false},
                {"name":"mail","dynamic":false,"exists":false}]"#
        )
    );
}

#[test]
fn workspace_errors() {
    let one = docs(r#"[{"id":1,"name":"1"}]"#);
    assert_eq!(prepare_workspaces(one, &None, None, &None).unwrap_err(), HyprError::MissingDocument);
    let bad_monitor = docs(r#"[{"id":1,"name":"1"}][{"activeWorkspace":{"id":1}}]"#);
    assert_eq!(prepare_workspaces(bad_monitor, &None, None, &None).unwrap_err(), HyprError::MonitorFields);
    let bad_workspace = docs(&format!(r#"[{{"id":1}}]{}"#, MONITORS));
    assert_eq!(prepare_workspaces(bad_workspace, &None, None, &None).unwrap_err(), HyprError::WorkspaceFields);
}

#[test]
fn workspace_projection_is_repeatable() {
    let text = format!(
        r#"[{{"id":3,"name":"3","monitor":"DP-1","windows":2}},{{"id":1,"name":"1","monitor":"DP-1","windows":0}}]{}"#,
        MONITORS
    );
    let config = Some(vec![WorkspaceInfoConfig { id: Some(9), name: None, monitor: None }]);
    let a = prepare_workspaces(docs(&text), &None, None, &config).unwrap();
    let b = prepare_workspaces(docs(&text), &None, None, &config).unwrap();
    assert_eq!(
        serde_json::to_string(&to_value(&a)).unwrap(),
        serde_json::to_string(&to_value(&b)).unwrap()
    );
}

const CLIENTS: &str = r#"[{"address":"0x1","monitor":0,"workspace":{"id":1,"name":"one"}},{"address":"0x2","monitor":1,"workspace":{"id":2,"name":"two"}}][{"id":0,"name":"DP-1"},{"id":1,"name":"DP-2"}]"#;

#[test]
fn clients_filtered_by_workspace_name() {
    let out = prepare_clients(docs(CLIENTS), &None, &Some("name:two".to_string())).unwrap();
    assert_eq!(
        to_value(&out),
        expect(r#"[{"address":"0x2","monitor":1,"workspace":{"id":2,"name":"two"},"monitorName":"DP-2"}]"#)
    );
}

#[test]
fn clients_filtered_by_workspace_id() {
    let out = prepare_clients(docs(CLIENTS), &None, &Some("1".to_string())).unwrap();
    assert_eq!(
        to_value(&out),
        expect(r#"[{"address":"0x1","monitor":0,"workspace":{"id":1,"name":"one"},"monitorName":"DP-1"}]"#)
    );
    let none = prepare_clients(docs(CLIENTS), &None, &Some("first".to_string())).unwrap();
    assert_eq!(to_value(&none), expect("[]"));
}

#[test]
fn clients_filtered_by_monitor_and_unresolved_monitor() {
    let out = prepare_clients(docs(CLIENTS), &Some("DP-1".to_string()), &None).unwrap();
    assert_eq!(
        to_value(&out),
        expect(r#"[{"address":"0x1","monitor":0,"workspace":{"id":1,"name":"one"},"monitorName":"DP-1"}]"#)
    );
    let text = r#"[{"address":"0x3","monitor":7}][{"id":0,"name":"DP-1"}]"#;
    let kept = prepare_clients(docs(text), &None, &None).unwrap();
    assert_eq!(to_value(&kept), expect(r#"[{"address":"0x3","monitor":7}]"#));
    let dropped = prepare_clients(docs(text), &Some("DP-1".to_string()), &None).unwrap();
    assert_eq!(to_value(&dropped), expect("[]"));
}

#[test]
fn client_errors() {
    let bad = docs(r#"[][{"id":0}]"#);
    assert_eq!(prepare_clients(bad, &None, &None).unwrap_err(), HyprError::MonitorFields);
    let one = docs("[]");
    assert_eq!(prepare_clients(one, &None, &None).unwrap_err(), HyprError::MissingDocument);
}

#[test]
fn monitors_pass_through() {
    let out = prepare_monitors(docs(r#"[{"id":0,"name":"DP-1","scale":1.25}]"#)).unwrap();
    assert_eq!(to_value(&out), expect(r#"[{"id":0,"name":"DP-1","scale":1.25}]"#));
    assert_eq!(prepare_monitors(Vec::new()).unwrap_err(), HyprError::MissingDocument);
}

#[test]
fn workspace_that_is_not_an_object_is_an_error() {
    let data = docs(&format!(r#"[null,{{"id":1,"name":"1"}}]{}"#, MONITORS));
    assert_eq!(prepare_workspaces(data, &None, None, &None).unwrap_err(), HyprError::WorkspaceFields);
    let empty_monitors = docs("[null][]");
    assert_eq!(prepare_workspaces(empty_monitors, &None, None, &None).unwrap_err(), HyprError::WorkspaceFields);
}

#[test]
fn documents_that_are_not_arrays_are_errors() {
    let ws = docs(&format!(r#"{{"id":1}}{}"#, MONITORS));
    assert_eq!(prepare_workspaces(ws, &None, None, &None).unwrap_err(), HyprError::NotAnArray);
    let cs = docs(r#"{"address":"0x1"}[{"id":0,"name":"DP-1"}]"#);
    assert_eq!(prepare_clients(cs, &None, &None).unwrap_err(), HyprError::NotAnArray);
}

#[test]
fn client_that_is_not_an_object_is_dropped_under_a_monitor_filter() {
    let text = r#"[null,{"address":"0x1","monitor":0}][{"id":0,"name":"DP-1"}]"#;
    let filtered = prepare_clients(docs(text), &Some("DP-1".to_string()), &None).unwrap();
    assert_eq!(
        to_value(&filtered),
        expect(r#"[{"address":"0x1","monitor":0,"monitorName":"DP-1"}]"#)
    );
    let unfiltered = prepare_clients(docs(text), &None, &None).unwrap();
    assert_eq!(
        to_value(&unfiltered),
        expect(r#"[null,{"address":"0x1","monitor":0,"monitorName":"DP-1"}]"#)
    );
}
