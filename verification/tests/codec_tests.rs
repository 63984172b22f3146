use ptyman::codec::{parse_instances, render_instances};
use ptyman::state::{Instance, InstanceStatus, PersistedState};

fn inst(id: &str, name: &str, cwd: &str, status: InstanceStatus) -> Instance {
    Instance {
        id: id.to_string(),
        name: name.to_string(),
        cwd: cwd.to_string(),
        status,
    }
}

fn assert_same(a: &[Instance], b: &[Instance]) {
    assert_eq!(a.len(), b.len());
    for (x, y) in a.iter().zip(b.iter()) {
        assert_eq!(x.id, y.id);
        assert_eq!(x.name, y.name);
        assert_eq!(x.cwd, y.cwd);
        assert_eq!(x.status, y.status);
    }
}

#[test]
fn round_trip_preserves_all_fields() {
    let list = vec![
        inst("t1", "build", "/tmp", InstanceStatus::Idle),
        inst("t2", "serve", "/home/user", InstanceStatus::Working),
        inst("t3", "watch", "/var/log", InstanceStatus::Waiting),
        inst("t4", "broken", "/", InstanceStatus::Error),
        inst("t1", "duplicate id kept as its own entry", "/tmp", InstanceStatus::Error),
    ];
    let text = render_instances(&list);
    let back = parse_instances(&text).expect("rendered document must parse");
    assert_same(&list, &back);
}

#[test]
fn round_trip_empty_list() {
    let list: Vec<Instance> = vec![];
    let text = render_instances(&list);
    assert_eq!(text, "{\"instances\":[]}");
    let back = parse_instances(&text).expect("empty document must parse");
    assert!(back.is_empty());
}

#[test]
fn round_trip_with_quotes_and_backslashes() {
    let list = vec![
        inst("a\"b", "say \"hi\"", "C:\\tmp\\x", InstanceStatus::Idle),
        inst("back\\slash", "mix \\\" both", "/tmp", InstanceStatus::Error),
        inst("", "", "", InstanceStatus::Waiting),
    ];
    let text = render_instances(&list);
    let back = parse_instances(&text).expect("escaped document must parse");
    assert_same(&list, &back);
}

#[test]
fn round_trip_unicode_text() {
    let list = vec![inst("tèrm-1", "café ☕", "/home/üser", InstanceStatus::Working)];
    let text = render_instances(&list);
    let back = parse_instances(&text).expect("unicode document must parse");
    assert_same(&list, &back);
}

#[test]
fn render_exact_document() {
    let list = vec![inst("t1", "shell", "/tmp", InstanceStatus::Idle)];
    let text = render_instances(&list);
    assert_eq!(
        text,
        "{\"instances\":[{\"id\":\"t1\",\"name\":\"shell\",\"cwd\":\"/tmp\",\"status\":\"idle\"}]}"
    );
}

#[test]
fn render_escapes_quote_and_backslash() {
    let list = vec![inst("a\"b", "c\\d", "/tmp", InstanceStatus::Idle)];
    let text = render_instances(&list);
    assert!(text.contains("\"id\":\"a\\\"b\""));
    assert!(text.contains("\"name\":\"c\\\\d\""));
}

#[test]
fn rendered_document_is_valid_json_for_serde() {
    let list = vec![
        inst("t1", "na\"me", "/tmp", InstanceStatus::Waiting),
        inst("t2", "x", "/a b", InstanceStatus::Error),
    ];
    let text = render_instances(&list);
    let v: serde_json::Value = serde_json::from_str(&text).expect("must be valid JSON");
    let arr = v.get("instances").unwrap().as_array().unwrap();
    assert_eq!(arr.len(), 2);
    assert_eq!(arr[0].get("id").unwrap().as_str().unwrap(), "t1");
    assert_eq!(arr[0].get("name").unwrap().as_str().unwrap(), "na\"me");
    assert_eq!(arr[0].get("status").unwrap().as_str().unwrap(), "waiting");
    assert_eq!(arr[1].get("cwd").unwrap().as_str().unwrap(), "/a b");
    assert_eq!(arr[1].get("status").unwrap().as_str().unwrap(), "error");
}

#[test]
fn parse_rejects_malformed_documents() {
    assert!(parse_instances("").is_none());
    assert!(parse_instances("nonsense").is_none());
    assert!(parse_instances("{\"instances\":[").is_none());
    assert!(parse_instances("{\"instances\":[{\"id\":\"a\"}]}").is_none());
    assert!(parse_instances(
        "{\"instances\":[{\"id\":\"a\",\"name\":\"b\",\"cwd\":\"c\",\"status\":\"sleepy\"}]}"
    )
    .is_none());
}

#[test]
fn parse_rejects_trailing_garbage() {
    let list = vec![inst("t1", "n", "/tmp", InstanceStatus::Idle)];
    let mut text = render_instances(&list);
    text.push('x');
    assert!(parse_instances(&text).is_none());
}

#[test]
fn persisted_state_to_and_from_json() {
    let ps = PersistedState {
        instances: vec![inst("one", "first", "/opt", InstanceStatus::Idle)],
    };
    let text = ps.to_json();
    let back = PersistedState::from_json(&text).expect("state must reload");
    assert_same(&ps.instances, &back.instances);
    assert!(PersistedState::from_json("{}").is_none());
}
