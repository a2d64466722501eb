use muthr::containers::{
    cleanup_verdict, container_listed, container_listed_running, managed_container_count,
    managed_project_sandboxes, network_gateway, raw_item_id, raw_item_label, running_state, sandbox_rows,
    services_container_exists, services_container_has_label, services_container_running, shutdown_sandboxes,
    CleanupVerdict, ContainerConfiguration, ContainerListItem,
};
use muthr::json::JsonValue;
use muthr::status::{
    listing_line, overall_state, recorded_model, row_json, runtime_lines, service_state, services_json,
    state_headline, state_word, status_json, status_rows, tree_line, OverallState, RuntimeState,
};

fn s(v: &str) -> String {
    v.to_string()
}

fn text(v: &str) -> JsonValue {
    JsonValue::Str(s(v))
}

fn obj(members: Vec<(&str, JsonValue)>) -> JsonValue {
    JsonValue::Object(members.into_iter().map(|(k, v)| (s(k), v)).collect())
}

fn item(id: &str, state: &str, labels: Vec<(&str, &str)>) -> ContainerListItem {
    ContainerListItem {
        id: Some(s(id)),
        id_alias: None,
        status: Some(text(state)),
        status_alias: None,
        state: None,
        state_alias: None,
        configuration: Some(ContainerConfiguration {
            id: None,
            id_alias: None,
            labels: Some(labels.into_iter().map(|(k, v)| (s(k), text(v))).collect()),
            labels_alias: None,
        }),
        configuration_alias: None,
    }
}

fn managed(id: &str, state: &str) -> ContainerListItem {
    item(id, state, vec![("muthr.managed", "true"), ("muthr.owner", "project")])
}

#[test]
fn item_fields_under_aliases() {
    let it = ContainerListItem {
        id: None,
        id_alias: None,
        status: None,
        status_alias: Some(obj(vec![("State", text("Running"))])),
        state: None,
        state_alias: None,
        configuration: None,
        configuration_alias: Some(ContainerConfiguration {
            id: None,
            id_alias: Some(s("muthr-x")),
            labels: None,
            labels_alias: Some(vec![(s("muthr.profile.opencode"), text("1"))]),
        }),
    };
    assert_eq!(it.id(), Some("muthr-x"));
    assert_eq!(it.status_state(), Some("Running"));
    assert!(it.is_running());
    assert!(it.has_profile_label());
    assert_eq!(it.label("muthr.profile.opencode"), Some("1"));
    assert!(!it.is_managed_project());
    assert!(running_state("RUNNING"));
    assert!(!running_state("stopped"));
}

#[test]
fn listing_queries() {
    let items = vec![managed("muthr-a", "stopped"), managed("muthr-b", "running"), item("other", "running", vec![])];
    assert!(container_listed(&items, "muthr-a"));
    assert!(!container_listed(&items, "muthr-z"));
    assert!(container_listed_running(&items, "muthr-b"));
    assert!(!container_listed_running(&items, "muthr-a"));
    let more = vec![managed("muthr-b", "stopped"), managed("muthr-a", "stopped"), managed("muthr-a", "running")];
    assert_eq!(managed_project_sandboxes(&more), vec![s("muthr-a"), s("muthr-b")]);
}

#[test]
fn cleanup_verdicts() {
    let mut no_id = managed("muthr-a", "stopped");
    no_id.id = None;
    assert_eq!(cleanup_verdict(&no_id, false), CleanupVerdict::NoId);
    assert_eq!(cleanup_verdict(&managed("muthr-services", "stopped"), false), CleanupVerdict::NotSandbox);
    assert_eq!(cleanup_verdict(&item("muthr-a", "stopped", vec![]), false), CleanupVerdict::Unlabeled);
    assert_eq!(cleanup_verdict(&managed("muthr-a", "stopped"), true), CleanupVerdict::ProfileApplied);
    let labelled = item(
        "muthr-a",
        "stopped",
        vec![("muthr.managed", "true"), ("muthr.owner", "project"), ("muthr.profile.base", "true")],
    );
    assert_eq!(cleanup_verdict(&labelled, false), CleanupVerdict::ProfileApplied);
    assert_eq!(cleanup_verdict(&managed("muthr-a", "running"), false), CleanupVerdict::Running);
    assert_eq!(cleanup_verdict(&managed("muthr-a", "stopped"), false), CleanupVerdict::Remove);
}

#[test]
fn sandbox_listing_rows() {
    let mut no_status = managed("muthr-c", "x");
    no_status.status = None;
    let items = vec![managed("muthr-b", "running"), item("muthr-services", "running", vec![]), no_status, managed("muthr-a", "stopped")];
    let rows = sandbox_rows(&items);
    let names: Vec<(String, String, String)> =
        rows.iter().map(|r| (r.name.clone(), r.status.clone(), r.mount.clone())).collect();
    assert_eq!(
        names,
        vec![
            (s("muthr-a"), s("stopped"), s("/workspace")),
            (s("muthr-b"), s("running"), s("/workspace")),
            (s("muthr-c"), s("unknown"), s("/workspace")),
        ]
    );
    assert_eq!(listing_line(&rows[0]), format!("  {:<30} stopped  mount: /workspace", "muthr-a"));
    let j = row_json(&rows[1]);
    assert_eq!(j.get("status").and_then(|v| v.as_str()), Some("running"));
    let status = status_rows(&items);
    assert_eq!(status, vec![(s("a"), s("stopped")), (s("b"), s("running")), (s("c"), s("unknown"))]);
}

#[test]
fn raw_listing_reads() {
    let listed = vec![
        obj(vec![
            ("id", text("muthr-services")),
            ("status", obj(vec![("state", text("running"))])),
            ("configuration", obj(vec![("labels", obj(vec![("muthr.rev", text("abc"))]))])),
        ]),
        obj(vec![("configuration", obj(vec![("id", text("muthr-searxng"))])), ("state", text("stopped"))]),
    ];
    assert_eq!(raw_item_id(&listed[1]), Some("muthr-searxng"));
    assert_eq!(raw_item_label(&listed[0], "muthr.rev"), Some("abc"));
    assert!(services_container_exists(&listed, "muthr-searxng"));
    assert!(services_container_running(&listed, "muthr-services"));
    assert!(!services_container_running(&listed, "muthr-searxng"));
    assert!(services_container_has_label(&listed, "muthr-services", "muthr.rev", "abc"));
    assert!(!services_container_has_label(&listed, "muthr-services", "muthr.rev", "abd"));
    assert_eq!(service_state(&listed, "muthr-searxng"), Some(false));
    assert_eq!(service_state(&listed, "muthr-services"), Some(true));
    assert_eq!(service_state(&listed, "nothing"), None);
}

#[test]
fn managed_counts_and_shutdown() {
    let labels = |managed: &str, owner: &str| obj(vec![("muthr.managed", text(managed)), ("muthr.owner", text(owner))]);
    let listed = vec![
        obj(vec![("ID", text("muthr-p1")), ("Config", obj(vec![("Labels", labels("true", "project"))]))]),
        obj(vec![("id", text("muthr-services")), ("configuration", obj(vec![("labels", labels("true", "system"))]))]),
        obj(vec![("id", text("muthr-p2")), ("configuration", obj(vec![("labels", labels("false", "project"))]))]),
        obj(vec![("id", text("other")), ("configuration", obj(vec![("labels", labels("true", "project"))]))]),
    ];
    assert_eq!(shutdown_sandboxes(&listed), vec![s("muthr-p1")]);
    assert_eq!(managed_container_count(&listed), 1);
}

#[test]
fn gateway_from_networks() {
    let entries = vec![
        obj(vec![("gateway", text("  "))]),
        obj(vec![("status", obj(vec![("ipv4Gateway", text(" 192.168.64.1 "))]))]),
    ];
    assert_eq!(network_gateway(&entries), Some(s("192.168.64.1")));
    let subnets = vec![obj(vec![("subnets", JsonValue::Array(vec![obj(vec![("gateway", text("10.1.0.1"))])]))])];
    assert_eq!(network_gateway(&subnets), Some(s("10.1.0.1")));
    assert_eq!(network_gateway(&vec![]), None);
}

#[test]
fn engine_status_report() {
    let rs = vec![
        RuntimeState { name: s("mlxcel"), model: s("org/qwen"), running: false },
        RuntimeState { name: s("llama"), model: s(""), running: false },
    ];
    assert_eq!(overall_state(&rs), OverallState::ConfiguredStopped);
    assert_eq!(state_word(OverallState::ConfiguredStopped), "configured_stopped");
    assert_eq!(state_headline(OverallState::Running), "muthr: running");
    assert_eq!(state_headline(OverallState::NotConfigured), "muthr: not configured");
    let (first, second) = runtime_lines(&rs[0]);
    assert_eq!(first, "  engine mlxcel     active      org/qwen");
    assert_eq!(second, "  server mlxcel     stopped");
    assert_eq!(runtime_lines(&rs[1]).0, "  engine llama      (none)");
    let j = status_json(&rs);
    assert_eq!(j.get("state").and_then(|v| v.as_str()), Some("configured_stopped"));
    let llama = j.get("runtimes").and_then(|r| r.get("llama")).unwrap();
    assert!(matches!(llama.get("model"), Some(JsonValue::Null)));
    assert_eq!(recorded_model(Some(" org/qwen\n")), "org/qwen");
    assert_eq!(recorded_model(None), "");
    let running = vec![RuntimeState { name: s("mlxcel"), model: s("m"), running: true }];
    assert_eq!(overall_state(&running), OverallState::Running);
    assert_eq!(overall_state(&vec![]), OverallState::NotConfigured);
}

#[test]
fn status_lines() {
    assert_eq!(tree_line("proj", "running", false), format!("    ├─ {:<20} running", "proj"));
    assert_eq!(tree_line("proj", "stopped", true), format!("    └─ {:<20} stopped", "proj"));
    let j = services_json(true, None);
    assert_eq!(j.get("status").and_then(|v| v.as_str()), Some("running"));
    assert!(matches!(j.get("searxng"), Some(JsonValue::Null)));
    let k = services_json(false, Some(true));
    assert_eq!(k.get("searxng").and_then(|v| v.as_str()), Some("running"));
}
