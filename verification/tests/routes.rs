use docker_proxy_filter::config::{parse_label_list, AppConfig, EnvConfig};
use docker_proxy_filter::docker::types::{ContainerConfig, ContainerInspect, ContainerSummary, DockerErrorMessage};
use docker_proxy_filter::docker::{get_match_from_captures, inspect_path, match_container_get};
use docker_proxy_filter::proxy::{
    filter_container_list, inspect_outcome, is_streaming_endpoint, plan_request, plan_response, verdict_for_inspect,
    AdmissionAction, AdmissionEvent, AppStateWithContainerMap, ContainerResponse, InspectOutcome, RequestPlan,
    ResponsePlan,
};
use docker_proxy_filter::strmap::StrMap;
use docker_proxy_filter::tunnel::{
    connection_after_admission, first_two_words_of, is_upgrade_path, is_whitespace, peek_request_line,
    plan_connection, ConnectionPlan,
};
use docker_proxy_filter::utils::Labels;

fn config(names: &[&str], scrub: bool) -> AppConfig {
    AppConfig::from_env(&EnvConfig {
        proxy_url: "http://socket-proxy:2375".to_string(),
        container_names: names.iter().map(|s| s.to_string()).collect(),
        container_labels: Vec::new(),
        exclude_names: Vec::new(),
        exclude_labels: Vec::new(),
        scrub_envs: scrub,
        port: 2375,
    })
}

fn no_labels() -> Labels {
    StrMap::new()
}

#[test]
fn container_route_is_recognised() {
    let m = match_container_get("/v1.47/containers/1234/json").unwrap();
    assert_eq!(m.id, "1234");
    assert_eq!(m.resource, "json");
    let m = match_container_get("/containers/abcd/logs").unwrap();
    assert_eq!(m.id, "abcd");
    assert_eq!(m.resource, "logs");
    assert!(match_container_get("/v1.47/containers/json").is_none());
    assert!(match_container_get("/v1.47/info").is_none());
}

#[test]
fn captures_become_route_matches() {
    let m = get_match_from_captures(Some(("x".to_string(), "top".to_string()))).unwrap();
    assert_eq!(m.id, "x");
    assert_eq!(m.resource, "top");
    assert!(get_match_from_captures(None).is_none());
}

#[test]
fn inspect_path_names_container() {
    assert_eq!(inspect_path("1234"), "containers/1234/json");
}

#[test]
fn streaming_endpoints() {
    assert!(is_streaming_endpoint("/v1.47/images/create"));
    assert!(is_streaming_endpoint("/v1.47/images/foo/push"));
    assert!(is_streaming_endpoint("/build"));
    assert!(is_streaming_endpoint("/containers/1/logs"));
    assert!(is_streaming_endpoint("/containers/1/attach"));
    assert!(is_streaming_endpoint("/exec/9/start"));
    assert!(!is_streaming_endpoint("/v1.47/containers/json"));
    assert!(!is_streaming_endpoint("/v1.47/containers/1234/json"));
}

#[test]
fn upgrade_endpoints() {
    assert!(is_upgrade_path("/v1.47/exec/abc/start"));
    assert!(is_upgrade_path("/v1.47/containers/abc/attach"));
    assert!(!is_upgrade_path("/v1.47/containers/abc/attach/ws"));
    assert!(!is_upgrade_path("/v1.47/exec/abc/json"));
    assert!(!is_upgrade_path("/v1.47/containers/json"));
}

#[test]
fn request_line_is_peeked() {
    assert_eq!(
        peek_request_line(b"POST /v1.47/exec/1/start HTTP/1.1\r\nHost: x\r\n\r\n"),
        Some(("POST".to_string(), "/v1.47/exec/1/start".to_string(), 33))
    );
    assert_eq!(
        peek_request_line(b"GET /info HTTP/1.1\r\n\r\n"),
        Some(("GET".to_string(), "/info".to_string(), 18))
    );
    assert_eq!(peek_request_line(b"  GET\t/x  HTTP/1.1\r\n"), Some(("GET".to_string(), "/x".to_string(), 18)));
    assert_eq!(peek_request_line(b"GET /x HTTP/1.1"), None);
    assert_eq!(peek_request_line(b"GET\r\n"), None);
    assert_eq!(peek_request_line(b"\xff\xfe /x\r\n"), None);
    assert_eq!(peek_request_line(b""), None);
}

#[test]
fn words_and_whitespace() {
    assert!(is_whitespace(' '));
    assert!(is_whitespace('\u{3000}'));
    assert!(!is_whitespace('a'));
    assert_eq!(first_two_words_of(" a  b c"), Some(("a".to_string(), "b".to_string())));
    assert_eq!(first_two_words_of("one"), None);
}

fn admitted_state(c: &AppConfig, id: &str, name: &str) -> AppStateWithContainerMap {
    let mut state = AppStateWithContainerMap::new();
    let m = match_container_get(&format!("/containers/{id}/json")).unwrap();
    assert!(matches!(state.admission_step(c, &m, AdmissionEvent::Arrived), AdmissionAction::Inspect));
    let outcome = InspectOutcome::Found { name: name.to_string(), labels: no_labels() };
    state.admission_step(c, &m, AdmissionEvent::Inspected(outcome));
    state
}

#[test]
fn connections_are_classified() {
    match plan_connection(b"POST /v1.47/containers/1234/attach?stream=1 HTTP/1.1\r\n") {
        ConnectionPlan::AdmitThenTunnel(m) => {
            assert_eq!(m.id, "1234");
            assert_eq!(m.resource, "attach?stream=1");
        }
        _ => panic!("expected admission before tunnelling"),
    }
    assert!(matches!(plan_connection(b"POST /v1.47/exec/1/start HTTP/1.1\r\n"), ConnectionPlan::Tunnel));
    assert!(matches!(
        plan_connection(b"GET /v1.47/containers/abc/attach/ws HTTP/1.1\r\n"),
        ConnectionPlan::HttpHandler
    ));
    assert!(matches!(plan_connection(b"GET /v1.47/containers/json HTTP/1.1\r\n"), ConnectionPlan::HttpHandler));
    assert!(matches!(plan_connection(b"POST /v1.47/exec/1/start"), ConnectionPlan::HttpHandler));
}

#[test]
fn first_attach_of_allowed_container_is_tunnelled() {
    let c = config(&["foo"], false);
    let mut state = AppStateWithContainerMap::new();
    let m = match plan_connection(b"POST /v1.47/containers/1234/attach HTTP/1.1\r\n") {
        ConnectionPlan::AdmitThenTunnel(m) => m,
        _ => panic!("expected admission before tunnelling"),
    };
    assert!(matches!(state.admission_step(&c, &m, AdmissionEvent::Arrived), AdmissionAction::Inspect));
    let outcome = InspectOutcome::Found { name: "/foo".to_string(), labels: no_labels() };
    let a = state.admission_step(&c, &m, AdmissionEvent::Inspected(outcome));
    assert!(matches!(connection_after_admission(&a), ConnectionPlan::Tunnel));

    let m = match plan_connection(b"POST /v1.47/containers/6969/attach HTTP/1.1\r\n") {
        ConnectionPlan::AdmitThenTunnel(m) => m,
        _ => panic!("expected admission before tunnelling"),
    };
    state.admission_step(&c, &m, AdmissionEvent::Arrived);
    let outcome = InspectOutcome::Found { name: "/cool-program".to_string(), labels: no_labels() };
    let a = state.admission_step(&c, &m, AdmissionEvent::Inspected(outcome));
    assert!(matches!(connection_after_admission(&a), ConnectionPlan::HttpHandler));
}

#[test]
fn websocket_attach_keeps_container_id() {
    let m = match_container_get("/v1.47/containers/abc/attach/ws").unwrap();
    assert_eq!(m.id, "abc");
    assert_eq!(m.resource, "attach/ws");
}

#[test]
fn request_plans() {
    assert!(matches!(plan_request("/v1.47/containers/json"), RequestPlan::Forward { stream: false }));
    assert!(matches!(plan_request("/v1.47/images/create"), RequestPlan::Forward { stream: true }));
    assert!(matches!(plan_request("/v1.47/version"), RequestPlan::Forward { stream: false }));
    match plan_request("/v1.47/containers/6969/logs") {
        RequestPlan::Container { route, stream } => {
            assert_eq!(route.id, "6969");
            assert_eq!(route.resource, "logs");
            assert!(stream);
        }
        _ => panic!("expected a container request"),
    }
    match plan_request("/v1.47/containers/1234/json") {
        RequestPlan::Container { route, stream } => {
            assert_eq!(route.id, "1234");
            assert!(!stream);
        }
        _ => panic!("expected a container request"),
    }
}

#[test]
fn hidden_container_logs_are_refused() {
    let c = config(&["foo", "bar"], false);
    let mut state = AppStateWithContainerMap::new();
    let route = match plan_request("/v1.47/containers/6969/logs") {
        RequestPlan::Container { route, .. } => route,
        _ => panic!("expected a container request"),
    };
    assert!(matches!(state.admission_step(&c, &route, AdmissionEvent::Arrived), AdmissionAction::Inspect));
    let outcome = InspectOutcome::Found { name: "/cool-program".to_string(), labels: no_labels() };
    match state.admission_step(&c, &route, AdmissionEvent::Inspected(outcome)) {
        AdmissionAction::Refuse(e) => assert_eq!(e.message, "No such container: 6969"),
        _ => panic!("expected a refusal"),
    }
    // The verdict is known now: the next request is refused without inspecting.
    match state.admission_step(&c, &route, AdmissionEvent::Arrived) {
        AdmissionAction::Refuse(e) => assert_eq!(e.message, "No such container: 6969"),
        _ => panic!("expected a refusal"),
    }
}

#[test]
fn known_verdicts_are_kept() {
    let c = config(&["foo"], false);
    let mut state = admitted_state(&c, "1234", "/foo");
    let m = match_container_get("/containers/1234/logs").unwrap();
    assert!(matches!(state.admission_step(&c, &m, AdmissionEvent::Arrived), AdmissionAction::Admit));
    // A late inspection outcome does not replace a known verdict.
    let late = InspectOutcome::Failed { error: "No such container: 1234".to_string() };
    assert!(matches!(state.admission_step(&c, &m, AdmissionEvent::Inspected(late)), AdmissionAction::Admit));
    assert_eq!(state.container_map.get("1234"), Some(&Some(true)));
}

#[test]
fn response_plans() {
    assert!(matches!(plan_response(404, "/v1.47/containers/json"), ResponsePlan::PassThrough));
    assert!(matches!(plan_response(200, "/v1.47/containers/json"), ResponsePlan::FilterContainerList));
    match plan_response(200, "/v1.47/containers/6969/json") {
        ResponsePlan::ContainerRoute(m) => {
            assert_eq!(m.id, "6969");
            assert_eq!(m.resource, "json");
        }
        _ => panic!("expected a container route"),
    }
    assert!(matches!(plan_response(200, "/v1.47/version"), ResponsePlan::PassThrough));
}

#[test]
fn container_list_keeps_exposed_in_order() {
    let c = config(&["foo", "bar"], false);
    let list: Vec<ContainerSummary> = ["/foo", "/cool-program", "/bar", "/fun-program"]
        .iter()
        .map(|n| ContainerSummary { id: None, names: Some(vec![n.to_string()]), labels: None, message: None })
        .collect();
    assert_eq!(filter_container_list(&list, &c), vec![0, 2]);
    assert_eq!(filter_container_list(&Vec::new(), &c), Vec::<usize>::new());
}

#[test]
fn readme_inspect_scenario() {
    let c = config(&["foo", "bar"], false);
    let mut state = AppStateWithContainerMap::new();
    let m = match_container_get("/v1.47/containers/6969/json").unwrap();
    assert!(matches!(state.admission_step(&c, &m, AdmissionEvent::Arrived), AdmissionAction::Inspect));
    let v = verdict_for_inspect(&c, &InspectOutcome::Found { name: "/cool-program".to_string(), labels: no_labels() });
    assert_eq!(v, Some(false));
    let outcome = InspectOutcome::Found { name: "/cool-program".to_string(), labels: no_labels() };
    assert!(matches!(state.admission_step(&c, &m, AdmissionEvent::Inspected(outcome)), AdmissionAction::Refuse(_)));
    match state.container_response(&c, &m) {
        ContainerResponse::NotFound(e) => assert_eq!(e.message, "No such container: 6969"),
        _ => panic!("expected 404"),
    }

    let v = verdict_for_inspect(&c, &InspectOutcome::Found { name: "/foo".to_string(), labels: no_labels() });
    assert_eq!(v, Some(true));
    let state = admitted_state(&c, "1234", "/foo");
    let m = match_container_get("/v1.47/containers/1234/json").unwrap();
    assert!(matches!(state.container_response(&c, &m), ContainerResponse::Json { scrub_env: false }));
    let m = match_container_get("/v1.47/containers/1234/top").unwrap();
    assert!(matches!(state.container_response(&c, &m), ContainerResponse::Body));

    let scrub = config(&["foo"], true);
    let m = match_container_get("/v1.47/containers/1234/json").unwrap();
    assert!(matches!(state.container_response(&scrub, &m), ContainerResponse::Json { scrub_env: true }));
}

#[test]
fn failed_inspections() {
    let c = config(&["foo"], false);
    let gone = InspectOutcome::Failed { error: "No such container: abc".to_string() };
    assert_eq!(verdict_for_inspect(&c, &gone), Some(false));
    let broken = InspectOutcome::Failed { error: "connection refused".to_string() };
    assert_eq!(verdict_for_inspect(&c, &broken), None);
    let mut state = AppStateWithContainerMap::new();
    let m = match_container_get("/containers/abc/json").unwrap();
    assert!(matches!(state.admission_step(&c, &m, AdmissionEvent::Arrived), AdmissionAction::Inspect));
    assert!(matches!(state.admission_step(&c, &m, AdmissionEvent::Inspected(broken)), AdmissionAction::Refuse(_)));
    // An unknown verdict makes the next request inspect again.
    assert!(matches!(state.admission_step(&c, &m, AdmissionEvent::Arrived), AdmissionAction::Inspect));
    assert!(matches!(state.container_response(&c, &m), ContainerResponse::NotFound(_)));
}

#[test]
fn inspection_documents() {
    let mut l = no_labels();
    l.insert("homepage".to_string(), "1".to_string());
    let doc = ContainerInspect {
        id: Some("1234".to_string()),
        name: Some("/foo".to_string()),
        config: Some(ContainerConfig { env: Some(vec!["A=1".to_string()]), labels: Some(l) }),
        message: None,
    };
    match inspect_outcome(doc) {
        InspectOutcome::Found { name, labels } => {
            assert_eq!(name, "/foo");
            assert_eq!(labels.get("homepage"), Some(&"1".to_string()));
        }
        _ => panic!("expected the container"),
    }
    let err = ContainerInspect { id: None, name: None, config: None, message: Some("No such container: x".to_string()) };
    match inspect_outcome(err) {
        InspectOutcome::Failed { error } => assert_eq!(error, "No such container: x"),
        _ => panic!("expected the error"),
    }
}

#[test]
fn scrub_env_empties_environment() {
    let mut doc = ContainerInspect {
        id: Some("1".to_string()),
        name: Some("/foo".to_string()),
        config: Some(ContainerConfig { env: Some(vec!["SECRET=1".to_string()]), labels: None }),
        message: None,
    };
    doc.scrub_env();
    assert_eq!(doc.config.as_ref().unwrap().env, Some(Vec::<String>::new()));
    assert_eq!(doc.name, Some("/foo".to_string()));
}

#[test]
fn error_message_for_unknown_container() {
    assert_eq!(DockerErrorMessage::no_such_container("6969").message, "No such container: 6969");
    let parsed = parse_label_list(&[]);
    assert!(parsed.is_empty());
}
