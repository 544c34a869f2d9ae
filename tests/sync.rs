use std::time::{Duration, Instant};

use tfc_var_export::client::{
    create_request, delete_request, interpret_create_response, interpret_delete_response,
    get_variables, interpret_update_response, list_request, update_request, ApiError,
    HttpMethod, RemoteVariable, TerraformVariableProperty,
};
use tfc_var_export::export::{construct_export_value, ExportValue};
use tfc_var_export::limiter::{Acquire, RateLimiter, MAX_TOKENS_PER_WINDOW, MAX_WINDOW_MILLIS};
use tfc_var_export::sync::{
    check_variable_status, create_variable, plan_sync, update_variable, BatchApply, BatchStep, Operation,
    SyncAction, SyncFailure, SyncPhase, SyncRun,
};
use tfc_var_export::value::Value;

fn s(t: &str) -> Value {
    Value::Str(t.to_string())
}

fn n(t: &str) -> Value {
    Value::Number(t.to_string())
}

fn remote(id: &str, name: &str) -> RemoteVariable {
    RemoteVariable { id: id.to_string(), name: name.to_string(), is_hcl: false, raw_value: String::new() }
}

fn target(name: &str, value: Value) -> ExportValue {
    ExportValue::new(name.to_string(), None, value)
}

fn echo(id: &str, name: &str, value: &str, description: &str) -> String {
    format!(
        r#"{{"data":{{"id":"{}","type":"vars","attributes":{{"key":"{}","value":"{}","description":"{}","category":"terraform","hcl":false}}}}}}"#,
        id, name, value, description
    )
}

fn wait(nanos: u64) {
    let until = Instant::now() + Duration::from_nanos(nanos);
    while Instant::now() < until {}
}

#[test]
fn requests_have_the_api_paths() {
    let list = list_request("ws-1");
    assert_eq!(list.method, HttpMethod::Get);
    assert_eq!(list.path, "/api/v2/workspaces/ws-1/vars");
    assert_eq!(list.body, None);
    let del = delete_request("ws-1", "var-9");
    assert_eq!(del.method, HttpMethod::Delete);
    assert_eq!(del.path, "/api/v2/workspaces/ws-1/vars/var-9");
}

#[test]
fn create_request_sends_the_encoded_value() {
    let prop = TerraformVariableProperty::new(
        None,
        "tuple".to_string(),
        Some("desc".to_string()),
        Value::Array(vec![s("aaa"), s("bbb")]),
    );
    let req = create_request("ws-1", &prop);
    assert_eq!(req.method, HttpMethod::Post);
    assert_eq!(req.path, "/api/v2/workspaces/ws-1/vars");
    assert_eq!(
        req.body.unwrap(),
        r#"{"data":{"type":"vars","attributes":{"key":"tuple","value":"[\"aaa\",\"bbb\"]","description":"desc","category":"terraform","hcl":true}}}"#
    );
}

#[test]
fn update_request_targets_the_variable() {
    let prop = TerraformVariableProperty::new(None, "s".to_string(), None, s("aaa\"bbb"));
    let req = update_request("ws-1", &"var-7".to_string(), &prop);
    assert_eq!(req.method, HttpMethod::Patch);
    assert_eq!(req.path, "/api/v2/workspaces/ws-1/vars/var-7");
    assert_eq!(
        req.body.unwrap(),
        r#"{"data":{"id":"var-7","type":"vars","attributes":{"key":"s","value":"aaa\"bbb","description":"","category":"terraform","hcl":false}}}"#
    );
}

#[test]
fn create_response_is_read_back() {
    let body = r#"{"data":{"id":"var-1","attributes":{"key":"t","value":"[\"aaa\",\"bbb\"]","description":"d"}}}"#;
    let r = interpret_create_response(201, body, false).unwrap();
    assert_eq!(r.get_variable_id(), "var-1");
    assert_eq!(r.get_variable_name(), "t");
    assert_eq!(r.get_variable_description(), "d");
    assert_eq!(r.get_value(), &Value::Array(vec![s("aaa"), s("bbb")]));
    let quoted = interpret_update_response(200, &echo("var-2", "q", "aaa\\\"bbb", ""), true).unwrap();
    assert_eq!(quoted.get_value(), &s("aaa\"bbb"));
}

#[test]
fn responses_with_other_status_or_shape_are_errors() {
    assert_eq!(interpret_create_response(200, "{}", false), Err(ApiError::UnexpectedStatus(200)));
    assert_eq!(interpret_update_response(200, "not json", false), Err(ApiError::MalformedBody));
    assert_eq!(interpret_update_response(200, r#"{"data":{}}"#, false), Err(ApiError::MalformedBody));
    assert_eq!(
        interpret_create_response(201, &echo("v", "k", "[1,", ""), false),
        Err(ApiError::UndecodableValue)
    );
    assert_eq!(interpret_delete_response(204), Ok(()));
    assert_eq!(interpret_delete_response(200), Err(ApiError::UnexpectedStatus(200)));
}

#[test]
fn list_response_gives_the_remote_variables() {
    let body = r#"{"data":[{"id":"var-1","attributes":{"key":"a","value":"x","hcl":false}},{"id":"var-2","attributes":{"key":"b","value":null,"hcl":true}}]}"#;
    let r = get_variables(200, body).unwrap();
    assert_eq!(
        r,
        vec![
            RemoteVariable { id: "var-1".to_string(), name: "a".to_string(), is_hcl: false, raw_value: "x".to_string() },
            RemoteVariable { id: "var-2".to_string(), name: "b".to_string(), is_hcl: true, raw_value: String::new() },
        ]
    );
    assert_eq!(get_variables(200, r#"{"data":[{"id":"x"}]}"#), Err(ApiError::MalformedBody));
    assert_eq!(get_variables(401, "{}"), Err(ApiError::UnexpectedStatus(401)));
}

#[test]
fn check_variable_status_marks_existing_names() {
    let remote = vec![remote("var-2", "two"), remote("var-4", "four")];
    let names: Vec<String> = ["one", "two", "three", "four", "five"].iter().map(|x| x.to_string()).collect();
    let res = check_variable_status(&remote, &names);
    assert!(res.get(0).unwrap().get_variable_id().is_none());
    assert_eq!(res.get(1).unwrap().get_variable_id(), &Some("var-2".to_string()));
    assert!(res.get(2).unwrap().get_variable_id().is_none());
    assert_eq!(res.get(3).unwrap().get_variable_id(), &Some("var-4".to_string()));
    assert!(res.get(4).unwrap().get_variable_id().is_none());
    assert_eq!(res.get(4).unwrap().get_variable_name(), "five");
}

#[test]
fn plan_splits_targets_by_remote_names() {
    let targets = vec![target("a", n("1")), target("b", n("2")), target("c", n("3"))];
    let remote = vec![remote("var-b", "b")];
    let plan = plan_sync(&targets, &remote, true);
    let created: Vec<&str> = plan.to_create.iter().map(|p| p.variable_name.as_str()).collect();
    let updated: Vec<&str> = plan.to_update.iter().map(|p| p.variable_name.as_str()).collect();
    assert_eq!(created, vec!["a", "c"]);
    assert_eq!(updated, vec!["b"]);
    assert_eq!(plan.to_update[0].variable_id, Some("var-b".to_string()));
    assert!(plan.to_create.iter().all(|p| p.variable_id.is_none()));
    assert!(plan.ignored_existing.is_empty());
}

#[test]
fn plan_without_update_permission_ignores_existing() {
    let targets = vec![target("a", n("1")), target("b", n("2"))];
    let remote = vec![remote("var-a", "a"), remote("var-b", "b")];
    let plan = plan_sync(&targets, &remote, false);
    assert!(plan.to_create.is_empty());
    assert!(plan.to_update.is_empty());
    assert_eq!(plan.ignored_existing, vec!["a".to_string(), "b".to_string()]);
}

fn run(batch: &mut BatchApply, limiter: &RateLimiter, answer: &dyn Fn(usize) -> (u16, String)) -> (Vec<String>, String) {
    let mut bodies = Vec::new();
    let mut events = String::new();
    loop {
        match batch.next_step(limiter) {
            BatchStep::Wait { nanos } => {
                events.push('w');
                wait(nanos);
            },
            BatchStep::Send { request } => {
                events.push('s');
                bodies.push(request.body.unwrap_or_default());
                let (status, body) = answer(bodies.len() - 1);
                batch.record_response(status, &body);
            },
            BatchStep::Finished => break,
        }
    }
    (bodies, events)
}

#[test]
fn scenario_create_when_nothing_exists() {
    let targets = construct_export_value("n,n_out", r#"{"n":{"sensitive":false,"value":0}}"#).unwrap();
    let remote = get_variables(200, r#"{"data":[]}"#).unwrap();
    let plan = plan_sync(&targets, &remote, false);
    assert!(plan.ignored_existing.is_empty());
    assert!(plan.to_update.is_empty());
    let limiter = RateLimiter::for_api();
    let mut batch = BatchApply::new(Operation::Create, "ws-1".to_string(), plan.to_create);
    let (bodies, events) = run(&mut batch, &limiter, &|_| (201, echo("var-1", "n_out", "0", "")));
    assert_eq!(events, "s");
    assert_eq!(
        bodies,
        vec![r#"{"data":{"type":"vars","attributes":{"key":"n_out","value":"0","description":"","category":"terraform","hcl":false}}}"#.to_string()]
    );
    let (results, failure) = batch.into_results();
    assert!(failure.is_none());
    assert_eq!(results.len(), 1);
    assert_eq!(results[0].get_variable_id(), "var-1");
    assert_eq!(results[0].get_value(), &n("0"));
}

#[test]
fn scenario_existing_without_update_permission() {
    let targets = construct_export_value("n,n_out", r#"{"n":{"sensitive":false,"value":0}}"#).unwrap();
    let remote = get_variables(200, r#"{"data":[{"id":"var-9","attributes":{"key":"n_out","value":"5"}}]}"#).unwrap();
    let plan = plan_sync(&targets, &remote, false);
    assert!(plan.to_create.is_empty());
    assert!(plan.to_update.is_empty());
    assert_eq!(plan.ignored_existing, vec!["n_out".to_string()]);
    let limiter = RateLimiter::for_api();
    let mut creates = BatchApply::new(Operation::Create, "ws-1".to_string(), plan.to_create);
    let (bodies, _) = run(&mut creates, &limiter, &|_| (201, String::new()));
    assert!(bodies.is_empty());
}

#[test]
fn rate_limited_creates_wait_and_keep_their_order() {
    let limiter = RateLimiter::new(1, 400).unwrap();
    let items: Vec<TerraformVariableProperty> = ["v0", "v1", "v2"]
        .iter()
        .map(|name| TerraformVariableProperty::new(None, name.to_string(), None, n("1")))
        .collect();
    let mut batch = create_variable("ws".to_string(), items);
    let (bodies, events) = run(&mut batch, &limiter, &|i| (201, echo(&format!("var-{}", i), &format!("v{}", i), "1", "")));
    assert!(events.starts_with('s'));
    let sends: Vec<&str> = events.split('s').collect();
    assert_eq!(sends.len(), 4);
    assert_eq!(sends[0], "");
    assert!(!sends[1].is_empty() && sends[1].chars().all(|c| c == 'w'));
    assert!(!sends[2].is_empty() && sends[2].chars().all(|c| c == 'w'));
    assert_eq!(sends[3], "");
    for (i, body) in bodies.iter().enumerate() {
        assert!(body.contains(&format!("\"key\":\"v{}\"", i)));
    }
    let (results, failure) = batch.into_results();
    assert!(failure.is_none());
    let names: Vec<&str> = results.iter().map(|r| r.get_variable_name()).collect();
    assert_eq!(names, vec!["v0", "v1", "v2"]);
}

#[test]
fn batch_stops_at_the_first_failure() {
    let limiter = RateLimiter::for_api();
    let items: Vec<TerraformVariableProperty> = ["a", "b", "c"]
        .iter()
        .map(|name| TerraformVariableProperty::new(Some(format!("id-{}", name)), name.to_string(), None, s("x")))
        .collect();
    let mut batch = update_variable("ws".to_string(), items);
    let (bodies, _) = run(&mut batch, &limiter, &|i| {
        if i == 0 {
            (200, echo("id-a", "a", "x", ""))
        } else {
            (500, String::new())
        }
    });
    assert_eq!(bodies.len(), 2);
    assert!(batch.is_finished());
    let (results, failure) = batch.into_results();
    assert_eq!(results.len(), 1);
    let failure = failure.unwrap();
    assert_eq!(failure.variable_name, "b");
    assert_eq!(failure.operation, Operation::Update);
    assert_eq!(failure.error, ApiError::UnexpectedStatus(500));
}

#[test]
fn limiter_configuration_is_checked() {
    assert!(RateLimiter::new(0, 1000).is_none());
    assert!(RateLimiter::new(20, 0).is_none());
    assert!(RateLimiter::new(MAX_TOKENS_PER_WINDOW, MAX_WINDOW_MILLIS).is_some());
    assert!(RateLimiter::new(MAX_TOKENS_PER_WINDOW + 1, 1000).is_none());
    assert!(RateLimiter::new(1, MAX_WINDOW_MILLIS + 1).is_none());
    let limiter = RateLimiter::new(2, 60_000).unwrap();
    assert_eq!(limiter.acquire(), Acquire::Granted);
    assert_eq!(limiter.acquire(), Acquire::Granted);
    assert!(matches!(limiter.acquire(), Acquire::Backoff { wait_nanos } if wait_nanos > 0));
}

fn drive(run: &mut SyncRun, limiter: &RateLimiter, answer: &dyn Fn(&str, usize) -> (u16, String)) -> Vec<(HttpMethod, String, String)> {
    let mut sent = Vec::new();
    loop {
        match run.next_action(limiter) {
            SyncAction::Wait { nanos } => wait(nanos),
            SyncAction::Send { request } => {
                let body = request.body.clone().unwrap_or_default();
                sent.push((request.method, request.path.clone(), body));
                let (status, text) = answer(&request.path, sent.len() - 1);
                run.record_response(status, &text);
            },
            SyncAction::Done => break,
        }
    }
    sent
}

#[test]
fn scenario_run_creates_the_missing_variable() {
    let targets = construct_export_value("n,n_out", r#"{"n":{"sensitive":false,"value":0}}"#).unwrap();
    let mut run = SyncRun::new("ws-1".to_string(), targets, false).unwrap();
    let limiter = RateLimiter::for_api();
    let sent = drive(&mut run, &limiter, &|_, i| {
        if i == 0 {
            (200, r#"{"data":[]}"#.to_string())
        } else {
            (201, echo("var-1", "n_out", "0", ""))
        }
    });
    assert_eq!(run.current_phase(), SyncPhase::Done);
    assert_eq!(sent.len(), 2);
    assert_eq!(sent[0].0, HttpMethod::Get);
    assert_eq!(sent[0].1, "/api/v2/workspaces/ws-1/vars");
    assert_eq!(sent[1].0, HttpMethod::Post);
    assert_eq!(
        sent[1].2,
        r#"{"data":{"type":"vars","attributes":{"key":"n_out","value":"0","description":"","category":"terraform","hcl":false}}}"#
    );
    let report = run.into_report();
    assert_eq!(report.created.len(), 1);
    assert_eq!(report.created[0].get_variable_name(), "n_out");
    assert!(report.updated.is_empty());
    assert!(report.ignored_existing.is_empty());
    assert!(report.failure.is_none());
}

#[test]
fn scenario_run_ignores_existing_without_permission() {
    let targets = construct_export_value("n,n_out", r#"{"n":{"sensitive":false,"value":0}}"#).unwrap();
    let mut run = SyncRun::new("ws-1".to_string(), targets, false).unwrap();
    let limiter = RateLimiter::for_api();
    let sent = drive(&mut run, &limiter, &|_, _| {
        (200, r#"{"data":[{"id":"var-9","attributes":{"key":"n_out","value":"5","hcl":false}}]}"#.to_string())
    });
    assert_eq!(sent.len(), 1);
    assert_eq!(sent[0].0, HttpMethod::Get);
    let report = run.into_report();
    assert!(report.created.is_empty());
    assert!(report.updated.is_empty());
    assert_eq!(report.ignored_existing, vec!["n_out".to_string()]);
}

#[test]
fn run_updates_existing_after_creating_missing() {
    let targets = construct_export_value(
        "a,a_out\nb,b_out,desc\n",
        r#"{"a":{"sensitive":false,"value":"x"},"b":{"sensitive":false,"value":[1]}}"#,
    )
    .unwrap();
    let mut run = SyncRun::new("ws".to_string(), targets, true).unwrap();
    let limiter = RateLimiter::for_api();
    let sent = drive(&mut run, &limiter, &|path, i| match i {
        0 => (200, r#"{"data":[{"id":"var-b","attributes":{"key":"b_out","value":"[0]","hcl":true}}]}"#.to_string()),
        1 => (201, echo("var-a", "a_out", "x", "")),
        _ => {
            assert_eq!(path, "/api/v2/workspaces/ws/vars/var-b");
            (200, echo("var-b", "b_out", "[1]", "desc"))
        },
    });
    let methods: Vec<HttpMethod> = sent.iter().map(|x| x.0).collect();
    assert_eq!(methods, vec![HttpMethod::Get, HttpMethod::Post, HttpMethod::Patch]);
    let report = run.into_report();
    assert_eq!(report.created.len(), 1);
    assert_eq!(report.updated.len(), 1);
    assert_eq!(report.updated[0].get_value(), &Value::Array(vec![n("1")]));
    assert!(report.ignored_existing.is_empty());
}

#[test]
fn run_stops_when_the_listing_fails() {
    let targets = construct_export_value("n,n_out", r#"{"n":{"sensitive":false,"value":0}}"#).unwrap();
    let mut run = SyncRun::new("ws".to_string(), targets, true).unwrap();
    let limiter = RateLimiter::for_api();
    let sent = drive(&mut run, &limiter, &|_, _| (404, String::new()));
    assert_eq!(sent.len(), 1);
    assert_eq!(run.current_phase(), SyncPhase::Failed);
    assert_eq!(run.into_report().failure, Some(SyncFailure::Listing(ApiError::UnexpectedStatus(404))));
}

#[test]
fn run_rejects_targets_with_the_same_name() {
    let targets = vec![target("a", n("1")), target("b", n("2")), target("a", n("3"))];
    assert_eq!(
        SyncRun::new("ws".to_string(), targets, true).err(),
        Some(tfc_var_export::export::InputError::DuplicateDestination("a".to_string()))
    );
}

#[test]
fn batch_step_follows_the_limiter_answer() {
    let items = vec![TerraformVariableProperty::new(None, "v".to_string(), None, n("1"))];
    let mut batch = create_variable("ws".to_string(), items);
    assert_eq!(batch.step_with(Acquire::Backoff { wait_nanos: 77 }), BatchStep::Wait { nanos: 77 });
    match batch.step_with(Acquire::Granted) {
        BatchStep::Send { request } => assert_eq!(request.path, "/api/v2/workspaces/ws/vars"),
        other => panic!("expected a request, got {:?}", other),
    }
    batch.record_response(201, &echo("var-1", "v", "1", ""));
    assert_eq!(batch.step_with(Acquire::Granted), BatchStep::Finished);
}

#[test]
fn run_action_follows_the_limiter_answer() {
    let targets = vec![target("a", n("1"))];
    let mut run = SyncRun::new("ws".to_string(), targets, false).unwrap();
    assert_eq!(run.action_with(Acquire::Backoff { wait_nanos: 5 }), SyncAction::Wait { nanos: 5 });
    match run.action_with(Acquire::Granted) {
        SyncAction::Send { request } => assert_eq!(request.method, HttpMethod::Get),
        other => panic!("expected a request, got {:?}", other),
    }
    run.record_response(200, r#"{"data":[]}"#);
    assert_eq!(run.current_phase(), SyncPhase::Creating);
    assert_eq!(run.action_with(Acquire::Backoff { wait_nanos: 9 }), SyncAction::Wait { nanos: 9 });
}
