use apiline::engine::{Engine, Workflow};
use apiline::json::JsonValue;
use apiline::request::{build_request, BuildError, Method};
use apiline::step::{Outcome, Step, StepError};
use apiline::store::VarStore;

fn step(name: &str) -> Step {
    Step {
        name: name.to_string(),
        method: "GET".to_string(),
        endpoint: format!("/{}", name),
        payload: None,
        auth: "none".to_string(),
        expected_status: 200,
        save_as: None,
        extract_path: None,
        save_multiple: Vec::new(),
    }
}

fn engine_with(steps: Vec<Step>) -> Engine {
    Engine::new(Workflow { steps, vars: VarStore::new() }, 0)
}

#[test]
fn status_mismatch_fails_without_extraction() {
    let mut saving = step("a");
    saving.save_as = Some("token".to_string());
    saving.extract_path = Some("$.token".to_string());
    let mut engine = engine_with(vec![saving]);
    let body = "{\"token\": \"abc\"}".to_string();
    let r = engine.complete_step(0, 201, body.clone());
    assert_eq!(
        r,
        Err(StepError::UnexpectedStatus { expected: 200, actual: 201, body })
    );
    assert_eq!(engine.vars.get("token"), None);
}

#[test]
fn malformed_body_fails_after_status_check() {
    let mut engine = engine_with(vec![step("a")]);
    let body = "not json at all {".to_string();
    let r = engine.complete_step(0, 200, body.clone());
    assert_eq!(r, Err(StepError::MalformedResponse { body }));
}

#[test]
fn empty_body_is_an_empty_object() {
    let mut saving = step("a");
    saving.save_as = Some("token".to_string());
    saving.extract_path = Some("$.token".to_string());
    let mut engine = engine_with(vec![saving]);
    let r = engine.complete_step(0, 200, "   \n".to_string());
    assert_eq!(r, Ok(0));
    assert_eq!(engine.vars.get("token"), None);
}

#[test]
fn extraction_saves_declared_variables() {
    let mut saving = step("a");
    saving.save_as = Some("id".to_string());
    saving.extract_path = Some("$.id".to_string());
    saving.save_multiple =
        vec![("tok".to_string(), "$.token".to_string()), ("gone".to_string(), "$.absent".to_string())];
    let mut engine = engine_with(vec![saving]);
    let r = engine.complete_step(0, 200, "{\"id\": \"42\", \"token\": \"t9\"}".to_string());
    assert_eq!(r, Ok(2));
    assert_eq!(engine.vars.get("id"), Some(&"42".to_string()));
    assert_eq!(engine.vars.get("tok"), Some(&"t9".to_string()));
    assert_eq!(engine.vars.get("gone"), None);
}

#[test]
fn extracted_value_feeds_later_payload() {
    let mut a = step("a");
    a.save_as = Some("x".to_string());
    a.extract_path = Some("$.id".to_string());
    let mut b = step("b");
    b.method = "POST".to_string();
    b.payload = Some(JsonValue::Obj(vec![(
        "ref".to_string(),
        JsonValue::Str("${x}".to_string()),
    )]));
    let mut engine = engine_with(vec![a]);
    assert_eq!(engine.complete_step(0, 200, "{\"id\": \"42\"}".to_string()), Ok(1));
    engine.record_outcome(0, &Outcome::Completed(1), false);
    assert_eq!(engine.cursor, 1);
    // a later step's payload now renders with the saved value
    let built = build_request(&b, &engine.vars, "http://localhost:8080", "").unwrap();
    let rendered = built.payload.expect("payload").to_text();
    assert_eq!(rendered, "{\"ref\":\"42\"}");
    assert!(!rendered.contains("${x}"));
}

#[test]
fn reload_failure_changes_nothing() {
    let mut a = step("a");
    a.save_as = Some("x".to_string());
    a.extract_path = Some("$.id".to_string());
    let mut engine = engine_with(vec![a, step("b")]);
    assert_eq!(engine.complete_step(0, 200, "{\"id\": \"9\"}".to_string()), Ok(1));
    engine.record_outcome(0, &Outcome::Completed(1), false);
    engine.reload(None);
    assert_eq!(engine.step_count(), 2);
    assert_eq!(engine.steps[0].name, "a");
    assert_eq!(engine.steps[1].name, "b");
    assert_eq!(engine.cursor, 1);
    assert_eq!(engine.vars.get("x"), Some(&"9".to_string()));
}

#[test]
fn reload_replaces_steps_and_merges_variables() {
    let mut engine = engine_with(vec![step("old")]);
    engine.vars.set("token", "runtime".to_string());
    let mut file_vars = VarStore::new();
    file_vars.set("token", "default".to_string());
    file_vars.set("base", "fresh".to_string());
    engine.reload(Some(Workflow { steps: vec![step("new1"), step("new2")], vars: file_vars }));
    assert_eq!(engine.step_count(), 2);
    assert_eq!(engine.steps[0].name, "new1");
    // runtime-learned values win over file-declared defaults
    assert_eq!(engine.vars.get("token"), Some(&"runtime".to_string()));
    assert_eq!(engine.vars.get("base"), Some(&"fresh".to_string()));
}

#[test]
fn run_all_halts_at_failed_step() {
    let mut a = step("a");
    a.save_as = Some("x".to_string());
    a.extract_path = Some("$.id".to_string());
    let mut engine = engine_with(vec![a, step("b"), step("c")]);
    assert_eq!(engine.cursor, 0);
    // step 0 succeeds and saves its variable
    assert_eq!(engine.complete_step(0, 200, "{\"id\": \"7\"}".to_string()), Ok(1));
    engine.record_outcome(0, &Outcome::Completed(1), true);
    assert_eq!(engine.cursor, 1);
    // step 1 fails: the batch halts with the cursor still at index 1
    let r = engine.complete_step(1, 500, "boom".to_string());
    assert!(matches!(r, Err(StepError::UnexpectedStatus { expected: 200, actual: 500, .. })));
    engine.record_outcome(1, &Outcome::Failed, true);
    assert_eq!(engine.cursor, 1);
    assert_eq!(engine.vars.get("x"), Some(&"7".to_string()));
}

#[test]
fn batch_advances_past_skipped_step() {
    let mut engine = engine_with(vec![step("a"), step("b")]);
    engine.record_outcome(0, &Outcome::Cancelled, true);
    assert_eq!(engine.cursor, 1);
    let mut single = engine_with(vec![step("a"), step("b")]);
    single.record_outcome(0, &Outcome::Cancelled, false);
    assert_eq!(single.cursor, 0);
}

#[test]
fn jump_moves_cursor_only_from_current_step() {
    let mut engine = engine_with(vec![step("a"), step("b"), step("c")]);
    engine.record_outcome(2, &Outcome::Completed(0), false);
    assert_eq!(engine.cursor, 0);
    engine.record_outcome(0, &Outcome::Completed(0), false);
    assert_eq!(engine.cursor, 1);
}

#[test]
fn methods_parse_case_insensitively() {
    let mut s = step("a");
    let vars = VarStore::new();
    for m in ["get", "Get", "GET", "post", "put", "DELETE", "patch"] {
        s.method = m.to_string();
        assert!(build_request(&s, &vars, "http://h", "").is_ok());
    }
    s.method = "delete".to_string();
    let built = build_request(&s, &vars, "http://h", "").unwrap();
    assert_eq!(built.method, Method::Delete);
    s.method = "OPTIONS".to_string();
    assert!(matches!(
        build_request(&s, &vars, "http://h", ""),
        Err(BuildError::UnsupportedMethod)
    ));
}

#[test]
fn auth_kinds_become_headers() {
    let mut s = step("a");
    let mut vars = VarStore::new();
    let built = build_request(&s, &vars, "http://h", "adminkey").unwrap();
    assert_eq!(built.headers, vec![("Content-Type".to_string(), "application/json".to_string())]);
    assert_eq!(built.url, "http://h/a");

    s.auth = "admin".to_string();
    let built = build_request(&s, &vars, "http://h", "adminkey").unwrap();
    assert_eq!(built.headers[1], ("api-key".to_string(), "adminkey".to_string()));

    // jwt with no jwt_token variable sends an empty bearer token as-is
    s.auth = "jwt".to_string();
    let built = build_request(&s, &vars, "http://h", "").unwrap();
    assert_eq!(built.headers[1], ("Authorization".to_string(), "Bearer ".to_string()));

    vars.set("jwt_token", "tok123".to_string());
    let built = build_request(&s, &vars, "http://h", "").unwrap();
    assert_eq!(built.headers[1], ("Authorization".to_string(), "Bearer tok123".to_string()));

    s.auth = "Bearer literal".to_string();
    let built = build_request(&s, &vars, "http://h", "").unwrap();
    assert_eq!(built.headers[1], ("Authorization".to_string(), "Bearer literal".to_string()));

    s.auth = "api-key:sk-1".to_string();
    let built = build_request(&s, &vars, "http://h", "").unwrap();
    assert_eq!(built.headers[1], ("api-key".to_string(), "sk-1".to_string()));

    s.auth = "mystery".to_string();
    assert!(matches!(
        build_request(&s, &vars, "http://h", ""),
        Err(BuildError::UnknownAuthKind)
    ));
}

#[test]
fn parsed_numbers_keep_their_literal_text() {
    let mut saving = step("a");
    saving.save_as = Some("n".to_string());
    saving.extract_path = Some("$.n".to_string());
    let mut engine = engine_with(vec![saving]);
    assert_eq!(engine.complete_step(0, 200, "{\"n\": 42}".to_string()), Ok(1));
    assert_eq!(engine.vars.get("n"), Some(&"42".to_string()));
}
