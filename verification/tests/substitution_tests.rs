use apiline::extract::extract;
use apiline::json::JsonValue;
use apiline::store::VarStore;
use apiline::text::{confirmation_cancels, substitute_str, trim_str};

fn obj(entries: Vec<(&str, JsonValue)>) -> JsonValue {
    JsonValue::Obj(entries.into_iter().map(|(k, v)| (k.to_string(), v)).collect())
}

fn s(text: &str) -> JsonValue {
    JsonValue::Str(text.to_string())
}

#[test]
fn substitute_resolves_defined_placeholder() {
    let mut vars = VarStore::new();
    vars.set("x", "42".to_string());
    let out = substitute_str("id is ${x}!", &vars);
    assert_eq!(out, "id is 42!");
}

#[test]
fn substitute_resolves_every_occurrence() {
    let mut vars = VarStore::new();
    vars.set("a", "1".to_string());
    vars.set("b", "2".to_string());
    let out = substitute_str("${a}-${b}-${a}", &vars);
    assert_eq!(out, "1-2-1");
}

#[test]
fn substitute_leaves_undefined_placeholder_verbatim() {
    let mut vars = VarStore::new();
    vars.set("a", "1".to_string());
    let out = substitute_str("keep ${missing} as is", &vars);
    assert_eq!(out, "keep ${missing} as is");
}

#[test]
fn substitute_is_single_pass() {
    // a value that itself looks like a placeholder is not expanded again
    let mut vars = VarStore::new();
    vars.set("a", "${b}".to_string());
    vars.set("b", "2".to_string());
    let out = substitute_str("${a}", &vars);
    assert_eq!(out, "${b}");
}

#[test]
fn substitute_without_matches_is_identity() {
    let mut vars = VarStore::new();
    vars.set("other", "x".to_string());
    let text = "no placeholders here, ${unbound} stays, lone $ and { too";
    let once = substitute_str(text, &vars);
    assert_eq!(once, text);
    let twice = substitute_str(once.as_str(), &vars);
    assert_eq!(twice, text);
}

#[test]
fn substitute_walks_nested_payload() {
    let mut vars = VarStore::new();
    vars.set("name", "alice".to_string());
    let payload = obj(vec![
        ("user", obj(vec![("login", s("${name}"))])),
        ("tags", JsonValue::Arr(vec![s("${name}"), s("${missing}")])),
        ("count", JsonValue::Num("3".to_string())),
    ]);
    let expected = obj(vec![
        ("user", obj(vec![("login", s("alice"))])),
        ("tags", JsonValue::Arr(vec![s("alice"), s("${missing}")])),
        ("count", JsonValue::Num("3".to_string())),
    ]);
    assert_eq!(payload.substitute(&vars).to_text(), expected.to_text());
}

#[test]
fn deep_copy_reproduces_the_tree() {
    let tree = obj(vec![("a", JsonValue::Arr(vec![s("x"), JsonValue::Null]))]);
    assert_eq!(tree.deep_copy().to_text(), tree.to_text());
}

#[test]
fn store_get_and_set_overwrite() {
    let mut vars = VarStore::new();
    assert_eq!(vars.get("k"), None);
    vars.set("k", "v1".to_string());
    assert_eq!(vars.get("k"), Some(&"v1".to_string()));
    vars.set("k", "v2".to_string());
    assert_eq!(vars.get("k"), Some(&"v2".to_string()));
}

#[test]
fn merge_never_overwrites_existing() {
    let mut vars = VarStore::new();
    vars.set("token", "runtime".to_string());
    let mut incoming = VarStore::new();
    incoming.set("token", "from-file".to_string());
    incoming.set("extra", "fresh".to_string());
    vars.merge_preserving_existing(&incoming);
    assert_eq!(vars.get("token"), Some(&"runtime".to_string()));
    assert_eq!(vars.get("extra"), Some(&"fresh".to_string()));
}

#[test]
fn extract_top_level_field() {
    let response = obj(vec![("token", s("abc"))]);
    assert_eq!(extract(&response, "$.token"), Some("abc".to_string()));
}

#[test]
fn extract_absent_field_is_none() {
    let response = obj(vec![("other", JsonValue::Num("1".to_string()))]);
    assert_eq!(extract(&response, "$.token"), None);
}

#[test]
fn extract_alien_path_is_none() {
    let response = obj(vec![("token", s("abc"))]);
    assert_eq!(extract(&response, "token"), None);
    assert_eq!(extract(&response, ".token"), None);
    assert_eq!(extract(&response, ""), None);
}

#[test]
fn extract_structured_field_is_stringified() {
    let response = obj(vec![
        ("obj", obj(vec![("a", JsonValue::Num("1".to_string()))])),
        ("arr", JsonValue::Arr(vec![JsonValue::Bool(true), JsonValue::Null])),
        ("num", JsonValue::Num("7".to_string())),
    ]);
    assert_eq!(extract(&response, "$.obj"), Some("{\"a\":1}".to_string()));
    assert_eq!(extract(&response, "$.arr"), Some("[true,null]".to_string()));
    assert_eq!(extract(&response, "$.num"), Some("7".to_string()));
}

#[test]
fn to_text_renders_compact_json() {
    let tree = obj(vec![
        ("msg", s("say \"hi\"\n")),
        ("items", JsonValue::Arr(vec![JsonValue::Num("1".to_string()), s("two")])),
    ]);
    assert_eq!(tree.to_text(), "{\"msg\":\"say \\\"hi\\\"\\n\",\"items\":[1,\"two\"]}");
}

#[test]
fn trim_strips_both_ends() {
    assert_eq!(trim_str("  hello \n"), "hello");
    assert_eq!(trim_str("\t\r\n "), "");
    assert_eq!(trim_str("solid"), "solid");
}

#[test]
fn confirmation_declines_only_on_n_or_no() {
    assert!(confirmation_cancels("n"));
    assert!(confirmation_cancels(" N \n"));
    assert!(confirmation_cancels("no"));
    assert!(confirmation_cancels("NO"));
    assert!(!confirmation_cancels(""));
    assert!(!confirmation_cancels("yes"));
    assert!(!confirmation_cancels("nope"));
}
