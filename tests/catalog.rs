use static_scan::catalog::{load_rules, Criticity, LoadError, Rule};
use static_scan::json::JsonValue;

fn s(v: &str) -> JsonValue {
    JsonValue::Str(v.to_string())
}

fn obj(entries: Vec<(&str, JsonValue)>) -> JsonValue {
    JsonValue::Object(entries.into_iter().map(|(k, v)| (k.to_string(), v)).collect())
}

fn base(regex: &str) -> Vec<(&'static str, JsonValue)> {
    vec![
        ("label", s("L")),
        ("description", s("D")),
        ("criticity", s("low")),
        ("regex", s(regex)),
    ]
}

fn known() -> Vec<String> {
    vec!["INTERNET".to_string()]
}

fn load(entries: Vec<(&'static str, JsonValue)>) -> Result<Vec<Rule>, LoadError> {
    load_rules(&JsonValue::Array(vec![obj(entries)]), &known())
}

fn err(r: Result<Vec<Rule>, LoadError>) -> LoadError {
    match r {
        Ok(_) => panic!("the catalog loaded"),
        Err(e) => e,
    }
}

#[test]
fn catalog_must_be_an_array() {
    assert_eq!(err(load_rules(&obj(base("a")), &known())), LoadError::NotAnArray);
}

#[test]
fn empty_catalog_loads() {
    assert_eq!(load_rules(&JsonValue::Array(vec![]), &known()).unwrap().len(), 0);
}

#[test]
fn entry_must_be_an_object() {
    assert_eq!(err(load_rules(&JsonValue::Array(vec![s("x")]), &known())), LoadError::Malformed);
}

#[test]
fn entry_with_too_few_keys() {
    let mut e = base("a");
    e.pop();
    assert_eq!(err(load(e)), LoadError::Malformed);
}

#[test]
fn entry_with_too_many_keys() {
    let mut e = base("a");
    for k in ["whitelist", "permissions", "forward_check", "max_sdk", "extra"] {
        e.push((k, JsonValue::Null));
    }
    assert_eq!(err(load(e)), LoadError::Malformed);
}

#[test]
fn regex_that_does_not_compile() {
    assert_eq!(err(load(base("(unclosed"))), LoadError::InvalidRegex);
}

#[test]
fn max_sdk_must_be_unsigned() {
    let mut e = base("a");
    e.push(("max_sdk", JsonValue::OtherNumber));
    assert_eq!(err(load(e)), LoadError::Malformed);
}

#[test]
fn unknown_permission_fails_the_catalog() {
    let mut e = base("a");
    e.push(("permissions", JsonValue::Array(vec![s("INTERNET"), s("TELEPORT")])));
    let doc = JsonValue::Array(vec![obj(base("b")), obj(e)]);
    assert_eq!(err(load_rules(&doc, &known())), LoadError::UnknownPermission);
}

#[test]
fn unknown_criticity_fails_the_catalog() {
    let mut e = base("a");
    e[2] = ("criticity", s("severe"));
    let doc = JsonValue::Array(vec![obj(base("b")), obj(e)]);
    assert_eq!(err(load_rules(&doc, &known())), LoadError::UnknownCriticity);
}

#[test]
fn criticity_ignores_case() {
    assert_eq!(Criticity::parse("CRITICAL"), Some(Criticity::Critical));
    assert_eq!(Criticity::parse("Medium"), Some(Criticity::Medium));
    assert_eq!(Criticity::parse("warning"), Some(Criticity::Warning));
    assert_eq!(Criticity::parse("lo"), None);
    assert!(Criticity::Warning < Criticity::Low && Criticity::High < Criticity::Critical);
}

#[test]
fn capture_without_placeholder() {
    let mut e = base(r"(?P<fc1>\w+)");
    e.push(("forward_check", s("no placeholder")));
    assert_eq!(err(load(e)), LoadError::MissingPlaceholder);
}

#[test]
fn second_capture_needs_the_first() {
    let mut e = base(r"(?P<fc2>\w+)");
    e.push(("forward_check", s("{fc2}")));
    assert_eq!(err(load(e)), LoadError::MissingFirstCapture);
}

#[test]
fn both_captures_in_order_load() {
    let mut e = base(r"(?P<fc1>\w+)=(?P<fc2>\w+)");
    e.push(("forward_check", s("{fc1}.{fc2}")));
    assert_eq!(load(e).unwrap().len(), 1);
}

#[test]
fn whitelist_pattern_that_does_not_compile() {
    let mut e = base("a");
    e.push(("whitelist", JsonValue::Array(vec![s("ok"), s("[")])));
    assert_eq!(err(load(e)), LoadError::InvalidRegex);
}

#[test]
fn label_must_be_a_string() {
    let mut e = base("a");
    e[0] = ("label", JsonValue::Bool(true));
    assert_eq!(err(load(e)), LoadError::Malformed);
}
