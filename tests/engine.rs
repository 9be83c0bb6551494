use static_scan::catalog::{load_rules, Criticity, LoadError, Rule};
use static_scan::engine::{analyze_file, evaluate_rule, rule_applies, scan_text, Manifest, ScanWarning, Vulnerability};
use static_scan::json::JsonValue;

fn s(v: &str) -> JsonValue {
    JsonValue::Str(v.to_string())
}

fn arr(v: &[&str]) -> JsonValue {
    JsonValue::Array(v.iter().map(|x| s(x)).collect())
}

fn obj(entries: Vec<(&str, JsonValue)>) -> JsonValue {
    JsonValue::Object(entries.into_iter().map(|(k, v)| (k.to_string(), v)).collect())
}

fn base(label: &str, regex: &str) -> Vec<(&'static str, JsonValue)> {
    vec![
        ("label", s(label)),
        ("description", s("A description")),
        ("criticity", s("warning")),
        ("regex", s(regex)),
    ]
}

fn known() -> Vec<String> {
    vec!["INTERNET".to_string(), "SEND_SMS".to_string()]
}

fn load_one(entries: Vec<(&'static str, JsonValue)>) -> Result<Vec<Rule>, LoadError> {
    load_rules(&JsonValue::Array(vec![obj(entries)]), &known())
}

fn url_rule() -> Vec<Rule> {
    let mut e = base("URL literal", r#""(https?|ftp)?://[^"]+""#);
    e.push(("whitelist", arr(&[r"schemas\.android\.com", r"www\.w3\.org"])));
    load_one(e).unwrap()
}

fn scan(rules: &Vec<Rule>, manifest: &Option<Manifest>, text: &str) -> Vec<Vulnerability> {
    scan_text(rules, manifest, "src/Main.java", text).findings
}

#[test]
fn url_literal_is_reported() {
    let rules = url_rule();
    let found = scan(&rules, &None, "\"http://www.razican.com\"");
    assert_eq!(found.len(), 1);
    assert_eq!(found[0].label, "URL literal");
    assert_eq!(found[0].file_path, "src/Main.java");
    assert_eq!(found[0].start_line, 0);
    assert_eq!(found[0].end_line, 0);
    assert_eq!(found[0].code, "\"http://www.razican.com\"");
}

#[test]
fn whitelisted_url_is_not_reported() {
    let rules = url_rule();
    assert!(scan(&rules, &None, "\"http://schemas.android.com/apk/res/android\"").is_empty());
}

#[test]
fn catch_generic_exception() {
    let rules = load_one(base("Catch Exception", r"catch\s*\(\s*([\w\s]+\|\s*)*Exception(\s*\|[\w\s]+)*\s+\w+\s*\)")).unwrap();
    assert_eq!(scan(&rules, &None, "catch (IOException|Exception e) {").len(), 1);
    assert!(scan(&rules, &None, "catch (IOException e) {").is_empty());
}

#[test]
fn infinite_loop_rule() {
    let rules = load_one(base("Infinite loop", r"while\s*\(\s*true\s*\)")).unwrap();
    assert_eq!(scan(&rules, &None, "while(true)").len(), 1);
    assert!(scan(&rules, &None, "while(i<10)").is_empty());
}

#[test]
fn lines_of_a_match_spanning_lines() {
    let rules = load_one(base("Block", r"begin[\s\S]*?end")).unwrap();
    let found = scan(&rules, &None, "zero\none begin\ntwo\nthree end here\nfour");
    assert_eq!(found.len(), 1);
    assert_eq!(found[0].start_line, 1);
    assert_eq!(found[0].end_line, 3);
    assert!(found[0].start_line <= found[0].end_line);
    assert_eq!(found[0].code, "one begin\ntwo\nthree end here");
}

#[test]
fn every_match_is_reported_in_order() {
    let rules = load_one(base("Sleep", r"sleep\(\d+\)")).unwrap();
    let found = scan(&rules, &None, "sleep(1)\nx\nsleep(2) sleep(3)");
    let lines: Vec<usize> = found.iter().map(|f| f.start_line).collect();
    assert_eq!(lines, vec![0, 2, 2]);
}

#[test]
fn not_utf8_gives_one_warning_and_nothing_else() {
    let rules = url_rule();
    let report = analyze_file(&rules, &None, "res/values.xml", &[0x22, 0xff, 0xfe, 0x22]);
    assert!(report.findings.is_empty());
    assert_eq!(report.warnings, vec![ScanWarning::NotUtf8]);
}

#[test]
fn utf8_file_is_scanned() {
    let rules = url_rule();
    let report = analyze_file(&rules, &None, "a.java", "ñ\n\"http://www.razican.com\"".as_bytes());
    assert!(report.warnings.is_empty());
    assert_eq!(report.findings.len(), 1);
    assert_eq!(report.findings[0].start_line, 1);
}

#[test]
fn max_sdk_below_min_sdk_skips_rule() {
    let mut e = base("Old API", "foo");
    e.push(("max_sdk", JsonValue::Unsigned(10)));
    let rules = load_one(e).unwrap();
    let high = Some(Manifest { min_sdk: 15, permissions: vec![] });
    let low = Some(Manifest { min_sdk: 10, permissions: vec![] });
    assert!(!rule_applies(&rules[0], &high));
    assert!(scan(&rules, &high, "foo").is_empty());
    assert_eq!(scan(&rules, &low, "foo").len(), 1);
    assert_eq!(scan(&rules, &None, "foo").len(), 1);
}

#[test]
fn permissions_need_a_manifest_that_holds_them() {
    let mut e = base("SMS", "sendTextMessage");
    e.push(("permissions", arr(&["SEND_SMS"])));
    let rules = load_one(e).unwrap();
    let with = Some(Manifest { min_sdk: 1, permissions: vec!["SEND_SMS".to_string()] });
    let without = Some(Manifest { min_sdk: 1, permissions: vec!["INTERNET".to_string()] });
    assert_eq!(scan(&rules, &with, "sendTextMessage").len(), 1);
    assert!(scan(&rules, &without, "sendTextMessage").is_empty());
    assert!(scan(&rules, &None, "sendTextMessage").is_empty());
}

#[test]
fn forward_check_reports_secondary_matches() {
    let mut e = base("Forward", r"(?P<fc1>\w+)\s*=\s*getX\(\)");
    e.push(("forward_check", s(r"{fc1}\.use\(\)")));
    let rules = load_one(e).unwrap();
    let found = scan(&rules, &None, "foo = getX()\nbar.use()\nfoo.use()\nfoo.use()");
    let lines: Vec<usize> = found.iter().map(|f| f.start_line).collect();
    assert_eq!(lines, vec![2, 3]);
}

#[test]
fn forward_check_fills_both_captures() {
    let mut e = base("Pair", r"(?P<fc1>\w+)=(?P<fc2>\w+);");
    e.push(("forward_check", s(r"{fc1}\({fc2}\)")));
    let rules = load_one(e).unwrap();
    let found = scan(&rules, &None, "f=x;\ng(x)\nf(y)\nf(x) f(x)");
    let lines: Vec<usize> = found.iter().map(|f| f.start_line).collect();
    assert_eq!(lines, vec![3, 3]);
    assert_eq!(found[0].code, "f(x) f(x)");
}

#[test]
fn forward_check_that_does_not_compile_warns() {
    let mut e = base("Forward", r"name=(?P<fc1>\S+)");
    e.push(("forward_check", s("{fc1}")));
    let rules = load_one(e).unwrap();
    let (found, failed) = evaluate_rule(&rules[0], &None, "a.java", "name=( name=x");
    assert!(found.is_empty());
    assert!(failed);
    let report = scan_text(&rules, &None, "a.java", "name=( name=x");
    assert_eq!(report.warnings, vec![ScanWarning::ForwardCheckFailed { rule: 0 }]);
}

#[test]
fn rules_are_evaluated_in_catalog_order() {
    let doc = JsonValue::Array(vec![obj(base("B", "b")), obj(base("A", "a"))]);
    let rules = load_rules(&doc, &known()).unwrap();
    let found = scan(&rules, &None, "a b");
    let labels: Vec<&str> = found.iter().map(|f| f.label.as_str()).collect();
    assert_eq!(labels, vec!["B", "A"]);
}

#[test]
fn file_order_does_not_change_findings() {
    let rules = url_rule();
    let files: Vec<(&str, &str)> = vec![
        ("a.java", "\"http://a.com\""),
        ("b.xml", "\"ftp://b.org\" \"http://c.net\""),
        ("c.java", "nothing"),
    ];
    let run = |order: &[usize]| {
        let mut all: Vec<Vulnerability> = Vec::new();
        for &i in order {
            all.extend(analyze_file(&rules, &None, files[i].0, files[i].1.as_bytes()).findings);
        }
        all.sort();
        all
    };
    let first = run(&[0, 1, 2]);
    assert_eq!(first.len(), 3);
    assert_eq!(first, run(&[2, 0, 1]));
    assert_eq!(first, run(&[1, 2, 0]));
    assert_eq!(first, run(&[0, 1, 2]));
}

#[test]
fn getters_give_what_was_loaded() {
    let mut e = base("Label", "x+");
    e.push(("max_sdk", JsonValue::Unsigned(23)));
    e.push(("permissions", arr(&["INTERNET"])));
    e.push(("forward_check", s("y")));
    e[2] = ("criticity", s("HiGh"));
    let rules = load_one(e).unwrap();
    let r = &rules[0];
    assert_eq!(r.get_label(), "Label");
    assert_eq!(r.get_description(), "A description");
    assert_eq!(r.get_criticity(), Criticity::High);
    assert_eq!(r.get_max_sdk(), Some(23));
    assert_eq!(r.get_permissions(), &vec!["INTERNET".to_string()]);
    assert_eq!(r.get_forward_check(), Some(&"y".to_string()));
    assert!(r.get_whitelist().is_empty());
}
