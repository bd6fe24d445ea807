use hotdog::context::check_no_partial;
use hotdog::message::check_offset;
use hotdog::context::CaptureContext;
use hotdog::message::{select_field, Field, ParsedMessage};
use hotdog::rules::{rules_matching_line, Action, Pattern, Rule};

fn message(body: &str) -> ParsedMessage {
    ParsedMessage {
        msg: body.to_string(),
        hostname: Some("host".to_string()),
        appname: Some("app".to_string()),
        procid: None,
    }
}

fn rule(field: Field, pattern: &str, actions: Vec<Action>) -> Rule {
    Rule { field, regex: Pattern::new(pattern).expect("valid pattern"), actions }
}

#[test]
fn pattern_rejects_invalid_source() {
    assert!(Pattern::new("(").is_none());
    assert_eq!(Pattern::new("a+b").unwrap().as_str(), "a+b");
}

#[test]
fn select_body_only() {
    let m = message("hello");
    assert_eq!(select_field(Field::Msg, &m).map(|s| s.as_str()), Some("hello"));
    assert_eq!(select_field(Field::Hostname, &m), None);
    assert_eq!(select_field(Field::Appname, &m), None);
    assert_eq!(select_field(Field::Procid, &m), None);
}

#[test]
fn captures_named_groups_only() {
    let r = rule(Field::Msg, r"(\w+)=(?P<value>\d+)(?<unit>ms)?", vec![]);
    let ctx = r.captures(&message("took=42")).expect("matches");
    assert_eq!(ctx.get("msg"), Some("took=42"));
    assert_eq!(ctx.get("value"), Some("42"));
    assert_eq!(ctx.get("unit"), None);
    assert_eq!(ctx.get("1"), None);
    assert_eq!(ctx.get("0"), None);
}

#[test]
fn no_captures_when_pattern_misses() {
    let r = rule(Field::Msg, r"^ERROR (?<rest>.*)$", vec![]);
    assert!(r.captures(&message("INFO fine")).is_none());
}

#[test]
fn no_captures_for_unwired_field() {
    let r = rule(Field::Hostname, "host", vec![]);
    assert!(r.captures(&message("host")).is_none());
}

#[test]
fn context_from_groups() {
    let names = vec![None, Some("a".to_string()), None, Some("msg".to_string()), Some("b".to_string())];
    let groups = vec![
        Some("whole".to_string()),
        Some("x".to_string()),
        Some("y".to_string()),
        Some("override".to_string()),
        None,
    ];
    let ctx = CaptureContext::from_groups(&names, &groups, "body");
    assert_eq!(ctx.get("a"), Some("x"));
    assert_eq!(ctx.get("msg"), Some("override"));
    assert_eq!(ctx.get("b"), None);
    assert_eq!(ctx.get("whole"), None);
    let plain = CaptureContext::from_groups(&vec![], &vec![], "body");
    assert_eq!(plain.get("msg"), Some("body"));
}

#[test]
fn context_insert_overrides() {
    let mut ctx = CaptureContext::new("b");
    ctx.insert("k".to_string(), "1".to_string());
    ctx.insert("k".to_string(), "2".to_string());
    assert_eq!(ctx.get("k"), Some("2"));
    assert_eq!(ctx.get("msg"), Some("b"));
}

#[test]
fn dry_run_lists_matching_rules() {
    let rules = vec![
        rule(Field::Msg, "foo", vec![Action::Stop]),
        rule(Field::Hostname, "foo", vec![]),
        rule(Field::Msg, "bar", vec![]),
        rule(Field::Msg, "o+", vec![]),
    ];
    assert_eq!(rules_matching_line(&rules, "a foo line"), vec![0, 3]);
    assert_eq!(rules_matching_line(&rules, "xyz"), Vec::<usize>::new());
}

#[test]
fn offset_and_partial_checks() {
    assert!(check_offset("<13>1 2020-01-01T00:00:00Z h a - - - end-"));
    assert!(check_offset("<13>1 - h a - - - x"));
    assert!(check_offset("nospace+"));
    assert!(!check_offset("<13>1 2020-01-01T00:00:00-05:0"));
    assert!(check_no_partial("errors-{{code}} > x"));
    assert!(!check_no_partial("{{> a}}"));
    assert!(!check_no_partial("{{#>a}}x{{/a}}"));
    assert!(!check_no_partial("{{~\n>a}}"));
}
