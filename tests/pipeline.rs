use hotdog::message::{Field, ParsedMessage};
use hotdog::pipeline::{handle_line, process_message, LineError, Publish, RuleRun};
use hotdog::rules::{Action, Pattern, Rule};
use hotdog::value::Json;

fn message(body: &str) -> ParsedMessage {
    ParsedMessage { msg: body.to_string(), hostname: None, appname: None, procid: None }
}

fn rule(pattern: &str, actions: Vec<Action>) -> Rule {
    Rule { field: Field::Msg, regex: Pattern::new(pattern).expect("valid pattern"), actions }
}

fn forward(topic: &str) -> Action {
    Action::Forward { topic: topic.to_string() }
}

fn replace(template: &str) -> Action {
    Action::Replace { template: template.to_string() }
}

fn merge_with(patch: &str) -> Action {
    Action::Merge { json: Json::parse(patch).expect("valid JSON") }
}

fn publish(topic: &str, payload: &str) -> Publish {
    Publish { topic: topic.to_string(), key: payload.to_string(), payload: payload.to_string() }
}

#[test]
fn merge_then_forward_end_to_end() {
    let rules = vec![rule(
        r#"code\":(?<code>\d+)"#,
        vec![merge_with(r#"{"level":"error"}"#), forward("errors-{{code}}")],
    )];
    let out = process_message(&rules, &message(r#"{"code":500}"#));
    assert_eq!(out, vec![publish("errors-500", r#"{"code":500,"level":"error"}"#)]);
}

#[test]
fn end_to_end_from_syslog_line() {
    let rules = vec![rule(
        r#"code\":(?<code>\d+)"#,
        vec![merge_with(r#"{"level":"error"}"#), forward("errors-{{code}}")],
    )];
    let line = r#"<13>1 2020-03-01T12:00:00Z myhost myapp 42 - - {"code":500}"#;
    let out = handle_line(&rules, line).expect("valid syslog line");
    assert_eq!(out, vec![publish("errors-500", r#"{"code":500,"level":"error"}"#)]);
}

#[test]
fn parsed_syslog_fields() {
    let m = ParsedMessage::parse("<13>1 2020-03-01T12:00:00Z myhost myapp 42 - - hello world")
        .expect("valid syslog line");
    assert_eq!(m.msg, "hello world");
    assert_eq!(m.hostname.as_deref(), Some("myhost"));
    assert_eq!(m.appname.as_deref(), Some("myapp"));
    assert_eq!(m.procid.as_deref(), Some("42"));
}

#[test]
fn unparsable_line_is_an_error() {
    let rules = vec![rule("x", vec![forward("t")])];
    assert_eq!(handle_line(&rules, "not a syslog line"), Err(LineError::Unparsable));
}

#[test]
fn stop_prevents_later_rules() {
    let rules = vec![
        rule("hello", vec![Action::Stop]),
        rule("hello", vec![replace("second"), forward("second")]),
    ];
    assert_eq!(process_message(&rules, &message("hello")), Vec::<Publish>::new());
}

#[test]
fn stop_lets_rest_of_rule_run() {
    let rules = vec![
        rule("hi", vec![replace("one"), Action::Stop, forward("a"), replace("two"), forward("b")]),
        rule("hi", vec![forward("never")]),
    ];
    assert_eq!(
        process_message(&rules, &message("hi")),
        vec![publish("a", "one"), publish("b", "two")]
    );
}

#[test]
fn unmatched_rule_runs_nothing() {
    let rules = vec![
        rule("^nomatch$", vec![replace("x"), forward("skipped"), Action::Stop]),
        Rule {
            field: Field::Appname,
            regex: Pattern::new(".*").unwrap(),
            actions: vec![forward("unwired")],
        },
        rule("body", vec![forward("seen")]),
    ];
    assert_eq!(process_message(&rules, &message("body")), vec![publish("seen", "")]);
}

#[test]
fn failed_merge_halts_chain_but_not_rule() {
    let rules = vec![
        rule("plain", vec![replace("kept"), merge_with(r#"{"a":1}"#), forward("t")]),
        rule("plain", vec![forward("later")]),
    ];
    assert_eq!(process_message(&rules, &message("plain text")), vec![publish("t", "kept")]);
}

#[test]
fn output_buffer_resets_per_rule() {
    let rules = vec![
        rule("m", vec![replace("first {{msg}}"), forward("one")]),
        rule("m", vec![forward("two")]),
    ];
    assert_eq!(
        process_message(&rules, &message("m")),
        vec![publish("one", "first m"), publish("two", "")]
    );
}

#[test]
fn failed_render_is_a_no_op() {
    let rules = vec![rule("z", vec![replace("set"), replace("{{#if}}"), forward("{{#each"), forward("ok")])];
    assert_eq!(process_message(&rules, &message("z")), vec![publish("ok", "set")]);
}

#[test]
fn each_line_starts_fresh() {
    let rules = vec![
        rule("stop", vec![Action::Stop]),
        rule(".", vec![replace("{{msg}}"), forward("all")]),
    ];
    let first = handle_line(&rules, "<13>1 - h a - - - stop now").unwrap();
    assert_eq!(first, Vec::<Publish>::new());
    let second = handle_line(&rules, "<13>1 - h a - - - go on").unwrap();
    assert_eq!(second, vec![publish("all", "go on")]);
}

#[test]
fn rule_run_steps() {
    let mut st = RuleRun::new();
    assert_eq!(st.output, "");
    assert!(st.continue_rules);
    st.apply_replace(Some("x".to_string()));
    st.apply_forward(Some("t".to_string()));
    st.apply_forward(None);
    st.apply_replace(None);
    st.apply_merge(Json::parse(r#"{"a":{"b":1}}"#), &Json::parse(r#"{"a":{"c":2}}"#).unwrap());
    assert_eq!(st.output, r#"{"a":{"b":1,"c":2}}"#);
    assert!(st.continue_rules);
    st.apply_merge(None, &Json::Null);
    assert_eq!(st.output, r#"{"a":{"b":1,"c":2}}"#);
    assert!(!st.continue_rules);
    assert_eq!(st.published, vec![publish("t", "x")]);
    let mut s2 = RuleRun::new();
    s2.apply_stop();
    assert!(!s2.continue_rules);
}

#[test]
fn unreadable_offset_is_unparsable() {
    let rules = vec![rule(".", vec![forward("t")])];
    assert_eq!(
        handle_line(&rules, "<13>1 2020-01-01T00:00:00+1 h a - - - x"),
        Err(LineError::Unparsable)
    );
    assert!(ParsedMessage::parse("<13>1 2020-01-01T00:00:00+12").is_none());
    assert!(ParsedMessage::parse("<13>1 2020-01-01T00:00:00+12:\u{e9}0 h a - - - x").is_none());
    let ok = ParsedMessage::parse("<13>1 2020-01-01T00:00:00+01:00 h a - - - x").unwrap();
    assert_eq!(ok.msg, "x");
}

#[test]
fn partial_templates_are_refused() {
    let rules = vec![rule(
        "p",
        vec![
            replace("kept"),
            replace(r#"{{#*inline "a"}}{{> a}}{{/inline}}{{> a}}"#),
            forward("{{~ # > b}}"),
            forward("t"),
        ],
    )];
    assert_eq!(process_message(&rules, &message("p")), vec![publish("t", "kept")]);
}

#[test]
fn empty_merge_forwards_body_unchanged() {
    let rules = vec![rule("5", vec![merge_with("{}"), forward("t")])];
    assert_eq!(process_message(&rules, &message("5")), vec![publish("t", "5")]);
}

#[test]
fn missing_variable_fails_render() {
    let rules = vec![rule(
        "x",
        vec![replace("set"), replace("{{absent}}"), forward("errors-{{code}}"), forward("ok-{{msg}}")],
    )];
    assert_eq!(process_message(&rules, &message("x")), vec![publish("ok-x", "set")]);
}
