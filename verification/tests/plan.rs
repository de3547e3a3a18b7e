use pliny::json::Json;
use pliny::plan::{
    unrecognized_message, unsupported_message, Action, Change, ChangeCounts, Plan, PlanError,
    ResourceChange,
};
use serde_json::Value;

/// A plan document, decoded from its JSON text.
fn decode(raw: &str) -> Result<Plan, String> {
    let value: Value = serde_json::from_str(raw).map_err(|e| e.to_string())?;
    let version = value
        .get("format_version")
        .and_then(Value::as_str)
        .ok_or_else(|| "missing field `format_version`".to_string())?;
    Ok(Plan {
        format_version: version.to_string(),
        resource_changes: changes(&value, "resource_changes")?,
        resource_drift: changes(&value, "resource_drift")?,
    })
}

fn changes(value: &Value, key: &str) -> Result<Vec<ResourceChange>, String> {
    let Some(items) = value.get(key).and_then(Value::as_array) else {
        return Ok(Vec::new());
    };
    items
        .iter()
        .map(|rc| {
            let body = rc.get("change").ok_or("missing field `change`")?;
            Ok(ResourceChange {
                address: text(rc, "address").ok_or("missing field `address`")?,
                resource_type: text(rc, "type").ok_or("missing field `type`")?,
                change: Change {
                    actions: body
                        .get("actions")
                        .and_then(Value::as_array)
                        .ok_or("missing field `actions`")?
                        .iter()
                        .map(|a| a.as_str().unwrap_or("").to_string())
                        .collect(),
                    before: json(body, "before"),
                    after: json(body, "after"),
                    after_unknown: json(body, "after_unknown"),
                    before_sensitive: json(body, "before_sensitive"),
                    after_sensitive: json(body, "after_sensitive"),
                },
                name: text(rc, "name"),
                provider_name: text(rc, "provider_name"),
                module_address: text(rc, "module_address"),
            })
        })
        .collect()
}

fn text(value: &Value, key: &str) -> Option<String> {
    value.get(key).and_then(Value::as_str).map(str::to_string)
}

fn json(value: &Value, key: &str) -> Option<Json> {
    match value.get(key) {
        None | Some(Value::Null) => None,
        Some(v) => Some(Json::from_value(v.clone())),
    }
}

#[test]
fn parse_empty_plan() {
    let raw = r#"{"format_version":"1.2","resource_changes":[]}"#;
    let p = Plan::parse(decode(raw)).unwrap();
    assert_eq!(p.format_version, "1.2");
    assert!(p.is_empty_plan());
}

#[test]
fn parse_no_op_is_empty_plan() {
    let raw = r#"{
            "format_version":"1.2",
            "resource_changes":[
                {"address":"null_resource.a","type":"null_resource","change":{"actions":["no-op"]}}
            ]
        }"#;
    let p = Plan::parse(decode(raw)).unwrap();
    assert!(p.is_empty_plan());
}

#[test]
fn rejects_unsupported_version() {
    let raw = r#"{"format_version":"0.9"}"#;
    let err = Plan::parse(decode(raw)).unwrap_err();
    assert!(err.message().contains("unsupported plan format_version"));
}

#[test]
fn actions_map() {
    assert_eq!(
        Action::from_actions(&["create".into()]).unwrap(),
        Action::Create
    );
    assert_eq!(
        Action::from_actions(&["delete".into(), "create".into()]).unwrap(),
        Action::Replace
    );
    assert_eq!(
        Action::from_actions(&["create".into(), "delete".into()]).unwrap(),
        Action::Replace
    );
    assert_eq!(
        Action::from_actions(&["no-op".into()]).unwrap(),
        Action::NoOp
    );
    assert!(Action::from_actions(&["garbage".into()]).is_err());
}

#[test]
fn parses_replace_action_in_resource_change() {
    let raw = r#"{
            "format_version":"1.1",
            "resource_changes":[
                {"address":"aws_instance.web","type":"aws_instance","change":{"actions":["delete","create"]}}
            ]
        }"#;
    let p = Plan::parse(decode(raw)).unwrap();
    let action = Action::from_actions(&p.resource_changes[0].change.actions).unwrap();
    assert_eq!(action, Action::Replace);
}

#[test]
fn parses_resource_drift() {
    let raw = r#"{
            "format_version":"1.2",
            "resource_changes":[],
            "resource_drift":[
                {"address":"aws_instance.web","type":"aws_instance","change":{"actions":["update"]}}
            ]
        }"#;
    let p = Plan::parse(decode(raw)).unwrap();
    assert_eq!(p.resource_drift.len(), 1);
    assert_eq!(p.total_changes(), 1);
}

#[test]
fn supported_versions_are_accepted() {
    for version in ["1.0", "1.1", "1.2"] {
        let raw = format!("{{\"format_version\":\"{version}\"}}");
        assert_eq!(Plan::parse(decode(&raw)).unwrap().format_version, version);
    }
    for version in ["1", "1.3", "1.20", "", "1.2 "] {
        let raw = format!("{{\"format_version\":\"{version}\"}}");
        assert!(matches!(
            Plan::parse(decode(&raw)),
            Err(PlanError::UnsupportedFormat(v)) if v == version
        ));
    }
}

#[test]
fn unsupported_version_message_is_exact() {
    let err = Plan::parse(decode(r#"{"format_version":"0.9"}"#)).unwrap_err();
    assert_eq!(
        err.message(),
        "unsupported plan format_version \"0.9\" (supported: 1.0, 1.1, 1.2)"
    );
}

#[test]
fn decoder_message_is_kept() {
    let decoded = decode("{");
    let message = decoded.as_ref().unwrap_err().clone();
    let err = Plan::parse(decoded).unwrap_err();
    assert!(matches!(err, PlanError::Decode(_)));
    assert_eq!(err.message(), message);
}

#[test]
fn unrecognized_actions_are_reported() {
    let err = Action::from_actions(&["create".into(), "a\"b".into()]).unwrap_err();
    assert_eq!(err.actions, vec!["create", "a\"b"]);
    assert_eq!(err.message(), r#"unrecognized action set: ["create", "a\"b"]"#);
    let none = Action::from_actions(&[]).unwrap_err();
    assert_eq!(none.message(), "unrecognized action set: []");
    assert!(Action::from_actions(&["create".into(), "create".into()]).is_err());
}

#[test]
fn every_action_has_words_glyph_and_label() {
    let cases = [
        (vec!["create"], Action::Create, "+", "create"),
        (vec!["update"], Action::Update, "~", "update"),
        (vec!["delete"], Action::Delete, "-", "delete"),
        (vec!["delete", "create"], Action::Replace, "-/+", "replace"),
        (vec!["read"], Action::Read, ">", "read"),
        (vec!["no-op"], Action::NoOp, " ", "no-op"),
    ];
    for (words, action, glyph, label) in cases {
        let words: Vec<String> = words.into_iter().map(String::from).collect();
        assert_eq!(Action::from_actions(&words).unwrap(), action);
        assert_eq!(action.glyph(), glyph);
        assert_eq!(action.label(), label);
    }
}

#[test]
fn counts_tell_what_a_plan_does() {
    let raw = r#"{
            "format_version":"1.2",
            "resource_changes":[
                {"address":"t.a","type":"t","change":{"actions":["create"]}},
                {"address":"t.b","type":"t","change":{"actions":["delete","create"]}},
                {"address":"t.c","type":"t","change":{"actions":["update"]}},
                {"address":"t.d","type":"t","change":{"actions":["no-op"]}},
                {"address":"t.e","type":"t","change":{"actions":["bogus"]}},
                {"address":"t.f","type":"t","change":{"actions":["read"]}}
            ],
            "resource_drift":[
                {"address":"t.g","type":"t","change":{"actions":["delete"]}}
            ]
        }"#;
    let p = Plan::parse(decode(raw)).unwrap();
    assert_eq!(p.change_counts(), ChangeCounts { add: 2, change: 1, destroy: 1 });
    assert_eq!(p.change_counts().footer(), "2 to add, 1 to change, 1 to destroy");
    assert_eq!(p.total_changes(), 7);
    assert!(!p.is_empty_plan());
}

#[test]
fn drift_or_an_unknown_action_is_no_empty_plan() {
    let drift = r#"{"format_version":"1.2","resource_drift":[
        {"address":"t.a","type":"t","change":{"actions":["no-op"]}}]}"#;
    assert!(!Plan::parse(decode(drift)).unwrap().is_empty_plan());
    let odd = r#"{"format_version":"1.2","resource_changes":[
        {"address":"t.a","type":"t","change":{"actions":["bogus"]}}]}"#;
    assert!(!Plan::parse(decode(odd)).unwrap().is_empty_plan());
}

#[test]
fn a_clone_of_a_plan_is_the_plan() {
    let raw = r#"{
            "format_version":"1.2",
            "resource_changes":[
                {"address":"t.a","type":"t","name":"a","provider_name":"p","module_address":"m",
                 "change":{"actions":["create"],"after":{"k":[1,{"x":null}]}}}
            ]
        }"#;
    let p = Plan::parse(decode(raw)).unwrap();
    let q = p.clone();
    assert_eq!(q.format_version, p.format_version);
    assert_eq!(q.resource_changes[0].name.as_deref(), Some("a"));
    assert_eq!(q.resource_changes[0].provider_name.as_deref(), Some("p"));
    assert_eq!(q.resource_changes[0].module_address.as_deref(), Some("m"));
    let before = p.resource_changes[0].change.after.as_ref().unwrap();
    assert!(before.equals(q.resource_changes[0].change.after.as_ref().unwrap()));
}

#[test]
fn messages_are_put_together() {
    assert_eq!(
        unrecognized_message(&vec!["\"a\"".into(), "\"b\"".into()]),
        "unrecognized action set: [\"a\", \"b\"]"
    );
    assert_eq!(
        unsupported_message("\"2\""),
        "unsupported plan format_version \"2\" (supported: 1.0, 1.1, 1.2)"
    );
}
