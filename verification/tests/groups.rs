use pliny::groups::{action_priority, group_plan};
use pliny::json::Json;
use pliny::plan::{Action, Change, Plan, ResourceChange};
use serde_json::Value;

/// A plan document, decoded from its JSON text.
fn decode(raw: &str) -> Result<Plan, String> {
    let value: Value = serde_json::from_str(raw).map_err(|e| e.to_string())?;
    let version = value
        .get("format_version")
        .and_then(Value::as_str)
        .ok_or_else(|| "missing field `format_version`".to_string())?;
    Ok(Plan {
        format_version: version.to_string(),
        resource_changes: changes(&value, "resource_changes")?,
        resource_drift: changes(&value, "resource_drift")?,
    })
}

fn changes(value: &Value, key: &str) -> Result<Vec<ResourceChange>, String> {
    let Some(items) = value.get(key).and_then(Value::as_array) else {
        return Ok(Vec::new());
    };
    items
        .iter()
        .map(|rc| {
            let body = rc.get("change").ok_or("missing field `change`")?;
            Ok(ResourceChange {
                address: text(rc, "address").ok_or("missing field `address`")?,
                resource_type: text(rc, "type").ok_or("missing field `type`")?,
                change: Change {
                    actions: body
                        .get("actions")
                        .and_then(Value::as_array)
                        .ok_or("missing field `actions`")?
                        .iter()
                        .map(|a| a.as_str().unwrap_or("").to_string())
                        .collect(),
                    before: json(body, "before"),
                    after: json(body, "after"),
                    after_unknown: json(body, "after_unknown"),
                    before_sensitive: json(body, "before_sensitive"),
                    after_sensitive: json(body, "after_sensitive"),
                },
                name: text(rc, "name"),
                provider_name: text(rc, "provider_name"),
                module_address: text(rc, "module_address"),
            })
        })
        .collect()
}

fn text(value: &Value, key: &str) -> Option<String> {
    value.get(key).and_then(Value::as_str).map(str::to_string)
}

fn json(value: &Value, key: &str) -> Option<Json> {
    match value.get(key) {
        None | Some(Value::Null) => None,
        Some(v) => Some(Json::from_value(v.clone())),
    }
}

fn mk_plan(raw: &str) -> Plan {
    Plan::parse(decode(raw)).unwrap()
}

#[test]
fn groups_by_type_and_action() {
    let p = mk_plan(
        r#"{
            "format_version":"1.2",
            "resource_changes":[
                {"address":"aws_dynamodb_table.users","type":"aws_dynamodb_table","change":{"actions":["create"]}},
                {"address":"aws_dynamodb_table.orders","type":"aws_dynamodb_table","change":{"actions":["create"]}},
                {"address":"aws_security_group.web","type":"aws_security_group","change":{"actions":["update"]}}
            ]
        }"#,
    );
    let groups = group_plan(&p, false);
    assert_eq!(groups.len(), 2);
    // Update comes before Create in priority
    assert_eq!(groups[0].action, Action::Update);
    assert_eq!(groups[0].resource_type, "aws_security_group");
    assert_eq!(groups[0].count(), 1);
    assert_eq!(groups[1].action, Action::Create);
    assert_eq!(groups[1].resource_type, "aws_dynamodb_table");
    assert_eq!(groups[1].count(), 2);
}

#[test]
fn hides_noops_by_default() {
    let p = mk_plan(
        r#"{
            "format_version":"1.2",
            "resource_changes":[
                {"address":"a.b","type":"t","change":{"actions":["no-op"]}},
                {"address":"a.c","type":"t","change":{"actions":["create"]}}
            ]
        }"#,
    );
    let hidden = group_plan(&p, false);
    assert_eq!(hidden.len(), 1);
    assert_eq!(hidden[0].action, Action::Create);

    let shown = group_plan(&p, true);
    assert_eq!(shown.len(), 2);
}

#[test]
fn destroys_surface_first() {
    let p = mk_plan(
        r#"{
            "format_version":"1.2",
            "resource_changes":[
                {"address":"a.created","type":"t","change":{"actions":["create"]}},
                {"address":"a.deleted","type":"t","change":{"actions":["delete"]}},
                {"address":"a.replaced","type":"t","change":{"actions":["delete","create"]}}
            ]
        }"#,
    );
    let groups = group_plan(&p, false);
    let actions: Vec<Action> = groups.iter().map(|g| g.action).collect();
    assert_eq!(actions, vec![Action::Delete, Action::Replace, Action::Create]);
}

#[test]
fn label_format() {
    let p = mk_plan(
        r#"{
            "format_version":"1.2",
            "resource_changes":[
                {"address":"a.x","type":"aws_dynamodb_table","change":{"actions":["create"]}},
                {"address":"a.y","type":"aws_dynamodb_table","change":{"actions":["create"]}},
                {"address":"a.z","type":"aws_dynamodb_table","change":{"actions":["create"]}}
            ]
        }"#,
    );
    let groups = group_plan(&p, false);
    assert_eq!(groups[0].label(), "+ aws_dynamodb_table (3)");
}

#[test]
fn includes_resource_drift_in_groups() {
    let p = mk_plan(
        r#"{
            "format_version":"1.2",
            "resource_changes":[],
            "resource_drift":[
                {"address":"aws_instance.web","type":"aws_instance","change":{"actions":["update"]}}
            ]
        }"#,
    );
    let groups = group_plan(&p, false);
    assert_eq!(groups.len(), 1);
    assert_eq!(groups[0].resource_type, "aws_instance");
}

#[test]
fn order_is_by_priority_then_type_then_address() {
    let p = mk_plan(
        r#"{
            "format_version":"1.2",
            "resource_changes":[
                {"address":"b.2","type":"b","change":{"actions":["create"]}},
                {"address":"b.10","type":"b","change":{"actions":["create"]}},
                {"address":"a.1","type":"a","change":{"actions":["create"]}},
                {"address":"z.1","type":"z","change":{"actions":["read"]}},
                {"address":"y.1","type":"y","change":{"actions":["no-op"]}},
                {"address":"x.1","type":"x","change":{"actions":["update"]}},
                {"address":"w.1","type":"w","change":{"actions":["delete"]}}
            ]
        }"#,
    );
    let groups = group_plan(&p, true);
    let labels: Vec<String> = groups.iter().map(|g| g.label()).collect();
    assert_eq!(
        labels,
        vec!["- w (1)", "~ x (1)", "+ a (1)", "+ b (2)", "> z (1)", "  y (1)"]
    );
    let addresses: Vec<&str> = groups[3].changes.iter().map(|c| c.address.as_str()).collect();
    assert_eq!(addresses, vec!["b.10", "b.2"]);
}

#[test]
fn equal_addresses_keep_their_order() {
    let p = mk_plan(
        r#"{
            "format_version":"1.2",
            "resource_changes":[
                {"address":"t.b","type":"t","name":"first","change":{"actions":["update"]}},
                {"address":"t.a","type":"t","name":"other","change":{"actions":["update"]}}
            ],
            "resource_drift":[
                {"address":"t.b","type":"t","name":"second","change":{"actions":["update"]}}
            ]
        }"#,
    );
    let groups = group_plan(&p, false);
    let names: Vec<&str> = groups[0]
        .changes
        .iter()
        .map(|c| c.name.as_deref().unwrap())
        .collect();
    assert_eq!(names, vec!["other", "first", "second"]);
}

#[test]
fn the_order_of_other_changes_does_not_matter() {
    let labels = |raw: &str| -> Vec<(String, Vec<String>)> {
        group_plan(&mk_plan(raw), false)
            .iter()
            .map(|g| (g.label(), g.changes.iter().map(|c| c.address.clone()).collect()))
            .collect()
    };
    let one = r#"{"format_version":"1.2","resource_changes":[
        {"address":"t.a","type":"t","change":{"actions":["create"]}},
        {"address":"u.a","type":"u","change":{"actions":["delete"]}},
        {"address":"t.b","type":"t","change":{"actions":["create"]}}]}"#;
    let other = r#"{"format_version":"1.2","resource_changes":[
        {"address":"t.b","type":"t","change":{"actions":["create"]}},
        {"address":"t.a","type":"t","change":{"actions":["create"]}},
        {"address":"u.a","type":"u","change":{"actions":["delete"]}}]}"#;
    assert_eq!(labels(one), labels(other));
}

#[test]
fn unrecognized_actions_are_left_out() {
    let p = mk_plan(
        r#"{
            "format_version":"1.2",
            "resource_changes":[
                {"address":"t.a","type":"t","change":{"actions":["bogus"]}},
                {"address":"t.b","type":"t","change":{"actions":[]}}
            ]
        }"#,
    );
    assert!(group_plan(&p, true).is_empty());
}

#[test]
fn group_counts_sum_to_shown_changes() {
    let p = mk_plan(
        r#"{
            "format_version":"1.2",
            "resource_changes":[
                {"address":"t.a","type":"t","change":{"actions":["create"]}},
                {"address":"t.b","type":"u","change":{"actions":["create"]}},
                {"address":"t.c","type":"t","change":{"actions":["no-op"]}},
                {"address":"t.a","type":"t","change":{"actions":["create"]}}
            ]
        }"#,
    );
    let total = |groups: &[pliny::groups::Group]| groups.iter().map(|g| g.count()).sum::<usize>();
    assert_eq!(total(&group_plan(&p, false)), 3);
    assert_eq!(total(&group_plan(&p, true)), 4);
}

#[test]
fn empty_plan_has_no_groups() {
    let p = mk_plan(
        r#"{"format_version":"1.2","resource_changes":[
            {"address":"t.a","type":"t","change":{"actions":["no-op"]}}]}"#,
    );
    assert!(p.is_empty_plan());
    assert!(group_plan(&p, false).is_empty());
    assert_eq!(p.change_counts().footer(), "0 to add, 0 to change, 0 to destroy");
}

#[test]
fn priorities_rise_with_harmlessness() {
    let order = [
        Action::Delete,
        Action::Replace,
        Action::Update,
        Action::Create,
        Action::Read,
        Action::NoOp,
    ];
    for (i, action) in order.into_iter().enumerate() {
        assert_eq!(action_priority(action) as usize, i);
    }
}

#[test]
fn a_clone_of_a_group_is_the_group() {
    let p = mk_plan(
        r#"{"format_version":"1.2","resource_changes":[
            {"address":"t.a","type":"t","change":{"actions":["create"]}}]}"#,
    );
    let groups = group_plan(&p, false);
    let copy = groups[0].clone();
    assert_eq!(copy.label(), groups[0].label());
    assert_eq!(copy.changes[0].address, "t.a");
}
