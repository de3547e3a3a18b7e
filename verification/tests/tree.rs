use pliny::groups::{group_plan, Group};
use pliny::json::Json;
use pliny::plan::{Action, Change, Plan, ResourceChange};
use pliny::tree::{build_rows, Row, RowColor, RowKind};
use serde_json::Value;
use std::collections::HashSet;

/// A plan document, decoded from its JSON text.
fn decode(raw: &str) -> Result<Plan, String> {
    let value: Value = serde_json::from_str(raw).map_err(|e| e.to_string())?;
    let version = value
        .get("format_version")
        .and_then(Value::as_str)
        .ok_or_else(|| "missing field `format_version`".to_string())?;
    Ok(Plan {
        format_version: version.to_string(),
        resource_changes: changes(&value, "resource_changes")?,
        resource_drift: changes(&value, "resource_drift")?,
    })
}

fn changes(value: &Value, key: &str) -> Result<Vec<ResourceChange>, String> {
    let Some(items) = value.get(key).and_then(Value::as_array) else {
        return Ok(Vec::new());
    };
    items
        .iter()
        .map(|rc| {
            let body = rc.get("change").ok_or("missing field `change`")?;
            Ok(ResourceChange {
                address: text(rc, "address").ok_or("missing field `address`")?,
                resource_type: text(rc, "type").ok_or("missing field `type`")?,
                change: Change {
                    actions: body
                        .get("actions")
                        .and_then(Value::as_array)
                        .ok_or("missing field `actions`")?
                        .iter()
                        .map(|a| a.as_str().unwrap_or("").to_string())
                        .collect(),
                    before: json(body, "before"),
                    after: json(body, "after"),
                    after_unknown: json(body, "after_unknown"),
                    before_sensitive: json(body, "before_sensitive"),
                    after_sensitive: json(body, "after_sensitive"),
                },
                name: text(rc, "name"),
                provider_name: text(rc, "provider_name"),
                module_address: text(rc, "module_address"),
            })
        })
        .collect()
}

fn text(value: &Value, key: &str) -> Option<String> {
    value.get(key).and_then(Value::as_str).map(str::to_string)
}

fn json(value: &Value, key: &str) -> Option<Json> {
    match value.get(key) {
        None | Some(Value::Null) => None,
        Some(v) => Some(Json::from_value(v.clone())),
    }
}

fn mk_plan(raw: &str) -> Plan {
    Plan::parse(decode(raw)).unwrap()
}

#[test]
fn collapsed_shows_only_groups() {
    let p = mk_plan(
        r#"{
            "format_version":"1.2",
            "resource_changes":[
                {"address":"aws_dynamodb_table.users","type":"aws_dynamodb_table","change":{"actions":["create"]}}
            ]
        }"#,
    );
    let g = group_plan(&p, false);
    let rows = build_rows(&g, &HashSet::new(), &Vec::new());
    assert_eq!(rows.len(), 1);
    assert!(matches!(rows[0].kind, RowKind::Group { .. }));
}

#[test]
fn expanded_group_shows_resources() {
    let p = mk_plan(
        r#"{
            "format_version":"1.2",
            "resource_changes":[
                {"address":"aws_dynamodb_table.users","type":"aws_dynamodb_table","change":{"actions":["create"]}},
                {"address":"aws_dynamodb_table.orders","type":"aws_dynamodb_table","change":{"actions":["create"]}}
            ]
        }"#,
    );
    let g = group_plan(&p, false);
    let mut expanded = HashSet::new();
    expanded.insert(0);
    let rows = build_rows(&g, &expanded, &Vec::new());
    assert_eq!(rows.len(), 3);
    assert!(matches!(rows[0].kind, RowKind::Group { .. }));
    assert!(matches!(rows[1].kind, RowKind::Resource { .. }));
    assert!(matches!(rows[2].kind, RowKind::Resource { .. }));
}

#[test]
fn expanded_resource_shows_attrs() {
    let p = mk_plan(
        r#"{
            "format_version":"1.2",
            "resource_changes":[
                {"address":"aws_dynamodb_table.users","type":"aws_dynamodb_table",
                 "change":{"actions":["create"],"after":{"billing_mode":"PAY_PER_REQUEST","hash_key":"id"}}}
            ]
        }"#,
    );
    let g = group_plan(&p, false);
    let mut eg = HashSet::new();
    eg.insert(0);
    let mut er = Vec::new();
    er.push((0, 0));
    let rows = build_rows(&g, &eg, &er);
    // Group + resource + 2 attrs = 4
    assert_eq!(rows.len(), 4);
    assert!(matches!(rows[0].kind, RowKind::Group { .. }));
    assert!(matches!(rows[1].kind, RowKind::Resource { .. }));
    assert!(matches!(rows[2].kind, RowKind::Attr { .. }));
    assert!(matches!(rows[3].kind, RowKind::Attr { .. }));
}

fn sample() -> Vec<Group> {
    group_plan(
        &mk_plan(
            r#"{
            "format_version":"1.2",
            "resource_changes":[
                {"address":"t.b","type":"t","change":{"actions":["update"],"before":{"k":1},"after":{"k":2}}},
                {"address":"t.a","type":"t","change":{"actions":["update"],"before":{"k":1},"after":{"k":1}}},
                {"address":"u.a","type":"u","change":{"actions":["create"]}}
            ]
        }"#,
        ),
        false,
    )
}

#[test]
fn rows_are_exact() {
    let rows = build_rows(&sample(), &HashSet::from([0]), &vec![(0, 0), (0, 1), (1, 0)]);
    let shown: Vec<(usize, &str, RowKind, Action)> = rows
        .iter()
        .map(|r: &Row| (r.depth, r.label.as_str(), r.kind, r.action))
        .collect();
    assert_eq!(
        shown,
        vec![
            (0, "~ t (2)", RowKind::Group { group_idx: 0 }, Action::Update),
            (1, "~ t.a", RowKind::Resource { group_idx: 0, resource_idx: 0 }, Action::Update),
            (
                2,
                "(no diffed attributes)",
                RowKind::Attr { group_idx: 0, resource_idx: 0, attr_idx: 0 },
                Action::Update
            ),
            (1, "~ t.b", RowKind::Resource { group_idx: 0, resource_idx: 1 }, Action::Update),
            (
                2,
                "k: 1 -> 2",
                RowKind::Attr { group_idx: 0, resource_idx: 1, attr_idx: 0 },
                Action::Update
            ),
            (0, "+ u (1)", RowKind::Group { group_idx: 1 }, Action::Create),
        ]
    );
}

#[test]
fn an_expanded_change_shows_few_rows() {
    let g = group_plan(
        &mk_plan(
            r#"{"format_version":"1.2","resource_changes":[{"address":"t.a","type":"t",
            "change":{"actions":["create"],"after":{"a":1,"b":2,"c":3,"d":4,"e":5,"f":6,"g":7}}}]}"#,
        ),
        false,
    );
    let rows = build_rows(&g, &HashSet::from([0]), &vec![(0, 0)]);
    assert_eq!(rows.len(), 2 + 5);
    assert_eq!(rows[6].label, "e=5");
}

#[test]
fn expansion_beyond_the_groups_shows_nothing() {
    let rows = build_rows(&sample(), &HashSet::from([7]), &vec![(0, 9), (7, 7)]);
    assert_eq!(rows.len(), 2);
    assert!(build_rows(&[], &HashSet::from([0]), &vec![(0, 0)]).is_empty());
}

#[test]
fn expanding_a_group_keeps_the_other_rows() {
    let g = sample();
    let closed = build_rows(&g, &HashSet::from([1]), &Vec::new());
    let open = build_rows(&g, &HashSet::from([0, 1]), &Vec::new());
    assert_eq!(open.len(), closed.len() + 2);
    assert_eq!(open[0].label, closed[0].label);
    assert_eq!(open[3].kind, closed[1].kind);
    assert_eq!(open[4].kind, closed[2].kind);
}

#[test]
fn styles_follow_action_and_kind() {
    let cases = [
        (Action::Delete, RowColor::Red),
        (Action::Replace, RowColor::Magenta),
        (Action::Update, RowColor::Yellow),
        (Action::Create, RowColor::Green),
        (Action::Read, RowColor::Cyan),
        (Action::NoOp, RowColor::Gray),
    ];
    for (action, color) in cases {
        let mut row = Row {
            depth: 0,
            label: String::new(),
            kind: RowKind::Group { group_idx: 0 },
            action,
        };
        assert_eq!(row.style().fg, color);
        assert!(row.style().bold);
        row.kind = RowKind::Resource { group_idx: 0, resource_idx: 0 };
        assert!(!row.style().bold);
        row.kind = RowKind::Attr { group_idx: 0, resource_idx: 0, attr_idx: 0 };
        assert_eq!(row.style().fg, color);
        assert!(!row.style().bold);
    }
}

#[test]
fn a_long_value_is_cut_between_characters() {
    let split = format!("{}ü{}", "x".repeat(36), "y".repeat(10));
    let p = mk_plan(&format!(
        r#"{{"format_version":"1.2","resource_changes":[
            {{"address":"t.a","type":"t","change":{{"actions":["create"],"after":{{"k":"{split}"}}}}}}]}}"#
    ));
    let rows = build_rows(&group_plan(&p, false), &HashSet::from([0]), &vec![(0, 0)]);
    assert_eq!(rows[2].label, format!("k=\"{}...\"", "x".repeat(36)));
}

#[test]
fn clones_of_rows_are_equal() {
    let rows = build_rows(&sample(), &HashSet::new(), &Vec::new());
    let copy = rows[0].clone();
    assert_eq!(copy.depth, rows[0].depth);
    assert_eq!(copy.label, rows[0].label);
    assert_eq!(copy.kind, rows[0].kind);
    assert_eq!(copy.action, rows[0].action);
}

#[test]
fn masked_values_do_not_show_in_the_tree() {
    let labels = |secret: &str| -> Vec<String> {
        let p = mk_plan(&format!(
            r#"{{"format_version":"1.2","resource_changes":[{{"address":"t.a","type":"t",
            "change":{{"actions":["create"],"after":{{"n":1,"p":"{secret}"}},"after_sensitive":{{"p":true}}}}}}]}}"#
        ));
        let g = group_plan(&p, false);
        build_rows(&g, &HashSet::from([0]), &vec![(0, 0)])
            .iter()
            .map(|r| r.label.clone())
            .collect()
    };
    assert_eq!(labels("hunter2"), labels("swordfish"));
    assert_eq!(labels("x"), vec!["+ t (1)", "+ t.a", "n=1", "p=<sensitive>"]);
}
