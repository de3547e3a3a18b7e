use pliny::digest::{
    attr_lines, digest_attrs, digest_attrs_public, digest_plan, digest_with_budget,
    estimate_tokens, group_counts_only, masked_value, render_value, sensitive_key_set,
    unknown_key_set, UnknownKeys, FULL_DIGEST_LIMIT, MAX_ATTRS_PER_RESOURCE, MAX_DIGEST_TOKENS,
};
use pliny::groups::group_plan;
use pliny::json::Json;
use pliny::plan::{Change, Plan, ResourceChange};
use serde_json::Value;

/// A plan document, decoded from its JSON text.
fn decode(raw: &str) -> Result<Plan, String> {
    let value: Value = serde_json::from_str(raw).map_err(|e| e.to_string())?;
    let version = value
        .get("format_version")
        .and_then(Value::as_str)
        .ok_or_else(|| "missing field `format_version`".to_string())?;
    Ok(Plan {
        format_version: version.to_string(),
        resource_changes: changes(&value, "resource_changes")?,
        resource_drift: changes(&value, "resource_drift")?,
    })
}

fn changes(value: &Value, key: &str) -> Result<Vec<ResourceChange>, String> {
    let Some(items) = value.get(key).and_then(Value::as_array) else {
        return Ok(Vec::new());
    };
    items
        .iter()
        .map(|rc| {
            let body = rc.get("change").ok_or("missing field `change`")?;
            Ok(ResourceChange {
                address: text(rc, "address").ok_or("missing field `address`")?,
                resource_type: text(rc, "type").ok_or("missing field `type`")?,
                change: Change {
                    actions: body
                        .get("actions")
                        .and_then(Value::as_array)
                        .ok_or("missing field `actions`")?
                        .iter()
                        .map(|a| a.as_str().unwrap_or("").to_string())
                        .collect(),
                    before: json(body, "before"),
                    after: json(body, "after"),
                    after_unknown: json(body, "after_unknown"),
                    before_sensitive: json(body, "before_sensitive"),
                    after_sensitive: json(body, "after_sensitive"),
                },
                name: text(rc, "name"),
                provider_name: text(rc, "provider_name"),
                module_address: text(rc, "module_address"),
            })
        })
        .collect()
}

fn text(value: &Value, key: &str) -> Option<String> {
    value.get(key).and_then(Value::as_str).map(str::to_string)
}

fn json(value: &Value, key: &str) -> Option<Json> {
    match value.get(key) {
        None | Some(Value::Null) => None,
        Some(v) => Some(Json::from_value(v.clone())),
    }
}

fn mk_plan(raw: &str) -> Plan {
    Plan::parse(decode(raw)).unwrap()
}

fn value(raw: &str) -> Json {
    Json::from_value(serde_json::from_str(raw).unwrap())
}

fn only_change(raw: &str) -> Change {
    let p = mk_plan(&format!(
        "{{\"format_version\":\"1.2\",\"resource_changes\":[{{\"address\":\"t.a\",\"type\":\"t\",\"change\":{raw}}}]}}"
    ));
    p.resource_changes[0].change.clone()
}

#[test]
fn digest_includes_resource_lines() {
    let p = mk_plan(
        r#"{
            "format_version":"1.2",
            "resource_changes":[
                {"address":"aws_dynamodb_table.users","type":"aws_dynamodb_table",
                 "change":{"actions":["create"],"after":{"billing_mode":"PAY_PER_REQUEST","hash_key":"id"}}}
            ]
        }"#,
    );
    let g = group_plan(&p, false);
    let d = digest_plan(&p, &g);
    assert!(d.contains("+ aws_dynamodb_table.users"));
    assert!(d.contains("billing_mode"));
    assert!(d.contains("PAY_PER_REQUEST"));
}

#[test]
fn sensitive_values_stripped() {
    let p = mk_plan(
        r#"{
            "format_version":"1.2",
            "resource_changes":[
                {"address":"aws_db_instance.x","type":"aws_db_instance",
                 "change":{
                    "actions":["create"],
                    "after":{"password":"hunter2","name":"prod"},
                    "after_sensitive":{"password":true}
                 }}
            ]
        }"#,
    );
    let g = group_plan(&p, false);
    let d = digest_plan(&p, &g);
    assert!(d.contains("<sensitive>"));
    assert!(!d.contains("hunter2"));
    assert!(d.contains("\"prod\""));
}

#[test]
fn update_shows_only_diffed_attrs() {
    let p = mk_plan(
        r#"{
            "format_version":"1.2",
            "resource_changes":[
                {"address":"aws_security_group.web","type":"aws_security_group",
                 "change":{"actions":["update"],
                    "before":{"name":"web","description":"old"},
                    "after":{"name":"web","description":"new"}
                 }}
            ]
        }"#,
    );
    let g = group_plan(&p, false);
    let d = digest_plan(&p, &g);
    assert!(d.contains("description"));
    assert!(d.contains("\"old\" -> \"new\""));
    assert!(!d.contains("name:"));
}

#[test]
fn replace_action_shows_diffs() {
    let p = mk_plan(
        r#"{
            "format_version":"1.2",
            "resource_changes":[
                {"address":"aws_instance.web","type":"aws_instance",
                 "change":{"actions":["delete","create"],
                    "before":{"ami":"ami-old"},
                    "after":{"ami":"ami-new"}
                 }}
            ]
        }"#,
    );
    let g = group_plan(&p, false);
    let d = digest_plan(&p, &g);
    assert!(d.contains("-/+ aws_instance.web"));
    assert!(d.contains("ami"));
}

#[test]
fn empty_plan_digest() {
    let p = mk_plan(r#"{"format_version":"1.2","resource_changes":[]}"#);
    let g = group_plan(&p, false);
    let d = digest_plan(&p, &g);
    assert!(d.contains("0 to add"));
    assert!(d.contains("0 to destroy"));
}

#[test]
fn token_budget_fallback() {
    // Build a plan with > MAX_DIGEST_TOKENS worth of text, but < FULL_DIGEST_LIMIT resources.
    let mut changes = String::new();
    for i in 0..100 {
        if i > 0 {
            changes.push(',');
        }
        let long_attr = "x".repeat(200);
        changes.push_str(&format!(
            r#"{{"address":"t.r{i}","type":"t","change":{{"actions":["create"],"after":{{"k":"{long_attr}"}}}}}}"#
        ));
    }
    let raw = format!(r#"{{"format_version":"1.2","resource_changes":[{changes}]}}"#);
    let p = mk_plan(&raw);
    let g = group_plan(&p, false);
    let full = digest_plan(&p, &g);
    let budgeted = digest_with_budget(&p, &g);
    if estimate_tokens(&full) > MAX_DIGEST_TOKENS {
        assert!(budgeted.contains("Group counts only"));
        assert!(estimate_tokens(&budgeted) < estimate_tokens(&full));
    } else {
        assert_eq!(budgeted, full);
    }
}

#[test]
fn group_counts_fallback_for_mega_plan() {
    // Build a plan with >= FULL_DIGEST_LIMIT resources.
    let mut changes = String::new();
    for i in 0..FULL_DIGEST_LIMIT + 10 {
        if i > 0 {
            changes.push(',');
        }
        changes.push_str(&format!(
            r#"{{"address":"t.r{i}","type":"t","change":{{"actions":["create"]}}}}"#
        ));
    }
    let raw = format!(r#"{{"format_version":"1.2","resource_changes":[{changes}]}}"#);
    let p = mk_plan(&raw);
    let g = group_plan(&p, false);
    let d = digest_plan(&p, &g);
    assert!(d.contains("detailed per-resource digest omitted"));
    assert!(!d.contains("t.r1 ("));
}

#[test]
fn digest_is_exact() {
    let p = mk_plan(
        r#"{
            "format_version":"1.2",
            "resource_changes":[
                {"address":"t.b","type":"t","change":{"actions":["create"],
                 "after":{"size":3,"on":true,"tags":{"a":1,"b":2},"list":[1,2,3],"gone":null,"more":1}}},
                {"address":"t.a","type":"t","change":{"actions":["create"]}},
                {"address":"u.a","type":"u","change":{"actions":["delete"],"before":{"id":"x"}}}
            ]
        }"#,
    );
    let g = group_plan(&p, false);
    assert_eq!(
        digest_plan(&p, &g),
        "Plan: 2 to add, 0 to change, 1 to destroy. 2 group(s) by type/action.\n\n\
         \n## - u (1)\n- u.a (id=\"x\")\n\
         \n## + t (2)\n+ t.a \n\
         + t.b (gone=null, list=[3 items], more=1, on=true, size=3)\n"
    );
}

#[test]
fn big_digest_is_exact() {
    let changes: Vec<String> = (0..FULL_DIGEST_LIMIT)
        .map(|i| format!(r#"{{"address":"t.r{i}","type":"t","change":{{"actions":["update"],"before":{{"k":"a"}},"after":{{"k":"b"}}}}}}"#))
        .collect();
    let p = mk_plan(&format!(
        r#"{{"format_version":"1.2","resource_changes":[{}]}}"#,
        changes.join(",")
    ));
    let g = group_plan(&p, false);
    assert_eq!(
        digest_plan(&p, &g),
        "Plan: 0 to add, 500 to change, 0 to destroy. 1 group(s) by type/action.\n\n\
         # Group summary (detailed per-resource digest omitted due to size)\n~ t (500)\n"
    );
}

#[test]
fn over_budget_only_counts_are_left() {
    let changes: Vec<String> = (0..400)
        .map(|i| {
            format!(
                r#"{{"address":"t.{}{i}","type":"t","change":{{"actions":["create"]}}}}"#,
                "r".repeat(60)
            )
        })
        .collect();
    let p = mk_plan(&format!(
        r#"{{"format_version":"1.2","resource_changes":[{}]}}"#,
        changes.join(",")
    ));
    let g = group_plan(&p, false);
    assert!(estimate_tokens(&digest_plan(&p, &g)) > MAX_DIGEST_TOKENS);
    let counts = "Plan with 400 resource change(s). Group counts only (full digest exceeded budget).\n\n+ t (400)\n";
    assert_eq!(digest_with_budget(&p, &g), counts);
    assert_eq!(group_counts_only(&p, &g), counts);
}

#[test]
fn within_budget_the_digest_begins_with_the_footer() {
    let p = mk_plan(
        r#"{"format_version":"1.2","resource_changes":[
            {"address":"t.a","type":"t","change":{"actions":["delete","create"]}}]}"#,
    );
    let g = group_plan(&p, false);
    let d = digest_with_budget(&p, &g);
    assert_eq!(d, digest_plan(&p, &g));
    assert!(d.starts_with("Plan: 1 to add, 0 to change, 1 to destroy. "));
}

#[test]
fn unknown_values_are_masked() {
    let c = only_change(
        r#"{"actions":["create"],"after":{"arn":"guess","name":"n"},"after_unknown":{"arn":true,"name":false}}"#,
    );
    assert_eq!(
        digest_attrs_public(&c.actions, &c),
        vec!["arn=<sensitive>", "name=\"n\""]
    );
}

#[test]
fn sensitive_before_values_are_masked() {
    let c = only_change(
        r#"{"actions":["delete"],"before":{"password":"hunter2","port":5432},"before_sensitive":{"password":true}}"#,
    );
    assert_eq!(attr_lines(&c.actions, &c), vec!["password=<sensitive>", "port=5432"]);
}

#[test]
fn an_object_of_flags_masks_the_attribute() {
    let c = only_change(
        r#"{"actions":["create"],"after":{"a":"x","b":"y","c":"z"},"after_sensitive":{"a":{},"b":false,"c":[true]}}"#,
    );
    assert_eq!(
        attr_lines(&c.actions, &c),
        vec!["a=<sensitive>", "b=\"y\"", "c=\"z\""]
    );
}

#[test]
fn a_bare_flag_masks_every_attribute() {
    let c = only_change(
        r#"{"actions":["create"],"after":{"a":"x","b":1},"after_sensitive":true}"#,
    );
    assert_eq!(digest_attrs(&c.actions, &c), "(a=<sensitive>, b=<sensitive>)");
}

#[test]
fn masks_apply_to_each_side_of_a_change() {
    let c = only_change(
        r#"{"actions":["update"],
            "before":{"k":"old","gone":"x","same":1},
            "after":{"k":"new","fresh":"y","same":1},
            "before_sensitive":{"gone":true},
            "after_sensitive":{"k":true},
            "after_unknown":{"fresh":true}}"#,
    );
    assert_eq!(
        attr_lines(&c.actions, &c),
        vec![
            "fresh: null -> <sensitive>",
            "k: \"old\" -> <sensitive>",
            "gone: <sensitive> -> (removed)"
        ]
    );
}

#[test]
fn masked_values_leave_no_trace_in_the_digest() {
    let raw = |secret: &str, token: &str| {
        format!(
            r#"{{"format_version":"1.2","resource_changes":[
                {{"address":"t.a","type":"t","change":{{"actions":["create"],
                  "after":{{"password":"{secret}","name":"n"}},"after_sensitive":{{"password":true}}}}}},
                {{"address":"t.b","type":"t","change":{{"actions":["update"],
                  "before":{{"token":"{token}-1"}},"after":{{"token":"{token}-2"}},
                  "before_sensitive":{{"token":true}},"after_unknown":{{"token":true}}}}}}
            ]}}"#
        )
    };
    let p = mk_plan(&raw("hunter2", "abc"));
    let q = mk_plan(&raw("a much longer secret that would be cut", "xyz"));
    let x = group_plan(&p, false);
    let y = group_plan(&q, false);
    assert_eq!(digest_plan(&p, &x), digest_plan(&q, &y));
    assert_eq!(digest_with_budget(&p, &x), digest_with_budget(&q, &y));
}

#[test]
fn lines_are_cut_to_the_limit() {
    let c = only_change(
        r#"{"actions":["create"],"after":{"a":1,"b":2,"c":3,"d":4,"e":5,"f":6}}"#,
    );
    let lines = attr_lines(&c.actions, &c);
    assert_eq!(lines.len(), MAX_ATTRS_PER_RESOURCE);
    assert_eq!(lines[4], "e=5");
    let u = only_change(
        r#"{"actions":["update"],"before":{"a":1,"b":1,"c":1,"d":1,"z":1},"after":{"a":2,"b":2,"c":2,"d":2,"e":2}}"#,
    );
    let lines = attr_lines(&u.actions, &u);
    assert_eq!(
        lines,
        vec!["a: 1 -> 2", "b: 1 -> 2", "c: 1 -> 2", "d: 1 -> 2", "e: null -> 2"]
    );
}

#[test]
fn some_actions_have_no_lines() {
    let read = only_change(r#"{"actions":["read"],"after":{"a":1}}"#);
    assert!(attr_lines(&read.actions, &read).is_empty());
    let noop = only_change(r#"{"actions":["no-op"],"before":{"a":1},"after":{"a":2}}"#);
    assert!(attr_lines(&noop.actions, &noop).is_empty());
    assert_eq!(digest_attrs(&noop.actions, &noop), "");
    let odd = only_change(r#"{"actions":["bogus"],"after":{"a":1}}"#);
    assert_eq!(attr_lines(&odd.actions, &odd), vec!["(unknown action)"]);
    let scalar = only_change(r#"{"actions":["create"],"after":"text"}"#);
    assert!(attr_lines(&scalar.actions, &scalar).is_empty());
}

#[test]
fn values_render_compactly() {
    let cases = [
        ("null", "null"),
        ("true", "true"),
        ("false", "false"),
        ("12", "12"),
        ("-3", "-3"),
        ("1.5", "1.5"),
        ("1e3", "1000.0"),
        ("18446744073709551615", "18446744073709551615"),
        ("\"\"", "\"\""),
        ("\"a b\"", "\"a b\""),
        ("[]", "[0 items]"),
        ("[1,[2],3]", "[3 items]"),
        ("{}", "{0 keys}"),
        ("{\"a\":{\"b\":1}}", "{1 keys}"),
    ];
    for (raw, shown) in cases {
        assert_eq!(render_value(&value(raw)), shown);
    }
}

#[test]
fn long_strings_are_cut() {
    let whole = "x".repeat(40);
    assert_eq!(render_value(&value(&format!("\"{whole}\""))), format!("\"{whole}\""));
    let long = "x".repeat(41);
    assert_eq!(
        render_value(&value(&format!("\"{long}\""))),
        format!("\"{}...\"", "x".repeat(37))
    );
    let umlauts = format!("{}ü{}", "x".repeat(35), "y".repeat(10));
    assert_eq!(
        render_value(&value(&format!("\"{umlauts}\""))),
        format!("\"{}ü...\"", "x".repeat(35))
    );
}

#[test]
fn long_strings_are_cut_between_characters() {
    let cases = [
        (format!("{}é{}", "a".repeat(36), "b".repeat(3)), "a".repeat(36)),
        (format!("{}—{}", "a".repeat(35), "b".repeat(9)), "a".repeat(35)),
        (format!("{}😀{}", "a".repeat(34), "b".repeat(9)), "a".repeat(34)),
        (format!("{}😀{}", "a".repeat(33), "b".repeat(9)), format!("{}😀", "a".repeat(33))),
        ("é".repeat(30), "é".repeat(18)),
    ];
    for (s, shown) in cases {
        assert_eq!(render_value(&value(&format!("\"{s}\""))), format!("\"{shown}...\""));
    }
    let split = format!("{}ü{}", "x".repeat(36), "y".repeat(10));
    let raw = format!(r#"{{"actions":["create"],"after":{{"k":"{split}"}}}}"#);
    let c = only_change(&raw);
    assert_eq!(attr_lines(&c.actions, &c), vec![format!("k=\"{}...\"", "x".repeat(36))]);
    let p = mk_plan(&format!(
        r#"{{"format_version":"1.2","resource_changes":[{{"address":"t.a","type":"t","change":{raw}}}]}}"#
    ));
    assert!(digest_plan(&p, &group_plan(&p, false)).contains("xxx...\""));
}

#[test]
fn everything_under_after_unknown_is_masked() {
    let c = only_change(
        r#"{"actions":["create"],"after":{"a":"x","b":"y","c":"z","d":"w"},
            "after_unknown":{"a":true,"b":{"n":true},"c":[true]}}"#,
    );
    assert_eq!(
        attr_lines(&c.actions, &c),
        vec!["a=<sensitive>", "b=<sensitive>", "c=<sensitive>", "d=\"w\""]
    );
    let all = only_change(r#"{"actions":["create"],"after":{"a":1,"b":"y"},"after_unknown":true}"#);
    assert_eq!(attr_lines(&all.actions, &all), vec!["a=<sensitive>", "b=<sensitive>"]);
    let update = only_change(
        r#"{"actions":["update"],"before":{"a":1},"after":{"a":2},"after_unknown":true}"#,
    );
    assert_eq!(attr_lines(&update.actions, &update), vec!["a: 1 -> <sensitive>"]);
}

#[test]
fn flags_are_collected() {
    let mut names = sensitive_key_set(&Some(value(r#"{"a":true,"b":false,"c":{},"d":[true],"e":null}"#)));
    names.sort();
    assert_eq!(names, vec!["a", "c"]);
    assert_eq!(sensitive_key_set(&Some(value("true"))), vec!["*"]);
    assert!(sensitive_key_set(&Some(value("false"))).is_empty());
    assert!(sensitive_key_set(&None).is_empty());
    let unknown = unknown_key_set(&Some(value(r#"{"a":true,"b":{},"c":false,"d":[],"e":null}"#)));
    assert!(!unknown.all);
    assert_eq!(unknown.names, vec!["a", "b", "d"]);
    assert!(unknown.contains("b") && !unknown.contains("c"));
    let every = unknown_key_set(&Some(value("true")));
    assert!(every.all && every.contains("anything"));
    for nothing in [unknown_key_set(&Some(value("false"))), unknown_key_set(&None)] {
        assert!(!nothing.all && nothing.names.is_empty() && !nothing.contains("a"));
    }
}

#[test]
fn masked_value_hides_by_name() {
    let v = value("\"s\"");
    let none: Vec<String> = Vec::new();
    let known = UnknownKeys::none();
    let unknown = |all: bool, name: &str| UnknownKeys { all, names: vec![name.into()] };
    assert_eq!(masked_value("k", &v, &none, &known), "\"s\"");
    assert_eq!(masked_value("k", &v, &vec!["k".into()], &known), "<sensitive>");
    assert_eq!(masked_value("k", &v, &vec!["*".into()], &known), "<sensitive>");
    assert_eq!(masked_value("k", &v, &none, &unknown(false, "k")), "<sensitive>");
    assert_eq!(masked_value("k", &v, &none, &unknown(true, "l")), "<sensitive>");
    assert_eq!(masked_value("k", &v, &vec!["j".into()], &unknown(false, "l")), "\"s\"");
}

#[test]
fn a_star_names_every_attribute_only_among_the_sensitive() {
    let c = only_change(
        r#"{"actions":["create"],"after":{"*":"x","a":"y"},"after_unknown":{"*":true}}"#,
    );
    assert_eq!(attr_lines(&c.actions, &c), vec!["*=<sensitive>", "a=\"y\""]);
    let c = only_change(
        r#"{"actions":["create"],"after":{"*":"x","a":"y"},"after_sensitive":{"*":true}}"#,
    );
    assert_eq!(attr_lines(&c.actions, &c), vec!["*=<sensitive>", "a=<sensitive>"]);
}

#[test]
fn numbers_compare_as_values() {
    let c = only_change(
        r#"{"actions":["update"],
            "before":{"f":1.0,"i":1,"n":-0.0,"s":"1"},
            "after":{"f":1,"i":1,"n":0.0,"s":1}}"#,
    );
    assert_eq!(
        attr_lines(&c.actions, &c),
        vec!["f: 1.0 -> 1", "s: \"1\" -> 1"]
    );
}

#[test]
fn tokens_are_estimated_by_bytes() {
    assert_eq!(estimate_tokens(""), 0);
    assert_eq!(estimate_tokens("a"), 1);
    assert_eq!(estimate_tokens("abcd"), 1);
    assert_eq!(estimate_tokens("abcde"), 2);
    assert_eq!(estimate_tokens("üüü"), 2);
}
