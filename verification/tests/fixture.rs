use pliny::digest::{digest_plan, digest_with_budget};
use pliny::fixture::{mega_plan, DEFAULT_COUNT};
use pliny::groups::group_plan;
use pliny::json::Json;
use pliny::plan::Action;

#[test]
fn fixtures_cycle_through_types_and_actions() {
    let plan = mega_plan(21);
    assert_eq!(plan.format_version, "1.2");
    assert_eq!(plan.resource_changes.len(), 21);
    assert!(plan.resource_drift.is_empty());
    let addresses: Vec<&str> = plan.resource_changes.iter().map(|c| c.address.as_str()).collect();
    assert_eq!(addresses[0], "aws_dynamodb_table.r0");
    assert_eq!(addresses[9], "aws_kms_key.r9");
    assert_eq!(addresses[11], "aws_s3_bucket.r11");
    for (i, rc) in plan.resource_changes.iter().enumerate() {
        let action = Action::from_actions(&rc.change.actions).unwrap();
        assert_eq!(action, if i % 10 == 0 { Action::Replace } else { Action::Create });
    }
}

#[test]
fn fixture_bodies_are_exact() {
    let plan = mega_plan(8);
    let value = |raw: &str| Json::from_value(serde_json::from_str(raw).unwrap());
    let body = |i: usize| &plan.resource_changes[i].change;
    assert_eq!(body(0).actions, vec!["delete", "create"]);
    assert!(body(0).before.as_ref().unwrap().equals(&value(r#"{"id":"old-0","name":"res-0"}"#)));
    assert!(body(0).after.as_ref().unwrap().equals(&value(r#"{"id":"new-0","name":"res-0"}"#)));
    assert!(body(0).before_sensitive.as_ref().unwrap().equals(&value(r#"{"id":true}"#)));
    assert!(body(0).after_sensitive.as_ref().unwrap().equals(&value(r#"{"id":true}"#)));
    assert!(body(5).before_sensitive.as_ref().unwrap().equals(&value("{}")));
    assert!(body(5).before.as_ref().unwrap().equals(&Json::Null));
    assert!(body(5)
        .after
        .as_ref()
        .unwrap()
        .equals(&value(r#"{"name":"res-5","password":"redacted"}"#)));
    assert!(body(5).after_sensitive.as_ref().unwrap().equals(&value(r#"{"password":true}"#)));
    assert!(body(7)
        .after
        .as_ref()
        .unwrap()
        .equals(&value(r#"{"name":"res-7","tier":"standard"}"#)));
    assert!(body(7).after_sensitive.as_ref().unwrap().equals(&value("{}")));
    assert!(body(7).before_sensitive.as_ref().unwrap().equals(&value("{}")));
    assert!(body(7).after_unknown.is_none());
}

#[test]
fn the_default_fixture_takes_the_fallback() {
    let plan = mega_plan(DEFAULT_COUNT);
    let groups = group_plan(&plan, false);
    assert_eq!(groups.len(), 10);
    let digest = digest_plan(&plan, &groups);
    assert!(digest.starts_with("Plan: 800 to add, 0 to change, 80 to destroy. 10 group(s)"));
    assert!(digest.contains("detailed per-resource digest omitted"));
    assert_eq!(digest_with_budget(&plan, &groups), digest);
}

#[test]
fn a_small_fixture_masks_its_passwords() {
    let plan = mega_plan(6);
    let digest = digest_plan(&plan, &group_plan(&plan, false));
    assert!(digest.contains("(name=\"res-5\", password=<sensitive>)"));
    assert!(!digest.contains("redacted"));
    assert!(digest.contains("(id: <sensitive> -> <sensitive>)"));
    assert!(!digest.contains("old-0"));
}

#[test]
fn a_fifth_of_a_fixture_is_flagged() {
    let plan = mega_plan(DEFAULT_COUNT);
    let flagged = plan
        .resource_changes
        .iter()
        .filter(|rc| matches!(&rc.change.after_sensitive, Some(Json::Object(m)) if !m.is_empty()))
        .count();
    assert_eq!(flagged, DEFAULT_COUNT / 5);
}

#[test]
fn an_empty_fixture_is_empty() {
    assert!(mega_plan(0).is_empty_plan());
}
