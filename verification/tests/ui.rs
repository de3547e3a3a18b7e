use pliny::cli::{Args, DEFAULT_MODEL};
use pliny::digest::digest_with_budget;
use pliny::groups::group_plan;
use pliny::json::Json;
use pliny::llm::{disabled_reason, Summary};
use pliny::plan::{Change, Plan, ResourceChange};
use pliny::runner::RunnerEvent;
use pliny::tree::RowKind;
use pliny::ui::{
    initial_state, summary_step, App, Effect, KeyCode, KeyPress, Mode, RunStatus, SummaryStep,
    MAX_OUTPUT_LINES,
};
use pliny::workspace::WorkspaceState;
use serde_json::Value;

/// A plan document, decoded from its JSON text.
fn decode(raw: &str) -> Result<Plan, String> {
    let value: Value = serde_json::from_str(raw).map_err(|e| e.to_string())?;
    let version = value
        .get("format_version")
        .and_then(Value::as_str)
        .ok_or_else(|| "missing field `format_version`".to_string())?;
    Ok(Plan {
        format_version: version.to_string(),
        resource_changes: changes(&value, "resource_changes")?,
        resource_drift: changes(&value, "resource_drift")?,
    })
}

fn changes(value: &Value, key: &str) -> Result<Vec<ResourceChange>, String> {
    let Some(items) = value.get(key).and_then(Value::as_array) else {
        return Ok(Vec::new());
    };
    items
        .iter()
        .map(|rc| {
            let body = rc.get("change").ok_or("missing field `change`")?;
            Ok(ResourceChange {
                address: text(rc, "address").ok_or("missing field `address`")?,
                resource_type: text(rc, "type").ok_or("missing field `type`")?,
                change: Change {
                    actions: body
                        .get("actions")
                        .and_then(Value::as_array)
                        .ok_or("missing field `actions`")?
                        .iter()
                        .map(|a| a.as_str().unwrap_or("").to_string())
                        .collect(),
                    before: json(body, "before"),
                    after: json(body, "after"),
                    after_unknown: json(body, "after_unknown"),
                    before_sensitive: json(body, "before_sensitive"),
                    after_sensitive: json(body, "after_sensitive"),
                },
                name: text(rc, "name"),
                provider_name: text(rc, "provider_name"),
                module_address: text(rc, "module_address"),
            })
        })
        .collect()
}

fn text(value: &Value, key: &str) -> Option<String> {
    value.get(key).and_then(Value::as_str).map(str::to_string)
}

fn json(value: &Value, key: &str) -> Option<Json> {
    match value.get(key) {
        None | Some(Value::Null) => None,
        Some(v) => Some(Json::from_value(v.clone())),
    }
}

fn mk_plan(raw: &str) -> Plan {
    Plan::parse(decode(raw)).unwrap()
}

const SAMPLE: &str = r#"{
    "format_version":"1.2",
    "resource_changes":[
        {"address":"t.a","type":"t","change":{"actions":["update"],"before":{"k":1},"after":{"k":2}}},
        {"address":"t.b","type":"t","change":{"actions":["update"],"before":{"k":1},"after":{"k":2}}},
        {"address":"u.a","type":"u","change":{"actions":["create"],"after":{"x":"y"}}}
    ]
}"#;

fn args() -> Args {
    Args {
        plan_path: None,
        no_ai: false,
        show_noops: false,
        model: DEFAULT_MODEL.to_string(),
    }
}

fn empty_app() -> App {
    App::new(initial_state(args(), None), Some("/work".into()), WorkspaceState::default())
}

fn sample_app() -> App {
    let plan = mk_plan(SAMPLE);
    let groups = group_plan(&plan, false);
    let loaded = Some((plan, groups, Summary::Disabled("off")));
    App::new(initial_state(args(), loaded), None, WorkspaceState::default())
}

fn press(app: &mut App, code: KeyCode) -> Effect {
    app.on_key(KeyPress { code, control: false })
}

fn type_in(app: &mut App, text: &str) {
    for c in text.chars() {
        press(app, KeyCode::Char(c));
    }
}

fn submit(app: &mut App, text: &str) -> Effect {
    press(app, KeyCode::Char(':'));
    type_in(app, text);
    press(app, KeyCode::Enter)
}

fn labels(app: &App) -> Vec<String> {
    app.rows().iter().map(|r| r.label.clone()).collect()
}

#[test]
fn the_screen_starts_without_a_plan() {
    let app = empty_app();
    assert!(app.plan().is_none());
    assert!(app.groups().is_empty());
    assert!(app.rows().is_empty());
    assert_eq!(app.selected(), None);
    assert_eq!(app.summary().text(), "no plan loaded");
    assert_eq!(app.cwd(), "/work");
    assert_eq!(app.model(), "gpt-4o-mini");
    assert_eq!(app.mode(), Mode::Normal);
    assert_eq!(app.status(), RunStatus::Idle);
    assert!(!app.show_help());
    assert!(!app.no_ai());
    assert!(app.output().is_empty());
    assert!(app.last_cmd().is_none());
    assert!(app.workspaces().current.is_none());
}

#[test]
fn the_screen_starts_with_a_collapsed_plan() {
    let app = sample_app();
    assert_eq!(labels(&app), vec!["~ t (2)", "+ u (1)"]);
    assert_eq!(app.selected(), Some(0));
    assert_eq!(app.cwd(), "?");
    assert_eq!(app.summary().text(), "off");
    assert!(app.plan().is_some());
}

#[test]
fn the_cursor_stays_on_the_rows() {
    let mut app = sample_app();
    press(&mut app, KeyCode::Up);
    assert_eq!(app.selected(), Some(0));
    press(&mut app, KeyCode::Char('j'));
    assert_eq!(app.selected(), Some(1));
    press(&mut app, KeyCode::Down);
    assert_eq!(app.selected(), Some(1));
    press(&mut app, KeyCode::Char('k'));
    assert_eq!(app.selected(), Some(0));
    app.move_cursor(isize::MAX);
    assert_eq!(app.selected(), Some(1));
    app.move_cursor(isize::MIN);
    assert_eq!(app.selected(), Some(0));
    let mut none = empty_app();
    none.move_cursor(1);
    assert_eq!(none.selected(), None);
}

#[test]
fn expanding_shows_changes_and_attributes() {
    let mut app = sample_app();
    press(&mut app, KeyCode::Char('l'));
    assert_eq!(labels(&app), vec!["~ t (2)", "~ t.a", "~ t.b", "+ u (1)"]);
    press(&mut app, KeyCode::Down);
    press(&mut app, KeyCode::Right);
    assert_eq!(labels(&app), vec!["~ t (2)", "~ t.a", "k: 1 -> 2", "~ t.b", "+ u (1)"]);
    assert_eq!(app.selected(), Some(1));
    press(&mut app, KeyCode::Down);
    press(&mut app, KeyCode::Right);
    assert_eq!(app.rows().len(), 5);
    press(&mut app, KeyCode::Left);
    assert_eq!(labels(&app), vec!["~ t (2)", "~ t.a", "~ t.b", "+ u (1)"]);
    assert_eq!(app.selected(), Some(2));
}

#[test]
fn collapse_after_expand_restores_the_rows() {
    let mut app = sample_app();
    press(&mut app, KeyCode::Down);
    let before = labels(&app);
    app.expand();
    assert_eq!(app.rows().len(), 3);
    app.collapse();
    assert_eq!(labels(&app), before);
    assert_eq!(app.selected(), Some(1));
}

#[test]
fn expanded_changes_stay_expanded_in_a_collapsed_group() {
    let mut app = sample_app();
    app.expand();
    app.move_cursor(1);
    app.expand();
    app.move_cursor(-1);
    app.collapse();
    assert_eq!(app.rows().len(), 2);
    app.expand();
    assert_eq!(labels(&app), vec!["~ t (2)", "~ t.a", "k: 1 -> 2", "~ t.b", "+ u (1)"]);
}

#[test]
fn collapsing_draws_the_cursor_back() {
    let mut app = sample_app();
    app.move_cursor(1);
    app.expand();
    app.move_cursor(1);
    app.expand();
    app.move_cursor(1);
    assert!(matches!(app.rows()[3].kind, RowKind::Attr { .. }));
    assert_eq!(app.selected(), Some(3));
    app.collapse();
    assert_eq!(app.rows().len(), 3);
    assert_eq!(app.selected(), Some(2));
}

#[test]
fn any_change_can_be_expanded() {
    let split = format!("{}ü{}", "x".repeat(36), "y".repeat(10));
    let plan = mk_plan(&format!(
        r#"{{"format_version":"1.2","resource_changes":[
            {{"address":"t.a","type":"t","change":{{"actions":["create"],"after":{{"k":"{split}"}}}}}}]}}"#
    ));
    let groups = group_plan(&plan, false);
    let init = initial_state(args(), Some((plan, groups, Summary::Disabled("off"))));
    let mut app = App::new(init, None, WorkspaceState::default());
    app.expand();
    app.move_cursor(1);
    app.expand();
    assert_eq!(app.rows()[2].label, format!("k=\"{}...\"", "x".repeat(36)));
}

#[test]
fn the_log_keeps_the_newest_lines() {
    let mut app = empty_app();
    for i in 0..MAX_OUTPUT_LINES + 3 {
        app.push_output(i.to_string());
    }
    assert_eq!(app.output().len(), MAX_OUTPUT_LINES);
    assert_eq!(app.output()[0], "3");
    assert_eq!(app.output()[MAX_OUTPUT_LINES - 1], (MAX_OUTPUT_LINES + 2).to_string());
}

#[test]
fn quit_keys_quit() {
    let mut app = empty_app();
    assert!(matches!(press(&mut app, KeyCode::Char('q')), Effect::Quit));
    assert!(matches!(press(&mut app, KeyCode::Esc), Effect::Quit));
    let ctrl_c = KeyPress { code: KeyCode::Char('c'), control: true };
    assert!(matches!(app.on_key(ctrl_c), Effect::Quit));
    press(&mut app, KeyCode::Char(':'));
    assert!(matches!(app.on_key(ctrl_c), Effect::Quit));
    assert!(matches!(press(&mut app, KeyCode::Char('q')), Effect::Nothing));
    assert_eq!(app.cmd_buf(), "q");
}

#[test]
fn help_is_toggled() {
    let mut app = empty_app();
    press(&mut app, KeyCode::Char('?'));
    assert!(app.show_help());
    press(&mut app, KeyCode::Char('?'));
    assert!(!app.show_help());
    assert!(matches!(press(&mut app, KeyCode::Other), Effect::Nothing));
    assert!(matches!(press(&mut app, KeyCode::Enter), Effect::Nothing));
}

#[test]
fn the_command_bar_is_edited() {
    let mut app = empty_app();
    press(&mut app, KeyCode::Char(':'));
    assert_eq!(app.mode(), Mode::Command);
    type_in(&mut app, "plän");
    press(&mut app, KeyCode::Backspace);
    press(&mut app, KeyCode::Backspace);
    assert_eq!(app.cmd_buf(), "pl");
    press(&mut app, KeyCode::Esc);
    assert_eq!(app.mode(), Mode::Normal);
    assert_eq!(app.cmd_buf(), "");
    press(&mut app, KeyCode::Char(':'));
    press(&mut app, KeyCode::Backspace);
    assert_eq!(app.cmd_buf(), "");
}

#[test]
fn a_command_is_started() {
    let mut app = empty_app();
    let effect = submit(&mut app, "  plan -refresh=false ");
    assert!(matches!(effect, Effect::Spawn(c) if c == "plan -refresh=false"));
    assert_eq!(app.output(), &vec!["", "──── :plan -refresh=false ────"]);
    assert_eq!(app.status(), RunStatus::Running);
    assert_eq!(app.last_cmd().as_deref(), Some("plan -refresh=false"));
    assert_eq!(app.mode(), Mode::Normal);
    assert_eq!(app.cmd_buf(), "");
}

#[test]
fn an_empty_command_does_nothing() {
    let mut app = empty_app();
    assert!(matches!(submit(&mut app, "   "), Effect::Nothing));
    assert!(app.output().is_empty());
    assert!(app.last_cmd().is_none());
    assert_eq!(app.mode(), Mode::Normal);
}

#[test]
fn ws_is_short_for_workspace() {
    let mut app = empty_app();
    assert!(matches!(submit(&mut app, "ws"), Effect::ListWorkspaces));
    assert_eq!(app.last_cmd().as_deref(), Some("ws"));
    assert!(matches!(submit(&mut app, "workspace"), Effect::ListWorkspaces));
    assert_eq!(app.status(), RunStatus::Idle);
    assert!(app.output().is_empty());
    assert!(matches!(
        submit(&mut app, "ws select prod"),
        Effect::Spawn(c) if c == "workspace select prod"
    ));
    assert_eq!(app.last_cmd().as_deref(), Some("ws select prod"));
    assert!(matches!(submit(&mut app, "wsx"), Effect::Spawn(c) if c == "wsx"));
}

#[test]
fn workspaces_are_listed() {
    let mut app = empty_app();
    app.show_workspace_picker(WorkspaceState {
        current: Some("dev".into()),
        all: vec!["default".into(), "dev".into()],
    });
    assert_eq!(
        app.output(),
        &vec![
            "",
            "──── workspaces ────",
            "  default",
            "* dev",
            "switch with :workspace select <name>  (or :workspace new <name>)"
        ]
    );
    assert_eq!(app.workspaces().current.as_deref(), Some("dev"));
    let mut none = empty_app();
    none.show_workspace_picker(WorkspaceState::default());
    assert_eq!(
        none.output(),
        &vec![
            "",
            "──── workspaces ────",
            "(none found — run :init or check you are inside a terraform project)"
        ]
    );
}

#[test]
fn workspaces_can_be_replaced_quietly() {
    let mut app = empty_app();
    app.set_workspaces(WorkspaceState { current: None, all: vec!["x".into()] });
    assert_eq!(app.workspaces().all, vec!["x"]);
    assert!(app.output().is_empty());
}

fn done(exit_code: Option<i32>, json_plan: Option<&str>, cmd: &str) -> RunnerEvent {
    RunnerEvent::Done {
        exit_code,
        json_plan: json_plan.map(String::from),
        original_cmd: cmd.into(),
    }
}

#[test]
fn output_lines_are_logged() {
    let mut app = empty_app();
    let next = app.handle_event(RunnerEvent::Line("hello".into()));
    assert_eq!(app.output(), &vec!["hello"]);
    assert!(!next.release_runner && !next.refresh_workspaces && !next.clear_plan);
    assert!(next.plan_json.is_none());
}

#[test]
fn the_end_of_a_command_is_noted() {
    let mut app = empty_app();
    submit(&mut app, "plan");
    let next = app.handle_event(done(Some(0), Some("{}"), "plan"));
    assert_eq!(app.output().last().unwrap(), "── done: exit 0 ──");
    assert_eq!(app.status(), RunStatus::Idle);
    assert!(next.release_runner);
    assert!(!next.refresh_workspaces);
    assert_eq!(next.plan_json.as_deref(), Some("{}"));
    assert!(!next.clear_plan);
    app.handle_event(done(Some(-1), None, "plan"));
    assert_eq!(app.output().last().unwrap(), "── done: exit -1 ──");
    app.handle_event(done(None, None, "plan"));
    assert_eq!(app.output().last().unwrap(), "── done: exit signal ──");
}

#[test]
fn some_commands_affect_workspaces() {
    let mut app = empty_app();
    assert!(app.handle_event(done(Some(0), None, "workspace new x")).refresh_workspaces);
    assert!(app.handle_event(done(Some(1), None, "init -upgrade")).refresh_workspaces);
    assert!(!app.handle_event(done(Some(0), None, " init")).refresh_workspaces);
}

#[test]
fn an_applied_plan_is_dropped() {
    let mut app = sample_app();
    assert!(!app.handle_event(done(Some(1), None, "apply")).clear_plan);
    assert!(!app.handle_event(done(None, None, "apply")).clear_plan);
    assert!(app.handle_event(done(Some(0), None, "apply -auto-approve")).clear_plan);
    app.clear_plan();
    assert!(app.plan().is_none());
    assert!(app.groups().is_empty());
    assert!(app.rows().is_empty());
    assert_eq!(app.selected(), None);
    assert_eq!(app.summary().text(), "apply complete — no plan loaded");
}

#[test]
fn a_planned_apply_asks_for_a_decision() {
    let mut app = empty_app();
    submit(&mut app, "apply");
    assert!(!app.awaiting_apply());
    let next = app.handle_event(RunnerEvent::ApplyPlanReady { json_plan: "{}".into() });
    assert_eq!(next.plan_json.as_deref(), Some("{}"));
    assert!(!next.release_runner && !next.clear_plan);
    assert!(app.awaiting_apply());
    assert_eq!(app.mode(), Mode::Command);
    type_in(&mut app, "y");
    assert!(matches!(press(&mut app, KeyCode::Enter), Effect::Approve));
    assert!(!app.awaiting_apply());
    assert!(matches!(submit(&mut app, "y"), Effect::Spawn(c) if c == "y"));
}

#[test]
fn a_decision_against_cancels() {
    let mut app = empty_app();
    app.handle_event(RunnerEvent::ApplyPlanReady { json_plan: "{}".into() });
    type_in(&mut app, "n");
    assert!(matches!(press(&mut app, KeyCode::Enter), Effect::Cancel));
    assert!(!app.awaiting_apply());
    assert_eq!(app.last_cmd().as_deref(), Some("n"));
}

#[test]
fn an_apply_that_ends_with_success_drops_the_plan_however_it_was_decided() {
    for answer in ["y", "n"] {
        let mut app = sample_app();
        submit(&mut app, "apply");
        app.handle_event(RunnerEvent::ApplyPlanReady { json_plan: "{}".into() });
        type_in(&mut app, answer);
        press(&mut app, KeyCode::Enter);
        assert!(app.handle_event(done(Some(0), None, "apply")).clear_plan);
    }
}

#[test]
fn what_is_being_typed_is_kept_when_a_decision_is_due() {
    let mut app = empty_app();
    press(&mut app, KeyCode::Char(':'));
    type_in(&mut app, "val");
    app.handle_event(RunnerEvent::ApplyPlanReady { json_plan: "{}".into() });
    assert_eq!(app.cmd_buf(), "val");
    type_in(&mut app, "idate");
    assert!(matches!(press(&mut app, KeyCode::Enter), Effect::Spawn(c) if c == "validate"));
    assert!(!app.awaiting_apply());
}

#[test]
fn the_end_of_a_run_ends_the_wait() {
    let mut app = empty_app();
    app.handle_event(RunnerEvent::ApplyPlanReady { json_plan: "{}".into() });
    app.handle_event(done(Some(0), None, "apply"));
    assert!(!app.awaiting_apply());
}

#[test]
fn a_received_plan_is_shown() {
    let mut app = sample_app();
    app.expand();
    app.move_cursor(1);
    let raw = r#"{"format_version":"1.0","resource_changes":[
        {"address":"v.a","type":"v","change":{"actions":["delete"]}}]}"#;
    let (plan, groups) = app.receive_plan(decode(raw)).unwrap();
    assert!(app.output().is_empty());
    app.load_plan(plan, groups, Summary::Ready("fine".into()));
    assert_eq!(labels(&app), vec!["- v (1)"]);
    assert_eq!(app.selected(), Some(0));
    assert_eq!(app.summary().text(), "fine");
    assert_eq!(app.plan().as_ref().unwrap().format_version, "1.0");
}

#[test]
fn a_document_that_is_no_plan_is_reported() {
    let mut app = sample_app();
    assert!(app.receive_plan(Err("expected value at line 1 column 1".into())).is_none());
    assert!(app.receive_plan(decode(r#"{"format_version":"2.0"}"#)).is_none());
    assert_eq!(
        app.output(),
        &vec![
            "pliny: plan parse error: expected value at line 1 column 1",
            "pliny: plan parse error: unsupported plan format_version \"2.0\" (supported: 1.0, 1.1, 1.2)"
        ]
    );
    assert_eq!(app.rows().len(), 2);
}

#[test]
fn a_plan_without_groups_leaves_the_cursor() {
    let mut app = sample_app();
    app.move_cursor(1);
    let (plan, groups) = app.receive_plan(decode(r#"{"format_version":"1.2"}"#)).unwrap();
    app.load_plan(plan, groups, Summary::Disabled("off"));
    assert!(app.rows().is_empty());
    assert_eq!(app.selected(), Some(1));
    app.expand();
    app.collapse();
    app.move_cursor(1);
    assert_eq!(app.selected(), Some(1));
}

#[test]
fn summaries_are_fetched_only_where_they_may_be() {
    let plan = mk_plan(SAMPLE);
    let groups = group_plan(&plan, false);
    assert!(matches!(
        summary_step(&plan, &groups, true, true),
        SummaryStep::Ready(Summary::Disabled(r)) if r == disabled_reason(true)
    ));
    assert!(matches!(
        summary_step(&plan, &groups, false, false),
        SummaryStep::Ready(Summary::Disabled(r)) if r == disabled_reason(false)
    ));
    assert!(matches!(
        summary_step(&plan, &groups, false, true),
        SummaryStep::Fetch(d) if d == digest_with_budget(&plan, &groups)
    ));
}

#[test]
fn requests_for_summaries_are_announced() {
    let mut app = empty_app();
    let plan = mk_plan(SAMPLE);
    let groups = group_plan(&plan, false);
    assert!(matches!(app.request_summary(&plan, &groups, false), SummaryStep::Ready(_)));
    assert!(app.output().is_empty());
    assert!(matches!(app.request_summary(&plan, &groups, true), SummaryStep::Fetch(_)));
    assert_eq!(app.output(), &vec!["pliny: requesting AI summary…"]);
}

#[test]
fn requests_tell_nothing_of_masked_values() {
    let raw = |secret: &str| {
        format!(
            r#"{{"format_version":"1.2","resource_changes":[{{"address":"t.a","type":"t",
            "change":{{"actions":["create"],"after":{{"p":"{secret}"}},"after_sensitive":{{"p":true}}}}}}]}}"#
        )
    };
    let digest = |secret: &str| {
        let plan = mk_plan(&raw(secret));
        let groups = group_plan(&plan, false);
        match summary_step(&plan, &groups, false, true) {
            SummaryStep::Fetch(d) => d,
            SummaryStep::Ready(_) => panic!(),
        }
    };
    assert_eq!(digest("hunter2"), digest("swordfish"));
}
