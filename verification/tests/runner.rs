use pliny::runner::{
    is_bare_apply, plan_file_name, show_failure, shown_plan, spawn_failure, Request, Run, RunnerEvent,
    RunnerHandle, Stage, Step,
};
use pliny::shell::shell_split;

/// The events of a step, one line each.
fn told(step: &Step) -> Vec<String> {
    step.events
        .iter()
        .map(|e| match e {
            RunnerEvent::Line(line) => line.clone(),
            RunnerEvent::ApplyPlanReady { json_plan } => format!("READY {json_plan}"),
            RunnerEvent::Done { exit_code, json_plan, original_cmd } => {
                format!("DONE {exit_code:?} {json_plan:?} {original_cmd}")
            }
        })
        .collect()
}

fn executes(step: &Step, args: &[&str], stdin: bool) -> bool {
    matches!(
        &step.request,
        Request::Execute { args: a, forward_stdin } if a == args && *forward_stdin == stdin
    )
}

#[test]
fn bare_applies_are_recognized() {
    let bare = |cmd: &str| is_bare_apply(&shell_split(cmd));
    assert!(bare("apply"));
    assert!(bare("apply -var=x=1 -target=a.b"));
    assert!(bare("apply apply"));
    assert!(!bare("apply -auto-approve"));
    assert!(!bare("apply -auto-approve=true"));
    assert!(!bare("apply saved.tfplan"));
    assert!(!bare("plan"));
    assert!(!bare(""));
}

#[test]
fn an_empty_command_is_done_at_once() {
    let (run, step) = Run::start("  ", "/tmp/p");
    assert_eq!(told(&step), vec!["DONE Some(1) None   "]);
    assert!(matches!(step.request, Request::Finish));
    assert!(matches!(run.stage, Stage::Finished));
}

#[test]
fn a_plan_is_captured() {
    let (mut run, step) = Run::start("plan -refresh=false", "/tmp/p");
    assert_eq!(told(&step), vec!["$ terraform plan -refresh=false -out=/tmp/p"]);
    assert!(executes(&step, &["plan", "-refresh=false", "-out=/tmp/p"], true));
    let step = run.on_exit(Some(0), false);
    assert_eq!(told(&step), vec!["$ terraform show -json /tmp/p"]);
    assert!(matches!(&step.request, Request::ShowPlan { path } if path == "/tmp/p"));
    let step = run.on_plan_json(Ok("{}".into()));
    assert_eq!(told(&step), vec!["DONE Some(0) Some(\"{}\") plan -refresh=false"]);
    assert!(matches!(step.request, Request::Finish));
}

#[test]
fn a_plan_that_cannot_be_shown_is_reported() {
    let (mut run, _) = Run::start("plan", "/tmp/p");
    run.on_exit(Some(0), false);
    let step = run.on_plan_json(Err("bad".into()));
    assert_eq!(told(&step), vec!["pliny: failed to parse plan: bad", "DONE Some(0) None plan"]);
}

#[test]
fn a_failed_plan_is_not_shown() {
    for code in [Some(1), Some(2), None] {
        let (mut run, _) = Run::start("plan", "/tmp/p");
        let step = run.on_exit(code, false);
        assert_eq!(told(&step), vec![format!("DONE {code:?} None plan")]);
    }
}

#[test]
fn a_plan_in_the_users_own_file_is_captured() {
    let cases = [
        ("plan -out=my.tfplan", "my.tfplan"),
        ("plan -out my.tfplan -refresh=false", "my.tfplan"),
        ("plan -out=a -out=b", "b"),
        ("plan -out a -out=b -out c", "c"),
        ("plan -out -out=x", "-out=x"),
        ("plan -out=", ""),
    ];
    for (cmd, file) in cases {
        let (mut run, step) = Run::start(cmd, "/tmp/p");
        assert_eq!(told(&step), vec![format!("$ terraform {cmd}")]);
        let step = run.on_exit(Some(0), false);
        assert_eq!(told(&step), vec![format!("$ terraform show -json {file}")]);
        assert!(matches!(&step.request, Request::ShowPlan { path } if path == file));
        let step = run.on_plan_json(Ok("{}".into()));
        assert_eq!(told(&step), vec![format!("DONE Some(0) Some(\"{{}}\") {cmd}")]);
    }
}

#[test]
fn an_out_that_names_no_file_leaves_nothing_to_show() {
    let (mut run, step) = Run::start("plan -out", "/tmp/p");
    assert_eq!(told(&step), vec!["$ terraform plan -out"]);
    assert_eq!(told(&run.on_exit(Some(0), false)), vec!["DONE Some(0) None plan -out"]);
}

#[test]
fn a_failed_plan_in_the_users_own_file_is_not_shown() {
    let (mut run, _) = Run::start("plan -out=x", "/tmp/p");
    assert_eq!(told(&run.on_exit(Some(1), false)), vec!["DONE Some(1) None plan -out=x"]);
}

#[test]
fn other_commands_run_as_they_are() {
    let (mut run, step) = Run::start("apply -auto-approve -var='a b'", "/tmp/p");
    assert_eq!(told(&step), vec!["$ terraform apply -auto-approve -var=a b"]);
    assert!(executes(&step, &["apply", "-auto-approve", "-var=a b"], true));
    assert_eq!(
        told(&run.on_exit(Some(0), false)),
        vec!["DONE Some(0) None apply -auto-approve -var='a b'"]
    );
}

fn confirming(cmd: &str) -> Run {
    let (mut run, step) = Run::start(cmd, "/tmp/p");
    assert!(matches!(step.request, Request::Execute { forward_stdin: false, .. }));
    let step = run.on_exit(Some(0), false);
    assert_eq!(told(&step), vec!["$ terraform show -json /tmp/p"]);
    let step = run.on_plan_json(Ok("{}".into()));
    assert_eq!(
        told(&step),
        vec![
            "READY {}",
            "pliny: review the plan + AI summary. Type 'y' <Enter> to apply, or 'n' <Enter> to cancel."
        ]
    );
    assert!(matches!(step.request, Request::AwaitApproval));
    run
}

#[test]
fn a_bare_apply_plans_first() {
    let (_, step) = Run::start("apply -var=x=1", "/tmp/p");
    assert_eq!(
        told(&step),
        vec![
            "pliny: running plan first to build AI summary…",
            "$ terraform plan -var=x=1 -out=/tmp/p"
        ]
    );
    assert!(executes(&step, &["plan", "-var=x=1", "-out=/tmp/p"], false));
}

#[test]
fn an_approved_plan_is_applied() {
    let mut run = confirming("apply");
    let step = run.on_approval(true);
    assert_eq!(told(&step), vec!["$ terraform apply -auto-approve /tmp/p"]);
    assert!(executes(&step, &["apply", "-auto-approve", "/tmp/p"], true));
    let step = run.on_exit(Some(0), false);
    assert_eq!(told(&step), vec!["DONE Some(0) None apply"]);
}

#[test]
fn a_plan_that_is_not_approved_is_not_applied() {
    let mut run = confirming("apply");
    let step = run.on_approval(false);
    assert_eq!(
        told(&step),
        vec!["pliny: apply cancelled.", "DONE Some(0) None apply"]
    );
    assert!(matches!(step.request, Request::Finish));
}

#[test]
fn a_failed_or_cancelled_plan_ends_an_apply() {
    for (code, cancelled) in [(Some(1), false), (None, false), (Some(0), true)] {
        let (mut run, _) = Run::start("apply", "/tmp/p");
        let step = run.on_exit(code, cancelled);
        assert_eq!(
            told(&step),
            vec![
                "pliny: plan failed or cancelled, skipping apply.".to_string(),
                format!("DONE {code:?} None apply")
            ]
        );
    }
}

#[test]
fn an_apply_whose_plan_cannot_be_shown_ends() {
    let (mut run, _) = Run::start("apply", "/tmp/p");
    run.on_exit(Some(0), false);
    let step = run.on_plan_json(Err("bad".into()));
    assert_eq!(
        told(&step),
        vec!["pliny: failed to parse plan: bad", "DONE Some(1) None apply"]
    );
}

#[test]
fn plan_files_are_named_by_process_and_time() {
    assert_eq!(plan_file_name(42, 1_700_000_000_000_000_123), "pliny-42-1700000000000000123.tfplan");
    assert_eq!(plan_file_name(0, 0), "pliny-0-0.tfplan");
}

#[test]
fn a_program_that_does_not_start_is_reported() {
    let (event, code) = spawn_failure("terraform", "not found");
    assert!(matches!(event, RunnerEvent::Line(l) if l == "pliny: failed to spawn terraform: not found"));
    assert_eq!(code, Some(127));
}

#[test]
fn shown_plans_are_decoded() {
    assert_eq!(shown_plan(true, "{\"ü\":1}".into(), &Vec::new()), Ok("{\"ü\":1}".to_string()));
    assert_eq!(
        shown_plan(false, "{}".into(), &b"no \xff file".to_vec()),
        Err("terraform show -json failed: no \u{fffd} file".to_string())
    );
    assert_eq!(
        shown_plan(true, vec![b'{', 0xff], &Vec::new()),
        Err("invalid utf-8 sequence of 1 bytes from index 1".to_string())
    );
}

#[test]
fn drained_events_come_in_order_and_once() {
    let mut handle = RunnerHandle::new();
    handle.emit(RunnerEvent::Line("a".into()));
    handle.emit(RunnerEvent::Line("b".into()));
    let drained = handle.drain();
    assert_eq!(drained.len(), 2);
    assert!(matches!(&drained[0], RunnerEvent::Line(l) if l == "a"));
    assert!(matches!(&drained[1], RunnerEvent::Line(l) if l == "b"));
    assert!(handle.drain().is_empty());
}

#[test]
fn typed_lines_end_with_a_newline() {
    let mut handle = RunnerHandle::new();
    handle.send_line("yes".into());
    handle.send_line("no\n".into());
    handle.send_line(String::new());
    assert_eq!(handle.take_line().as_deref(), Some("yes\n"));
    assert_eq!(handle.take_line().as_deref(), Some("no\n"));
    assert_eq!(handle.take_line().as_deref(), Some("\n"));
    assert_eq!(handle.take_line(), None);
}

#[test]
fn the_oldest_decision_counts() {
    let mut handle = RunnerHandle::new();
    assert_eq!(handle.poll_approval(), None);
    handle.ask_approval();
    handle.approve_apply();
    handle.cancel_apply();
    assert!(handle.cancelled);
    assert_eq!(handle.poll_approval(), Some(true));
    assert_eq!(handle.poll_approval(), Some(false));
    assert_eq!(handle.poll_approval(), Some(false));
}

#[test]
fn an_approval_counts_only_while_one_is_pending() {
    let mut handle = RunnerHandle::new();
    handle.approve_apply();
    assert_eq!(handle.poll_approval(), None);
    handle.ask_approval();
    assert_eq!(handle.poll_approval(), None);
    handle.approve_apply();
    assert_eq!(handle.poll_approval(), Some(true));
    handle.approve_apply();
    assert_eq!(handle.poll_approval(), None);
}

#[test]
fn lines_for_an_exited_child_are_dropped() {
    let mut handle = RunnerHandle::new();
    handle.send_line("a".into());
    handle.close_stdin();
    assert_eq!(handle.take_line(), None);
    handle.send_line("b".into());
    assert_eq!(handle.take_line(), None);
}

#[test]
fn requests_fit_the_stage() {
    let fits = |run: &Run, step: &Step| match step.request {
        Request::Execute { .. } => {
            matches!(run.stage, Stage::Running { .. } | Stage::Planning | Stage::Applying)
        }
        Request::ShowPlan { .. } => matches!(run.stage, Stage::Capturing { .. } | Stage::Showing),
        Request::AwaitApproval => matches!(run.stage, Stage::Confirming),
        Request::Finish => matches!(run.stage, Stage::Finished),
    };
    let (mut run, step) = Run::start("apply", "/tmp/p");
    assert!(fits(&run, &step));
    let step = run.on_exit(Some(0), false);
    assert!(fits(&run, &step));
    let step = run.on_plan_json(Ok("{}".into()));
    assert!(fits(&run, &step));
    let step = run.on_approval(true);
    assert!(fits(&run, &step));
    let step = run.on_exit(Some(0), false);
    assert!(fits(&run, &step));
    assert!(matches!(run.stage, Stage::Finished));
}

#[test]
fn a_run_that_was_let_go_is_not_approved() {
    let mut handle = RunnerHandle::new();
    handle.closed = true;
    assert_eq!(handle.poll_approval(), Some(false));
}

#[test]
fn an_interrupt_names_the_running_child() {
    let mut handle = RunnerHandle::new();
    assert_eq!(handle.interrupt(), None);
    assert!(handle.cancelled);
    handle.pid = 77;
    assert_eq!(handle.interrupt(), Some(77));
    assert_eq!(handle.poll_approval(), Some(false));
}

#[test]
fn show_failures_tell_why() {
    assert_eq!(show_failure("no state"), "terraform show -json failed: no state");
}

#[test]
fn clones_of_events_are_equal() {
    let event = RunnerEvent::Done {
        exit_code: Some(3),
        json_plan: Some("{}".into()),
        original_cmd: "plan".into(),
    };
    assert!(matches!(
        event.clone(),
        RunnerEvent::Done { exit_code: Some(3), json_plan: Some(j), original_cmd }
            if j == "{}" && original_cmd == "plan"
    ));
    assert!(matches!(RunnerEvent::Line("x".into()).clone(), RunnerEvent::Line(l) if l == "x"));
}
