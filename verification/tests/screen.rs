use pliny::fixture::mega_plan;
use pliny::llm::Summary;
use pliny::plan::Action;
use pliny::screen::{
    ai_state, highlight_risky, key_hint, last_command, output_title, plan_line, row_text,
    status_text, summary_title, tree_title, visible_output, workspace_line,
};
use pliny::tree::{Row, RowKind};
use pliny::ui::RunStatus;
use pliny::workspace::WorkspaceState;

#[test]
fn header_lines_are_exact() {
    assert_eq!(ai_state(true, true, "m"), "disabled (--no-ai)");
    assert_eq!(ai_state(false, false, "m"), "disabled (no OPENAI_API_KEY)");
    assert_eq!(ai_state(false, true, "gpt-4o"), "gpt-4o (OPENAI_API_KEY set)");
    assert_eq!(status_text(RunStatus::Idle), "idle");
    assert_eq!(status_text(RunStatus::Running), "running…");
    assert_eq!(last_command(&None), "");
    assert_eq!(last_command(&Some("plan".into())), "last: :plan");
    assert_eq!(key_hint("j/k"), "<j/k>");
    assert_eq!(plan_line(&None), "(none loaded — press : then type plan)");
    assert_eq!(plan_line(&Some(mega_plan(11))), "11 to add, 0 to change, 2 to destroy");
}

#[test]
fn workspace_line_tells_how_many() {
    let state = |current: Option<&str>, all: &[&str]| WorkspaceState {
        current: current.map(String::from),
        all: all.iter().map(|s| s.to_string()).collect(),
    };
    assert_eq!(
        workspace_line(&state(Some("dev"), &["default", "dev"])),
        "dev  (2 available — :ws to list)"
    );
    assert_eq!(workspace_line(&state(Some("dev"), &[])), "dev");
    assert_eq!(workspace_line(&state(None, &["x"])), "(none — not a terraform project?)");
}

#[test]
fn titles_are_exact() {
    assert_eq!(summary_title(&Summary::Ready("x".into())), "AI Summary");
    assert_eq!(summary_title(&Summary::Disabled("x")), "AI Summary (disabled)");
    assert_eq!(summary_title(&Summary::Error("x".into())), "AI Summary (error)");
    assert_eq!(tree_title(true, 3), " Plan (? close help) ");
    assert_eq!(tree_title(false, 0), " Plan (empty — run :plan to populate) ");
    assert_eq!(tree_title(false, 12), " Plan (12 rows) ");
    assert_eq!(output_title(RunStatus::Running), " Output (running…) ");
    assert_eq!(output_title(RunStatus::Idle), " Output ");
}

#[test]
fn rows_are_indented_by_depth() {
    let row = |depth: usize| Row {
        depth,
        label: "+ t.a".into(),
        kind: RowKind::Group { group_idx: 0 },
        action: Action::Create,
    };
    assert_eq!(row_text(&row(0)), "+ t.a");
    assert_eq!(row_text(&row(1)), "  + t.a");
    assert_eq!(row_text(&row(2)), "    + t.a");
}

#[test]
fn the_log_shows_its_tail() {
    let log: Vec<String> = (0..5).map(|i| i.to_string()).collect();
    assert_eq!(visible_output(&log, 4), vec!["3", "4"]);
    assert_eq!(visible_output(&log, 7), vec!["0", "1", "2", "3", "4"]);
    assert_eq!(visible_output(&log, 100).len(), 5);
    assert!(visible_output(&log, 2).is_empty());
    assert!(visible_output(&log, 0).is_empty());
}

fn marked(text: &str) -> Vec<(String, bool)> {
    highlight_risky(text).into_iter().map(|s| (s.text, s.risky)).collect()
}

#[test]
fn risk_marks_are_set_off() {
    let own = |v: &[(&str, bool)]| {
        v.iter().map(|(t, r)| (t.to_string(), *r)).collect::<Vec<_>>()
    };
    assert_eq!(
        marked("Two added. Risky: one destroyed. Risky:"),
        own(&[
            ("Two added. ", false),
            ("Risky:", true),
            (" one destroyed. ", false),
            ("Risky:", true)
        ])
    );
    assert_eq!(marked("Risky:Risky:"), own(&[("Risky:", true), ("Risky:", true)]));
    assert_eq!(marked("risky: Risky"), own(&[("risky: Risky", false)]));
    assert_eq!(marked(""), own(&[("", false)]));
    assert_eq!(marked("RisRisky:ky:"), own(&[("Ris", false), ("Risky:", true), ("ky:", false)]));
}

#[test]
fn highlighting_changes_no_text() {
    for text in ["", "a", "Risky: ü Risky:x", "RRisky::Risky"] {
        let put_together: String = marked(text).into_iter().map(|s| s.0).collect();
        assert_eq!(put_together, text);
    }
}
