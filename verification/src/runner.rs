//! A terraform run in the background: what it executes, what it reports and
//! when it asks.
//!
//! The decisions of a run are here; whoever performs it executes what each
//! [`Step`] requests and hands the outcome back. After a successful `plan` the
//! JSON form of the plan is read, so that it can be shown without asking. An
//! `apply` without a saved plan runs in two phases: first the plan, then, once
//! it is approved, the apply of exactly that plan.
//!
//! Terraform writes its binary plan to a file. Where the user names none, that
//! is a file of the run's own, which goes when the run is over.

use vstd::prelude::*;
use vstd::utf8::{decode_utf8, valid_utf8};

use crate::plan::{clone_text_opt, text_opt};
use crate::shell::{shell_split, words_of};
use crate::text::{
    concat2, decimal, decimal_text, decode_error_text, decode_lossy, decode_strict, from_chars,
    has_prefix, join, joined, lossy_text, prefixes_come_first, same, starts_with, texts, to_chars,
};

verus! {

// ---------------------------------------------------------------------------
// Events
// ---------------------------------------------------------------------------

/// Events emitted by the runner into the UI event loop.
#[allow(inconsistent_fields)]
#[derive(Debug)]
pub enum RunnerEvent {
    /// A single line of output (stderr or stdout) from the subprocess.
    Line(String),
    /// `:apply` phase 1 produced a plan. UI refreshes the tree + AI summary
    /// and prompts the user to confirm or cancel. No apply has run yet.
    ApplyPlanReady { json_plan: String },
    /// Subprocess exited. `json_plan` is populated only when the user's
    /// command was `plan` (or `plan ...`) and the auto-follow-up
    /// `terraform show -json` succeeded.
    Done {
        exit_code: Option<i32>,
        json_plan: Option<String>,
        /// Command the user typed (without the `terraform` prefix).
        original_cmd: String,
    },
}

/// What a [`RunnerEvent`] stands for.
#[allow(inconsistent_fields)]
pub enum RunnerEventView {
    Line(Seq<char>),
    ApplyPlanReady { json_plan: Seq<char> },
    Done { exit_code: Option<i32>, json_plan: Option<Seq<char>>, original_cmd: Seq<char> },
}

impl View for RunnerEvent {
    type V = RunnerEventView;

    open spec fn view(&self) -> RunnerEventView {
        match self {
            RunnerEvent::Line(line) => RunnerEventView::Line(line@),
            RunnerEvent::ApplyPlanReady { json_plan } => RunnerEventView::ApplyPlanReady {
                json_plan: json_plan@,
            },
            RunnerEvent::Done { exit_code, json_plan, original_cmd } => RunnerEventView::Done {
                exit_code: *exit_code,
                json_plan: text_opt(*json_plan),
                original_cmd: original_cmd@,
            },
        }
    }
}

impl Clone for RunnerEvent {
    fn clone(&self) -> (r: Self)
        ensures
            r@ == self@,
    {
        match self {
            RunnerEvent::Line(line) => RunnerEvent::Line(line.clone()),
            RunnerEvent::ApplyPlanReady { json_plan } => RunnerEvent::ApplyPlanReady {
                json_plan: json_plan.clone(),
            },
            RunnerEvent::Done { exit_code, json_plan, original_cmd } => RunnerEvent::Done {
                exit_code: *exit_code,
                json_plan: clone_text_opt(json_plan),
                original_cmd: original_cmd.clone(),
            },
        }
    }
}

/// What a vector of events stands for.
pub open spec fn event_views(events: Seq<RunnerEvent>) -> Seq<RunnerEventView> {
    events.map_values(|e: RunnerEvent| e@)
}

// ---------------------------------------------------------------------------
// Commands
// ---------------------------------------------------------------------------

/// The line that announces a terraform call.
pub open spec fn command_line(args: Seq<Seq<char>>) -> Seq<char> {
    "$ terraform "@ + joined(args, " "@)
}

/// Whether an argument says that the user decides for themselves: approval
/// given in advance, or a saved plan.
pub open spec fn bypasses(arg: Seq<char>) -> bool {
    arg == "-auto-approve"@ || has_prefix(arg, "-auto-approve="@) || (!has_prefix(arg, "-"@) && arg
        != "apply"@)
}

/// Whether a command is an `apply` that has to be planned and approved first.
pub open spec fn bare_apply(words: Seq<Seq<char>>) -> bool {
    words.len() > 0 && words[0] == "apply"@ && forall|i: int|
        0 <= i < words.len() ==> !bypasses(#[trigger] words[i])
}

/// Whether an argument names a plan file to write.
pub open spec fn names_output(arg: Seq<char>) -> bool {
    has_prefix(arg, "-out="@) || arg == "-out"@
}

/// Whether a command is a `plan` that names no plan file to write.
pub open spec fn needs_output(words: Seq<Seq<char>>) -> bool {
    words.len() > 0 && words[0] == "plan"@ && forall|i: int|
        0 <= i < words.len() ==> !names_output(#[trigger] words[i])
}

/// What was said later, if anything, else what was said earlier.
pub open spec fn later_or(later: Option<Seq<char>>, earlier: Option<Seq<char>>) -> Option<
    Seq<char>,
> {
    if later is Some {
        later
    } else {
        earlier
    }
}

/// The plan file that the words from `from` on name, as `-out=file` or
/// `-out file`: the last one, where there are several.
pub open spec fn named_output(words: Seq<Seq<char>>, from: int) -> Option<Seq<char>>
    decreases words.len() - from,
{
    if from >= words.len() {
        None
    } else if words[from] == "-out"@ {
        if from + 1 < words.len() {
            later_or(named_output(words, from + 2), Some(words[from + 1]))
        } else {
            None
        }
    } else if has_prefix(words[from], "-out="@) {
        later_or(
            named_output(words, from + 1),
            Some(words[from].skip("-out="@.len() as int)),
        )
    } else {
        named_output(words, from + 1)
    }
}

/// The file that a command writes a plan to: for a `plan`, the one that the user
/// names, else the run's own.
pub open spec fn plan_file(words: Seq<Seq<char>>, path: Seq<char>) -> Option<Seq<char>> {
    if words.len() == 0 || words[0] != "plan"@ {
        None
    } else if needs_output(words) {
        Some(path)
    } else {
        named_output(words, 1)
    }
}

/// The argument that has the plan written to `path`.
pub open spec fn output_arg(path: Seq<char>) -> Seq<char> {
    "-out="@ + path
}

/// The arguments of a single-phase run.
pub open spec fn single_args(words: Seq<Seq<char>>, path: Seq<char>) -> Seq<Seq<char>> {
    if needs_output(words) {
        words.push(output_arg(path))
    } else {
        words
    }
}

/// The arguments of the plan that an `apply` makes first: `plan` in place of
/// `apply`, what else the user passed, and the plan file.
pub open spec fn plan_first_args(words: Seq<Seq<char>>, path: Seq<char>) -> Seq<Seq<char>> {
    seq!["plan"@] + words.skip(1) + seq![output_arg(path)]
}

/// The arguments that apply the saved plan.
pub open spec fn apply_args(path: Seq<char>) -> Seq<Seq<char>> {
    seq!["apply"@, "-auto-approve"@, path]
}

/// Whether a command is an `apply` that has to be planned and approved first.
pub fn is_bare_apply(tokens: &Vec<String>) -> (r: bool)
    ensures
        r == bare_apply(texts(tokens@)),
{
    let ghost words = texts(tokens@);
    if tokens.len() == 0 {
        return false;
    }
    assert(words[0] == tokens@[0]@);
    if !same(tokens[0].as_str(), "apply") {
        return false;
    }
    let mut i: usize = 0;
    while i < tokens.len()
        invariant
            i <= tokens@.len(),
            words == texts(tokens@),
            forall|k: int| 0 <= k < i ==> !bypasses(#[trigger] words[k]),
        decreases tokens@.len() - i,
    {
        let arg = tokens[i].as_str();
        assert(words[i as int] == arg@);
        if same(arg, "-auto-approve") || starts_with(arg, "-auto-approve=") || (!starts_with(
            arg,
            "-",
        ) && !same(arg, "apply")) {
            assert(bypasses(words[i as int]));
            return false;
        }
        i += 1;
    }
    true
}

/// Whether a command is a `plan` that names no plan file to write.
fn lacks_output(tokens: &Vec<String>) -> (r: bool)
    ensures
        r == needs_output(texts(tokens@)),
{
    let ghost words = texts(tokens@);
    if tokens.len() == 0 {
        return false;
    }
    assert(words[0] == tokens@[0]@);
    if !same(tokens[0].as_str(), "plan") {
        return false;
    }
    let mut i: usize = 0;
    while i < tokens.len()
        invariant
            i <= tokens@.len(),
            words == texts(tokens@),
            forall|k: int| 0 <= k < i ==> !names_output(#[trigger] words[k]),
        decreases tokens@.len() - i,
    {
        let arg = tokens[i].as_str();
        assert(words[i as int] == arg@);
        if starts_with(arg, "-out=") || same(arg, "-out") {
            assert(names_output(words[i as int]));
            return false;
        }
        i += 1;
    }
    true
}

/// The plan file that a command names after its first word.
fn find_output(tokens: &Vec<String>) -> (r: Option<String>)
    requires
        tokens@.len() > 0,
    ensures
        text_opt(r) == named_output(texts(tokens@), 1),
{
    let ghost words = texts(tokens@);
    let mut found: Option<String> = None;
    let mut i: usize = 1;
    while i < tokens.len()
        invariant
            1 <= i <= tokens@.len(),
            words == texts(tokens@),
            named_output(words, 1) == later_or(named_output(words, i as int), text_opt(found)),
        decreases tokens@.len() - i,
    {
        let arg = tokens[i].as_str();
        assert(words[i as int] == arg@);
        if same(arg, "-out") {
            if i + 1 >= tokens.len() {
                return found;
            }
            assert(words[i + 1] == tokens@[i + 1]@);
            found = Some(tokens[i + 1].clone());
            i += 2;
        } else if starts_with(arg, "-out=") {
            proof {
                reveal_strlit("-out=");
            }
            let chars = to_chars(arg);
            let file = from_chars(&chars, 5, chars.len());
            assert(file@ =~= arg@.skip("-out="@.len() as int));
            found = Some(file);
            i += 1;
        } else {
            i += 1;
        }
    }
    found
}

/// The line that announces a terraform call.
fn announce(args: &Vec<String>) -> (r: RunnerEvent)
    ensures
        r@ == RunnerEventView::Line(command_line(texts(args@))),
{
    RunnerEvent::Line(concat2("$ terraform ", join(args, " ").as_str()))
}

// ---------------------------------------------------------------------------
// Steps of a run
// ---------------------------------------------------------------------------

/// What is to be done next.
pub enum Request {
    /// Execute `terraform` with these arguments, emit its output line by line,
    /// and report its exit code. Lines that the user types go to it only if
    /// `forward_stdin` is set; else its input is closed.
    Execute { args: Vec<String>, forward_stdin: bool },
    /// Read this plan file with `terraform show -json` and report the JSON.
    ShowPlan { path: String },
    /// Wait until the user approves or cancels, and report which.
    AwaitApproval,
    /// Nothing: the run is over. The run's own plan file can go; one that the
    /// user named stays.
    Finish,
}

/// What a [`Request`] stands for.
pub enum RequestView {
    Execute { args: Seq<Seq<char>>, forward_stdin: bool },
    ShowPlan { path: Seq<char> },
    AwaitApproval,
    Finish,
}

impl View for Request {
    type V = RequestView;

    open spec fn view(&self) -> RequestView {
        match self {
            Request::Execute { args, forward_stdin } => RequestView::Execute {
                args: texts(args@),
                forward_stdin: *forward_stdin,
            },
            Request::ShowPlan { path } => RequestView::ShowPlan { path: path@ },
            Request::AwaitApproval => RequestView::AwaitApproval,
            Request::Finish => RequestView::Finish,
        }
    }
}

/// Where a run stands: what it waits for.
pub enum Stage {
    /// The command's exit, and the file that it writes a plan to, if it does.
    Running { plan_file: Option<String> },
    /// The JSON of the plan that the command wrote.
    Capturing { exit_code: Option<i32> },
    /// The exit of the plan that an apply makes first.
    Planning,
    /// The JSON of that plan.
    Showing,
    /// Approval of that plan.
    Confirming,
    /// The exit of the apply.
    Applying,
    /// Nothing more.
    Finished,
}

/// What a [`Stage`] stands for.
pub enum StageView {
    Running { plan_file: Option<Seq<char>> },
    Capturing { exit_code: Option<i32> },
    Planning,
    Showing,
    Confirming,
    Applying,
    Finished,
}

impl View for Stage {
    type V = StageView;

    open spec fn view(&self) -> StageView {
        match self {
            Stage::Running { plan_file } => StageView::Running { plan_file: text_opt(*plan_file) },
            Stage::Capturing { exit_code } => StageView::Capturing { exit_code: *exit_code },
            Stage::Planning => StageView::Planning,
            Stage::Showing => StageView::Showing,
            Stage::Confirming => StageView::Confirming,
            Stage::Applying => StageView::Applying,
            Stage::Finished => StageView::Finished,
        }
    }
}

/// What a run does at one point: the events it emits, in order, and what it
/// requests then.
pub struct Step {
    pub events: Vec<RunnerEvent>,
    pub request: Request,
}

/// What a step stands for, with the stage it leads to.
pub struct StepView {
    pub events: Seq<RunnerEventView>,
    pub request: RequestView,
    pub stage: StageView,
}

/// The step that ends a run.
pub open spec fn finish(
    lines: Seq<RunnerEventView>,
    exit_code: Option<i32>,
    json_plan: Option<Seq<char>>,
    user_cmd: Seq<char>,
) -> StepView {
    StepView {
        events: lines.push(RunnerEventView::Done { exit_code, json_plan, original_cmd: user_cmd }),
        request: RequestView::Finish,
        stage: StageView::Finished,
    }
}

/// The step that reads a plan file.
pub open spec fn show_plan(path: Seq<char>, stage: StageView) -> StepView {
    StepView {
        events: seq![RunnerEventView::Line("$ terraform show -json "@ + path)],
        request: RequestView::ShowPlan { path },
        stage,
    }
}

/// How a run begins.
pub open spec fn first_step(user_cmd: Seq<char>, path: Seq<char>) -> StepView {
    let words = words_of(user_cmd);
    if words.len() == 0 {
        finish(Seq::empty(), Some(1i32), None, user_cmd)
    } else if bare_apply(words) {
        let args = plan_first_args(words, path);
        StepView {
            events: seq![
                RunnerEventView::Line("pliny: running plan first to build AI summary…"@),
                RunnerEventView::Line(command_line(args)),
            ],
            request: RequestView::Execute { args, forward_stdin: false },
            stage: StageView::Planning,
        }
    } else {
        let args = single_args(words, path);
        StepView {
            events: seq![RunnerEventView::Line(command_line(args))],
            request: RequestView::Execute { args, forward_stdin: true },
            stage: StageView::Running { plan_file: plan_file(words, path) },
        }
    }
}

/// Whether a stage waits for an exit code.
pub open spec fn awaits_exit(stage: StageView) -> bool {
    stage is Running || stage is Planning || stage is Applying
}

/// What follows the exit of the command.
pub open spec fn exit_step(
    stage: StageView,
    code: Option<i32>,
    cancelled: bool,
    user_cmd: Seq<char>,
    path: Seq<char>,
) -> StepView
    recommends
        awaits_exit(stage),
{
    match stage {
        StageView::Planning => if code != Some(0i32) || cancelled {
            finish(
                seq![RunnerEventView::Line("pliny: plan failed or cancelled, skipping apply."@)],
                code,
                None,
                user_cmd,
            )
        } else {
            show_plan(path, StageView::Showing)
        },
        StageView::Running { plan_file: Some(file) } => if code == Some(0i32) {
            show_plan(file, StageView::Capturing { exit_code: code })
        } else {
            finish(Seq::empty(), code, None, user_cmd)
        },
        _ => finish(Seq::empty(), code, None, user_cmd),
    }
}

/// Whether a stage waits for the JSON of a plan.
pub open spec fn awaits_json(stage: StageView) -> bool {
    stage is Capturing || stage is Showing
}

/// What follows the attempt to read the plan as JSON.
pub open spec fn json_step(
    stage: StageView,
    json: Result<Seq<char>, Seq<char>>,
    user_cmd: Seq<char>,
) -> StepView
    recommends
        awaits_json(stage),
{
    match (stage, json) {
        (StageView::Showing, Ok(text)) => StepView {
            events: seq![
                RunnerEventView::ApplyPlanReady { json_plan: text },
                RunnerEventView::Line(
                    "pliny: review the plan + AI summary. Type 'y' <Enter> to apply, or 'n' <Enter> to cancel."@,
                ),
            ],
            request: RequestView::AwaitApproval,
            stage: StageView::Confirming,
        },
        (StageView::Capturing { exit_code }, Ok(text)) => finish(
            Seq::empty(),
            exit_code,
            Some(text),
            user_cmd,
        ),
        (StageView::Capturing { exit_code }, Err(e)) => finish(
            seq![RunnerEventView::Line("pliny: failed to parse plan: "@ + e)],
            exit_code,
            None,
            user_cmd,
        ),
        (_, Err(e)) => finish(
            seq![RunnerEventView::Line("pliny: failed to parse plan: "@ + e)],
            Some(1i32),
            None,
            user_cmd,
        ),
        (_, Ok(_)) => finish(Seq::empty(), Some(1i32), None, user_cmd),
    }
}

/// What follows the user's decision on the plan.
pub open spec fn approval_step(approved: bool, user_cmd: Seq<char>, path: Seq<char>) -> StepView {
    if approved {
        StepView {
            events: seq![RunnerEventView::Line(command_line(apply_args(path)))],
            request: RequestView::Execute { args: apply_args(path), forward_stdin: true },
            stage: StageView::Applying,
        }
    } else {
        finish(
            seq![RunnerEventView::Line("pliny: apply cancelled."@)],
            Some(0i32),
            None,
            user_cmd,
        )
    }
}

/// Whether `step` emits and requests what `view` says, and leads to `stage`.
pub open spec fn performs(step: Step, stage: Stage, view: StepView) -> bool {
    &&& event_views(step.events@) == view.events
    &&& step.request@ == view.request
    &&& stage@ == view.stage
}

fn done(exit_code: Option<i32>, json_plan: Option<String>, user_cmd: &String) -> (r: RunnerEvent)
    ensures
        r@ == (RunnerEventView::Done {
            exit_code,
            json_plan: text_opt(json_plan),
            original_cmd: user_cmd@,
        }),
{
    RunnerEvent::Done { exit_code, json_plan, original_cmd: user_cmd.clone() }
}

/// A step with one event.
fn one(event: RunnerEvent, request: Request) -> (r: Step)
    ensures
        event_views(r.events@) == seq![event@],
        r.request == request,
{
    let mut events: Vec<RunnerEvent> = Vec::new();
    events.push(event);
    assert(event_views(events@) =~= seq![event@]);
    Step { events, request }
}

/// A step with two events.
fn two(first: RunnerEvent, second: RunnerEvent, request: Request) -> (r: Step)
    ensures
        event_views(r.events@) == seq![first@, second@],
        r.request == request,
{
    let mut events: Vec<RunnerEvent> = Vec::new();
    events.push(first);
    events.push(second);
    assert(event_views(events@) =~= seq![first@, second@]);
    Step { events, request }
}

/// A run of one command.
pub struct Run {
    pub user_cmd: String,
    pub plan_path: String,
    pub stage: Stage,
}

impl Run {
    /// Begins a run of the command that the user typed; its plan file is
    /// `plan_path`.
    pub fn start(user_cmd: &str, plan_path: &str) -> (r: (Run, Step))
        ensures
            r.0.user_cmd@ == user_cmd@,
            r.0.plan_path@ == plan_path@,
            performs(r.1, r.0.stage, first_step(user_cmd@, plan_path@)),
    {
        let tokens = shell_split(user_cmd);
        let cmd = user_cmd.to_owned();
        let path = plan_path.to_owned();
        if tokens.len() == 0 {
            let step = one(done(Some(1), None, &cmd), Request::Finish);
            assert(event_views(step.events@) =~= first_step(user_cmd@, plan_path@).events);
            return (Run { user_cmd: cmd, plan_path: path, stage: Stage::Finished }, step);
        }
        if is_bare_apply(&tokens) {
            let mut args: Vec<String> = Vec::new();
            args.push("plan".to_owned());
            let ghost words = texts(tokens@);
            let mut i: usize = 1;
            while i < tokens.len()
                invariant
                    1 <= i <= tokens@.len(),
                    words == texts(tokens@),
                    texts(args@) == seq!["plan"@] + words.subrange(1, i as int),
                decreases tokens@.len() - i,
            {
                let ghost before = args@;
                args.push(tokens[i].clone());
                assert(texts(args@) =~= texts(before).push(words[i as int]));
                i += 1;
            }
            let ghost before = args@;
            args.push(concat2("-out=", plan_path));
            assert(texts(args@) =~= texts(before).push(output_arg(plan_path@)));
            assert(texts(args@) =~= plan_first_args(words, plan_path@));
            let step = two(
                RunnerEvent::Line("pliny: running plan first to build AI summary…".to_owned()),
                announce(&args),
                Request::Execute { args, forward_stdin: false },
            );
            (Run { user_cmd: cmd, plan_path: path, stage: Stage::Planning }, step)
        } else {
            let own_file = lacks_output(&tokens);
            let ghost words = texts(tokens@);
            assert(words[0] == tokens@[0]@);
            let file = if !same(tokens[0].as_str(), "plan") {
                None
            } else if own_file {
                Some(plan_path.to_owned())
            } else {
                find_output(&tokens)
            };
            let mut args = tokens;
            if own_file {
                args.push(concat2("-out=", plan_path));
            }
            assert(texts(args@) =~= single_args(words, plan_path@));
            let step = one(announce(&args), Request::Execute { args, forward_stdin: true });
            (Run { user_cmd: cmd, plan_path: path, stage: Stage::Running { plan_file: file } }, step)
        }
    }

    /// The step that ends the run.
    fn end(&mut self, exit_code: Option<i32>, json_plan: Option<String>) -> (r: Step)
        ensures
            final(self).user_cmd == old(self).user_cmd,
            final(self).plan_path == old(self).plan_path,
            performs(
                r,
                final(self).stage,
                finish(Seq::empty(), exit_code, text_opt(json_plan), old(self).user_cmd@),
            ),
    {
        self.stage = Stage::Finished;
        let step = one(done(exit_code, json_plan, &self.user_cmd), Request::Finish);
        assert(event_views(step.events@) =~= finish(
            Seq::empty(),
            exit_code,
            text_opt(json_plan),
            self.user_cmd@,
        ).events);
        step
    }

    /// The step that ends the run with a last line.
    fn end_with(&mut self, line: String, exit_code: Option<i32>, json_plan: Option<String>) -> (r:
        Step)
        ensures
            final(self).user_cmd == old(self).user_cmd,
            final(self).plan_path == old(self).plan_path,
            performs(
                r,
                final(self).stage,
                finish(
                    seq![RunnerEventView::Line(line@)],
                    exit_code,
                    text_opt(json_plan),
                    old(self).user_cmd@,
                ),
            ),
    {
        self.stage = Stage::Finished;
        let step = two(
            RunnerEvent::Line(line),
            done(exit_code, json_plan, &self.user_cmd),
            Request::Finish,
        );
        assert(event_views(step.events@) =~= finish(
            seq![RunnerEventView::Line(line@)],
            exit_code,
            text_opt(json_plan),
            self.user_cmd@,
        ).events);
        step
    }

    /// The step that reads a plan file.
    fn show(&mut self, path: String, stage: Stage) -> (r: Step)
        ensures
            final(self).user_cmd == old(self).user_cmd,
            final(self).plan_path == old(self).plan_path,
            performs(r, final(self).stage, show_plan(path@, stage@)),
    {
        self.stage = stage;
        one(
            RunnerEvent::Line(concat2("$ terraform show -json ", path.as_str())),
            Request::ShowPlan { path },
        )
    }

    /// The command exited with `code`, none where a signal ended it.
    /// `cancelled` tells whether the user has cancelled the run meanwhile.
    pub fn on_exit(&mut self, code: Option<i32>, cancelled: bool) -> (r: Step)
        requires
            awaits_exit(old(self).stage@),
        ensures
            final(self).user_cmd == old(self).user_cmd,
            final(self).plan_path == old(self).plan_path,
            performs(
                r,
                final(self).stage,
                exit_step(
                    old(self).stage@,
                    code,
                    cancelled,
                    old(self).user_cmd@,
                    old(self).plan_path@,
                ),
            ),
    {
        let success = match code {
            Some(c) => c == 0,
            None => false,
        };
        match &self.stage {
            Stage::Planning => {
                if !success || cancelled {
                    self.end_with(
                        "pliny: plan failed or cancelled, skipping apply.".to_owned(),
                        code,
                        None,
                    )
                } else {
                    let own = self.plan_path.clone();
                    self.show(own, Stage::Showing)
                }
            },
            Stage::Running { plan_file: Some(file) } => {
                if success {
                    let named = file.clone();
                    self.show(named, Stage::Capturing { exit_code: code })
                } else {
                    self.end(code, None)
                }
            },
            _ => self.end(code, None),
        }
    }

    /// The plan file was read: its JSON, or what went wrong.
    pub fn on_plan_json(&mut self, json: Result<String, String>) -> (r: Step)
        requires
            awaits_json(old(self).stage@),
        ensures
            final(self).user_cmd == old(self).user_cmd,
            final(self).plan_path == old(self).plan_path,
            performs(
                r,
                final(self).stage,
                json_step(
                    old(self).stage@,
                    match json {
                        Ok(s) => Ok(s@),
                        Err(e) => Err(e@),
                    },
                    old(self).user_cmd@,
                ),
            ),
    {
        let exit_code: Option<i32> = match &self.stage {
            Stage::Capturing { exit_code } => *exit_code,
            _ => Some(1),
        };
        match json {
            Err(e) => self.end_with(
                concat2("pliny: failed to parse plan: ", e.as_str()),
                exit_code,
                None,
            ),
            Ok(text) => match &self.stage {
                Stage::Showing => {
                    self.stage = Stage::Confirming;
                    two(
                        RunnerEvent::ApplyPlanReady { json_plan: text },
                        RunnerEvent::Line(
                            "pliny: review the plan + AI summary. Type 'y' <Enter> to apply, or 'n' <Enter> to cancel.".to_owned(),
                        ),
                        Request::AwaitApproval,
                    )
                },
                _ => self.end(exit_code, Some(text)),
            },
        }
    }

    /// The user approved the plan, or did not.
    pub fn on_approval(&mut self, approved: bool) -> (r: Step)
        requires
            old(self).stage@ is Confirming,
        ensures
            final(self).user_cmd == old(self).user_cmd,
            final(self).plan_path == old(self).plan_path,
            performs(
                r,
                final(self).stage,
                approval_step(approved, old(self).user_cmd@, old(self).plan_path@),
            ),
    {
        if !approved {
            return self.end_with("pliny: apply cancelled.".to_owned(), Some(0), None);
        }
        let mut args: Vec<String> = Vec::new();
        args.push("apply".to_owned());
        args.push("-auto-approve".to_owned());
        args.push(self.plan_path.clone());
        assert(texts(args@) =~= apply_args(self.plan_path@));
        self.stage = Stage::Applying;
        one(announce(&args), Request::Execute { args, forward_stdin: true })
    }
}

// ---------------------------------------------------------------------------
// Around a run
// ---------------------------------------------------------------------------

/// The name of a run's plan file, unique by process and time.
pub fn plan_file_name(process: u32, nanos: u128) -> (r: String)
    ensures
        r@ == "pliny-"@ + decimal(process as nat) + "-"@ + decimal(nanos as nat) + ".tfplan"@,
{
    let mut out = "pliny-".to_owned();
    out.append(decimal_text(process as u128).as_str());
    out.append("-");
    out.append(decimal_text(nanos).as_str());
    out.append(".tfplan");
    out
}

/// The exit code that stands for a program that could not be started.
pub const SPAWN_FAILED: i32 = 127;

/// What is reported where a program could not be started, and the exit code
/// that stands for it.
pub fn spawn_failure(bin: &str, error: &str) -> (r: (RunnerEvent, Option<i32>))
    ensures
        r.0@ == RunnerEventView::Line("pliny: failed to spawn "@ + bin@ + ": "@ + error@),
        r.1 == Some(SPAWN_FAILED),
{
    let mut out = "pliny: failed to spawn ".to_owned();
    out.append(bin);
    out.append(": ");
    out.append(error);
    (RunnerEvent::Line(out), Some(SPAWN_FAILED))
}

/// What is said where `terraform show -json` failed, given what it wrote to
/// stderr.
pub open spec fn show_failure_text(stderr: Seq<char>) -> Seq<char> {
    "terraform show -json failed: "@ + stderr
}

/// What is said where `terraform show -json` failed, given what it wrote to
/// stderr.
pub fn show_failure(stderr: &str) -> (r: String)
    ensures
        r@ == show_failure_text(stderr@),
{
    concat2("terraform show -json failed: ", stderr)
}

/// The JSON that `terraform show -json` wrote, or what went wrong.
pub fn shown_plan(success: bool, stdout: Vec<u8>, stderr: &Vec<u8>) -> (r: Result<String, String>)
    ensures
        match r {
            Ok(text) => success && valid_utf8(stdout@) && text@ == decode_utf8(stdout@),
            Err(e) => if success {
                !valid_utf8(stdout@) && e@ == decode_error_text(stdout@)
            } else {
                e@ == show_failure_text(lossy_text(stderr@))
            },
        },
{
    if !success {
        return Err(show_failure(decode_lossy(stderr).as_str()));
    }
    decode_strict(stdout)
}

// ---------------------------------------------------------------------------
// The two sides of a run
// ---------------------------------------------------------------------------

/// What passes between the UI and a run: each side puts in what the other takes
/// out, in order.
pub struct RunnerHandle {
    /// Events emitted and not yet drained.
    pub events: Vec<RunnerEvent>,
    /// Lines for the child's stdin, not yet written.
    pub stdin_lines: Vec<String>,
    /// Set once no more lines can be written.
    pub stdin_closed: bool,
    /// Set while a phase-1 plan is awaiting confirmation.
    pub pending: bool,
    /// Decisions on the phase-1 plan, not yet taken: `true` means proceed with
    /// phase-2 apply, `false` means cancel.
    pub approvals: Vec<bool>,
    /// The running child, zero where none runs.
    pub pid: i32,
    /// Set once the user has cancelled; phase 2 is then skipped.
    pub cancelled: bool,
    /// Set once the UI has let go of the run.
    pub closed: bool,
}

/// Whether two handles agree but for events.
pub open spec fn same_but_events(a: RunnerHandle, b: RunnerHandle) -> bool {
    a == (RunnerHandle { events: a.events, ..b })
}

/// Whether two handles agree but for the lines for the child.
pub open spec fn same_but_lines(a: RunnerHandle, b: RunnerHandle) -> bool {
    a == (RunnerHandle { stdin_lines: a.stdin_lines, stdin_closed: a.stdin_closed, ..b })
}

/// Whether two handles agree but for what the user decided.
pub open spec fn same_but_decisions(a: RunnerHandle, b: RunnerHandle) -> bool {
    a == (RunnerHandle {
        pending: a.pending,
        approvals: a.approvals,
        cancelled: a.cancelled,
        ..b
    })
}

impl RunnerHandle {
    /// A handle with nothing in it.
    pub fn new() -> (r: RunnerHandle)
        ensures
            r.events@.len() == 0,
            r.stdin_lines@.len() == 0,
            !r.stdin_closed,
            !r.pending,
            r.approvals@.len() == 0,
            r.pid == 0,
            !r.cancelled,
            !r.closed,
    {
        RunnerHandle {
            events: Vec::new(),
            stdin_lines: Vec::new(),
            stdin_closed: false,
            pending: false,
            approvals: Vec::new(),
            pid: 0,
            cancelled: false,
            closed: false,
        }
    }

    /// Non-blocking drain of all pending events.
    pub fn drain(&mut self) -> (r: Vec<RunnerEvent>)
        ensures
            r@ == old(self).events@,
            final(self).events@ == Seq::<RunnerEvent>::empty(),
            same_but_events(*final(self), *old(self)),
    {
        let mut out: Vec<RunnerEvent> = Vec::new();
        out.append(&mut self.events);
        assert(out@ =~= old(self).events@);
        out
    }

    /// Emits an event.
    pub fn emit(&mut self, event: RunnerEvent)
        ensures
            final(self).events@ == old(self).events@.push(event),
            same_but_events(*final(self), *old(self)),
    {
        self.events.push(event);
    }

    /// Forward a line of text to the child's stdin. Trailing newline is
    /// appended. Silently drops the line if the subprocess has exited or
    /// the stdin pipe is closed.
    pub fn send_line(&mut self, text: String)
        ensures
            texts(final(self).stdin_lines@) == (if old(self).stdin_closed {
                texts(old(self).stdin_lines@)
            } else {
                texts(old(self).stdin_lines@).push(line_with_newline(text@))
            }),
            final(self).stdin_closed == old(self).stdin_closed,
            same_but_lines(*final(self), *old(self)),
    {
        if self.stdin_closed {
            return;
        }
        let mut line = text;
        let chars = to_chars(line.as_str());
        if chars.len() == 0 || chars[chars.len() - 1] != '\n' {
            line.push('\n');
        }
        self.stdin_lines.push(line);
        assert(texts(self.stdin_lines@) =~= texts(old(self).stdin_lines@).push(
            line_with_newline(text@),
        ));
    }

    /// The next line for the child's stdin.
    pub fn take_line(&mut self) -> (r: Option<String>)
        ensures
            old(self).stdin_lines@.len() == 0 ==> r is None && final(self).stdin_lines@ == old(
                self,
            ).stdin_lines@,
            old(self).stdin_lines@.len() > 0 ==> r == Some(old(self).stdin_lines@[0])
                && final(self).stdin_lines@ == old(self).stdin_lines@.drop_first(),
            final(self).stdin_closed == old(self).stdin_closed,
            same_but_lines(*final(self), *old(self)),
    {
        if self.stdin_lines.len() == 0 {
            return None;
        }
        let line = self.stdin_lines.remove(0);
        assert(self.stdin_lines@ =~= old(self).stdin_lines@.drop_first());
        Some(line)
    }

    /// The child has exited, or its stdin pipe is closed: what is left for it,
    /// and what comes later, is dropped.
    pub fn close_stdin(&mut self)
        ensures
            final(self).stdin_closed,
            final(self).stdin_lines@.len() == 0,
            same_but_lines(*final(self), *old(self)),
    {
        self.stdin_closed = true;
        self.stdin_lines = Vec::new();
    }

    /// Cancels, and names the child to deliver SIGINT to. Lets terraform finish
    /// its cleanup (release the state lock, print partial output) instead of
    /// being killed hard with SIGKILL.
    pub fn interrupt(&mut self) -> (r: Option<i32>)
        ensures
            r == (if old(self).pid > 0 {
                Some(old(self).pid)
            } else {
                None
            }),
            final(self).cancelled,
            final(self).approvals@ == old(self).approvals@.push(false),
            final(self).pending == old(self).pending,
            same_but_decisions(*final(self), *old(self)),
    {
        self.cancel_apply();
        if self.pid > 0 {
            Some(self.pid)
        } else {
            None
        }
    }

    /// A phase-1 plan awaits confirmation from here on.
    pub fn ask_approval(&mut self)
        ensures
            final(self).pending,
            final(self).approvals == old(self).approvals,
            final(self).cancelled == old(self).cancelled,
            same_but_decisions(*final(self), *old(self)),
    {
        self.pending = true;
    }

    /// Proceed with the phase-2 apply after the phase-1 plan was looked at.
    /// No-op if no apply is pending confirmation.
    pub fn approve_apply(&mut self)
        ensures
            final(self).approvals@ == (if old(self).pending {
                old(self).approvals@.push(true)
            } else {
                old(self).approvals@
            }),
            final(self).pending == old(self).pending,
            final(self).cancelled == old(self).cancelled,
            same_but_decisions(*final(self), *old(self)),
    {
        if self.pending {
            self.approvals.push(true);
        }
    }

    /// Cancel a pending phase-2 apply without sending a signal to any
    /// running child. Used when the user declines at the confirmation prompt.
    pub fn cancel_apply(&mut self)
        ensures
            final(self).cancelled,
            final(self).approvals@ == old(self).approvals@.push(false),
            final(self).pending == old(self).pending,
            same_but_decisions(*final(self), *old(self)),
    {
        self.cancelled = true;
        self.approvals.push(false);
    }

    /// The user's decision on the phase-1 plan, if there is one yet. The oldest
    /// decision counts; without one, a run that was cancelled or let go is not
    /// approved. With a decision, none is pending any more.
    pub fn poll_approval(&mut self) -> (r: Option<bool>)
        ensures
            r == decision(*old(self)),
            final(self).approvals@ == (if old(self).approvals@.len() > 0 {
                old(self).approvals@.drop_first()
            } else {
                old(self).approvals@
            }),
            final(self).pending == (old(self).pending && r is None),
            final(self).cancelled == old(self).cancelled,
            same_but_decisions(*final(self), *old(self)),
    {
        let r = if self.approvals.len() > 0 {
            let v = self.approvals.remove(0);
            assert(self.approvals@ =~= old(self).approvals@.drop_first());
            Some(v)
        } else if self.cancelled || self.closed {
            Some(false)
        } else {
            None
        };
        if r.is_some() {
            self.pending = false;
        }
        r
    }
}

/// The user's decision on the phase-1 plan, if there is one yet.
pub open spec fn decision(h: RunnerHandle) -> Option<bool> {
    if h.approvals@.len() > 0 {
        Some(h.approvals@[0])
    } else if h.cancelled || h.closed {
        Some(false)
    } else {
        None
    }
}

/// A line with the newline that ends it.
pub open spec fn line_with_newline(text: Seq<char>) -> Seq<char> {
    if text.len() > 0 && text.last() == '\n' {
        text
    } else {
        text.push('\n')
    }
}

// ---------------------------------------------------------------------------
// Laws
// ---------------------------------------------------------------------------

/// A step of the run of `user_cmd` with the plan file `path`: its first one, or
/// one that follows a stage and what came in.
pub open spec fn a_step(step: StepView, user_cmd: Seq<char>, path: Seq<char>) -> bool {
    ||| step == first_step(user_cmd, path)
    ||| exists|stage: StageView, code: Option<i32>, cancelled: bool|
        awaits_exit(stage) && step == #[trigger] exit_step(stage, code, cancelled, user_cmd, path)
    ||| exists|stage: StageView, json: Result<Seq<char>, Seq<char>>|
        awaits_json(stage) && step == #[trigger] json_step(stage, json, user_cmd)
    ||| exists|approved: bool| step == #[trigger] approval_step(approved, user_cmd, path)
}

/// A run reports that it is done exactly when it is over: the step that
/// finishes it ends with `Done` for the command as it was typed, and no other
/// event is `Done`.
pub proof fn done_comes_last_and_once(
    step: StepView,
    user_cmd: Seq<char>,
    path: Seq<char>,
    i: int,
)
    requires
        a_step(step, user_cmd, path),
        0 <= i < step.events.len(),
    ensures
        step.request is Finish <==> step.stage is Finished,
        step.events[i] is Done <==> (step.request is Finish && i == step.events.len() - 1),
        step.events[i] is Done ==> step.events[i]->original_cmd == user_cmd,
{
}

/// Every step emits something.
pub proof fn no_step_is_silent(step: StepView, user_cmd: Seq<char>, path: Seq<char>)
    requires
        a_step(step, user_cmd, path),
    ensures
        step.events.len() > 0,
{
}

/// After the first step terraform is executed for one reason alone: the user
/// approved a plan. It is then told to apply the file that the plan was written
/// to.
pub proof fn nothing_is_applied_without_approval(
    stage: StageView,
    code: Option<i32>,
    cancelled: bool,
    json: Result<Seq<char>, Seq<char>>,
    approved: bool,
    user_cmd: Seq<char>,
    path: Seq<char>,
)
    ensures
        awaits_exit(stage) ==> !(exit_step(stage, code, cancelled, user_cmd, path).request is Execute),
        awaits_json(stage) ==> !(json_step(stage, json, user_cmd).request is Execute),
        approval_step(approved, user_cmd, path).request is Execute <==> approved,
        approved ==> approval_step(approved, user_cmd, path).request
            == (RequestView::Execute { args: apply_args(path), forward_stdin: true }),
{
}

/// An `apply` without a saved plan begins with a plan: terraform is told to
/// plan, with what else the user passed, into the run's own file, and gets no
/// typed line.
pub proof fn bare_apply_plans_first(user_cmd: Seq<char>, path: Seq<char>)
    requires
        bare_apply(words_of(user_cmd)),
    ensures
        first_step(user_cmd, path).stage is Planning,
        first_step(user_cmd, path).request == (RequestView::Execute {
            args: plan_first_args(words_of(user_cmd), path),
            forward_stdin: false,
        }),
        plan_first_args(words_of(user_cmd), path)[0] == "plan"@,
        plan_first_args(words_of(user_cmd), path).last() == output_arg(path),
        plan_first_args(words_of(user_cmd), path).len() == words_of(user_cmd).len() + 1,
        forall|i: int|
            1 <= i < words_of(user_cmd).len() ==> #[trigger] plan_first_args(
                words_of(user_cmd),
                path,
            )[i] == words_of(user_cmd)[i],
{
}

/// A plan that failed, or that the user cancelled meanwhile, is not shown for
/// approval; one that succeeded is.
pub proof fn failed_plan_ends_the_run(
    code: Option<i32>,
    cancelled: bool,
    user_cmd: Seq<char>,
    path: Seq<char>,
)
    ensures
        exit_step(StageView::Planning, code, cancelled, user_cmd, path).stage is Finished <==> (code
            != Some(0i32) || cancelled),
        !(code != Some(0i32) || cancelled) ==> exit_step(
            StageView::Planning,
            code,
            cancelled,
            user_cmd,
            path,
        ).stage is Showing,
{
}

/// What a step requests is what its stage waits for.
pub proof fn requests_match_stages(step: StepView, user_cmd: Seq<char>, path: Seq<char>)
    requires
        a_step(step, user_cmd, path),
    ensures
        step.request is Execute <==> awaits_exit(step.stage),
        step.request is ShowPlan <==> awaits_json(step.stage),
        step.request is AwaitApproval <==> step.stage is Confirming,
        step.request is Finish <==> step.stage is Finished,
{
}

/// How many steps a run can still take.
pub open spec fn steps_left(stage: StageView) -> nat {
    match stage {
        StageView::Planning => 4,
        StageView::Showing => 3,
        StageView::Running { .. } | StageView::Confirming => 2,
        StageView::Capturing { .. } | StageView::Applying => 1,
        StageView::Finished => 0,
    }
}

/// Every run ends: each step leaves fewer to take.
pub proof fn every_run_ends(
    stage: StageView,
    code: Option<i32>,
    cancelled: bool,
    json: Result<Seq<char>, Seq<char>>,
    approved: bool,
    user_cmd: Seq<char>,
    path: Seq<char>,
)
    ensures
        awaits_exit(stage) ==> steps_left(
            exit_step(stage, code, cancelled, user_cmd, path).stage,
        ) < steps_left(stage),
        awaits_json(stage) ==> steps_left(json_step(stage, json, user_cmd).stage) < steps_left(
            stage,
        ),
        stage is Confirming ==> steps_left(approval_step(approved, user_cmd, path).stage)
            < steps_left(stage),
{
}

/// A word that names a plan file is found, unless nothing follows it.
proof fn output_is_found(words: Seq<Seq<char>>, from: int, k: int)
    requires
        0 <= from <= k < words.len(),
        names_output(words[k]),
        words.last() != "-out"@,
    ensures
        named_output(words, from) is Some,
    decreases words.len() - from,
{
    if words[from] != "-out"@ && !has_prefix(words[from], "-out="@) {
        output_is_found(words, from + 1, k);
    }
}

/// After a successful `plan` the plan is read, whether the user named a file for
/// it or not, and the run ends with its JSON; only an `-out` that names none
/// leaves nothing to read.
pub proof fn successful_plans_are_read(
    user_cmd: Seq<char>,
    path: Seq<char>,
    cancelled: bool,
    json: Seq<char>,
)
    requires
        words_of(user_cmd).len() > 0,
        words_of(user_cmd)[0] == "plan"@,
        words_of(user_cmd).last() != "-out"@,
    ensures
        ({
            let shown = exit_step(
                first_step(user_cmd, path).stage,
                Some(0i32),
                cancelled,
                user_cmd,
                path,
            );
            &&& plan_file(words_of(user_cmd), path) matches Some(file) && shown.request == (
            RequestView::ShowPlan { path: file })
            &&& json_step(shown.stage, Ok(json), user_cmd).events.last() == (
            RunnerEventView::Done {
                exit_code: Some(0i32),
                json_plan: Some(json),
                original_cmd: user_cmd,
            })
        }),
{
    reveal_strlit("plan");
    reveal_strlit("apply");
    let words = words_of(user_cmd);
    assert("plan"@.len() != "apply"@.len());
    if !needs_output(words) {
        let k = choose|k: int| 0 <= k < words.len() && names_output(#[trigger] words[k]);
        reveal_strlit("-out=");
        reveal_strlit("-out");
        if k == 0 {
            assert("plan"@[0] != "-out="@[0]);
            assert(has_prefix(words[0], "-out="@) ==> words[0].subrange(0, 5)[0] == "-out="@[0]);
            assert("plan"@[0] != "-out"@[0]);
        }
        output_is_found(words, 1, k);
    }
}

/// A run reports how terraform exited: where the exit ends the run, the last
/// event carries the very code that terraform exited with. So a run whose apply
/// failed never ends with success.
pub proof fn exit_codes_are_reported(
    stage: StageView,
    code: Option<i32>,
    cancelled: bool,
    user_cmd: Seq<char>,
    path: Seq<char>,
)
    requires
        awaits_exit(stage),
    ensures
        ({
            let step = exit_step(stage, code, cancelled, user_cmd, path);
            &&& step.request is Finish ==> step.events.last() == (RunnerEventView::Done {
                exit_code: code,
                json_plan: None,
                original_cmd: user_cmd,
            })
            &&& stage is Applying ==> step.request is Finish && step.events.len() == 1
            &&& code != Some(0i32) ==> step.request is Finish
            &&& stage is Planning && code == Some(0i32) && !cancelled ==> step.request == (
            RequestView::ShowPlan { path })
            &&& stage matches StageView::Running { plan_file: Some(file) } ==> code == Some(0i32)
                ==> step.request == (RequestView::ShowPlan { path: file })
            &&& stage == (StageView::Running { plan_file: None }) ==> step.request is Finish
            &&& step.stage matches StageView::Capturing { exit_code } ==> exit_code == code
            &&& step.request is ShowPlan ==> step.events.len() == 1
            &&& stage is Running && step.request is Finish ==> step.events.len() == 1
            &&& stage is Planning && step.request is Finish ==> step.events.len() == 2
                && step.events[0] == RunnerEventView::Line(
                "pliny: plan failed or cancelled, skipping apply."@,
            )
        }),
{
}

/// Reading a plan's JSON does not change how the run is reported: a captured
/// plan ends with the code of its command, with the JSON where it was read, and
/// with the reason in the log where it was not.
pub proof fn captured_plans_keep_their_code(
    exit_code: Option<i32>,
    json: Seq<char>,
    reason: Seq<char>,
    user_cmd: Seq<char>,
)
    ensures
        ({
            let stage = StageView::Capturing { exit_code };
            let read = json_step(stage, Ok(json), user_cmd);
            let unread = json_step(stage, Err(reason), user_cmd);
            &&& read.request is Finish && unread.request is Finish
            &&& read.events == seq![
                RunnerEventView::Done {
                    exit_code,
                    json_plan: Some(json),
                    original_cmd: user_cmd,
                },
            ]
            &&& unread.events == seq![
                RunnerEventView::Line("pliny: failed to parse plan: "@ + reason),
                RunnerEventView::Done { exit_code, json_plan: None, original_cmd: user_cmd },
            ]
        }),
{
    assert(json_step(StageView::Capturing { exit_code }, Ok(json), user_cmd).events =~= seq![
        RunnerEventView::Done { exit_code, json_plan: Some(json), original_cmd: user_cmd },
    ]);
    assert(json_step(StageView::Capturing { exit_code }, Err(reason), user_cmd).events =~= seq![
        RunnerEventView::Line("pliny: failed to parse plan: "@ + reason),
        RunnerEventView::Done { exit_code, json_plan: None, original_cmd: user_cmd },
    ]);
}

/// The plan that the user is asked about is the plan that was read. One that
/// could not be read is not asked about: the run fails, and says why.
pub proof fn the_plan_that_was_read_is_asked_about(
    json: Seq<char>,
    reason: Seq<char>,
    user_cmd: Seq<char>,
)
    ensures
        ({
            let read = json_step(StageView::Showing, Ok(json), user_cmd);
            let unread = json_step(StageView::Showing, Err(reason), user_cmd);
            &&& read.stage is Confirming
            &&& read.events.len() == 2
            &&& read.events[0] == (RunnerEventView::ApplyPlanReady { json_plan: json })
            &&& read.events[1] is Line
            &&& unread.request is Finish
            &&& unread.events == seq![
                RunnerEventView::Line("pliny: failed to parse plan: "@ + reason),
                RunnerEventView::Done {
                    exit_code: Some(1i32),
                    json_plan: None,
                    original_cmd: user_cmd,
                },
            ]
        }),
{
    assert(json_step(StageView::Showing, Err(reason), user_cmd).events =~= seq![
        RunnerEventView::Line("pliny: failed to parse plan: "@ + reason),
        RunnerEventView::Done { exit_code: Some(1i32), json_plan: None, original_cmd: user_cmd },
    ]);
}

/// A decision against the plan ends the run without another call; a decision
/// for it applies the plan file, and nothing else, without a further question.
pub proof fn decisions_are_followed(user_cmd: Seq<char>, path: Seq<char>)
    ensures
        approval_step(true, user_cmd, path).request == (RequestView::Execute {
            args: seq!["apply"@, "-auto-approve"@, path],
            forward_stdin: true,
        }),
        approval_step(true, user_cmd, path).stage is Applying,
        approval_step(false, user_cmd, path).request is Finish,
        approval_step(false, user_cmd, path).events == seq![
            RunnerEventView::Line("pliny: apply cancelled."@),
            RunnerEventView::Done {
                exit_code: Some(0i32),
                json_plan: None,
                original_cmd: user_cmd,
            },
        ],
{
    assert(approval_step(false, user_cmd, path).events =~= seq![
        RunnerEventView::Line("pliny: apply cancelled."@),
        RunnerEventView::Done { exit_code: Some(0i32), json_plan: None, original_cmd: user_cmd },
    ]);
}

/// No call is made behind the user's back: each is announced, with all its
/// arguments, by the last event before it.
pub proof fn calls_are_announced(step: StepView, user_cmd: Seq<char>, path: Seq<char>)
    requires
        a_step(step, user_cmd, path),
    ensures
        step.request matches RequestView::Execute { args, .. } ==> step.events.len() > 0
            && step.events.last() == RunnerEventView::Line(
            "$ terraform "@ + joined(args, " "@),
        ),
        step.request matches RequestView::ShowPlan { path: file } ==> step.events.len() > 0
            && step.events.last() == RunnerEventView::Line("$ terraform show -json "@ + file),
{
}

/// A command is run as the user typed it: its words, in order, are the
/// arguments. The one addition is a plan file, for a `plan` that names none. An
/// empty command is not run at all.
pub proof fn commands_run_as_typed(user_cmd: Seq<char>, path: Seq<char>)
    ensures
        ({
            let words = words_of(user_cmd);
            let step = first_step(user_cmd, path);
            &&& words.len() == 0 ==> step.request is Finish && step.events == seq![
                RunnerEventView::Done {
                    exit_code: Some(1i32),
                    json_plan: None,
                    original_cmd: user_cmd,
                },
            ]
            &&& words.len() > 0 && words[0] != "apply"@ ==> step.stage is Running
            &&& words.len() > 0 && words[0] != "apply"@ && words[0] != "plan"@ ==> step.stage == (
            StageView::Running { plan_file: None })
            &&& words.len() > 0 && words[0] == "plan"@ ==> step.stage == (StageView::Running {
                plan_file: plan_file(words, path),
            })
            &&& step.stage is Running ==> {
                &&& step.events.len() == 1
                &&& step.request matches RequestView::Execute { args, forward_stdin }
                &&& forward_stdin
                &&& args.take(words.len() as int) == words
                &&& args.len() <= words.len() + 1
                &&& args.len() == words.len() + 1 ==> args.last() == "-out="@ + path
                &&& args.len() == words.len() + 1 <==> words[0] == "plan"@ && forall|i: int|
                    0 <= i < words.len() ==> (#[trigger] words[i]) != "-out"@ && !has_prefix(
                        words[i],
                        "-out="@,
                    )
            }
        }),
{
    let words = words_of(user_cmd);
    reveal_strlit("plan");
    reveal_strlit("apply");
    assert("plan"@.len() != "apply"@.len());
    let step = first_step(user_cmd, path);
    if words.len() == 0 {
        assert(step.events =~= seq![
            RunnerEventView::Done {
                exit_code: Some(1i32),
                json_plan: None,
                original_cmd: user_cmd,
            },
        ]);
    } else if step.stage is Running {
        let args = single_args(words, path);
        assert(args.take(words.len() as int) =~= words);
        if forall|i: int|
            0 <= i < words.len() ==> (#[trigger] words[i]) != "-out"@ && !has_prefix(
                words[i],
                "-out="@,
            ) {
            assert forall|i: int| 0 <= i < words.len() implies !names_output(
                #[trigger] words[i],
            ) by {}
        }
        if needs_output(words) {
            assert forall|i: int| 0 <= i < words.len() implies (#[trigger] words[i]) != "-out"@
                && !has_prefix(words[i], "-out="@) by {
                assert(!names_output(words[i]));
            }
        }
    }
}

/// An `apply` is planned first exactly where the user passed neither approval
/// nor a saved plan: every further word is an option, or `apply` again, and none
/// is `-auto-approve`.
pub proof fn bare_applies_are_planned_first(user_cmd: Seq<char>, path: Seq<char>)
    requires
        words_of(user_cmd).len() > 0,
        words_of(user_cmd)[0] == "apply"@,
    ensures
        first_step(user_cmd, path).stage is Planning <==> forall|i: int|
            1 <= i < words_of(user_cmd).len() ==> ({
                let word = #[trigger] words_of(user_cmd)[i];
                &&& word == "apply"@ || (word.len() > 0 && word[0] == '-')
                &&& word != "-auto-approve"@
                &&& !has_prefix(word, "-auto-approve="@)
            }),
        first_step(user_cmd, path).stage is Planning ==> {
            &&& first_step(user_cmd, path).request matches RequestView::Execute {
                args,
                forward_stdin,
            }
            &&& !forward_stdin
            &&& args == seq!["plan"@] + words_of(user_cmd).skip(1) + seq!["-out="@ + path]
        },
{
    reveal_strlit("-");
    reveal_strlit("apply");
    reveal_strlit("-auto-approve");
    reveal_strlit("-auto-approve=");
    let words = words_of(user_cmd);
    assert forall|w: Seq<char>| #[trigger]
        has_prefix(w, "-"@) <==> w.len() > 0 && w[0] == '-' by {
        if has_prefix(w, "-"@) {
            assert(w.subrange(0, 1)[0] == "-"@[0]);
        }
        if w.len() > 0 && w[0] == '-' {
            assert(w.subrange(0, 1) =~= "-"@);
        }
    }
    assert("apply"@ != "-auto-approve"@) by {
        assert("apply"@.len() != "-auto-approve"@.len());
    }
    assert(!bypasses(words[0]));
    if bare_apply(words) {
        assert forall|i: int| 1 <= i < words.len() implies ({
            let word = #[trigger] words[i];
            &&& word == "apply"@ || (word.len() > 0 && word[0] == '-')
            &&& word != "-auto-approve"@
            &&& !has_prefix(word, "-auto-approve="@)
        }) by {
            assert(!bypasses(words[i]));
        }
    }
    if forall|i: int|
        1 <= i < words.len() ==> ({
            let word = #[trigger] words[i];
            &&& word == "apply"@ || (word.len() > 0 && word[0] == '-')
            &&& word != "-auto-approve"@
            &&& !has_prefix(word, "-auto-approve="@)
        }) {
        assert forall|i: int| 0 <= i < words.len() implies !bypasses(#[trigger] words[i]) by {
            assert(has_prefix(words[i], "-"@) || words[i] == "apply"@);
        }
    }
}

/// The file that the words name is the one that the words behind them name, if
/// they do.
proof fn later_names_win(words: Seq<Seq<char>>, tail: Seq<Seq<char>>, from: int)
    requires
        0 <= from <= words.len(),
        words.len() > 0,
        words.last() != "-out"@,
    ensures
        named_output(words + tail, from) == later_or(
            named_output(words + tail, words.len() as int),
            named_output(words, from),
        ),
    decreases words.len() - from,
{
    let all = words + tail;
    if from < words.len() {
        assert(all[from] == words[from]);
        if words[from] == "-out"@ {
            assert(all[from + 1] == words[from + 1]);
            later_names_win(words, tail, from + 2);
        } else {
            later_names_win(words, tail, from + 1);
        }
    }
}

/// The file that the user names last is the one whose plan is read, whichever
/// way it is named and whatever comes before; other options behind it change
/// nothing. Where none is named, the run's own file is read.
pub proof fn the_named_file_is_read(
    words: Seq<Seq<char>>,
    file: Seq<char>,
    other: Seq<char>,
    path: Seq<char>,
)
    requires
        words.len() > 0,
        words[0] == "plan"@,
        words.last() != "-out"@,
        other != "-out"@,
        !has_prefix(other, "-out="@),
    ensures
        plan_file(words.push("-out="@ + file), path) == Some(file),
        plan_file(words.push("-out"@).push(file), path) == Some(file),
        plan_file(words.push(other), path) == plan_file(words, path),
        (forall|i: int|
            0 <= i < words.len() ==> (#[trigger] words[i]) != "-out"@ && !has_prefix(
                words[i],
                "-out="@,
            )) ==> plan_file(words, path) == Some(path),
{
    reveal_strlit("-out=");
    reveal_strlit("-out");
    let n = words.len() as int;
    let arg = "-out="@ + file;
    prefixes_come_first(arg, "-out="@, file);
    assert(arg.len() >= 5);
    assert(arg.skip("-out="@.len() as int) =~= file);
    let one = words + seq![arg];
    assert(words.push(arg) =~= one);
    assert(one[n] == arg && names_output(one[n]));
    assert(named_output(one, n + 1) is None);
    later_names_win(words, seq![arg], 1);
    let two = words + seq!["-out"@, file];
    assert(words.push("-out"@).push(file) =~= two);
    assert(two[n] == "-out"@ && two[n + 1] == file && names_output(two[n]));
    assert(named_output(two, n + 2) is None);
    later_names_win(words, seq!["-out"@, file], 1);
    let same = words + seq![other];
    assert(words.push(other) =~= same);
    assert(same[n] == other);
    assert(named_output(same, n + 1) is None);
    later_names_win(words, seq![other], 1);
    assert(needs_output(same) == needs_output(words)) by {
        if needs_output(words) {
            assert forall|i: int| 0 <= i < same.len() implies !names_output(#[trigger] same[i]) by {
                if i < n {
                    assert(same[i] == words[i]);
                }
            }
        }
        if needs_output(same) {
            assert forall|i: int| 0 <= i < n implies !names_output(#[trigger] words[i]) by {
                assert(same[i] == words[i]);
            }
        }
    }
    if forall|i: int|
        0 <= i < words.len() ==> (#[trigger] words[i]) != "-out"@ && !has_prefix(
            words[i],
            "-out="@,
        ) {
        assert forall|i: int| 0 <= i < words.len() implies !names_output(#[trigger] words[i]) by {
            assert(words[i] != "-out"@);
        }
    }
}

/// What the user decided first counts. Without a decision, letting go of the run
/// or cancelling it is one against the plan, and until then there is none.
pub proof fn first_decision_counts(h: RunnerHandle)
    ensures
        h.approvals@.len() > 0 ==> decision(h) == Some(h.approvals@[0]),
        decision(h) is None <==> h.approvals@.len() == 0 && !h.cancelled && !h.closed,
        h.approvals@.len() == 0 ==> decision(h) != Some(true),
{
}

/// A line for the child ends with one newline that was not there before, or
/// with the one that was.
pub proof fn sent_lines_end_once(text: Seq<char>)
    ensures
        line_with_newline(text).last() == '\n',
        line_with_newline(text.push('\n')) == text.push('\n'),
        text.len() == 0 || text.last() != '\n' ==> line_with_newline(text) == text.push('\n'),
{
}

/// Where a plan could not be shown, what terraform wrote to stderr is told.
pub proof fn show_failures_tell_the_reason(stderr: Seq<char>)
    ensures
        has_prefix(show_failure_text(stderr), "terraform show -json failed: "@),
        stderr.is_suffix_of(show_failure_text(stderr)),
        show_failure_text(stderr).len() == "terraform show -json failed: "@.len() + stderr.len(),
{
    let front = "terraform show -json failed: "@;
    prefixes_come_first(front, front, stderr);
    assert((front + stderr).skip(front.len() as int) =~= stderr);
}

/// A step is performed to the letter: the events, each with all it carries, in
/// order and no others, the request, and the stage.
pub proof fn steps_are_performed_to_the_letter(step: Step, stage: Stage, view: StepView, i: int)
    requires
        performs(step, stage, view),
    ensures
        step.events@.len() == view.events.len(),
        0 <= i < view.events.len() ==> {
            &&& step.events@[i] matches RunnerEvent::Line(line) ==> view.events[i]
                == RunnerEventView::Line(line@)
            &&& step.events@[i] matches RunnerEvent::ApplyPlanReady { json_plan } ==> view.events[i]
                == (RunnerEventView::ApplyPlanReady { json_plan: json_plan@ })
            &&& step.events@[i] matches RunnerEvent::Done { exit_code, json_plan, original_cmd }
                ==> view.events[i] == (RunnerEventView::Done {
                exit_code,
                json_plan: text_opt(json_plan),
                original_cmd: original_cmd@,
            })
        },
        step.request matches Request::Execute { args, forward_stdin } ==> view.request == (
        RequestView::Execute { args: texts(args@), forward_stdin }),
        step.request matches Request::ShowPlan { path } ==> view.request == (
        RequestView::ShowPlan { path: path@ }),
        step.request is AwaitApproval <==> view.request is AwaitApproval,
        step.request is Finish <==> view.request is Finish,
        stage matches Stage::Running { plan_file } ==> view.stage == (StageView::Running {
            plan_file: text_opt(plan_file),
        }),
        stage matches Stage::Capturing { exit_code } ==> view.stage == (StageView::Capturing {
            exit_code,
        }),
        stage is Planning <==> view.stage is Planning,
        stage is Showing <==> view.stage is Showing,
        stage is Confirming <==> view.stage is Confirming,
        stage is Applying <==> view.stage is Applying,
        stage is Finished <==> view.stage is Finished,
{
    assert(event_views(step.events@).len() == step.events@.len());
    if 0 <= i < view.events.len() {
        assert(event_views(step.events@)[i] == step.events@[i]@);
    }
}

/// What passes between the two sides of a run is kept apart: events, lines for
/// the child and decisions do not touch each other, nor the child's number.
pub proof fn handles_keep_the_rest(a: RunnerHandle, b: RunnerHandle)
    ensures
        same_but_events(a, b) ==> a.stdin_lines == b.stdin_lines && a.stdin_closed
            == b.stdin_closed && a.pending == b.pending && a.approvals == b.approvals
            && a.cancelled == b.cancelled,
        same_but_lines(a, b) ==> a.events == b.events && a.pending == b.pending && a.approvals
            == b.approvals && a.cancelled == b.cancelled,
        same_but_decisions(a, b) ==> a.events == b.events && a.stdin_lines == b.stdin_lines
            && a.stdin_closed == b.stdin_closed,
        same_but_events(a, b) || same_but_lines(a, b) || same_but_decisions(a, b) ==> a.pid == b.pid
            && a.closed == b.closed,
{
}

} // verus!
