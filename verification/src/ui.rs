//! State of the single screen: the plan tree and its cursor, the command bar,
//! the output log, and what keys and events do to them.
//!
//! Modes: `Normal` (j/k nav, h/l collapse-expand, `:` enters Command,
//! `?` toggles help, q/Esc quit) and `Command` (type freeform terraform
//! args, Enter runs `terraform <input>`, Esc cancels).

use std::collections::HashSet;
use vstd::prelude::*;

use crate::cli::Args;
use crate::digest::{budgeted_digest, digest_with_budget};
use crate::groups::{all_changes, group_plan, group_views, grouped, Group, GroupView};
use crate::llm::{disabled_reason, disabled_text, Summary, SummaryView};
use crate::masking::{digests_disclose_no_masked_value, plans_alike};
use crate::plan::{
    clone_text_opt, clone_texts, supported, text_opt, three_versions_are_supported, Plan,
    PlanError, PlanView,
};
use crate::runner::{RunnerEvent, RunnerEventView};
use crate::text::{
    concat2, from_chars, has_prefix, prefixes_come_first, same, signed_decimal,
    signed_decimal_text, starts_with, texts, to_chars, trim, trim_end, trim_start, trimmed,
    white_space,
};
use crate::tree::{
    build_rows, collapsed_tree_shows_only_groups, contains_place,
    expanding_a_change_keeps_other_rows, expanding_a_group_keeps_other_rows, group_row, indexable,
    row_views, rows_name_what_they_show, tree_rows, Row, RowKind, RowView,
};
use crate::workspace::{WorkspaceState, WorkspaceView};

verus! {

/// How many lines the output log keeps.
pub const MAX_OUTPUT_LINES: usize = 2000;

/// What the screen starts with.
pub struct InitialState {
    pub plan: Option<Plan>,
    pub groups: Vec<Group>,
    pub summary: Summary,
    pub show_noops: bool,
    pub no_ai: bool,
    pub model: String,
}

/// What keys do: move about, or type a command.
#[derive(Debug, Clone, Copy, PartialEq, Eq, Structural)]
pub enum Mode {
    Normal,
    Command,
}

/// Whether a command runs.
#[derive(Debug, Clone, Copy, PartialEq, Eq, Structural)]
pub enum RunStatus {
    Idle,
    Running,
}

/// The state of the screen.
pub struct App {
    plan: Option<Plan>,
    groups: Vec<Group>,
    summary: Summary,
    expanded_groups: HashSet<usize>,
    expanded_resources: Vec<(usize, usize)>,
    selected: Option<usize>,
    rows: Vec<Row>,
    show_help: bool,
    show_noops: bool,
    no_ai: bool,
    model: String,
    mode: Mode,
    cmd_buf: String,
    output: Vec<String>,
    status: RunStatus,
    last_cmd: Option<String>,
    cwd: String,
    workspaces: WorkspaceState,
    awaiting_apply: bool,
}

/// What an [`App`] stands for.
#[verifier::ext_equal]
pub struct AppView {
    pub plan: Option<PlanView>,
    pub groups: Seq<GroupView>,
    pub summary: SummaryView,
    pub expanded_groups: Set<usize>,
    pub expanded_resources: Set<(usize, usize)>,
    /// The row that the cursor is on.
    pub selected: Option<usize>,
    pub rows: Seq<RowView>,
    pub show_help: bool,
    pub show_noops: bool,
    pub no_ai: bool,
    pub model: Seq<char>,
    pub mode: Mode,
    pub cmd_buf: Seq<char>,
    pub output: Seq<Seq<char>>,
    pub status: RunStatus,
    pub last_cmd: Option<Seq<char>>,
    pub cwd: Seq<char>,
    pub workspaces: WorkspaceView,
    /// Whether a planned apply waits for the user's decision.
    pub awaiting_apply: bool,
}

/// The plan in an optional plan.
pub open spec fn plan_opt(plan: Option<Plan>) -> Option<PlanView> {
    match plan {
        Some(p) => Some(p@),
        None => None,
    }
}

impl View for App {
    type V = AppView;

    closed spec fn view(&self) -> AppView {
        AppView {
            plan: plan_opt(self.plan),
            groups: group_views(self.groups@),
            summary: self.summary@,
            expanded_groups: self.expanded_groups@,
            expanded_resources: self.expanded_resources@.to_set(),
            selected: self.selected,
            rows: row_views(self.rows@),
            show_help: self.show_help,
            show_noops: self.show_noops,
            no_ai: self.no_ai,
            model: self.model@,
            mode: self.mode,
            cmd_buf: self.cmd_buf@,
            output: texts(self.output@),
            status: self.status,
            last_cmd: text_opt(self.last_cmd),
            cwd: self.cwd@,
            workspaces: self.workspaces@,
            awaiting_apply: self.awaiting_apply,
        }
    }
}

// ---------------------------------------------------------------------------
// What holds of every state
// ---------------------------------------------------------------------------

/// What holds of every state: the rows are those of the tree, the cursor is on
/// one of them if there are any, and the log is not longer than it may be.
pub open spec fn valid(s: AppView) -> bool {
    &&& indexable(s.groups)
    &&& s.rows == tree_rows(s.groups, s.expanded_groups, s.expanded_resources)
    &&& s.rows.len() > 0 ==> (s.selected matches Some(i) && i < s.rows.len())
    &&& s.output.len() <= MAX_OUTPUT_LINES
}

/// Vectors are indexed by machine integers.
proof fn groups_are_indexable(groups: Vec<Group>)
    ensures
        indexable(group_views(groups@)),
{
    assert(groups.len() == groups@.len());
    assert forall|gi: int| 0 <= gi < groups@.len() implies (#[trigger] group_views(
        groups@,
    )[gi]).changes.len() <= usize::MAX by {
        let changes = groups@[gi].changes;
        assert(changes.len() == changes@.len());
    }
}

// ---------------------------------------------------------------------------
// The tree
// ---------------------------------------------------------------------------

/// The state with the rows of its tree.
pub open spec fn rebuilt(s: AppView) -> AppView {
    AppView { rows: tree_rows(s.groups, s.expanded_groups, s.expanded_resources), ..s }
}

/// The state with the cursor on the first row, if there is one.
pub open spec fn at_top(s: AppView) -> AppView {
    if s.rows.len() > 0 {
        AppView { selected: Some(0usize), ..s }
    } else {
        s
    }
}

/// What the row under the cursor shows.
pub open spec fn selected_kind(s: AppView) -> Option<RowKind> {
    match s.selected {
        Some(i) => if i < s.rows.len() {
            Some(s.rows[i as int].kind)
        } else {
            None
        },
        None => None,
    }
}

/// The number between `low` and `high` that is nearest to `n`.
pub open spec fn clamped(n: int, low: int, high: int) -> int {
    if n < low {
        low
    } else if n > high {
        high
    } else {
        n
    }
}

/// The cursor moved by `delta` rows, as far as there are any.
pub open spec fn moved(s: AppView, delta: int) -> AppView {
    if s.rows.len() == 0 {
        s
    } else {
        let cur = match s.selected {
            Some(i) => i as int,
            None => 0,
        };
        AppView { selected: Some(clamped(cur + delta, 0, s.rows.len() - 1) as usize), ..s }
    }
}

/// The group or change under the cursor expanded.
pub open spec fn expanded(s: AppView) -> AppView {
    match selected_kind(s) {
        Some(RowKind::Group { group_idx }) => rebuilt(
            AppView { expanded_groups: s.expanded_groups.insert(group_idx), ..s },
        ),
        Some(RowKind::Resource { group_idx, resource_idx }) => rebuilt(
            AppView {
                expanded_resources: s.expanded_resources.insert((group_idx, resource_idx)),
                ..s
            },
        ),
        _ => s,
    }
}

/// The state with the cursor on the last row where it was beyond it.
pub open spec fn drawn_back(s: AppView) -> AppView {
    match s.selected {
        Some(i) => if i >= s.rows.len() && s.rows.len() > 0 {
            AppView { selected: Some((s.rows.len() - 1) as usize), ..s }
        } else {
            s
        },
        None => s,
    }
}

/// The group or change under the cursor collapsed; on an attribute, the change
/// it belongs to.
pub open spec fn collapsed(s: AppView) -> AppView {
    match selected_kind(s) {
        Some(RowKind::Group { group_idx }) => drawn_back(
            rebuilt(AppView { expanded_groups: s.expanded_groups.remove(group_idx), ..s }),
        ),
        Some(RowKind::Resource { group_idx, resource_idx }) => drawn_back(
            rebuilt(
                AppView {
                    expanded_resources: s.expanded_resources.remove((group_idx, resource_idx)),
                    ..s
                },
            ),
        ),
        Some(RowKind::Attr { group_idx, resource_idx, .. }) => drawn_back(
            rebuilt(
                AppView {
                    expanded_resources: s.expanded_resources.remove((group_idx, resource_idx)),
                    ..s
                },
            ),
        ),
        None => s,
    }
}

/// Expanding adds rows below the cursor: the rows down to it stay, and so do
/// those below, in their order.
pub proof fn expanding_adds_below_the_cursor(s: AppView)
    requires
        valid(s),
    ensures
        s.rows.len() <= expanded(s).rows.len(),
        s.selected matches Some(i) ==> i < s.rows.len() ==> {
            let below = s.rows.len() - (i + 1);
            let more = expanded(s).rows;
            &&& more.take(i + 1) == s.rows.take(i + 1)
            &&& more.skip(more.len() - below) == s.rows.skip(i + 1)
        },
{
    match s.selected {
        Some(i) if i < s.rows.len() => {
            let g = s.expanded_groups;
            let r = s.expanded_resources;
            rows_name_what_they_show(s.groups, g, r, i as int);
            let more = expanded(s).rows;
            match s.rows[i as int].kind {
                RowKind::Group { group_idx } => {
                    if g.contains(group_idx) {
                        assert(g.insert(group_idx) =~= g);
                    } else {
                        expanding_a_group_keeps_other_rows(s.groups, g, r, group_idx);
                    }
                },
                RowKind::Resource { group_idx, resource_idx } => {
                    if r.contains((group_idx, resource_idx)) {
                        assert(r.insert((group_idx, resource_idx)) =~= r);
                    } else {
                        expanding_a_change_keeps_other_rows(s.groups, g, r, group_idx, resource_idx);
                    }
                },
                RowKind::Attr { .. } => {},
            }
            let below = s.rows.len() - (i + 1);
            assert(more.take(i + 1) =~= s.rows.take(i + 1));
            assert(more.skip(more.len() - below) =~= s.rows.skip(i + 1));
        },
        _ => {},
    }
}

/// Collapsing undoes expanding: after both, what was not expanded shows the
/// same rows again, with the cursor where it was.
pub proof fn collapsing_undoes_expanding(s: AppView)
    requires
        valid(s),
        match selected_kind(s) {
            Some(RowKind::Group { group_idx }) => !s.expanded_groups.contains(group_idx),
            Some(RowKind::Resource { group_idx, resource_idx }) => !s.expanded_resources.contains(
                (group_idx, resource_idx),
            ),
            _ => false,
        },
    ensures
        collapsed(expanded(s)) == s,
{
    expanding_adds_below_the_cursor(s);
    let e = expanded(s);
    let i = s.selected->0 as int;
    assert(e.rows.take(i + 1)[i] == s.rows.take(i + 1)[i]);
    match s.rows[i].kind {
        RowKind::Group { group_idx } => {
            assert(s.expanded_groups.insert(group_idx).remove(group_idx) =~= s.expanded_groups);
        },
        RowKind::Resource { group_idx, resource_idx } => {
            let place = (group_idx, resource_idx);
            assert(s.expanded_resources.insert(place).remove(place) =~= s.expanded_resources);
        },
        RowKind::Attr { .. } => {},
    }
    assert(collapsed(e) =~= s);
}

// ---------------------------------------------------------------------------
// The output log
// ---------------------------------------------------------------------------

/// A log with a line more; the oldest lines go where it gets too long.
pub open spec fn logged(output: Seq<Seq<char>>, line: Seq<char>) -> Seq<Seq<char>> {
    let all = output.push(line);
    if all.len() > MAX_OUTPUT_LINES {
        all.skip(all.len() - MAX_OUTPUT_LINES)
    } else {
        all
    }
}

/// The state with a line more in its log.
pub open spec fn with_output(s: AppView, line: Seq<char>) -> AppView {
    AppView { output: logged(s.output, line), ..s }
}

/// The state with more lines in its log.
pub open spec fn with_lines(s: AppView, lines: Seq<Seq<char>>) -> AppView
    decreases lines.len(),
{
    if lines.len() == 0 {
        s
    } else {
        with_output(with_lines(s, lines.drop_last()), lines.last())
    }
}

/// The log ends with the lines that were added last, as many as it keeps.
pub proof fn log_ends_with_what_was_added(s: AppView, lines: Seq<Seq<char>>)
    ensures
        with_lines(s, lines).output == (if (s.output + lines).len() <= MAX_OUTPUT_LINES
            || lines.len() == 0 {
            s.output + lines
        } else {
            (s.output + lines).skip((s.output + lines).len() - MAX_OUTPUT_LINES)
        }),
    decreases lines.len(),
{
    if lines.len() == 0 {
        assert(s.output + lines =~= s.output);
    } else {
        log_ends_with_what_was_added(s, lines.drop_last());
        assert((s.output + lines.drop_last()).push(lines.last()) =~= s.output + lines);
    }
}

impl App {
    // -----------------------------------------------------------------------
    // Building
    // -----------------------------------------------------------------------

    /// The screen at the start, with all groups collapsed and the cursor at the
    /// top. `cwd` is the working directory, if it is known.
    pub fn new(init: InitialState, cwd: Option<String>, workspaces: WorkspaceState) -> (r: App)
        ensures
            valid(r@),
            r@ == at_top(
                rebuilt(
                    AppView {
                        plan: plan_opt(init.plan),
                        groups: group_views(init.groups@),
                        summary: init.summary@,
                        expanded_groups: Set::empty(),
                        expanded_resources: Set::empty(),
                        selected: None,
                        rows: Seq::empty(),
                        show_help: false,
                        show_noops: init.show_noops,
                        no_ai: init.no_ai,
                        model: init.model@,
                        mode: Mode::Normal,
                        cmd_buf: Seq::empty(),
                        output: Seq::empty(),
                        status: RunStatus::Idle,
                        last_cmd: None,
                        cwd: match cwd {
                            Some(path) => path@,
                            None => "?"@,
                        },
                        workspaces: workspaces@,
                        awaiting_apply: false,
                    },
                ),
            ),
    {
        let mut s = App {
            plan: init.plan,
            groups: init.groups,
            summary: init.summary,
            expanded_groups: HashSet::new(),
            expanded_resources: Vec::new(),
            selected: None,
            rows: Vec::new(),
            show_help: false,
            show_noops: init.show_noops,
            no_ai: init.no_ai,
            model: init.model,
            mode: Mode::Normal,
            cmd_buf: String::new(),
            output: Vec::new(),
            status: RunStatus::Idle,
            last_cmd: None,
            cwd: match cwd {
                Some(path) => path,
                None => "?".to_owned(),
            },
            workspaces,
            awaiting_apply: false,
        };
        assert(s@.expanded_resources =~= Set::empty());
        assert(s@.rows =~= Seq::empty());
        assert(s@.output =~= Seq::empty());
        proof {
            groups_are_indexable(s.groups);
        }
        s.rebuild_rows();
        if s.rows.len() > 0 {
            s.selected = Some(0);
        }
        s
    }

    fn rebuild_rows(&mut self)
        ensures
            final(self)@ == rebuilt(old(self)@),
    {
        self.rows = build_rows(
            self.groups.as_slice(),
            &self.expanded_groups,
            &self.expanded_resources,
        );
    }

    // -----------------------------------------------------------------------
    // Moving about
    // -----------------------------------------------------------------------

    /// Moves the cursor by `delta` rows, as far as there are any.
    pub fn move_cursor(&mut self, delta: isize)
        requires
            valid(old(self)@),
        ensures
            valid(final(self)@),
            final(self)@ == moved(old(self)@, delta as int),
    {
        if self.rows.len() == 0 {
            return;
        }
        let last: i128 = self.rows.len() as i128 - 1;
        let cur: i128 = match self.selected {
            Some(i) => i as i128,
            None => 0,
        };
        let next: i128 = cur + delta as i128;
        let kept: i128 = if next < 0 {
            0
        } else if next > last {
            last
        } else {
            next
        };
        self.selected = Some(kept as usize);
    }

    /// What the row under the cursor shows.
    fn selection(&self) -> (r: Option<RowKind>)
        ensures
            r == selected_kind(self@),
    {
        match self.selected {
            Some(i) => if i < self.rows.len() {
                Some(self.rows[i].kind)
            } else {
                None
            },
            None => None,
        }
    }

    /// Expands the group or change under the cursor.
    pub fn expand(&mut self)
        requires
            valid(old(self)@),
        ensures
            valid(final(self)@),
            final(self)@ == expanded(old(self)@),
    {
        proof {
            expanding_adds_below_the_cursor(self@);
        }
        match self.selection() {
            Some(RowKind::Group { group_idx }) => {
                self.expanded_groups.insert(group_idx);
                self.rebuild_rows();
            },
            Some(RowKind::Resource { group_idx, resource_idx }) => {
                let ghost before = self.expanded_resources@;
                if !contains_place(&self.expanded_resources, group_idx, resource_idx) {
                    self.expanded_resources.push((group_idx, resource_idx));
                }
                assert(self.expanded_resources@.to_set() =~= before.to_set().insert(
                    (group_idx, resource_idx),
                )) by {
                    added_place(before, (group_idx, resource_idx));
                }
                self.rebuild_rows();
            },
            _ => {},
        }
    }

    /// Collapses the group or change under the cursor; on an attribute, the
    /// change it belongs to.
    pub fn collapse(&mut self)
        requires
            valid(old(self)@),
        ensures
            valid(final(self)@),
            final(self)@ == collapsed(old(self)@),
    {
        match self.selection() {
            Some(RowKind::Group { group_idx }) => {
                self.expanded_groups.remove(&group_idx);
            },
            Some(RowKind::Resource { group_idx, resource_idx }) => {
                self.expanded_resources = without_place(
                    &self.expanded_resources,
                    group_idx,
                    resource_idx,
                );
            },
            Some(RowKind::Attr { group_idx, resource_idx, .. }) => {
                self.expanded_resources = without_place(
                    &self.expanded_resources,
                    group_idx,
                    resource_idx,
                );
            },
            None => {
                return;
            },
        }
        self.settle();
    }

    /// Rebuilds the rows, with the cursor on the last one where it would be
    /// beyond it.
    fn settle(&mut self)
        requires
            indexable(old(self)@.groups),
            old(self)@.selected is Some,
            old(self)@.output.len() <= MAX_OUTPUT_LINES,
        ensures
            valid(final(self)@),
            final(self)@ == drawn_back(rebuilt(old(self)@)),
    {
        self.rebuild_rows();
        if let Some(sel) = self.selected {
            if sel >= self.rows.len() && self.rows.len() > 0 {
                self.selected = Some(self.rows.len() - 1);
            }
        }
    }

    // -----------------------------------------------------------------------
    // The output log
    // -----------------------------------------------------------------------

    /// Adds a line to the output log.
    pub fn push_output(&mut self, line: String)
        requires
            valid(old(self)@),
        ensures
            valid(final(self)@),
            final(self)@ == with_output(old(self)@, line@),
    {
        self.output.push(line);
        if self.output.len() > MAX_OUTPUT_LINES {
            let excess = self.output.len() - MAX_OUTPUT_LINES;
            let kept = self.output.split_off(excess);
            self.output = kept;
        }
        assert(texts(self.output@) =~= logged(texts(old(self).output@), line@));
    }
}

proof fn added_place(places: Seq<(usize, usize)>, place: (usize, usize))
    ensures
        places.push(place).to_set() == places.to_set().insert(place),
        places.contains(place) ==> places.to_set() == places.to_set().insert(place),
{
    assert forall|p: (usize, usize)| #[trigger]
        places.push(place).to_set().contains(p) == places.to_set().insert(place).contains(p) by {
        if places.contains(p) {
            let k = places.index_of(p);
            assert(places.push(place)[k] == p);
        }
        if p == place {
            assert(places.push(place)[places.len() as int] == p);
        }
    }
    assert(places.push(place).to_set() =~= places.to_set().insert(place));
    if places.contains(place) {
        assert(places.to_set() =~= places.to_set().insert(place));
    }
}

/// The places without one.
fn without_place(places: &Vec<(usize, usize)>, gi: usize, ri: usize) -> (r: Vec<(usize, usize)>)
    ensures
        r@.to_set() == places@.to_set().remove((gi, ri)),
{
    let mut out: Vec<(usize, usize)> = Vec::new();
    let mut i: usize = 0;
    assert(out@.to_set() =~= places@.take(0).to_set().remove((gi, ri)));
    while i < places.len()
        invariant
            i <= places@.len(),
            out@.to_set() == places@.take(i as int).to_set().remove((gi, ri)),
        decreases places@.len() - i,
    {
        let ghost front = places@.take(i as int);
        let ghost before = out@;
        let place = places[i];
        proof {
            assert(places@.take(i + 1) =~= front.push(place));
            added_place(front, place);
            added_place(before, place);
        }
        if place.0 != gi || place.1 != ri {
            out.push(place);
        }
        assert(out@.to_set() =~= places@.take(i + 1).to_set().remove((gi, ri)));
        i += 1;
    }
    assert(places@.take(i as int) =~= places@);
    out
}

impl App {
    // -----------------------------------------------------------------------
    // What the screen shows
    // -----------------------------------------------------------------------

    pub fn plan(&self) -> (r: &Option<Plan>)
        ensures
            plan_opt(*r) == self@.plan,
    {
        &self.plan
    }

    pub fn groups(&self) -> (r: &Vec<Group>)
        ensures
            group_views(r@) == self@.groups,
    {
        &self.groups
    }

    pub fn summary(&self) -> (r: &Summary)
        ensures
            r@ == self@.summary,
    {
        &self.summary
    }

    pub fn selected(&self) -> (r: Option<usize>)
        ensures
            r == self@.selected,
    {
        self.selected
    }

    pub fn rows(&self) -> (r: &Vec<Row>)
        ensures
            row_views(r@) == self@.rows,
    {
        &self.rows
    }

    pub fn show_help(&self) -> (r: bool)
        ensures
            r == self@.show_help,
    {
        self.show_help
    }

    pub fn no_ai(&self) -> (r: bool)
        ensures
            r == self@.no_ai,
    {
        self.no_ai
    }

    pub fn model(&self) -> (r: &str)
        ensures
            r@ == self@.model,
    {
        self.model.as_str()
    }

    pub fn mode(&self) -> (r: Mode)
        ensures
            r == self@.mode,
    {
        self.mode
    }

    pub fn cmd_buf(&self) -> (r: &str)
        ensures
            r@ == self@.cmd_buf,
    {
        self.cmd_buf.as_str()
    }

    pub fn output(&self) -> (r: &Vec<String>)
        ensures
            texts(r@) == self@.output,
    {
        &self.output
    }

    pub fn status(&self) -> (r: RunStatus)
        ensures
            r == self@.status,
    {
        self.status
    }

    pub fn last_cmd(&self) -> (r: &Option<String>)
        ensures
            text_opt(*r) == self@.last_cmd,
    {
        &self.last_cmd
    }

    pub fn cwd(&self) -> (r: &str)
        ensures
            r@ == self@.cwd,
    {
        self.cwd.as_str()
    }

    pub fn workspaces(&self) -> (r: &WorkspaceState)
        ensures
            r@ == self@.workspaces,
    {
        &self.workspaces
    }

    pub fn awaiting_apply(&self) -> (r: bool)
        ensures
            r == self@.awaiting_apply,
    {
        self.awaiting_apply
    }
}

// ---------------------------------------------------------------------------
// Commands
// ---------------------------------------------------------------------------

/// What the screen asks for.
pub enum Effect {
    /// Nothing: the screen has changed itself.
    Nothing,
    /// Leave the screen.
    Quit,
    /// Read the workspaces, and show them.
    ListWorkspaces,
    /// Run this command, in place of the one that runs.
    Spawn(String),
    /// Tell the running command that its plan is approved.
    Approve,
    /// Tell the running command that its plan is not approved.
    Cancel,
}

/// What an [`Effect`] stands for.
pub enum EffectView {
    Nothing,
    Quit,
    ListWorkspaces,
    Spawn(Seq<char>),
    Approve,
    Cancel,
}

impl View for Effect {
    type V = EffectView;

    open spec fn view(&self) -> EffectView {
        match self {
            Effect::Nothing => EffectView::Nothing,
            Effect::Quit => EffectView::Quit,
            Effect::ListWorkspaces => EffectView::ListWorkspaces,
            Effect::Spawn(command) => EffectView::Spawn(command@),
            Effect::Approve => EffectView::Approve,
            Effect::Cancel => EffectView::Cancel,
        }
    }
}

/// The command that an input stands for: `ws` is short for `workspace`.
pub open spec fn normalized(cmd: Seq<char>) -> Seq<char> {
    if has_prefix(cmd, "ws "@) {
        "workspace "@ + cmd.skip("ws "@.len() as int)
    } else if cmd == "ws"@ {
        "workspace"@
    } else {
        cmd
    }
}

/// What the input in the command bar asks for. While a planned apply waits for
/// a decision, `y` and `n` are that decision; `workspace` alone lists the
/// workspaces; all else is a command to run.
pub open spec fn submission(s: AppView) -> EffectView {
    let cmd = trimmed(s.cmd_buf);
    if cmd.len() == 0 {
        EffectView::Nothing
    } else if s.awaiting_apply && cmd == "y"@ {
        EffectView::Approve
    } else if s.awaiting_apply && cmd == "n"@ {
        EffectView::Cancel
    } else if normalized(cmd) == "workspace"@ {
        EffectView::ListWorkspaces
    } else {
        EffectView::Spawn(normalized(cmd))
    }
}

/// The lines that announce a command.
pub open spec fn command_heading(command: Seq<char>) -> Seq<Seq<char>> {
    seq![""@, "──── :"@ + command + " ────"@]
}

/// The state after the input in the command bar was submitted.
pub open spec fn submitted(s: AppView) -> AppView {
    let cmd = trimmed(s.cmd_buf);
    let t = AppView { cmd_buf: Seq::empty(), mode: Mode::Normal, ..s };
    match submission(s) {
        EffectView::Spawn(command) => AppView {
            status: RunStatus::Running,
            last_cmd: Some(cmd),
            awaiting_apply: false,
            ..with_lines(t, command_heading(command))
        },
        EffectView::ListWorkspaces => AppView { last_cmd: Some(cmd), ..t },
        EffectView::Approve | EffectView::Cancel => AppView {
            last_cmd: Some(cmd),
            awaiting_apply: false,
            ..t
        },
        EffectView::Nothing | EffectView::Quit => t,
    }
}

/// The lines that list the workspaces, the current one marked.
pub open spec fn picker_lines(workspaces: WorkspaceView) -> Seq<Seq<char>> {
    let heading = seq![""@, "──── workspaces ────"@];
    if workspaces.all.len() == 0 {
        heading.push("(none found — run :init or check you are inside a terraform project)"@)
    } else {
        (heading + workspaces.all.map_values(
            |name: Seq<char>| picker_line(name, workspaces.current),
        )).push("switch with :workspace select <name>  (or :workspace new <name>)"@)
    }
}

/// A workspace in the list.
pub open spec fn picker_line(name: Seq<char>, current: Option<Seq<char>>) -> Seq<char> {
    if current == Some(name) {
        "* "@ + name
    } else {
        "  "@ + name
    }
}

/// The command that an input stands for.
fn normalize(cmd: &str) -> (r: String)
    ensures
        r@ == normalized(cmd@),
{
    if starts_with(cmd, "ws ") {
        proof {
            reveal_strlit("ws ");
        }
        let chars = to_chars(cmd);
        let rest = from_chars(&chars, 3, chars.len());
        assert(rest@ =~= cmd@.skip("ws "@.len() as int));
        concat2("workspace ", rest.as_str())
    } else if same(cmd, "ws") {
        "workspace".to_owned()
    } else {
        cmd.to_owned()
    }
}

/// The lines of a log, one more.
proof fn one_line_more(s: AppView, lines: Seq<Seq<char>>, line: Seq<char>)
    ensures
        with_lines(s, lines.push(line)) == with_output(with_lines(s, lines), line),
{
    assert(lines.push(line).drop_last() =~= lines);
}

impl App {
    /// Adds a heading of two lines to the output log.
    fn push_heading(&mut self, first: String, second: String)
        requires
            valid(old(self)@),
        ensures
            valid(final(self)@),
            final(self)@ == with_lines(old(self)@, seq![first@, second@]),
    {
        proof {
            let none = Seq::<Seq<char>>::empty();
            one_line_more(self@, none, first@);
            one_line_more(self@, none.push(first@), second@);
            assert(none.push(first@).push(second@) =~= seq![first@, second@]);
        }
        self.push_output(first);
        self.push_output(second);
    }

    /// Submits the input in the command bar.
    pub fn submit_command(&mut self) -> (r: Effect)
        requires
            valid(old(self)@),
        ensures
            valid(final(self)@),
            final(self)@ == submitted(old(self)@),
            r@ == submission(old(self)@),
    {
        let cmd = trim(self.cmd_buf.as_str());
        self.cmd_buf = String::new();
        self.mode = Mode::Normal;
        if cmd.as_str().is_empty() {
            return Effect::Nothing;
        }
        if self.awaiting_apply && same(cmd.as_str(), "y") {
            self.awaiting_apply = false;
            self.last_cmd = Some(cmd);
            return Effect::Approve;
        }
        if self.awaiting_apply && same(cmd.as_str(), "n") {
            self.awaiting_apply = false;
            self.last_cmd = Some(cmd);
            return Effect::Cancel;
        }
        let command = normalize(cmd.as_str());
        if same(command.as_str(), "workspace") {
            self.last_cmd = Some(cmd);
            return Effect::ListWorkspaces;
        }
        let mut heading = "──── :".to_owned();
        heading.append(command.as_str());
        heading.append(" ────");
        self.push_heading("".to_owned(), heading);
        self.status = RunStatus::Running;
        self.last_cmd = Some(cmd);
        self.awaiting_apply = false;
        Effect::Spawn(command)
    }

    /// Shows the workspaces that were just read.
    pub fn show_workspace_picker(&mut self, workspaces: WorkspaceState)
        requires
            valid(old(self)@),
        ensures
            valid(final(self)@),
            final(self)@ == with_lines(
                (AppView { workspaces: workspaces@, ..old(self)@ }),
                picker_lines(workspaces@),
            ),
    {
        let names = clone_texts(&workspaces.all);
        let current = clone_text_opt(&workspaces.current);
        self.workspaces = workspaces;
        let ghost start = self@;
        let ghost heading = seq![""@, "──── workspaces ────"@];
        self.push_heading("".to_owned(), "──── workspaces ────".to_owned());
        if names.len() == 0 {
            proof {
                one_line_more(
                    start,
                    heading,
                    "(none found — run :init or check you are inside a terraform project)"@,
                );
            }
            self.push_output(
                "(none found — run :init or check you are inside a terraform project)".to_owned(),
            );
            return;
        }
        let ghost shown = texts(names@).map_values(
            |name: Seq<char>| picker_line(name, text_opt(current)),
        );
        let mut i: usize = 0;
        assert(heading + shown.take(0) =~= heading);
        while i < names.len()
            invariant
                i <= names@.len(),
                valid(self@),
                shown == texts(names@).map_values(
                    |name: Seq<char>| picker_line(name, text_opt(current)),
                ),
                self@ == with_lines(start, heading + shown.take(i as int)),
            decreases names@.len() - i,
        {
            let name = names[i].as_str();
            let marked = match &current {
                Some(c) => same(c.as_str(), name),
                None => false,
            };
            let line = if marked {
                concat2("* ", name)
            } else {
                concat2("  ", name)
            };
            proof {
                assert(texts(names@)[i as int] == name@);
                assert(line@ == shown[i as int]);
                one_line_more(start, heading + shown.take(i as int), line@);
                assert((heading + shown.take(i as int)).push(line@) =~= heading + shown.take(
                    i + 1,
                ));
            }
            self.push_output(line);
            i += 1;
        }
        proof {
            assert(shown.take(i as int) =~= shown);
            one_line_more(
                start,
                heading + shown,
                "switch with :workspace select <name>  (or :workspace new <name>)"@,
            );
        }
        self.push_output(
            "switch with :workspace select <name>  (or :workspace new <name>)".to_owned(),
        );
    }

    /// Takes note of the workspaces that were just read.
    pub fn set_workspaces(&mut self, workspaces: WorkspaceState)
        requires
            valid(old(self)@),
        ensures
            valid(final(self)@),
            final(self)@ == (AppView { workspaces: workspaces@, ..old(self)@ }),
    {
        self.workspaces = workspaces;
    }
}

/// A decision on a planned apply is asked for once: it is taken only while one
/// is awaited, and then none is awaited any more.
pub proof fn decisions_are_taken_once(s: AppView)
    ensures
        (submission(s) is Approve || submission(s) is Cancel) ==> s.awaiting_apply && !submitted(
            s,
        ).awaiting_apply,
        submission(s) is Approve <==> s.awaiting_apply && trimmed(s.cmd_buf) == "y"@,
{
    reveal_strlit("y");
    reveal_strlit("n");
}

// ---------------------------------------------------------------------------
// Events of a run
// ---------------------------------------------------------------------------

/// What an event asks for beyond the screen, in this order.
pub struct FollowUp {
    /// Let go of the run: it is over.
    pub release_runner: bool,
    /// Read the workspaces again.
    pub refresh_workspaces: bool,
    /// Decode this plan, and load it.
    pub plan_json: Option<String>,
    /// Drop the plan: an apply ended with success.
    pub clear_plan: bool,
}

/// What a [`FollowUp`] stands for.
pub struct FollowUpView {
    pub release_runner: bool,
    pub refresh_workspaces: bool,
    pub plan_json: Option<Seq<char>>,
    pub clear_plan: bool,
}

impl View for FollowUp {
    type V = FollowUpView;

    open spec fn view(&self) -> FollowUpView {
        FollowUpView {
            release_runner: self.release_runner,
            refresh_workspaces: self.refresh_workspaces,
            plan_json: text_opt(self.plan_json),
            clear_plan: self.clear_plan,
        }
    }
}

/// The line that tells how a command ended.
pub open spec fn done_line(exit_code: Option<i32>) -> Seq<char> {
    "── done: exit "@ + (match exit_code {
        Some(code) => signed_decimal(code as int),
        None => "signal"@,
    }) + " ──"@
}

/// The command bar open and empty.
pub open spec fn prompting(s: AppView) -> AppView {
    AppView { mode: Mode::Command, cmd_buf: Seq::empty(), ..s }
}

/// The state after an event. A plan that awaits approval opens the command bar,
/// unless the user is typing there already.
pub open spec fn notified(s: AppView, event: RunnerEventView) -> AppView {
    match event {
        RunnerEventView::Line(line) => with_output(s, line),
        RunnerEventView::ApplyPlanReady { .. } => {
            let t = AppView { awaiting_apply: true, ..s };
            if s.mode is Normal {
                prompting(t)
            } else {
                t
            }
        },
        RunnerEventView::Done { exit_code, .. } => AppView {
            status: RunStatus::Idle,
            awaiting_apply: false,
            ..with_output(s, done_line(exit_code))
        },
    }
}

/// What an event asks for: a plan is loaded; the workspaces are read again
/// after a command that affects them; an apply that ended with success drops
/// the plan.
pub open spec fn follow_up(event: RunnerEventView) -> FollowUpView {
    match event {
        RunnerEventView::Line(_) => FollowUpView {
            release_runner: false,
            refresh_workspaces: false,
            plan_json: None,
            clear_plan: false,
        },
        RunnerEventView::ApplyPlanReady { json_plan } => FollowUpView {
            release_runner: false,
            refresh_workspaces: false,
            plan_json: Some(json_plan),
            clear_plan: false,
        },
        RunnerEventView::Done { exit_code, json_plan, original_cmd } => FollowUpView {
            release_runner: true,
            refresh_workspaces: has_prefix(original_cmd, "workspace"@) || has_prefix(
                original_cmd,
                "init"@,
            ),
            plan_json: json_plan,
            clear_plan: has_prefix(original_cmd, "apply"@) && exit_code == Some(0i32),
        },
    }
}

/// The state after an apply ended with success.
pub open spec fn cleared(s: AppView) -> AppView {
    AppView {
        plan: None,
        groups: Seq::empty(),
        summary: SummaryView::Disabled("apply complete — no plan loaded"@),
        expanded_groups: Set::empty(),
        expanded_resources: Set::empty(),
        rows: Seq::empty(),
        selected: None,
        ..s
    }
}

impl App {
    /// Takes note of an event of the run.
    pub fn handle_event(&mut self, event: RunnerEvent) -> (r: FollowUp)
        requires
            valid(old(self)@),
        ensures
            valid(final(self)@),
            final(self)@ == notified(old(self)@, event@),
            r@ == follow_up(event@),
    {
        match event {
            RunnerEvent::Line(line) => {
                self.push_output(line);
                FollowUp {
                    release_runner: false,
                    refresh_workspaces: false,
                    plan_json: None,
                    clear_plan: false,
                }
            },
            RunnerEvent::ApplyPlanReady { json_plan } => {
                self.awaiting_apply = true;
                if self.mode == Mode::Normal {
                    self.open_command_bar();
                }
                FollowUp {
                    release_runner: false,
                    refresh_workspaces: false,
                    plan_json: Some(json_plan),
                    clear_plan: false,
                }
            },
            RunnerEvent::Done { exit_code, json_plan, original_cmd } => {
                let mut line = "── done: exit ".to_owned();
                match exit_code {
                    Some(code) => line.append(signed_decimal_text(code).as_str()),
                    None => line.append("signal"),
                }
                line.append(" ──");
                self.push_output(line);
                self.status = RunStatus::Idle;
                self.awaiting_apply = false;
                let cmd = original_cmd.as_str();
                let success = match exit_code {
                    Some(code) => code == 0,
                    None => false,
                };
                FollowUp {
                    release_runner: true,
                    refresh_workspaces: starts_with(cmd, "workspace") || starts_with(cmd, "init"),
                    plan_json: json_plan,
                    clear_plan: starts_with(cmd, "apply") && success,
                }
            },
        }
    }

    /// Opens the command bar.
    fn open_command_bar(&mut self)
        requires
            valid(old(self)@),
        ensures
            valid(final(self)@),
            final(self)@ == prompting(old(self)@),
    {
        self.mode = Mode::Command;
        self.cmd_buf = String::new();
    }

    /// Drops the plan, after an apply that ended with success.
    pub fn clear_plan(&mut self)
        requires
            valid(old(self)@),
        ensures
            valid(final(self)@),
            final(self)@ == cleared(old(self)@),
    {
        self.plan = None;
        self.groups = Vec::new();
        self.summary = Summary::Disabled("apply complete — no plan loaded");
        self.expanded_groups = HashSet::new();
        self.expanded_resources = Vec::new();
        assert(self@.groups =~= Seq::empty());
        assert(self@.expanded_resources =~= Set::empty());
        self.rebuild_rows();
        assert(self@.rows =~= Seq::empty());
        self.selected = None;
    }
}

// ---------------------------------------------------------------------------
// Plans
// ---------------------------------------------------------------------------

/// The summary of a plan, or what to ask for it.
pub enum SummaryStep {
    /// There is no summary to fetch; show this.
    Ready(Summary),
    /// Ask for a summary of this digest.
    Fetch(String),
}

/// What a [`SummaryStep`] stands for.
pub enum SummaryStepView {
    Ready(SummaryView),
    Fetch(Seq<char>),
}

impl View for SummaryStep {
    type V = SummaryStepView;

    open spec fn view(&self) -> SummaryStepView {
        match self {
            SummaryStep::Ready(summary) => SummaryStepView::Ready(summary@),
            SummaryStep::Fetch(digest) => SummaryStepView::Fetch(digest@),
        }
    }
}

/// Whether a summary is fetched: unless it is switched off or the key is
/// missing.
pub open spec fn fetches(no_ai: bool, key_present: bool) -> bool {
    !no_ai && key_present
}

/// How a plan gets its summary.
pub open spec fn summary_plan(
    plan: PlanView,
    groups: Seq<GroupView>,
    no_ai: bool,
    key_present: bool,
) -> SummaryStepView {
    if fetches(no_ai, key_present) {
        SummaryStepView::Fetch(budgeted_digest(plan, groups))
    } else {
        SummaryStepView::Ready(SummaryView::Disabled(disabled_text(no_ai)))
    }
}

/// How a plan gets its summary. `key_present` tells whether an API key is set.
pub fn summary_step(plan: &Plan, groups: &[Group], no_ai: bool, key_present: bool) -> (r:
    SummaryStep)
    requires
        fetches(no_ai, key_present) ==> plan.countable(),
    ensures
        r@ == summary_plan(plan@, group_views(groups@), no_ai, key_present),
{
    if no_ai || !key_present {
        SummaryStep::Ready(Summary::Disabled(disabled_reason(no_ai)))
    } else {
        SummaryStep::Fetch(digest_with_budget(plan, groups))
    }
}

/// What the screen starts with: the plan that was loaded, or none.
pub fn initial_state(args: Args, loaded: Option<(Plan, Vec<Group>, Summary)>) -> (r: InitialState)
    ensures
        match loaded {
            Some((plan, groups, summary)) => {
                &&& r.plan == Some(plan)
                &&& r.groups == groups
                &&& r.summary == summary
            },
            None => {
                &&& r.plan is None
                &&& r.groups@.len() == 0
                &&& r.summary@ == SummaryView::Disabled("no plan loaded"@)
            },
        },
        r.show_noops == args.show_noops,
        r.no_ai == args.no_ai,
        r.model == args.model,
{
    let (plan, groups, summary) = match loaded {
        Some((plan, groups, summary)) => (Some(plan), groups, summary),
        None => (None, Vec::new(), Summary::Disabled("no plan loaded")),
    };
    InitialState {
        plan,
        groups,
        summary,
        show_noops: args.show_noops,
        no_ai: args.no_ai,
        model: args.model,
    }
}

/// What is wrong with a plan that was decoded, or was not.
pub open spec fn plan_problem(decoded: Result<Plan, String>) -> Option<Seq<char>> {
    match decoded {
        Err(message) => Some(PlanError::Decode(message).text()),
        Ok(plan) => if supported(plan.format_version@) {
            None
        } else {
            Some(PlanError::UnsupportedFormat(plan.format_version).text())
        },
    }
}

/// The state with a new plan: all groups collapsed, the cursor at the top.
pub open spec fn loaded(
    s: AppView,
    plan: PlanView,
    groups: Seq<GroupView>,
    summary: SummaryView,
) -> AppView {
    at_top(
        rebuilt(
            AppView {
                plan: Some(plan),
                groups,
                summary,
                expanded_groups: Set::empty(),
                expanded_resources: Set::empty(),
                ..s
            },
        ),
    )
}

impl App {
    /// Takes a decoded plan document, or the decoder's message: the plan with
    /// its groups, or nothing and a line in the output log.
    pub fn receive_plan(&mut self, decoded: Result<Plan, String>) -> (r: Option<
        (Plan, Vec<Group>),
    >)
        requires
            valid(old(self)@),
        ensures
            valid(final(self)@),
            match plan_problem(decoded) {
                Some(problem) => {
                    &&& r is None
                    &&& final(self)@ == with_output(
                        old(self)@,
                        "pliny: plan parse error: "@ + problem,
                    )
                },
                None => {
                    &&& final(self)@ == old(self)@
                    &&& r matches Some((plan, groups)) && plan == decoded->Ok_0 && grouped(
                        all_changes(plan@),
                        old(self)@.show_noops,
                        group_views(groups@),
                    )
                },
            },
    {
        match Plan::parse(decoded) {
            Ok(plan) => {
                let groups = group_plan(&plan, self.show_noops);
                Some((plan, groups))
            },
            Err(error) => {
                self.push_output(concat2("pliny: plan parse error: ", error.message().as_str()));
                None
            },
        }
    }

    /// How a plan that was received gets its summary. A request is announced in
    /// the output log.
    pub fn request_summary(&mut self, plan: &Plan, groups: &[Group], key_present: bool) -> (r:
        SummaryStep)
        requires
            valid(old(self)@),
            fetches(old(self)@.no_ai, key_present) ==> plan.countable(),
        ensures
            valid(final(self)@),
            r@ == summary_plan(plan@, group_views(groups@), old(self)@.no_ai, key_present),
            final(self)@ == (if fetches(old(self)@.no_ai, key_present) {
                with_output(old(self)@, "pliny: requesting AI summary…"@)
            } else {
                old(self)@
            }),
    {
        let step = summary_step(plan, groups, self.no_ai, key_present);
        if let SummaryStep::Fetch(_) = &step {
            self.push_output("pliny: requesting AI summary…".to_owned());
        }
        step
    }

    /// Shows a plan with its groups and its summary.
    pub fn load_plan(&mut self, plan: Plan, groups: Vec<Group>, summary: Summary)
        requires
            valid(old(self)@),
        ensures
            valid(final(self)@),
            final(self)@ == loaded(old(self)@, plan@, group_views(groups@), summary@),
    {
        self.plan = Some(plan);
        self.groups = groups;
        self.summary = summary;
        self.expanded_groups = HashSet::new();
        self.expanded_resources = Vec::new();
        assert(self@.expanded_resources =~= Set::empty());
        proof {
            groups_are_indexable(self.groups);
        }
        self.rebuild_rows();
        if self.rows.len() > 0 {
            self.selected = Some(0);
        }
    }
}

/// A plan that was loaded shows one row per group, and the cursor is on the
/// first.
pub proof fn loaded_plan_is_collapsed(
    s: AppView,
    plan: PlanView,
    groups: Seq<GroupView>,
    summary: SummaryView,
)
    ensures
        loaded(s, plan, groups, summary).rows.len() == groups.len(),
        forall|i: int|
            0 <= i < groups.len() ==> #[trigger] loaded(s, plan, groups, summary).rows[i]
                == group_row(i, groups[i]),
        groups.len() > 0 ==> loaded(s, plan, groups, summary).selected == Some(0usize),
{
    collapsed_tree_shows_only_groups(groups);
    assert forall|i: int| 0 <= i < groups.len() implies #[trigger] loaded(
        s,
        plan,
        groups,
        summary,
    ).rows[i] == group_row(i, groups[i]) by {
        assert(tree_rows(groups, Set::empty(), Set::empty())[i] == group_row(i, groups[i]));
    }
}

/// What is asked of the chat model does not depend on masked values: plans that
/// differ in masked values alone, grouped, have their summaries fetched with
/// the same digest.
pub proof fn requests_disclose_no_masked_value(
    p: PlanView,
    q: PlanView,
    show_noops: bool,
    x: Seq<GroupView>,
    y: Seq<GroupView>,
    no_ai: bool,
    key_present: bool,
)
    requires
        plans_alike(p, q),
        grouped(all_changes(p), show_noops, x),
        grouped(all_changes(q), show_noops, y),
    ensures
        summary_plan(p, x, no_ai, key_present) == summary_plan(q, y, no_ai, key_present),
        no_ai || !key_present ==> !(summary_plan(p, x, no_ai, key_present) is Fetch),
{
    digests_disclose_no_masked_value(p, q, show_noops, x, y);
}

// ---------------------------------------------------------------------------
// Keys
// ---------------------------------------------------------------------------

/// A key.
#[derive(Debug, Clone, Copy, PartialEq, Eq, Structural)]
pub enum KeyCode {
    Char(char),
    Esc,
    Enter,
    Backspace,
    Up,
    Down,
    Left,
    Right,
    /// A key that does nothing here.
    Other,
}

/// A key that was pressed, and whether Ctrl was held.
#[derive(Debug, Clone, Copy, PartialEq, Eq, Structural)]
pub struct KeyPress {
    pub code: KeyCode,
    pub control: bool,
}

/// Whether a key press is Ctrl-C.
pub open spec fn is_ctrl_c(key: KeyPress) -> bool {
    key.control && key.code == KeyCode::Char('c')
}

/// What a key asks for.
pub open spec fn key_effect(s: AppView, key: KeyPress) -> EffectView {
    if is_ctrl_c(key) {
        EffectView::Quit
    } else {
        match (s.mode, key.code) {
            (Mode::Normal, KeyCode::Char('q')) | (Mode::Normal, KeyCode::Esc) => EffectView::Quit,
            (Mode::Command, KeyCode::Enter) => submission(s),
            _ => EffectView::Nothing,
        }
    }
}

/// The state after a key.
pub open spec fn after_key(s: AppView, key: KeyPress) -> AppView {
    if is_ctrl_c(key) {
        s
    } else {
        match s.mode {
            Mode::Normal => match key.code {
                KeyCode::Char('?') => AppView { show_help: !s.show_help, ..s },
                KeyCode::Char(':') => prompting(s),
                KeyCode::Down | KeyCode::Char('j') => moved(s, 1),
                KeyCode::Up | KeyCode::Char('k') => moved(s, -1),
                KeyCode::Right | KeyCode::Char('l') => expanded(s),
                KeyCode::Left | KeyCode::Char('h') => collapsed(s),
                _ => s,
            },
            Mode::Command => match key.code {
                KeyCode::Esc => AppView { mode: Mode::Normal, cmd_buf: Seq::empty(), ..s },
                KeyCode::Enter => submitted(s),
                KeyCode::Backspace => AppView {
                    cmd_buf: if s.cmd_buf.len() > 0 {
                        s.cmd_buf.drop_last()
                    } else {
                        s.cmd_buf
                    },
                    ..s
                },
                KeyCode::Char(c) => AppView { cmd_buf: s.cmd_buf.push(c), ..s },
                _ => s,
            },
        }
    }
}

impl App {
    /// Does what a key asks for.
    pub fn on_key(&mut self, key: KeyPress) -> (r: Effect)
        requires
            valid(old(self)@),
        ensures
            valid(final(self)@),
            final(self)@ == after_key(old(self)@, key),
            r@ == key_effect(old(self)@, key),
    {
        if key.control && key.code == KeyCode::Char('c') {
            return Effect::Quit;
        }
        match self.mode {
            Mode::Normal => match key.code {
                KeyCode::Char('q') | KeyCode::Esc => {
                    return Effect::Quit;
                },
                KeyCode::Char('?') => {
                    self.show_help = !self.show_help;
                },
                KeyCode::Char(':') => self.open_command_bar(),
                KeyCode::Down | KeyCode::Char('j') => self.move_cursor(1),
                KeyCode::Up | KeyCode::Char('k') => self.move_cursor(-1),
                KeyCode::Right | KeyCode::Char('l') => self.expand(),
                KeyCode::Left | KeyCode::Char('h') => self.collapse(),
                _ => {},
            },
            Mode::Command => match key.code {
                KeyCode::Esc => {
                    self.mode = Mode::Normal;
                    self.cmd_buf = String::new();
                },
                KeyCode::Enter => {
                    return self.submit_command();
                },
                KeyCode::Backspace => {
                    self.cmd_buf.pop();
                },
                KeyCode::Char(c) => self.cmd_buf.push(c),
                _ => {},
            },
        }
        Effect::Nothing
    }
}

/// A typed character is added to the input in the command bar, and Backspace
/// takes it back.
pub proof fn typing_fills_the_command_bar(s: AppView, c: char)
    requires
        s.mode is Command,
    ensures
        after_key(s, KeyPress { code: KeyCode::Char(c), control: false }).cmd_buf
            == s.cmd_buf.push(c),
        after_key(
            after_key(s, KeyPress { code: KeyCode::Char(c), control: false }),
            KeyPress { code: KeyCode::Backspace, control: false },
        ) == s,
{
    assert(s.cmd_buf.push(c).drop_last() =~= s.cmd_buf);
    assert(after_key(
        after_key(s, KeyPress { code: KeyCode::Char(c), control: false }),
        KeyPress { code: KeyCode::Backspace, control: false },
    ) =~= s);
}

/// A step down and a step up again leave the cursor where it was, unless it was
/// on the last row already.
pub proof fn up_undoes_down(s: AppView)
    requires
        valid(s),
        s.rows.len() <= usize::MAX,
        s.selected matches Some(i) ==> i + 1 < s.rows.len(),
    ensures
        moved(moved(s, 1), -1) == s,
{
    assert(moved(moved(s, 1), -1) =~= s);
}

/// No key starts a command or decides on an apply but Enter in the command bar.
pub proof fn only_enter_submits(s: AppView, key: KeyPress)
    requires
        !(s.mode is Command && key.code == KeyCode::Enter && !is_ctrl_c(key)),
    ensures
        key_effect(s, key) is Nothing || key_effect(s, key) is Quit,
        key_effect(s, key) is Quit ==> after_key(s, key) == s,
{
}

/// A key pressed without Ctrl.
pub open spec fn plain(code: KeyCode) -> KeyPress {
    KeyPress { code, control: false }
}

/// In normal mode each arrow does what its letter does, Ctrl or not.
pub proof fn arrows_do_what_letters_do(s: AppView, control: bool)
    requires
        s.mode is Normal,
    ensures
        after_key(s, KeyPress { code: KeyCode::Char('h'), control }) == after_key(
            s,
            KeyPress { code: KeyCode::Left, control },
        ),
        after_key(s, KeyPress { code: KeyCode::Char('l'), control }) == after_key(
            s,
            KeyPress { code: KeyCode::Right, control },
        ),
        after_key(s, KeyPress { code: KeyCode::Char('j'), control }) == after_key(
            s,
            KeyPress { code: KeyCode::Down, control },
        ),
        after_key(s, KeyPress { code: KeyCode::Char('k'), control }) == after_key(
            s,
            KeyPress { code: KeyCode::Up, control },
        ),
        control ==> after_key(s, KeyPress { code: KeyCode::Left, control }) == after_key(
            s,
            plain(KeyCode::Left),
        ),
        control ==> after_key(s, KeyPress { code: KeyCode::Right, control }) == after_key(
            s,
            plain(KeyCode::Right),
        ),
        control ==> after_key(s, KeyPress { code: KeyCode::Down, control }) == after_key(
            s,
            plain(KeyCode::Down),
        ),
        control ==> after_key(s, KeyPress { code: KeyCode::Up, control }) == after_key(
            s,
            plain(KeyCode::Up),
        ),
{
}

/// `h` and Left collapse: the group or change under the cursor is then not
/// among the expanded ones, nor is the change of an attribute under the cursor.
/// All others stay as they were. The cursor stays too, or goes to the last row.
pub proof fn left_collapses(s: AppView, i: usize, code: KeyCode)
    requires
        valid(s),
        s.rows.len() <= usize::MAX,
        s.mode is Normal,
        s.selected == Some(i),
        i < s.rows.len(),
        code == KeyCode::Char('h') || code == KeyCode::Left,
    ensures
        ({
            let t = after_key(s, plain(code));
            &&& valid(t)
            &&& s.rows[i as int].kind matches RowKind::Group { group_idx } ==> {
                &&& !t.expanded_groups.contains(group_idx)
                &&& forall|g: usize|
                    g != group_idx ==> (#[trigger] t.expanded_groups.contains(g)
                        <==> s.expanded_groups.contains(g))
                &&& t.expanded_resources == s.expanded_resources
            }
            &&& s.rows[i as int].kind matches RowKind::Resource { group_idx, resource_idx } ==> {
                &&& !t.expanded_resources.contains((group_idx, resource_idx))
                &&& forall|p: (usize, usize)|
                    p != (group_idx, resource_idx) ==> (#[trigger] t.expanded_resources.contains(p)
                        <==> s.expanded_resources.contains(p))
                &&& t.expanded_groups == s.expanded_groups
            }
            &&& s.rows[i as int].kind matches RowKind::Attr { group_idx, resource_idx, .. } ==> {
                &&& !t.expanded_resources.contains((group_idx, resource_idx))
                &&& forall|p: (usize, usize)|
                    p != (group_idx, resource_idx) ==> (#[trigger] t.expanded_resources.contains(p)
                        <==> s.expanded_resources.contains(p))
                &&& t.expanded_groups == s.expanded_groups
            }
            &&& t.selected == Some(
                if i < t.rows.len() || t.rows.len() == 0 {
                    i
                } else {
                    (t.rows.len() - 1) as usize
                },
            )
            &&& t == AppView {
                expanded_groups: t.expanded_groups,
                expanded_resources: t.expanded_resources,
                rows: t.rows,
                selected: t.selected,
                ..s
            }
            &&& key_effect(s, plain(code)) is Nothing
        }),
{
}

/// `l` and Right expand: the group or change under the cursor is then among the
/// expanded ones. All others stay as they were, and so does the cursor; on an
/// attribute nothing happens.
pub proof fn right_expands(s: AppView, i: usize, code: KeyCode)
    requires
        valid(s),
        s.mode is Normal,
        s.selected == Some(i),
        i < s.rows.len(),
        code == KeyCode::Char('l') || code == KeyCode::Right,
    ensures
        ({
            let t = after_key(s, plain(code));
            &&& valid(t)
            &&& s.rows[i as int].kind matches RowKind::Group { group_idx } ==> {
                &&& t.expanded_groups.contains(group_idx)
                &&& forall|g: usize|
                    g != group_idx ==> (#[trigger] t.expanded_groups.contains(g)
                        <==> s.expanded_groups.contains(g))
                &&& t.expanded_resources == s.expanded_resources
            }
            &&& s.rows[i as int].kind matches RowKind::Resource { group_idx, resource_idx } ==> {
                &&& t.expanded_resources.contains((group_idx, resource_idx))
                &&& forall|p: (usize, usize)|
                    p != (group_idx, resource_idx) ==> (#[trigger] t.expanded_resources.contains(p)
                        <==> s.expanded_resources.contains(p))
                &&& t.expanded_groups == s.expanded_groups
            }
            &&& s.rows[i as int].kind is Attr ==> t == s
            &&& t.rows[i as int] == s.rows[i as int]
            &&& t == AppView {
                expanded_groups: t.expanded_groups,
                expanded_resources: t.expanded_resources,
                rows: t.rows,
                ..s
            }
            &&& key_effect(s, plain(code)) is Nothing
        }),
{
    expanding_adds_below_the_cursor(s);
    let t = after_key(s, plain(code));
    assert(t.rows.take(i + 1)[i as int] == s.rows.take(i + 1)[i as int]);
}

/// `j` and Down put the cursor on the next row, `k` and Up on the one before;
/// at the ends of the tree it stays. Nothing else changes.
pub proof fn steps_go_to_the_next_row(s: AppView, i: usize, code: KeyCode)
    requires
        valid(s),
        s.rows.len() <= usize::MAX,
        s.mode is Normal,
        s.selected == Some(i),
        i < s.rows.len(),
    ensures
        ({
            let t = after_key(s, plain(code));
            let down = code == KeyCode::Char('j') || code == KeyCode::Down;
            let up = code == KeyCode::Char('k') || code == KeyCode::Up;
            &&& down && i + 1 < s.rows.len() ==> t == AppView {
                selected: Some((i + 1) as usize),
                ..s
            }
            &&& down && i + 1 == s.rows.len() ==> t == s
            &&& up && i > 0 ==> t == AppView { selected: Some((i - 1) as usize), ..s }
            &&& up && i == 0 ==> t == s
        }),
{
}

/// The cursor moves by as many rows as it is told, where there are so many, and
/// to the first or last row otherwise.
pub proof fn moves_are_as_long_as_told(s: AppView, i: usize, delta: int)
    requires
        s.rows.len() <= usize::MAX,
        s.selected == Some(i),
        i < s.rows.len(),
    ensures
        ({
            let t = moved(s, delta);
            &&& t.selected matches Some(k) && k < s.rows.len()
            &&& 0 <= i + delta < s.rows.len() ==> t.selected->0 - i == delta
            &&& i + delta < 0 ==> t.selected->0 == 0
            &&& i + delta >= s.rows.len() ==> t.selected->0 + 1 == s.rows.len()
            &&& t == AppView { selected: t.selected, ..s }
        }),
{
}

/// In an empty tree no key of the tree does anything.
pub proof fn empty_trees_stay(s: AppView, key: KeyPress)
    requires
        s.mode is Normal,
        s.rows.len() == 0,
        key.code != KeyCode::Char('?'),
        key.code != KeyCode::Char(':'),
    ensures
        after_key(s, key) == s,
{
}

/// Ctrl-C leaves the screen in both modes, `q` and Esc in normal mode; nothing
/// else does.
pub proof fn few_keys_quit(s: AppView, key: KeyPress)
    ensures
        key_effect(s, key) is Quit <==> ((key.control && key.code == KeyCode::Char('c')) || (
        s.mode is Normal && (key.code == KeyCode::Char('q') || key.code == KeyCode::Esc))),
        s.mode is Normal && !(key_effect(s, key) is Quit) ==> key_effect(s, key) is Nothing,
{
}

/// In normal mode `?` turns the help on or off, `:` opens the command bar with
/// nothing in it, and any other key that is no key of the tree changes nothing.
pub proof fn keys_of_normal_mode(s: AppView, key: KeyPress)
    requires
        s.mode is Normal,
    ensures
        ({
            let t = after_key(s, key);
            &&& key.code == KeyCode::Char('?') ==> t == AppView { show_help: t.show_help, ..s }
                && t.show_help != s.show_help
            &&& key.code == KeyCode::Char(':') ==> t == AppView {
                mode: t.mode,
                cmd_buf: t.cmd_buf,
                ..s
            } && t.mode is Command && t.cmd_buf.len() == 0
            &&& match key.code {
                KeyCode::Char(c) => ![
                    '?',
                    ':',
                    'h',
                    'j',
                    'k',
                    'l',
                ]@.contains(c),
                KeyCode::Up | KeyCode::Down | KeyCode::Left | KeyCode::Right => false,
                _ => true,
            } ==> t == s
        }),
{
    let letters = ['?', ':', 'h', 'j', 'k', 'l']@;
    assert(letters[0] == '?' && letters[1] == ':' && letters[2] == 'h' && letters[3] == 'j'
        && letters[4] == 'k' && letters[5] == 'l');
    assert(forall|k: int| 0 <= k < 6 ==> letters.contains(#[trigger] letters[k]));
}

/// In the command bar a character is added to the input, whichever it is and
/// with Ctrl or without, but for Ctrl-C; Backspace takes the last one away; Esc
/// closes the bar and drops the input; and arrows do nothing.
pub proof fn keys_of_the_command_bar(s: AppView, key: KeyPress)
    requires
        s.mode is Command,
        !(key.control && key.code == KeyCode::Char('c')),
    ensures
        ({
            let t = after_key(s, key);
            &&& key.code matches KeyCode::Char(c) ==> {
                &&& t == AppView { cmd_buf: t.cmd_buf, ..s }
                &&& t.cmd_buf.len() == s.cmd_buf.len() + 1
                &&& t.cmd_buf.last() == c
                &&& t.cmd_buf.drop_last() == s.cmd_buf
            }
            &&& key.code == KeyCode::Backspace ==> {
                &&& t == AppView { cmd_buf: t.cmd_buf, ..s }
                &&& s.cmd_buf.len() > 0 ==> s.cmd_buf == t.cmd_buf.push(s.cmd_buf.last())
                &&& s.cmd_buf.len() == 0 ==> t.cmd_buf.len() == 0
            }
            &&& key.code == KeyCode::Esc ==> {
                &&& t == AppView { mode: t.mode, cmd_buf: t.cmd_buf, ..s }
                &&& t.mode is Normal
                &&& t.cmd_buf.len() == 0
            }
            &&& (match key.code {
                KeyCode::Up | KeyCode::Down | KeyCode::Left | KeyCode::Right | KeyCode::Other =>
                true,
                _ => false,
            }) ==> t == s
            &&& key.code == KeyCode::Enter ==> t.mode is Normal && t.cmd_buf.len() == 0
        }),
{
    match key.code {
        KeyCode::Char(c) => {
            assert(s.cmd_buf.push(c).drop_last() =~= s.cmd_buf);
        },
        KeyCode::Backspace => {
            if s.cmd_buf.len() > 0 {
                assert(s.cmd_buf.drop_last().push(s.cmd_buf.last()) =~= s.cmd_buf);
            }
        },
        KeyCode::Enter => {
            bar_is_closed_by_submitting(s);
        },
        _ => {},
    }
}

/// Lines are added to the log, and nothing else changes.
proof fn lines_touch_the_log_alone(s: AppView, lines: Seq<Seq<char>>)
    ensures
        with_lines(s, lines) == (AppView { output: with_lines(s, lines).output, ..s }),
    decreases lines.len(),
{
    if lines.len() > 0 {
        lines_touch_the_log_alone(s, lines.drop_last());
    }
}

proof fn bar_is_closed_by_submitting(s: AppView)
    ensures
        ({
            let t = submitted(s);
            &&& t.mode is Normal
            &&& t.cmd_buf.len() == 0
            &&& t == AppView {
                mode: t.mode,
                cmd_buf: t.cmd_buf,
                output: t.output,
                status: t.status,
                last_cmd: t.last_cmd,
                awaiting_apply: t.awaiting_apply,
                ..s
            }
        }),
{
    let t = AppView { cmd_buf: Seq::empty(), mode: Mode::Normal, ..s };
    match submission(s) {
        EffectView::Spawn(command) => {
            lines_touch_the_log_alone(t, command_heading(command));
        },
        _ => {},
    }
}

/// Enter in the command bar. Nothing but white space asks for nothing. While an
/// apply awaits a decision, `y` approves and `n` cancels. `ws` and `workspace`
/// alone list the workspaces, and `ws` before a space is `workspace`. All else
/// is run as it was typed, without white space around it.
pub proof fn enter_submits_what_was_typed(s: AppView, cmd: Seq<char>, rest: Seq<char>, control: bool)
    requires
        s.mode is Command,
        cmd == trimmed(s.cmd_buf),
    ensures
        ({
            let effect = key_effect(s, KeyPress { code: KeyCode::Enter, control });
            &&& cmd.len() == 0 <==> effect is Nothing
            &&& effect is Approve <==> s.awaiting_apply && cmd == seq!['y']
            &&& effect is Cancel <==> s.awaiting_apply && cmd == seq!['n']
            &&& effect is ListWorkspaces <==> cmd == "ws"@ || cmd == "workspace"@
            &&& cmd == "ws "@ + rest && rest.len() > 0 ==> effect == EffectView::Spawn(
                "workspace "@ + rest,
            )
            &&& effect matches EffectView::Spawn(command) ==> command == cmd || (cmd.len() > 3
                && cmd[0] == 'w' && cmd[1] == 's' && cmd[2] == ' ')
            &&& !(effect is Quit)
        }),
{
    reveal_strlit("y");
    reveal_strlit("n");
    reveal_strlit("ws");
    reveal_strlit("ws ");
    reveal_strlit("workspace");
    reveal_strlit("workspace ");
    assert("y"@ =~= seq!['y']);
    assert("n"@ =~= seq!['n']);
    assert("y"@[0] == 'y' && "n"@[0] == 'n');
    prefixes_come_first(cmd, "ws "@, rest);
    if has_prefix(cmd, "ws "@) {
        assert(cmd =~= "ws "@ + cmd.skip(3));
        assert(normalized(cmd)[9] == ' ');
        assert(normalized(cmd).len() >= 10);
        trimmed_ends_in_no_space(s.cmd_buf);
        assert(cmd.len() > 3);
        assert(cmd[0] == "ws "@[0] && cmd[1] == "ws "@[1] && cmd[2] == "ws "@[2]);
    }
    if cmd == "ws "@ + rest {
        assert(cmd.skip(3) =~= rest);
        assert(cmd[1] == 's');
    }
    if cmd == "ws"@ {
        assert(cmd.len() == 2);
    }
}

proof fn trimmed_ends_in_no_space(s: Seq<char>)
    ensures
        trimmed(s).len() > 0 ==> trimmed(s).last() != ' ',
{
    end_is_trimmed(trim_start(s));
}

proof fn end_is_trimmed(s: Seq<char>)
    ensures
        trim_end(s).len() > 0 ==> trim_end(s).last() != ' ',
    decreases s.len(),
{
    if s.len() > 0 && white_space(s.last()) {
        end_is_trimmed(s.drop_last());
    }
}

/// What Enter in the command bar leaves: the bar closed and empty, the input
/// remembered unless it was blank, and for a command that is run two lines in
/// the log. The tree, the plan and the rest stay.
pub proof fn submitting_leaves_the_tree_alone(s: AppView)
    requires
        valid(s),
        s.mode is Command,
    ensures
        ({
            let key = plain(KeyCode::Enter);
            let t = after_key(s, key);
            let effect = key_effect(s, key);
            &&& t.mode is Normal && t.cmd_buf.len() == 0
            &&& t == AppView {
                mode: t.mode,
                cmd_buf: t.cmd_buf,
                output: t.output,
                status: t.status,
                last_cmd: t.last_cmd,
                awaiting_apply: t.awaiting_apply,
                ..s
            }
            &&& t.last_cmd == (if trimmed(s.cmd_buf).len() == 0 {
                s.last_cmd
            } else {
                Some(trimmed(s.cmd_buf))
            })
            &&& effect is Spawn ==> t.status is Running && !t.awaiting_apply
            &&& !(effect is Spawn) ==> t.status == s.status && t.output == s.output
            &&& effect is Nothing || effect is ListWorkspaces ==> t.awaiting_apply
                == s.awaiting_apply
            &&& effect is Approve || effect is Cancel ==> !t.awaiting_apply
            &&& effect matches EffectView::Spawn(command) ==> {
                let n = t.output.len();
                &&& n >= 2
                &&& t.output[n - 2].len() == 0
                &&& t.output[n - 1] == "──── :"@ + command + " ────"@
                &&& s.output.len() + 2 <= 2000 ==> t.output.take(n - 2) == s.output
            }
        }),
{
    bar_is_closed_by_submitting(s);
    let closed = AppView { cmd_buf: Seq::empty(), mode: Mode::Normal, ..s };
    reveal_strlit("");
    match submission(s) {
        EffectView::Spawn(command) => {
            let lines = command_heading(command);
            log_ends_with_what_was_added(closed, lines);
            let all = s.output + lines;
            let t = submitted(s);
            assert(t.output == with_lines(closed, lines).output);
            assert(all[all.len() - 1] == lines[1]);
            assert(all[all.len() - 2] == lines[0]);
            if s.output.len() + 2 <= 2000 {
                assert(t.output.take(t.output.len() - 2) =~= s.output);
            }
        },
        _ => {},
    }
}

/// What an event leaves. A line is the last of the log. A plan that awaits
/// approval opens the command bar, and keeps what is being typed there. The end
/// of a run is told in the log with its exit code, and no decision is awaited
/// after it. The tree, the plan and the rest stay.
pub proof fn events_leave_the_tree_alone(s: AppView, event: RunnerEventView)
    requires
        valid(s),
    ensures
        ({
            let t = notified(s, event);
            &&& t == AppView {
                output: t.output,
                awaiting_apply: t.awaiting_apply,
                mode: t.mode,
                cmd_buf: t.cmd_buf,
                status: t.status,
                ..s
            }
            &&& event matches RunnerEventView::Line(line) ==> {
                &&& t.output.len() > 0 && t.output.last() == line
                &&& t == AppView { output: t.output, ..s }
            }
            &&& event is ApplyPlanReady ==> {
                &&& t.awaiting_apply && t.mode is Command
                &&& t.cmd_buf == if s.mode is Command {
                    s.cmd_buf
                } else {
                    Seq::empty()
                }
                &&& t.output == s.output && t.status == s.status
            }
            &&& event matches RunnerEventView::Done { exit_code, .. } ==> {
                &&& !t.awaiting_apply && t.status is Idle
                &&& t.mode == s.mode && t.cmd_buf == s.cmd_buf
                &&& t.output.len() > 0
                &&& exit_code matches Some(code) ==> t.output.last() == "── done: exit "@
                    + signed_decimal(code as int) + " ──"@
                &&& exit_code is None ==> t.output.last() == "── done: exit signal ──"@
            }
            &&& event is ApplyPlanReady || {
                &&& t.output.len() == if s.output.len() < 2000 {
                    s.output.len() + 1
                } else {
                    2000nat
                }
                &&& s.output.len() < 2000 ==> t.output.drop_last() == s.output
                &&& s.output.len() == 2000 ==> t.output.drop_last()
                    == s.output.drop_first()
            }
        }),
{
    reveal_strlit("── done: exit ");
    reveal_strlit("signal");
    reveal_strlit(" ──");
    reveal_strlit("── done: exit signal ──");
    assert("── done: exit "@ + "signal"@ + " ──"@ =~= "── done: exit signal ──"@);
    let t = notified(s, event);
    let line = match event {
        RunnerEventView::Line(line) => line,
        RunnerEventView::Done { exit_code, .. } => done_line(exit_code),
        _ => Seq::empty(),
    };
    if !(event is ApplyPlanReady) {
        assert(t.output == logged(s.output, line));
        if s.output.len() < 2000 {
            assert(t.output.drop_last() =~= s.output);
        } else {
            assert(t.output.drop_last() =~= s.output.drop_first());
        }
    }
}

/// What an event asks for. The run is let go when it is done, and only then; a
/// plan that comes with an event is handed on as it is; `workspace` and `init`
/// have the workspaces read again, and an `apply` that ended with 0, and no
/// other command, drops the plan.
pub proof fn follow_ups_go_by_the_command(
    event: RunnerEventView,
    exit_code: Option<i32>,
    json_plan: Option<Seq<char>>,
    cmd: Seq<char>,
)
    ensures
        follow_up(event).release_runner <==> event is Done,
        event matches RunnerEventView::Line(_) ==> follow_up(event).plan_json is None,
        event matches RunnerEventView::ApplyPlanReady { json_plan: p } ==> follow_up(
            event,
        ).plan_json == Some(p),
        !(event is Done) ==> !follow_up(event).refresh_workspaces && !follow_up(event).clear_plan,
        ({
            let done = follow_up(
                RunnerEventView::Done { exit_code, json_plan, original_cmd: cmd },
            );
            &&& done.plan_json == json_plan
            &&& done.refresh_workspaces <==> "workspace"@.is_prefix_of(cmd) || "init"@.is_prefix_of(
                cmd,
            )
            &&& done.clear_plan <==> "apply"@.is_prefix_of(cmd) && exit_code == Some(0i32)
        }),
{
    prefixes_come_first(cmd, "workspace"@, cmd);
    prefixes_come_first(cmd, "init"@, cmd);
    prefixes_come_first(cmd, "apply"@, cmd);
}

/// The list of workspaces has one line for each, in order, between a heading of
/// two lines and a hint. The line ends in the name, and begins with a star for
/// the current workspace and no other.
pub proof fn every_workspace_is_listed(workspaces: WorkspaceView, i: int)
    requires
        0 <= i < workspaces.all.len(),
    ensures
        ({
            let lines = picker_lines(workspaces);
            let line = lines[i + 2];
            &&& lines.len() == workspaces.all.len() + 3
            &&& lines[0].len() == 0 && lines[1] == "──── workspaces ────"@
            &&& lines.last() == "switch with :workspace select <name>  (or :workspace new <name>)"@
            &&& line.len() == workspaces.all[i].len() + 2
            &&& line.skip(2) == workspaces.all[i]
            &&& line[1] == ' '
            &&& line[0] == '*' <==> workspaces.current == Some(workspaces.all[i])
            &&& line[0] == ' ' <==> workspaces.current != Some(workspaces.all[i])
        }),
{
    reveal_strlit("");
    reveal_strlit("* ");
    reveal_strlit("  ");
    let name = workspaces.all[i];
    let line = picker_line(name, workspaces.current);
    assert(picker_lines(workspaces)[i + 2] == line);
    assert(line.skip(2) =~= name);
}

/// A plan that is loaded, or dropped, takes the place of the one before with
/// its groups and summary; nothing is expanded. The log, the command bar and
/// the rest stay.
pub proof fn plans_replace_each_other(
    s: AppView,
    plan: PlanView,
    groups: Seq<GroupView>,
    summary: SummaryView,
)
    ensures
        ({
            let t = loaded(s, plan, groups, summary);
            &&& t.plan == Some(plan) && t.groups == groups && t.summary == summary
            &&& forall|g: usize| !(#[trigger] t.expanded_groups.contains(g))
            &&& forall|p: (usize, usize)| !(#[trigger] t.expanded_resources.contains(p))
            &&& t == AppView {
                plan: t.plan,
                groups: t.groups,
                summary: t.summary,
                expanded_groups: t.expanded_groups,
                expanded_resources: t.expanded_resources,
                rows: t.rows,
                selected: t.selected,
                ..s
            }
        }),
        ({
            let t = cleared(s);
            &&& t.plan is None && t.groups.len() == 0 && t.rows.len() == 0 && t.selected is None
            &&& t.summary is Disabled
            &&& t.expanded_groups.is_empty() && t.expanded_resources.is_empty()
            &&& t == AppView {
                plan: t.plan,
                groups: t.groups,
                summary: t.summary,
                expanded_groups: t.expanded_groups,
                expanded_resources: t.expanded_resources,
                rows: t.rows,
                selected: t.selected,
                ..s
            }
        }),
{
}

/// A summary is fetched if, and only if, it is not switched off and there is a
/// key; otherwise the pane says which of the two is the case.
pub proof fn summaries_need_a_key(
    plan: PlanView,
    groups: Seq<GroupView>,
    no_ai: bool,
    key_present: bool,
)
    ensures
        ({
            let step = summary_plan(plan, groups, no_ai, key_present);
            &&& key_present && !no_ai ==> step == SummaryStepView::Fetch(
                budgeted_digest(plan, groups),
            )
            &&& no_ai ==> step == SummaryStepView::Ready(
                SummaryView::Disabled("AI summary disabled (--no-ai)."@),
            )
            &&& !no_ai && !key_present ==> step == SummaryStepView::Ready(
                SummaryView::Disabled(
                    "AI summary disabled: OPENAI_API_KEY not set. Set the key or pass --no-ai."@,
                ),
            )
        }),
{
}

/// A plan is taken if, and only if, it was decoded and has one of the versions
/// 1.0, 1.1 and 1.2; otherwise the reason is told.
pub proof fn other_documents_are_refused(message: String, plan: Plan)
    ensures
        plan_problem(Err(message)) == Some(message@),
        plan_problem(Ok(plan)) is None <==> {
            let v = plan.format_version@;
            v.len() == 3 && v[0] == '1' && v[1] == '.' && (v[2] == '0' || v[2] == '1' || v[2]
                == '2')
        },
        plan_problem(Ok(plan)) is Some ==> plan_problem(Ok(plan)) == Some(
            PlanError::UnsupportedFormat(plan.format_version).text(),
        ),
{
    three_versions_are_supported(plan.format_version@);
}

/// What is asked for is seen as it is.
pub proof fn requests_are_seen_whole(effect: Effect, follow_up: FollowUp, step: SummaryStep)
    ensures
        effect is Nothing <==> effect@ is Nothing,
        effect is Quit <==> effect@ is Quit,
        effect is ListWorkspaces <==> effect@ is ListWorkspaces,
        effect is Approve <==> effect@ is Approve,
        effect is Cancel <==> effect@ is Cancel,
        effect matches Effect::Spawn(command) ==> effect@ == EffectView::Spawn(command@),
        follow_up@.release_runner == follow_up.release_runner,
        follow_up@.refresh_workspaces == follow_up.refresh_workspaces,
        follow_up@.clear_plan == follow_up.clear_plan,
        follow_up.plan_json matches Some(json) ==> follow_up@.plan_json == Some(json@),
        follow_up.plan_json is None ==> follow_up@.plan_json is None,
        step matches SummaryStep::Ready(summary) ==> step@ == SummaryStepView::Ready(summary@),
        step matches SummaryStep::Fetch(digest) ==> step@ == SummaryStepView::Fetch(digest@),
{
}

} // verus!
