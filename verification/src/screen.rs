//! The texts of the screen's panes.

use vstd::prelude::*;

use crate::llm::{Summary, SummaryView};
use crate::plan::{plan_footer, text_opt, Plan};
use crate::text::{
    concat2, concat_all, decimal, decimal_text, decimals_read_back, from_chars, match_at,
    number_written, occurs_at, texts, to_chars,
};
use crate::tree::Row;
use crate::ui::{plan_opt, RunStatus};
use crate::workspace::{WorkspaceState, WorkspaceView};

verus! {

// ---------------------------------------------------------------------------
// Header
// ---------------------------------------------------------------------------

/// Which model writes the summary, or why none does.
pub fn ai_state(no_ai: bool, key_present: bool, model: &str) -> (r: String)
    ensures
        r@ == (if no_ai {
            "disabled (--no-ai)"@
        } else if !key_present {
            "disabled (no OPENAI_API_KEY)"@
        } else {
            model@ + " (OPENAI_API_KEY set)"@
        }),
{
    if no_ai {
        "disabled (--no-ai)".to_owned()
    } else if !key_present {
        "disabled (no OPENAI_API_KEY)".to_owned()
    } else {
        concat2(model, " (OPENAI_API_KEY set)")
    }
}

/// The current workspace, and how many there are.
pub open spec fn workspace_text(workspaces: WorkspaceView) -> Seq<char> {
    match workspaces.current {
        Some(current) => if workspaces.all.len() > 0 {
            current + "  ("@ + decimal(workspaces.all.len()) + " available — :ws to list)"@
        } else {
            current
        },
        None => "(none — not a terraform project?)"@,
    }
}

/// The current workspace, and how many there are.
pub fn workspace_line(workspaces: &WorkspaceState) -> (r: String)
    ensures
        r@ == workspace_text(workspaces@),
{
    match &workspaces.current {
        Some(current) => {
            let n = workspaces.all.len();
            if n > 0 {
                let mut out = concat2(current.as_str(), "  (");
                out.append(decimal_text(n as u128).as_str());
                out.append(" available — :ws to list)");
                out
            } else {
                current.clone()
            }
        },
        None => "(none — not a terraform project?)".to_owned(),
    }
}

/// Whether a command runs, in words.
pub fn status_text(status: RunStatus) -> (r: &'static str)
    ensures
        r@ == (match status {
            RunStatus::Idle => "idle"@,
            RunStatus::Running => "running…"@,
        }),
{
    match status {
        RunStatus::Idle => "idle",
        RunStatus::Running => "running…",
    }
}

/// The command that was submitted last, if there is one.
pub fn last_command(last_cmd: &Option<String>) -> (r: String)
    ensures
        r@ == (match text_opt(*last_cmd) {
            Some(cmd) => "last: :"@ + cmd,
            None => ""@,
        }),
{
    match last_cmd {
        Some(cmd) => concat2("last: :", cmd.as_str()),
        None => "".to_owned(),
    }
}

/// The footer of the plan that is shown, if there is one.
pub fn plan_line(plan: &Option<Plan>) -> (r: String)
    ensures
        r@ == (match plan_opt(*plan) {
            Some(p) => plan_footer(p),
            None => "(none loaded — press : then type plan)"@,
        }),
{
    match plan {
        Some(p) => p.change_counts().footer(),
        None => "(none loaded — press : then type plan)".to_owned(),
    }
}

/// A key as it is named in the header.
pub fn key_hint(key: &str) -> (r: String)
    ensures
        r@ == "<"@ + key@ + ">"@,
{
    let mut out = concat2("<", key);
    out.append(">");
    out
}

// ---------------------------------------------------------------------------
// Summary
// ---------------------------------------------------------------------------

/// The title of the summary pane.
pub fn summary_title(summary: &Summary) -> (r: &'static str)
    ensures
        r@ == (match summary@ {
            SummaryView::Ready(_) => "AI Summary"@,
            SummaryView::Disabled(_) => "AI Summary (disabled)"@,
            SummaryView::Error(_) => "AI Summary (error)"@,
        }),
{
    match summary {
        Summary::Ready(_) => "AI Summary",
        Summary::Disabled(_) => "AI Summary (disabled)",
        Summary::Error(_) => "AI Summary (error)",
    }
}

/// A piece of the summary, and whether it is a risk mark.
pub struct Segment {
    pub text: String,
    pub risky: bool,
}

/// What a [`Segment`] stands for.
pub struct SegmentView {
    pub text: Seq<char>,
    pub risky: bool,
}

impl View for Segment {
    type V = SegmentView;

    open spec fn view(&self) -> SegmentView {
        SegmentView { text: self.text@, risky: self.risky }
    }
}

/// What a vector of segments stands for.
pub open spec fn segment_views(segments: Seq<Segment>) -> Seq<SegmentView> {
    segments.map_values(|s: Segment| s@)
}

/// The mark that calls out a risk.
pub open spec fn risk_mark() -> Seq<char> {
    seq!['R', 'i', 's', 'k', 'y', ':']
}

/// The first place from `from` on where a text holds the risk mark.
pub open spec fn next_mark(text: Seq<char>, from: int) -> Option<int>
    decreases text.len() - from,
{
    if from >= text.len() {
        None
    } else if occurs_at(text, risk_mark(), from) {
        Some(from)
    } else {
        next_mark(text, from + 1)
    }
}

/// A stretch of plain text, if it is not empty.
pub open spec fn plain(text: Seq<char>) -> Seq<SegmentView> {
    if text.len() > 0 {
        seq![SegmentView { text, risky: false }]
    } else {
        Seq::empty()
    }
}

/// A text from `from` on, split at its risk marks.
pub open spec fn marked_from(text: Seq<char>, from: int) -> Seq<SegmentView>
    recommends
        0 <= from <= text.len(),
    decreases text.len() - from,
    when 0 <= from
    via marked_from_decreases
{
    match next_mark(text, from) {
        Some(at) => plain(text.subrange(from, at)) + seq![
            SegmentView { text: risk_mark(), risky: true },
        ] + marked_from(text, at + 6),
        None => plain(text.skip(from)),
    }
}

#[via_fn]
proof fn marked_from_decreases(text: Seq<char>, from: int) {
    next_mark_is_first(text, from);
}

/// A text split at its risk marks; an empty text is one empty stretch.
pub open spec fn marked(text: Seq<char>) -> Seq<SegmentView> {
    let segments = marked_from(text, 0);
    if segments.len() == 0 {
        seq![SegmentView { text, risky: false }]
    } else {
        segments
    }
}

/// The next mark is the first one there is.
proof fn next_mark_is_first(text: Seq<char>, from: int)
    requires
        0 <= from,
    ensures
        match next_mark(text, from) {
            Some(at) => {
                &&& from <= at
                &&& occurs_at(text, risk_mark(), at)
                &&& forall|k: int| from <= k < at ==> !#[trigger] occurs_at(text, risk_mark(), k)
            },
            None => forall|k: int| from <= k ==> !#[trigger] occurs_at(text, risk_mark(), k),
        },
    decreases text.len() - from,
{
    if from < text.len() && !occurs_at(text, risk_mark(), from) {
        next_mark_is_first(text, from + 1);
    }
}

/// The first place from `from` on where the mark stands.
fn find_mark(chars: &Vec<char>, mark: &Vec<char>, from: usize) -> (r: Option<usize>)
    requires
        from <= chars@.len(),
        mark@ == risk_mark(),
    ensures
        match r {
            Some(at) => next_mark(chars@, from as int) == Some(at as int) && at + 6 <= chars.len(),
            None => next_mark(chars@, from as int) is None,
        },
{
    let mut i: usize = from;
    while i < chars.len()
        invariant
            from <= i <= chars@.len(),
            mark@ == risk_mark(),
            next_mark(chars@, from as int) == next_mark(chars@, i as int),
        decreases chars@.len() - i,
    {
        if match_at(chars, mark, i) {
            return Some(i);
        }
        i += 1;
    }
    None
}

/// Splits a text at its `Risky:` marks, so that they can be set off.
pub fn highlight_risky(text: &str) -> (r: Vec<Segment>)
    ensures
        segment_views(r@) == marked(text@),
{
    let chars = to_chars(text);
    let mark = to_chars("Risky:");
    proof {
        reveal_strlit("Risky:");
        assert(mark@ =~= risk_mark());
    }
    let mut out: Vec<Segment> = Vec::new();
    let mut from: usize = 0;
    let ghost all = marked_from(chars@, 0);
    assert(segment_views(out@) + marked_from(chars@, 0) =~= all);
    loop
        invariant_except_break
            all == segment_views(out@) + marked_from(chars@, from as int),
        invariant
            from <= chars@.len(),
            chars@ == text@,
            mark@ == risk_mark(),
        ensures
            segment_views(out@) == all,
        decreases chars@.len() - from,
    {
        let ghost before = segment_views(out@);
        match find_mark(&chars, &mark, from) {
            Some(at) => {
                proof {
                    next_mark_is_first(chars@, from as int);
                }
                let ghost stretch = chars@.subrange(from as int, at as int);
                if at > from {
                    out.push(Segment { text: from_chars(&chars, from, at), risky: false });
                }
                assert(segment_views(out@) =~= before + plain(stretch));
                let ghost middle = segment_views(out@);
                out.push(Segment { text: from_chars(&chars, at, at + 6), risky: true });
                let ghost piece = SegmentView { text: risk_mark(), risky: true };
                assert(out@[out@.len() - 1]@ == piece);
                assert(segment_views(out@) =~= middle.push(piece));
                from = at + 6;
                assert(segment_views(out@) + marked_from(chars@, from as int) =~= before + (plain(
                    stretch,
                ) + seq![piece] + marked_from(chars@, from as int)));
            },
            None => {
                let ghost stretch = chars@.skip(from as int);
                if from < chars.len() {
                    out.push(
                        Segment { text: from_chars(&chars, from, chars.len()), risky: false },
                    );
                    assert(out@[out@.len() - 1].text@ =~= stretch);
                }
                assert(segment_views(out@) =~= before + plain(stretch));
                break ;
            },
        }
    }
    if out.len() == 0 {
        assert(all.len() == 0);
        out.push(Segment { text: text.to_owned(), risky: false });
        assert(segment_views(out@) =~= marked(text@));
    } else {
        assert(segment_views(out@).len() > 0);
    }
    out
}

// ---------------------------------------------------------------------------
// Tree
// ---------------------------------------------------------------------------

/// Two spaces per level.
pub open spec fn indent(depth: nat) -> Seq<char> {
    Seq::new(2 * depth, |i: int| ' ')
}

/// A row, indented by its depth.
pub fn row_text(row: &Row) -> (r: String)
    ensures
        r@ == indent(row@.depth as nat) + row@.label,
{
    let mut out = String::new();
    let mut i: usize = 0;
    assert(out@ =~= indent(0));
    while i < row.depth
        invariant
            i <= row.depth,
            out@ == indent(i as nat),
        decreases row.depth - i,
    {
        out.push(' ');
        out.push(' ');
        i += 1;
        assert(out@ =~= indent(i as nat));
    }
    out.append(row.label.as_str());
    out
}

/// The title of the tree pane.
pub fn tree_title(show_help: bool, rows: usize) -> (r: String)
    ensures
        r@ == (if show_help {
            " Plan (? close help) "@
        } else if rows == 0 {
            " Plan (empty — run :plan to populate) "@
        } else {
            " Plan ("@ + decimal(rows as nat) + " rows) "@
        }),
{
    if show_help {
        " Plan (? close help) ".to_owned()
    } else if rows == 0 {
        " Plan (empty — run :plan to populate) ".to_owned()
    } else {
        let mut out = " Plan (".to_owned();
        out.append(decimal_text(rows as u128).as_str());
        out.append(" rows) ");
        out
    }
}

// ---------------------------------------------------------------------------
// Output
// ---------------------------------------------------------------------------

/// The last lines of a log, as many as fit a pane of this height with its
/// border.
pub open spec fn log_tail(output: Seq<Seq<char>>, height: int) -> Seq<Seq<char>> {
    let room = if height > 2 {
        height - 2
    } else {
        0
    };
    if output.len() > room {
        output.skip(output.len() - room)
    } else {
        output
    }
}

/// The lines of the log that a pane of this height shows.
pub fn visible_output(output: &Vec<String>, height: u16) -> (r: Vec<String>)
    ensures
        texts(r@) == log_tail(texts(output@), height as int),
{
    let room: usize = if height > 2 {
        height as usize - 2
    } else {
        0
    };
    let start: usize = if output.len() > room {
        output.len() - room
    } else {
        0
    };
    let mut out: Vec<String> = Vec::new();
    let ghost all = texts(output@);
    let mut i: usize = start;
    assert(texts(out@) =~= all.subrange(start as int, start as int));
    while i < output.len()
        invariant
            start <= i <= output@.len(),
            all == texts(output@),
            texts(out@) == all.subrange(start as int, i as int),
        decreases output@.len() - i,
    {
        let ghost before = texts(out@);
        out.push(output[i].clone());
        assert(texts(out@) =~= before.push(all[i as int]));
        i += 1;
        assert(texts(out@) =~= all.subrange(start as int, i as int));
    }
    assert(all.subrange(start as int, i as int) =~= log_tail(all, height as int));
    out
}

/// The title of the output pane.
pub fn output_title(status: RunStatus) -> (r: &'static str)
    ensures
        r@ == (match status {
            RunStatus::Running => " Output (running…) "@,
            RunStatus::Idle => " Output "@,
        }),
{
    match status {
        RunStatus::Running => " Output (running…) ",
        RunStatus::Idle => " Output ",
    }
}

// ---------------------------------------------------------------------------
// Laws
// ---------------------------------------------------------------------------

/// The texts of segments.
pub open spec fn segment_texts(segments: Seq<SegmentView>) -> Seq<Seq<char>> {
    segments.map_values(|s: SegmentView| s.text)
}

proof fn concat_join(a: Seq<Seq<char>>, b: Seq<Seq<char>>)
    ensures
        concat_all(a + b) == concat_all(a) + concat_all(b),
    decreases b.len(),
{
    if b.len() == 0 {
        assert(a + b =~= a);
        assert(concat_all(a) + concat_all(b) =~= concat_all(a));
    } else {
        assert((a + b).drop_last() =~= a + b.drop_last());
        concat_join(a, b.drop_last());
        assert(concat_all(a) + concat_all(b) =~= concat_all(a) + concat_all(b.drop_last())
            + b.last());
    }
}

proof fn concat_one(t: Seq<char>)
    ensures
        concat_all(seq![t]) == t,
{
    reveal_with_fuel(concat_all, 2);
    assert(concat_all(seq![t]) =~= t);
}

proof fn plain_text(t: Seq<char>)
    ensures
        concat_all(segment_texts(plain(t))) == t,
{
    if t.len() > 0 {
        assert(segment_texts(plain(t)) =~= seq![t]);
        concat_one(t);
    } else {
        assert(segment_texts(plain(t)) =~= Seq::empty());
        assert(t =~= Seq::empty());
    }
}

proof fn marked_from_keeps_text(text: Seq<char>, from: int)
    requires
        0 <= from <= text.len(),
    ensures
        concat_all(segment_texts(marked_from(text, from))) == text.skip(from),
    decreases text.len() - from,
{
    next_mark_is_first(text, from);
    match next_mark(text, from) {
        Some(at) => {
            let stretch = text.subrange(from, at);
            let piece = SegmentView { text: risk_mark(), risky: true };
            let rest = marked_from(text, at + 6);
            marked_from_keeps_text(text, at + 6);
            plain_text(stretch);
            concat_one(risk_mark());
            assert(segment_texts(seq![piece]) =~= seq![risk_mark()]);
            assert(segment_texts(marked_from(text, from)) =~= segment_texts(plain(stretch)) + seq![
                risk_mark(),
            ] + segment_texts(rest));
            concat_join(segment_texts(plain(stretch)), seq![risk_mark()]);
            concat_join(
                segment_texts(plain(stretch)) + seq![risk_mark()],
                segment_texts(rest),
            );
            assert(text.subrange(at, at + 6) == risk_mark());
            assert(text.skip(from) =~= stretch + text.subrange(at, at + 6) + text.skip(at + 6));
        },
        None => {
            plain_text(text.skip(from));
        },
    }
}

/// Setting off the risk marks changes no text: the segments put together are
/// the text.
pub proof fn highlighting_keeps_the_text(text: Seq<char>)
    ensures
        concat_all(segment_texts(marked(text))) == text,
{
    marked_from_keeps_text(text, 0);
    assert(text.skip(0) =~= text);
    if marked_from(text, 0).len() == 0 {
        assert(segment_texts(marked(text)) =~= seq![text]);
        concat_one(text);
    }
}

proof fn marked_from_sets_off_marks(text: Seq<char>, from: int, i: int)
    requires
        0 <= from <= text.len(),
        0 <= i < marked_from(text, from).len(),
    ensures
        ({
            let s = marked_from(text, from)[i];
            &&& s.risky ==> s.text == risk_mark()
            &&& !s.risky ==> forall|k: int| !#[trigger] occurs_at(s.text, risk_mark(), k)
        }),
    decreases text.len() - from,
{
    next_mark_is_first(text, from);
    match next_mark(text, from) {
        Some(at) => {
            let stretch = text.subrange(from, at);
            let n = plain(stretch).len();
            if i < n {
                no_mark_within(text, from, at);
            } else if i > n {
                marked_from_sets_off_marks(text, at + 6, i - n - 1);
            }
        },
        None => {
            no_mark_within(text, from, text.len() as int);
            assert(text.skip(from) =~= text.subrange(from, text.len() as int));
        },
    }
}

/// A stretch of text before the next mark holds none.
proof fn no_mark_within(text: Seq<char>, from: int, to: int)
    requires
        0 <= from <= to <= text.len(),
        forall|k: int| from <= k < to ==> !#[trigger] occurs_at(text, risk_mark(), k),
    ensures
        forall|k: int| !#[trigger] occurs_at(text.subrange(from, to), risk_mark(), k),
{
    let stretch = text.subrange(from, to);
    assert forall|k: int| !#[trigger] occurs_at(stretch, risk_mark(), k) by {
        if occurs_at(stretch, risk_mark(), k) {
            assert(stretch.subrange(k, k + 6) =~= text.subrange(from + k, from + k + 6));
            assert(occurs_at(text, risk_mark(), from + k));
        }
    }
}

/// Every risk mark is set off, and nothing else is: what is set off is the
/// mark, and what is not holds none.
pub proof fn highlighting_sets_off_every_mark(text: Seq<char>, i: int)
    requires
        0 <= i < marked(text).len(),
    ensures
        marked(text)[i].risky ==> marked(text)[i].text == risk_mark(),
        !marked(text)[i].risky ==> forall|k: int|
            !#[trigger] occurs_at(marked(text)[i].text, risk_mark(), k),
{
    if marked_from(text, 0).len() > 0 {
        marked_from_sets_off_marks(text, 0, i);
    } else {
        next_mark_is_first(text, 0);
        assert(text.skip(0) =~= text);
    }
}

proof fn stretches_are_whole(text: Seq<char>, from: int, i: int)
    requires
        0 <= from <= text.len(),
        0 <= i < marked_from(text, from).len(),
    ensures
        marked_from(text, from)[i].text.len() > 0,
        !marked_from(text, from)[i].risky && i + 1 < marked_from(text, from).len()
            ==> marked_from(text, from)[i + 1].risky,
    decreases text.len() - from,
{
    next_mark_is_first(text, from);
    match next_mark(text, from) {
        Some(at) => {
            let n = plain(text.subrange(from, at)).len();
            if i > n {
                stretches_are_whole(text, at + 6, i - n - 1);
            }
        },
        None => {},
    }
}

/// What is set off reads `Risky:`. A stretch between two marks is one segment,
/// and no segment is empty unless the text is.
pub proof fn segments_are_as_long_as_they_may_be(text: Seq<char>, i: int)
    requires
        0 <= i < marked(text).len(),
    ensures
        marked(text)[i].risky ==> marked(text)[i].text == "Risky:"@,
        text.len() > 0 ==> marked(text)[i].text.len() > 0,
        text.len() == 0 ==> marked(text).len() == 1 && marked(text)[0].text.len() == 0,
        !marked(text)[i].risky && i + 1 < marked(text).len() ==> marked(text)[i + 1].risky,
{
    reveal_strlit("Risky:");
    assert("Risky:"@ =~= risk_mark());
    highlighting_sets_off_every_mark(text, i);
    if marked_from(text, 0).len() > 0 {
        stretches_are_whole(text, 0, i);
    }
    if text.len() == 0 {
        next_mark_is_first(text, 0);
        assert(marked_from(text, 0) =~= Seq::empty());
    }
}

/// The output pane shows the end of the log: as many lines as it has rows
/// without its border, and all of the log where it has fewer.
pub proof fn panes_show_the_end_of_the_log(output: Seq<Seq<char>>, height: int)
    requires
        0 <= height,
    ensures
        log_tail(output, height).is_suffix_of(output),
        height <= 2 ==> log_tail(output, height).len() == 0,
        height > 2 && output.len() + 2 <= height ==> log_tail(output, height) == output,
        height > 2 && output.len() + 2 > height ==> log_tail(output, height).len() + 2 == height,
{
    let t = log_tail(output, height);
    assert(output.skip(output.len() - t.len()) =~= t);
}

/// The header names the current workspace and, where the list is known, tells
/// how many there are.
pub proof fn headers_count_the_workspaces(workspaces: WorkspaceView, name: Seq<char>)
    requires
        workspaces.current == Some(name),
    ensures
        name.is_prefix_of(workspace_text(workspaces)),
        workspaces.all.len() == 0 ==> workspace_text(workspaces) == name,
        workspaces.all.len() > 0 ==> {
            let rest = workspace_text(workspaces).skip(name.len() as int);
            &&& rest.len() > 28 && rest.take(3) == "  ("@
            &&& number_written(rest.subrange(3, rest.len() - 25)) == Some(workspaces.all.len())
            &&& rest.skip(rest.len() - 25) == " available — :ws to list)"@
        },
{
    reveal_strlit("  (");
    reveal_strlit(" available — :ws to list)");
    let n = workspaces.all.len();
    let text = workspace_text(workspaces);
    assert(text.take(name.len() as int) =~= name);
    if n > 0 {
        decimals_read_back(n);
        let rest = text.skip(name.len() as int);
        let end = " available — :ws to list)"@;
        assert(end.len() == 25);
        assert(rest =~= "  ("@ + decimal(n) + end);
        assert(rest.take(3) =~= "  ("@);
        assert(rest.subrange(3, rest.len() - 25) =~= decimal(n));
        assert(rest.skip(rest.len() - 25) =~= end);
    }
}

/// A row is indented by two spaces for each level, and by nothing else.
pub proof fn indents_are_two_spaces_a_level(depth: nat)
    ensures
        indent(0).len() == 0,
        indent(depth + 1) == indent(depth) + seq![' ', ' '],
{
    assert(indent(depth + 1) =~= indent(depth) + seq![' ', ' ']);
}

} // verus!
