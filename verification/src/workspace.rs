//! Terraform workspaces, as `terraform workspace show` and `terraform
//! workspace list` report them.

use vstd::prelude::*;

use crate::plan::{clone_text_opt, clone_texts, text_opt};
use crate::sequences::{filter_concat, filter_push, filter_take};
use crate::text::{
    blank, decode_lossy, leading_marks_are_taken_away, lines, lines_are_split_at_newlines, lines_of,
    lossy_text, strip_leading, texts, trim, trimmed, trimming_takes_white_space_away, white_space,
    without_leading,
};

verus! {

/// Current + available workspaces, as reported by `terraform workspace`.
#[derive(Debug)]
pub struct WorkspaceState {
    pub current: Option<String>,
    pub all: Vec<String>,
}

/// What a [`WorkspaceState`] stands for.
pub struct WorkspaceView {
    pub current: Option<Seq<char>>,
    pub all: Seq<Seq<char>>,
}

impl View for WorkspaceState {
    type V = WorkspaceView;

    open spec fn view(&self) -> WorkspaceView {
        WorkspaceView { current: text_opt(self.current), all: texts(self.all@) }
    }
}

impl Clone for WorkspaceState {
    fn clone(&self) -> (r: Self)
        ensures
            r@ == self@,
    {
        WorkspaceState { current: clone_text_opt(&self.current), all: clone_texts(&self.all) }
    }
}

impl Default for WorkspaceState {
    fn default() -> (r: Self)
        ensures
            r@.current is None,
            r@.all.len() == 0,
    {
        WorkspaceState { current: None, all: Vec::new() }
    }
}

/// What a finished command left.
pub struct CommandOutput {
    pub success: bool,
    pub stdout: Vec<u8>,
}

/// The text that a command wrote, if it ran and succeeded.
pub open spec fn written(output: Option<CommandOutput>) -> Option<Seq<char>> {
    match output {
        Some(o) => if o.success {
            Some(lossy_text(o.stdout@))
        } else {
            None
        },
        None => None,
    }
}

/// The current workspace that `workspace show` names: the trimmed text, unless
/// nothing is left of it.
pub open spec fn shown_workspace(text: Option<Seq<char>>) -> Option<Seq<char>> {
    match text {
        Some(t) => if trimmed(t).len() > 0 {
            Some(trimmed(t))
        } else {
            None
        },
        None => None,
    }
}

/// The name on one line of `workspace list`: without the mark of the current
/// workspace and white space around it.
pub open spec fn listed_name(line: Seq<char>) -> Seq<char> {
    trimmed(strip_leading(line, '*'))
}

/// The names that `workspace list` gives, in order, without empty ones.
pub open spec fn listed_workspaces(text: Option<Seq<char>>) -> Seq<Seq<char>> {
    match text {
        Some(t) => lines_of(t).map_values(|line: Seq<char>| listed_name(line)).filter(
            |name: Seq<char>| name.len() > 0,
        ),
        None => Seq::empty(),
    }
}

fn output_text(output: &Option<CommandOutput>) -> (r: Option<String>)
    ensures
        text_opt(r) == written(*output),
{
    match output {
        Some(o) => if o.success {
            Some(decode_lossy(&o.stdout))
        } else {
            None
        },
        None => None,
    }
}

/// The current workspace that the text of `workspace show` names.
pub fn parse_shown(text: &Option<String>) -> (r: Option<String>)
    ensures
        text_opt(r) == shown_workspace(text_opt(*text)),
{
    match text {
        Some(t) => {
            let name = trim(t.as_str());
            if name.as_str().is_empty() {
                None
            } else {
                Some(name)
            }
        },
        None => None,
    }
}

/// The names that the text of `workspace list` gives.
pub fn parse_listed(text: &Option<String>) -> (r: Vec<String>)
    ensures
        texts(r@) == listed_workspaces(text_opt(*text)),
{
    let mut out: Vec<String> = Vec::new();
    match text {
        None => {
            assert(texts(out@) =~= Seq::empty());
        },
        Some(t) => {
            let all = lines(t.as_str());
            let ghost names = lines_of(t@).map_values(|line: Seq<char>| listed_name(line));
            let ghost kept = |name: Seq<char>| name.len() > 0;
            let mut i: usize = 0;
            assert(names.take(0).filter(kept) =~= Seq::empty()) by {
                reveal(Seq::filter);
            }
            assert(texts(out@) =~= names.take(0).filter(kept));
            while i < all.len()
                invariant
                    i <= all@.len(),
                    texts(all@) == lines_of(t@),
                    names == lines_of(t@).map_values(|line: Seq<char>| listed_name(line)),
                    kept == |name: Seq<char>| name.len() > 0,
                    texts(out@) == names.take(i as int).filter(kept),
                decreases all@.len() - i,
            {
                let ghost before = out@;
                assert(texts(all@)[i as int] == all@[i as int]@);
                let name = trim(without_leading(all[i].as_str(), '*').as_str());
                assert(name@ == names[i as int]);
                proof {
                    filter_take(names, i as int, kept);
                }
                if !name.as_str().is_empty() {
                    out.push(name);
                    assert(texts(out@) =~= texts(before).push(names[i as int]));
                }
                i += 1;
            }
            assert(names.take(i as int) =~= names);
        },
    }
    out
}

/// The workspaces that the two commands report. A command that could not be
/// run is `None`.
pub fn workspace_state(show: &Option<CommandOutput>, list: &Option<CommandOutput>) -> (r:
    WorkspaceState)
    ensures
        r@.current == shown_workspace(written(*show)),
        r@.all == listed_workspaces(written(*list)),
{
    WorkspaceState {
        current: parse_shown(&output_text(show)),
        all: parse_listed(&output_text(list)),
    }
}

// ---------------------------------------------------------------------------
// Laws
// ---------------------------------------------------------------------------

/// `workspace show` names its output without the white space around it; where
/// there is nothing else, or no output, there is no current workspace.
pub proof fn shown_names_read_back(front: Seq<char>, name: Seq<char>, back: Seq<char>)
    requires
        blank(front),
        blank(back),
        name.len() > 0 ==> !white_space(name[0]) && !white_space(name.last()),
    ensures
        name.len() > 0 ==> shown_workspace(Some(front + name + back)) == Some(name),
        name.len() == 0 ==> shown_workspace(Some(front + name + back)) is None,
        shown_workspace(None) is None,
{
    trimming_takes_white_space_away(front, name, back);
}

/// A command that could not be run or that failed wrote nothing; one that
/// succeeded wrote its output.
pub proof fn failed_commands_wrote_nothing(output: CommandOutput)
    ensures
        written(None) is None,
        !output.success ==> written(Some(output)) is None,
        output.success ==> written(Some(output)) == Some(lossy_text(output.stdout@)),
        listed_workspaces(None).len() == 0,
{
}

/// The lines of `workspace list` read back: a name with any stars before it and
/// white space around it. A line without a name names nothing.
pub proof fn listed_names_read_back(
    stars: nat,
    pad: Seq<char>,
    name: Seq<char>,
    back: Seq<char>,
    rest: Seq<char>,
)
    requires
        blank(pad),
        blank(back),
        name.len() > 0 ==> !white_space(name[0]) && !white_space(name.last()),
        pad.len() == 0 && name.len() > 0 ==> name[0] != '*',
        !pad.contains('\n') && !name.contains('\n') && !back.contains('\n'),
        (pad + name + back).len() > 0 ==> (pad + name + back).last() != '\r',
    ensures
        listed_workspaces(
            Some(Seq::new(stars, |i: int| '*') + (pad + name + back) + seq!['\n'] + rest),
        ) == (if name.len() > 0 {
            seq![name]
        } else {
            Seq::empty()
        }) + listed_workspaces(Some(rest)),
{
    let marks = Seq::new(stars, |i: int| '*');
    let tail = pad + name + back;
    let line = marks + tail;
    assert(!line.contains('\n')) by {
        if line.contains('\n') {
            let i = line.index_of('\n') - stars;
            if i < pad.len() {
                assert(pad[i] == '\n');
            } else if i < pad.len() + name.len() {
                assert(name[i - pad.len()] == '\n');
            } else {
                assert(back[i - pad.len() - name.len()] == '\n');
            }
        }
    }
    if tail.len() > 0 {
        assert(line.last() == tail.last());
        assert(tail[0] != '*') by {
            if pad.len() > 0 {
                assert(white_space(pad[0]));
            } else if name.len() == 0 {
                assert(white_space(back[0]));
            }
        }
    } else if line.len() > 0 {
        assert(line.last() == marks[stars - 1]);
    }
    lines_are_split_at_newlines(line, rest);
    leading_marks_are_taken_away(stars, tail, '*');
    trimming_takes_white_space_away(pad, name, back);
    assert(listed_name(line) == name);
    let f = |line: Seq<char>| listed_name(line);
    let kept = |name: Seq<char>| name.len() > 0;
    let all = lines_of(line + seq!['\n'] + rest);
    assert(all.map_values(f) =~= seq![name] + lines_of(rest).map_values(f));
    filter_concat(seq![name], lines_of(rest).map_values(f), kept);
    assert(Seq::<Seq<char>>::empty().push(name) =~= seq![name]);
    filter_push(Seq::<Seq<char>>::empty(), name, kept);
    assert(Seq::<Seq<char>>::empty().filter(kept) =~= Seq::empty()) by {
        reveal(Seq::filter);
    }
    if name.len() > 0 {
        assert(seq![name].filter(kept) =~= seq![name]);
    }
}

/// The workspaces are seen as they are, each in its place.
pub proof fn workspaces_are_seen_whole(state: WorkspaceState, i: int)
    ensures
        state.current matches Some(name) ==> state@.current == Some(name@),
        state.current is None ==> state@.current is None,
        state@.all.len() == state.all@.len(),
        0 <= i < state.all@.len() ==> state@.all[i] == state.all@[i]@,
{
}

} // verus!
