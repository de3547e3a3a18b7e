//! The plan summary that a chat model writes: what is asked, and what is shown
//! for each way the call can end.
//!
//! The system prompt instructs the model to surface risky changes with
//! a `Risky:` prefix — that's the product signal.

use vstd::prelude::*;

use crate::sequences::first;
use crate::text::{
    blank, from_chars, to_chars, trim, trimmed, trimming_takes_white_space_away, white_space,
};

verus! {

pub const OPENAI_URL: &'static str = "https://api.openai.com/v1/chat/completions";

pub const REQUEST_TIMEOUT_SECS: u64 = 30;

pub const SYSTEM_PROMPT: &'static str = "You review terraform plans. The first line of \
the user message is the authoritative plan footer (e.g. 'Plan: 2 to add, 1 to change, \
0 to destroy'). NEVER contradict these numbers or invent your own counts. Summarize \
the plan in 2-3 sentences, quoting the footer numbers exactly. Call out risky changes \
with a 'Risky:' prefix on a separate clause. Risky = destroys, replaces of stateful \
resources, security_group ingress opened to 0.0.0.0/0, IAM wildcards, RDS \
deletion_protection disabled, EBS unencrypted. If nothing is risky, say so plainly \
instead of inventing risks. Be terse.";

/// How many characters of an error body are shown.
pub const SNIPPET_CHARS: usize = 200;

/// Outcome of the LLM call, ready to render in the summary pane.
#[derive(Debug)]
pub enum Summary {
    Ready(String),
    Disabled(&'static str),
    Error(String),
}

/// What a [`Summary`] stands for.
pub enum SummaryView {
    Ready(Seq<char>),
    Disabled(Seq<char>),
    Error(Seq<char>),
}

impl View for Summary {
    type V = SummaryView;

    open spec fn view(&self) -> SummaryView {
        match self {
            Summary::Ready(s) => SummaryView::Ready(s@),
            Summary::Disabled(s) => SummaryView::Disabled(s@),
            Summary::Error(s) => SummaryView::Error(s@),
        }
    }
}

impl SummaryView {
    /// The text to show, whatever it is.
    pub open spec fn text(self) -> Seq<char> {
        match self {
            SummaryView::Ready(s) => s,
            SummaryView::Disabled(s) => s,
            SummaryView::Error(s) => s,
        }
    }
}

impl Summary {
    /// The text to show, whatever it is.
    pub fn text(&self) -> (r: &str)
        ensures
            r@ == self@.text(),
    {
        match self {
            Summary::Ready(s) => s.as_str(),
            Summary::Disabled(s) => s,
            Summary::Error(s) => s.as_str(),
        }
    }
}

impl Clone for Summary {
    fn clone(&self) -> (r: Self)
        ensures
            r@ == self@,
    {
        match self {
            Summary::Ready(s) => Summary::Ready(s.clone()),
            Summary::Disabled(s) => Summary::Disabled(s),
            Summary::Error(s) => Summary::Error(s.clone()),
        }
    }
}

/// Why there is no summary.
pub open spec fn disabled_text(no_ai_flag: bool) -> Seq<char> {
    if no_ai_flag {
        "AI summary disabled (--no-ai)."@
    } else {
        "AI summary disabled: OPENAI_API_KEY not set. Set the key or pass --no-ai."@
    }
}

/// Why there is no summary.
pub fn disabled_reason(no_ai_flag: bool) -> (r: &'static str)
    ensures
        r@ == disabled_text(no_ai_flag),
{
    if no_ai_flag {
        "AI summary disabled (--no-ai)."
    } else {
        "AI summary disabled: OPENAI_API_KEY not set. Set the key or pass --no-ai."
    }
}

// ---------------------------------------------------------------------------
// The request
// ---------------------------------------------------------------------------

/// One message of a chat.
pub struct Message {
    pub role: String,
    pub content: String,
}

/// The messages that ask for a summary of `digest`: the standing instruction,
/// then the digest.
pub fn chat_messages(digest: &str) -> (r: Vec<Message>)
    ensures
        r@.len() == 2,
        r@[0].role@ == "system"@,
        r@[0].content@ == SYSTEM_PROMPT@,
        r@[1].role@ == "user"@,
        r@[1].content@ == digest@,
{
    let mut out: Vec<Message> = Vec::new();
    out.push(Message { role: "system".to_owned(), content: SYSTEM_PROMPT.to_owned() });
    out.push(Message { role: "user".to_owned(), content: digest.to_owned() });
    out
}

/// The API key to use: the one that is set, unless it is empty.
pub fn usable_key(key: Option<String>) -> (r: Option<String>)
    ensures
        r == (match key {
            Some(k) => if k@.len() > 0 {
                Some(k)
            } else {
                None
            },
            None => None,
        }),
{
    match key {
        Some(k) => if k.as_str().is_empty() {
            None
        } else {
            Some(k)
        },
        None => None,
    }
}

// ---------------------------------------------------------------------------
// The reply
// ---------------------------------------------------------------------------

/// How a call to the chat model can end.
pub enum ChatOutcome {
    /// No usable key, so no call.
    NoKey,
    /// The HTTP client could not be set up; its message.
    ClientFailed(String),
    /// No answer within the time limit.
    TimedOut,
    /// The request failed otherwise; the client's message.
    RequestFailed(String),
    /// An answer that is no success: its status code, the status as a text, and
    /// the body.
    Refused { code: u16, status: String, body: String },
    /// A success whose body could not be read; the reader's message.
    Unreadable(String),
    /// A success: the content of each choice.
    Replied(Vec<String>),
}

/// What may help with an unsuccessful status.
pub open spec fn hint_for(code: u16) -> Seq<char> {
    if code == 401 || code == 403 {
        " (check OPENAI_API_KEY)"@
    } else if code == 429 {
        " (rate limited — try again in a moment)"@
    } else if 500 <= code <= 599 {
        " (OpenAI server error)"@
    } else {
        ""@
    }
}

/// What is shown for an outcome.
pub open spec fn summary_for(outcome: ChatOutcome) -> SummaryView {
    match outcome {
        ChatOutcome::NoKey => SummaryView::Disabled(disabled_text(false)),
        ChatOutcome::ClientFailed(e) => SummaryView::Error("http client init failed: "@ + e@),
        ChatOutcome::TimedOut => SummaryView::Error("AI summary timed out after 30s."@),
        ChatOutcome::RequestFailed(e) => SummaryView::Error("AI summary request failed: "@ + e@),
        ChatOutcome::Refused { code, status, body } => SummaryView::Error(
            "AI summary returned HTTP "@ + status@ + hint_for(code) + ": "@ + first(
                body@,
                SNIPPET_CHARS as nat,
            ),
        ),
        ChatOutcome::Unreadable(e) => SummaryView::Error(
            "AI summary response parse failed: "@ + e@,
        ),
        ChatOutcome::Replied(contents) => if contents@.len() > 0 {
            SummaryView::Ready(trimmed(contents@[0]@))
        } else {
            SummaryView::Error("AI summary returned no choices."@)
        },
    }
}

fn hint(code: u16) -> (r: &'static str)
    ensures
        r@ == hint_for(code),
{
    if code == 401 || code == 403 {
        " (check OPENAI_API_KEY)"
    } else if code == 429 {
        " (rate limited — try again in a moment)"
    } else if code >= 500 && code <= 599 {
        " (OpenAI server error)"
    } else {
        ""
    }
}

/// The first characters of an error body.
fn snippet(body: &str) -> (r: String)
    ensures
        r@ == first(body@, SNIPPET_CHARS as nat),
{
    let chars = to_chars(body);
    let end = if chars.len() > SNIPPET_CHARS {
        SNIPPET_CHARS
    } else {
        chars.len()
    };
    let out = from_chars(&chars, 0, end);
    assert(out@ =~= first(body@, SNIPPET_CHARS as nat));
    out
}

/// The summary to show for an outcome, so that there always is one.
pub fn summarize(outcome: ChatOutcome) -> (r: Summary)
    ensures
        r@ == summary_for(outcome),
{
    match outcome {
        ChatOutcome::NoKey => Summary::Disabled(disabled_reason(false)),
        ChatOutcome::ClientFailed(e) => {
            let mut out = "http client init failed: ".to_owned();
            out.append(e.as_str());
            Summary::Error(out)
        },
        ChatOutcome::TimedOut => Summary::Error("AI summary timed out after 30s.".to_owned()),
        ChatOutcome::RequestFailed(e) => {
            let mut out = "AI summary request failed: ".to_owned();
            out.append(e.as_str());
            Summary::Error(out)
        },
        ChatOutcome::Refused { code, status, body } => {
            let mut out = "AI summary returned HTTP ".to_owned();
            out.append(status.as_str());
            out.append(hint(code));
            out.append(": ");
            out.append(snippet(body.as_str()).as_str());
            Summary::Error(out)
        },
        ChatOutcome::Unreadable(e) => {
            let mut out = "AI summary response parse failed: ".to_owned();
            out.append(e.as_str());
            Summary::Error(out)
        },
        ChatOutcome::Replied(contents) => if contents.len() > 0 {
            Summary::Ready(trim(contents[0].as_str()))
        } else {
            Summary::Error("AI summary returned no choices.".to_owned())
        },
    }
}

// ---------------------------------------------------------------------------
// Laws
// ---------------------------------------------------------------------------

/// A reply is shown without white space around it: the first choice, whatever
/// others there are. Without a choice there is no summary.
pub proof fn first_choice_is_shown(contents: Vec<String>, front: Seq<char>, text: Seq<char>, back: Seq<char>)
    requires
        blank(front),
        blank(back),
        text.len() > 0 ==> !white_space(text[0]) && !white_space(text.last()),
    ensures
        contents@.len() > 0 && contents@[0]@ == front + text + back ==> summary_for(
            ChatOutcome::Replied(contents),
        ) == SummaryView::Ready(text),
        contents@.len() == 0 ==> summary_for(ChatOutcome::Replied(contents)) is Error,
{
    trimming_takes_white_space_away(front, text, back);
}

/// Only a reply is a summary. No key switches summaries off, and every failure
/// is an error whose text ends in the message that came with it.
pub proof fn failures_are_told(outcome: ChatOutcome)
    ensures
        summary_for(outcome) is Ready <==> (outcome matches ChatOutcome::Replied(contents)
            && contents@.len() > 0),
        summary_for(outcome) is Disabled <==> outcome is NoKey,
        outcome matches ChatOutcome::ClientFailed(e) ==> e@.is_suffix_of(summary_for(outcome).text()),
        outcome matches ChatOutcome::RequestFailed(e) ==> e@.is_suffix_of(
            summary_for(outcome).text(),
        ),
        outcome matches ChatOutcome::Unreadable(e) ==> e@.is_suffix_of(summary_for(outcome).text()),
{
    match outcome {
        ChatOutcome::ClientFailed(e) => {
            ends_in("http client init failed: "@, e@);
        },
        ChatOutcome::RequestFailed(e) => {
            ends_in("AI summary request failed: "@, e@);
        },
        ChatOutcome::Unreadable(e) => {
            ends_in("AI summary response parse failed: "@, e@);
        },
        _ => {},
    }
}

proof fn ends_in(front: Seq<char>, back: Seq<char>)
    ensures
        back.is_suffix_of(front + back),
{
    assert((front + back).skip(front.len() as int) =~= back);
}

/// An answer that is no success is told with its status, a hint, and the first
/// 200 characters of its body. The hint depends on the status code: on the key
/// for 401 and 403, on the rate limit for 429, on the server from 500 to 599;
/// other codes have none.
pub proof fn refusals_are_told(code: u16, status: String, body: String)
    ensures
        ({
            let text = summary_for(ChatOutcome::Refused { code, status, body }).text();
            let front = "AI summary returned HTTP "@ + status@;
            let shown = if body@.len() < 200 {
                body@
            } else {
                body@.take(200)
            };
            &&& summary_for(ChatOutcome::Refused { code, status, body }) is Error
            &&& code == 401 || code == 403 ==> text == front + " (check OPENAI_API_KEY)"@ + ": "@
                + shown
            &&& code == 429 ==> text == front + " (rate limited — try again in a moment)"@ + ": "@
                + shown
            &&& 500 <= code < 600 ==> text == front + " (OpenAI server error)"@ + ": "@ + shown
            &&& code != 401 && code != 403 && code != 429 && !(500 <= code < 600) ==> text == front
                + ": "@ + shown
        }),
{
    reveal_strlit("");
    let shown = if body@.len() < 200 {
        body@
    } else {
        body@.take(200)
    };
    assert(shown =~= first(body@, 200));
    let front = "AI summary returned HTTP "@ + status@;
    assert(front + ""@ =~= front);
}

/// A summary is seen as it is.
pub proof fn summaries_are_seen_whole(summary: Summary)
    ensures
        summary matches Summary::Ready(text) ==> summary@ == SummaryView::Ready(text@),
        summary matches Summary::Disabled(text) ==> summary@ == SummaryView::Disabled(text@),
        summary matches Summary::Error(text) ==> summary@ == SummaryView::Error(text@),
        summary matches Summary::Ready(text) ==> summary@.text() == text@,
        summary matches Summary::Disabled(text) ==> summary@.text() == text@,
        summary matches Summary::Error(text) ==> summary@.text() == text@,
{
}

} // verus!
