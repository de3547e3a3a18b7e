//! The command line that is typed at the `:` prompt, as words.

use vstd::prelude::*;

use crate::text::{joined, texts, to_chars, white_space};

verus! {

/// Whether `c` opens a quotation.
pub open spec fn quote_mark(c: char) -> bool {
    c == '\'' || c == '"'
}

/// A word, unless it is empty.
pub open spec fn word(cur: Seq<char>) -> Seq<Seq<char>> {
    if cur.len() > 0 {
        seq![cur]
    } else {
        Seq::empty()
    }
}

/// The words in the rest of a line, where `cur` is the word so far and `quote`
/// the quotation mark that is open. A mark ends at the next one like it; a
/// backslash takes the next character as it is; outside quotations white space
/// ends a word.
pub open spec fn words_from(s: Seq<char>, cur: Seq<char>, quote: Option<char>) -> Seq<Seq<char>>
    decreases s.len(),
{
    if s.len() == 0 {
        word(cur)
    } else {
        let c = s[0];
        let rest = s.drop_first();
        if quote is None && quote_mark(c) {
            words_from(rest, cur, Some(c))
        } else if quote == Some(c) {
            words_from(rest, cur, None)
        } else if c == '\\' {
            if rest.len() > 0 {
                words_from(rest.drop_first(), cur.push(rest[0]), quote)
            } else {
                word(cur)
            }
        } else if quote is None && white_space(c) {
            word(cur) + words_from(rest, Seq::empty(), None)
        } else {
            words_from(rest, cur.push(c), quote)
        }
    }
}

/// The words of a line.
pub open spec fn words_of(s: Seq<char>) -> Seq<Seq<char>> {
    words_from(s, Seq::empty(), None)
}

/// Minimal shell-style tokenizer: splits on whitespace, respects single
/// and double quotes. Good enough for `plan -target=module.foo.bar` and
/// `apply -var="foo=bar baz"`.
pub fn shell_split(input: &str) -> (r: Vec<String>)
    ensures
        texts(r@) == words_of(input@),
{
    let chars = to_chars(input);
    let mut out: Vec<String> = Vec::new();
    let mut cur = String::new();
    let mut quote: Option<char> = None;
    let mut i: usize = 0;
    assert(chars@.skip(0) =~= chars@);
    assert(cur@ =~= Seq::empty());
    assert(texts(out@) + words_of(chars@) =~= words_of(chars@));
    while i < chars.len()
        invariant
            i <= chars@.len(),
            words_of(chars@) == texts(out@) + words_from(chars@.skip(i as int), cur@, quote),
        decreases chars@.len() - i,
    {
        let ghost rest = chars@.skip(i as int);
        let ghost before = texts(out@);
        assert(rest.drop_first() =~= chars@.skip(i + 1));
        let c = chars[i];
        i += 1;
        match quote {
            None => {
                if c == '\'' || c == '"' {
                    quote = Some(c);
                } else if c == '\\' {
                    if i < chars.len() {
                        cur.push(chars[i]);
                        assert(chars@.skip(i as int).drop_first() =~= chars@.skip(i + 1));
                        i += 1;
                    }
                } else if c.is_whitespace() {
                    let ghost w = cur@;
                    if !cur.as_str().is_empty() {
                        out.push(cur);
                    }
                    cur = String::new();
                    assert(texts(out@) =~= before + word(w));
                    assert(cur@ =~= Seq::empty());
                    assert(texts(out@) + words_from(chars@.skip(i as int), cur@, quote) =~= before + (
                    word(w) + words_from(chars@.skip(i as int), Seq::empty(), None)));
                } else {
                    cur.push(c);
                }
            },
            Some(q) => {
                if c == q {
                    quote = None;
                } else if c == '\\' {
                    if i < chars.len() {
                        cur.push(chars[i]);
                        assert(chars@.skip(i as int).drop_first() =~= chars@.skip(i + 1));
                        i += 1;
                    }
                } else {
                    cur.push(c);
                }
            },
        }
    }
    let ghost before = texts(out@);
    let ghost w = cur@;
    if !cur.as_str().is_empty() {
        out.push(cur);
    }
    assert(texts(out@) =~= before + word(w));
    out
}

// ---------------------------------------------------------------------------
// Laws
// ---------------------------------------------------------------------------

/// Whether none of the words is empty.
spec fn none_empty(words: Seq<Seq<char>>) -> bool {
    forall|i: int| 0 <= i < words.len() ==> (#[trigger] words[i]).len() > 0
}

proof fn words_from_not_empty(s: Seq<char>, cur: Seq<char>, quote: Option<char>)
    ensures
        none_empty(words_from(s, cur, quote)),
    decreases s.len(),
{
    if s.len() > 0 {
        let c = s[0];
        let rest = s.drop_first();
        words_from_not_empty(rest, cur, Some(c));
        words_from_not_empty(rest, cur, None);
        if rest.len() > 0 {
            words_from_not_empty(rest.drop_first(), cur.push(rest[0]), quote);
        }
        words_from_not_empty(rest, Seq::empty(), None);
        words_from_not_empty(rest, cur.push(c), quote);
        assert(none_empty(word(cur) + words_from(rest, Seq::empty(), None)));
    }
}

/// No word is empty.
pub proof fn words_are_not_empty(s: Seq<char>, i: int)
    requires
        0 <= i < words_of(s).len(),
    ensures
        words_of(s)[i].len() > 0,
{
    words_from_not_empty(s, Seq::empty(), None);
}

/// Whether a word needs no quoting: it is not empty, and no character of it
/// has a meaning of its own.
pub open spec fn plain_word(w: Seq<char>) -> bool {
    w.len() > 0 && forall|i: int|
        0 <= i < w.len() ==> !quote_mark(#[trigger] w[i]) && w[i] != '\\' && !white_space(w[i])
}

/// Characters without a meaning of their own are added to the word.
proof fn plain_prefix(w: Seq<char>, tail: Seq<char>, cur: Seq<char>)
    requires
        forall|i: int|
            0 <= i < w.len() ==> !quote_mark(#[trigger] w[i]) && w[i] != '\\' && !white_space(w[i]),
    ensures
        words_from(w + tail, cur, None) == words_from(tail, cur + w, None),
    decreases w.len(),
{
    if w.len() == 0 {
        assert(w + tail =~= tail);
        assert(cur + w =~= cur);
    } else {
        let rest = w.drop_first();
        assert((w + tail)[0] == w[0]);
        assert((w + tail).drop_first() =~= rest + tail);
        assert forall|i: int| 0 <= i < rest.len() implies !quote_mark(#[trigger] rest[i]) && rest[i]
            != '\\' && !white_space(rest[i]) by {
            assert(rest[i] == w[i + 1]);
        }
        plain_prefix(rest, tail, cur.push(w[0]));
        assert(cur.push(w[0]) + rest =~= cur + w);
    }
}

/// The words of a line made of plain words and single spaces, in front of
/// `tail`.
proof fn spaced_words(words: Seq<Seq<char>>, tail: Seq<char>)
    requires
        words.len() > 0,
        forall|i: int| 0 <= i < words.len() ==> plain_word(#[trigger] words[i]),
    ensures
        words_of(joined(words, " "@) + tail) == words.drop_last() + words_from(
            tail,
            words.last(),
            None,
        ),
    decreases words.len(),
{
    let last = words.last();
    let front = words.drop_last();
    assert(plain_word(words[words.len() - 1]));
    if words.len() == 1 {
        plain_prefix(last, tail, Seq::empty());
        assert(Seq::<char>::empty() + last =~= last);
        assert(front + words_from(tail, last, None) =~= words_from(tail, last, None));
    } else {
        reveal_strlit(" ");
        assert forall|i: int| 0 <= i < front.len() implies plain_word(#[trigger] front[i]) by {
            assert(front[i] == words[i]);
        }
        let more = " "@ + last + tail;
        assert(joined(words, " "@) + tail =~= joined(front, " "@) + more);
        spaced_words(front, more);
        assert(more[0] == ' ');
        assert(more.drop_first() =~= last + tail);
        let w = front.last();
        assert(plain_word(front[front.len() - 1]));
        assert(words_from(more, w, None) == word(w) + words_from(last + tail, Seq::empty(), None));
        plain_prefix(last, tail, Seq::empty());
        assert(Seq::<char>::empty() + last =~= last);
        assert(front.drop_last() + (seq![w] + words_from(tail, last, None)) =~= front + words_from(
            tail,
            last,
            None,
        ));
    }
}

/// Plain words with single spaces between them are split into those words.
pub proof fn split_undoes_join(words: Seq<Seq<char>>)
    requires
        forall|i: int| 0 <= i < words.len() ==> plain_word(#[trigger] words[i]),
    ensures
        words_of(joined(words, " "@)) == words,
{
    if words.len() == 0 {
        assert(words =~= Seq::empty());
    } else {
        let none = Seq::<char>::empty();
        assert(joined(words, " "@) + none =~= joined(words, " "@));
        assert(plain_word(words[words.len() - 1]));
        spaced_words(words, none);
        assert(words.drop_last() + seq![words.last()] =~= words);
    }
}

/// Within a quotation everything but its mark and a backslash is added to the
/// word.
proof fn quoted_prefix(w: Seq<char>, tail: Seq<char>, cur: Seq<char>, q: char)
    requires
        forall|i: int| 0 <= i < w.len() ==> (#[trigger] w[i]) != q && w[i] != '\\',
    ensures
        words_from(w + tail, cur, Some(q)) == words_from(tail, cur + w, Some(q)),
    decreases w.len(),
{
    if w.len() == 0 {
        assert(w + tail =~= tail);
        assert(cur + w =~= cur);
    } else {
        let rest = w.drop_first();
        assert((w + tail)[0] == w[0]);
        assert((w + tail).drop_first() =~= rest + tail);
        assert forall|i: int| 0 <= i < rest.len() implies (#[trigger] rest[i]) != q && rest[i]
            != '\\' by {
            assert(rest[i] == w[i + 1]);
        }
        quoted_prefix(rest, tail, cur.push(w[0]), q);
        assert(cur.push(w[0]) + rest =~= cur + w);
    }
}

/// A quotation is taken as it stands, white space included: what it encloses
/// is one word.
pub proof fn quotation_is_one_word(w: Seq<char>, q: char)
    requires
        quote_mark(q),
        w.len() > 0,
        forall|i: int| 0 <= i < w.len() ==> (#[trigger] w[i]) != q && w[i] != '\\',
    ensures
        words_of(seq![q] + w + seq![q]) == seq![w],
{
    let line = seq![q] + w + seq![q];
    let none = Seq::<char>::empty();
    assert(line.drop_first() =~= w + seq![q]);
    quoted_prefix(w, seq![q], none, q);
    assert(none + w =~= w);
    assert(seq![q].drop_first() =~= none);
    assert(words_from(seq![q], w, Some(q)) == words_from(none, w, None));
}

/// A text with a backslash before each quotation mark and backslash, and before
/// white space too where it is to stand outside quotations.
pub open spec fn escaped(w: Seq<char>, spaces: bool) -> Seq<char>
    decreases w.len(),
{
    if w.len() == 0 {
        Seq::empty()
    } else {
        let c = w[0];
        let rest = escaped(w.drop_first(), spaces);
        if c == '\'' || c == '"' || c == '\\' || (spaces && white_space(c)) {
            seq!['\\', c] + rest
        } else {
            seq![c] + rest
        }
    }
}

/// What is escaped is added to the word as it is, in quotations and outside.
proof fn escaped_prefix(w: Seq<char>, tail: Seq<char>, cur: Seq<char>, quote: Option<char>)
    requires
        quote matches Some(q) ==> q == '\'' || q == '"',
    ensures
        words_from(escaped(w, quote is None) + tail, cur, quote) == words_from(
            tail,
            cur + w,
            quote,
        ),
    decreases w.len(),
{
    let spaces = quote is None;
    let line = escaped(w, spaces) + tail;
    if w.len() == 0 {
        assert(line =~= tail);
        assert(cur + w =~= cur);
    } else {
        let c = w[0];
        let rest = w.drop_first();
        let less = escaped(rest, spaces) + tail;
        escaped_prefix(rest, tail, cur.push(c), quote);
        assert(cur.push(c) + rest =~= cur + w);
        if c == '\'' || c == '"' || c == '\\' || (spaces && white_space(c)) {
            assert(line[0] == '\\');
            assert(line.drop_first()[0] == c);
            assert(line.drop_first().drop_first() =~= less);
        } else {
            assert(line[0] == c);
            assert(line.drop_first() =~= less);
        }
    }
}

/// The words of a line that begins with a word in three stretches, the middle
/// one quoted.
proof fn stretches_are_one_word(
    u: Seq<char>,
    q: char,
    w: Seq<char>,
    v: Seq<char>,
    tail: Seq<char>,
)
    requires
        q == '\'' || q == '"',
    ensures
        words_of(escaped(u, true) + seq![q] + escaped(w, false) + seq![q] + escaped(v, true) + tail)
            == words_from(tail, u + w + v, None),
{
    let none = Seq::<char>::empty();
    let third = escaped(v, true) + tail;
    let second = seq![q] + third;
    let quoted = escaped(w, false) + second;
    let first = seq![q] + quoted;
    let line = escaped(u, true) + first;
    assert(escaped(u, true) + seq![q] + escaped(w, false) + seq![q] + escaped(v, true) + tail
        =~= line);
    escaped_prefix(u, first, none, None);
    assert(none + u =~= u);
    assert(first[0] == q);
    assert(first.drop_first() =~= quoted);
    escaped_prefix(w, second, u, Some(q));
    assert(second[0] == q);
    assert(second.drop_first() =~= third);
    escaped_prefix(v, tail, u + w, None);
}

/// A backslash takes the next character as it is in every quoting state, and
/// quotations run on into what stands beside them: any text in three stretches,
/// escaped, the middle one in quotation marks of either kind, is one word. White
/// space ends it, and the rest of the line is split as on its own.
pub proof fn escaped_text_is_one_word(
    u: Seq<char>,
    q: char,
    w: Seq<char>,
    v: Seq<char>,
    space: char,
    tail: Seq<char>,
)
    requires
        q == '\'' || q == '"',
        white_space(space),
    ensures
        ({
            let line = escaped(u, true) + seq![q] + escaped(w, false) + seq![q] + escaped(v, true);
            let text = u + w + v;
            &&& text.len() > 0 ==> words_of(line) == seq![text] && words_of(
                line + seq![space] + tail,
            ) == seq![text] + words_of(tail)
            &&& text.len() == 0 ==> words_of(line).len() == 0 && words_of(
                line + seq![space] + tail,
            ) == words_of(tail)
        }),
{
    let line = escaped(u, true) + seq![q] + escaped(w, false) + seq![q] + escaped(v, true);
    let text = u + w + v;
    let none = Seq::<char>::empty();
    stretches_are_one_word(u, q, w, v, none);
    assert(line + none =~= line);
    let more = seq![space] + tail;
    stretches_are_one_word(u, q, w, v, more);
    assert(line + seq![space] + tail =~= line + more);
    assert(more[0] == space);
    assert(more.drop_first() =~= tail);
    assert(!quote_mark(space) && space != '\\');
    if text.len() == 0 {
        assert(word(text) + words_of(tail) =~= words_of(tail));
    }
}

/// Text outside quotations is one word too, once escaped, and white space in
/// front of a line does not matter.
pub proof fn unquoted_text_is_one_word(w: Seq<char>, space: char, tail: Seq<char>)
    requires
        white_space(space),
    ensures
        w.len() > 0 ==> words_of(escaped(w, true)) == seq![w] && words_of(
            escaped(w, true) + seq![space] + tail,
        ) == seq![w] + words_of(tail),
        words_of(seq![space] + tail) == words_of(tail),
{
    let none = Seq::<char>::empty();
    escaped_prefix(w, none, none, None);
    assert(escaped(w, true) + none =~= escaped(w, true));
    assert(none + w =~= w);
    let more = seq![space] + tail;
    escaped_prefix(w, more, none, None);
    assert(escaped(w, true) + seq![space] + tail =~= escaped(w, true) + more);
    assert(more[0] == space);
    assert(more.drop_first() =~= tail);
    assert(word(none) + words_of(tail) =~= words_of(tail));
}

/// A quotation that is not closed runs to the end of the line, and a backslash
/// at the end of the line takes nothing.
pub proof fn open_ends_are_kept(u: Seq<char>, q: char, w: Seq<char>)
    requires
        q == '\'' || q == '"',
        (u + w).len() > 0,
    ensures
        words_of(escaped(u, true) + seq![q] + escaped(w, false)) == seq![u + w],
        words_of(escaped(u, true) + seq![q] + escaped(w, false) + seq!['\\']) == seq![u + w],
        u.len() > 0 ==> words_of(escaped(u, true) + seq!['\\']) == seq![u],
{
    let none = Seq::<char>::empty();
    let slash = seq!['\\'];
    assert(none + u =~= u);
    assert(slash.drop_first() =~= none);
    let open = seq![q] + escaped(w, false);
    let open_slash = seq![q] + (escaped(w, false) + slash);
    assert(escaped(u, true) + seq![q] + escaped(w, false) =~= escaped(u, true) + open);
    assert(escaped(u, true) + seq![q] + escaped(w, false) + slash =~= escaped(u, true)
        + open_slash);
    escaped_prefix(u, open, none, None);
    escaped_prefix(u, open_slash, none, None);
    escaped_prefix(u, slash, none, None);
    assert(open[0] == q && open_slash[0] == q);
    assert(open.drop_first() =~= escaped(w, false) + none);
    assert(open_slash.drop_first() =~= escaped(w, false) + slash);
    escaped_prefix(w, none, u, Some(q));
    escaped_prefix(w, slash, u, Some(q));
}

/// A backslash takes whatever character comes next, in quotations and outside.
pub proof fn backslash_takes_any_character(u: Seq<char>, c: char, q: char)
    requires
        q == '\'' || q == '"',
    ensures
        words_of(escaped(u, true) + seq!['\\', c]) == seq![u.push(c)],
        words_of(seq![q] + escaped(u, false) + seq!['\\', c, q]) == seq![u.push(c)],
{
    let none = Seq::<char>::empty();
    let pair = seq!['\\', c];
    let closed = seq!['\\', c, q];
    assert(none + u =~= u);
    escaped_prefix(u, pair, none, None);
    assert(pair.drop_first()[0] == c);
    assert(pair.drop_first().drop_first() =~= none);
    let line = seq![q] + escaped(u, false) + closed;
    assert(line[0] == q);
    assert(line.drop_first() =~= escaped(u, false) + closed);
    escaped_prefix(u, closed, none, Some(q));
    assert(closed.drop_first()[0] == c);
    assert(closed.drop_first().drop_first() =~= seq![q]);
    assert(seq![q].drop_first() =~= none);
    assert(words_from(seq![q], u.push(c), Some(q)) == words_from(none, u.push(c), None));
}

} // verus!
