//! Text as sequences of characters: the small vocabulary that the rest of the
//! library states its contracts in.

use vstd::prelude::*;
use vstd::utf8::{
    decode_utf8, decode_utf8_encode_utf8, decode_utf8_split, encode_utf8, encode_utf8_decode_utf8,
    encode_utf8_valid_utf8, is_char_boundary, is_char_boundary_start_end_of_seq, valid_utf8,
    valid_utf8_split,
};

verus! {

// ---------------------------------------------------------------------------
// Trusted operations of the standard library
// ---------------------------------------------------------------------------

/// The Unicode `White_Space` property: the characters that `trim` and the
/// command tokenizer skip.
pub open spec fn white_space(c: char) -> bool {
    ||| '\u{9}' <= c <= '\u{d}'
    ||| c == '\u{20}'
    ||| c == '\u{85}'
    ||| c == '\u{a0}'
    ||| c == '\u{1680}'
    ||| '\u{2000}' <= c <= '\u{200a}'
    ||| c == '\u{2028}'
    ||| c == '\u{2029}'
    ||| c == '\u{202f}'
    ||| c == '\u{205f}'
    ||| c == '\u{3000}'
}

/// `char::is_whitespace` tells whether a character has the `White_Space`
/// property.
pub assume_specification[ char::is_whitespace ](c: char) -> (r: bool)
    ensures
        r == white_space(c),
;

/// `String::push` appends one character at the end.
pub assume_specification[ String::push ](s: &mut String, c: char)
    ensures
        final(s)@ == old(s)@.push(c),
;

/// `String::pop` takes the last character away and returns it; an empty
/// string stays as it is.
pub assume_specification[ String::pop ](s: &mut String) -> (r: Option<char>)
    ensures
        old(s)@.len() == 0 ==> r is None && final(s)@ == old(s)@,
        old(s)@.len() > 0 ==> r == Some(old(s)@.last()) && final(s)@ == old(s)@.drop_last(),
;

/// The text that `String::from_utf8_lossy` gives for bytes.
pub uninterp spec fn lossy_text(bytes: Seq<u8>) -> Seq<char>;

/// `String::from_utf8_lossy`: the text that the bytes encode; bytes that encode
/// none are replaced.
#[verifier::external_body]
pub(crate) fn decode_lossy(bytes: &Vec<u8>) -> (r: String)
    ensures
        r@ == lossy_text(bytes@),
        valid_utf8(bytes@) ==> r@ == decode_utf8(bytes@),
{
    String::from_utf8_lossy(bytes).into_owned()
}

/// The message of `String::from_utf8`'s error for bytes.
pub uninterp spec fn decode_error_text(bytes: Seq<u8>) -> Seq<char>;

/// `String::from_utf8`: the text that the bytes encode, or the error's message
/// where they encode none.
#[verifier::external_body]
pub(crate) fn decode_strict(bytes: Vec<u8>) -> (r: Result<String, String>)
    ensures
        match r {
            Ok(s) => valid_utf8(bytes@) && s@ == decode_utf8(bytes@),
            Err(e) => !valid_utf8(bytes@) && e@ == decode_error_text(bytes@),
        },
{
    match String::from_utf8(bytes) {
        Ok(s) => Ok(s),
        Err(e) => Err(e.to_string()),
    }
}

/// The text that `Debug` gives for a string: the string in double quotes, with
/// what needs it escaped.
pub uninterp spec fn debug_text(s: Seq<char>) -> Seq<char>;

/// The `Debug` form of a string, as `format!` writes it.
#[verifier::external_body]
pub(crate) fn quoted(s: &str) -> (r: String)
    ensures
        r@ == debug_text(s@),
{
    format!("{:?}", s)
}

// ---------------------------------------------------------------------------
// Characters in and out
// ---------------------------------------------------------------------------

/// The characters of `s`, in order.
pub fn to_chars(s: &str) -> (r: Vec<char>)
    ensures
        r@ == s@,
{
    let mut out: Vec<char> = Vec::new();
    for c in it: s.chars()
        invariant
            out@ == s@.take(it.index()),
            it.seq() == s@,
    {
        out.push(c);
        assert(s@.take(it.index() + 1) =~= s@.take(it.index()).push(s@[it.index()]));
    }
    assert(s@.take(s@.len() as int) =~= s@);
    out
}

/// The text made of `chars[from..to]`.
pub fn from_chars(chars: &Vec<char>, from: usize, to: usize) -> (r: String)
    requires
        from <= to <= chars@.len(),
    ensures
        r@ == chars@.subrange(from as int, to as int),
{
    let mut out = String::new();
    let mut i: usize = from;
    while i < to
        invariant
            from <= i <= to <= chars@.len(),
            out@ == chars@.subrange(from as int, i as int),
        decreases to - i,
    {
        out.push(chars[i]);
        i += 1;
        assert(chars@.subrange(from as int, i as int) =~= chars@.subrange(
            from as int,
            i - 1,
        ).push(chars@[i - 1]));
    }
    out
}

/// Whether two texts hold the same characters.
pub fn same(a: &str, b: &str) -> (r: bool)
    ensures
        r == (a@ == b@),
{
    a.to_owned() == b.to_owned()
}

/// `a` followed by `b`.
pub fn concat2(a: &str, b: &str) -> (r: String)
    ensures
        r@ == a@ + b@,
{
    let mut out = a.to_owned();
    out.append(b);
    out
}

// ---------------------------------------------------------------------------
// Bytes
// ---------------------------------------------------------------------------

/// The length of a text in UTF-8 bytes.
pub open spec fn byte_len(s: Seq<char>) -> nat {
    encode_utf8(s).len()
}

/// Whether the first `n` bytes of a text end where a character ends.
pub open spec fn splits_at(s: Seq<char>, n: int) -> bool {
    is_char_boundary(encode_utf8(s), n)
}

/// The text that the first `n` bytes of `s` encode.
pub open spec fn byte_prefix(s: Seq<char>, n: int) -> Seq<char> {
    decode_utf8(encode_utf8(s).subrange(0, n))
}

/// The length of a text in UTF-8 bytes.
pub fn byte_count(s: &str) -> (r: usize)
    ensures
        r == byte_len(s@),
{
    s.as_bytes().len()
}

/// The largest place up to `n`, in bytes, where a character of `s` ends.
pub open spec fn boundary_up_to(s: Seq<char>, n: nat) -> nat
    decreases n,
{
    if n == 0 || splits_at(s, n as int) {
        n
    } else {
        boundary_up_to(s, (n - 1) as nat)
    }
}

/// The characters of `s` that fit into its first `n` bytes.
pub open spec fn byte_cut(s: Seq<char>, n: nat) -> Seq<char> {
    byte_prefix(s, boundary_up_to(s, n) as int)
}

/// The characters of `s` that fit into its first `n` bytes.
pub fn cut_bytes(s: &str, n: usize) -> (r: &str)
    ensures
        r@ == byte_cut(s@, n as nat),
{
    let mut k: usize = n;
    while k > 0 && !s.is_char_boundary(k)
        invariant
            k <= n,
            boundary_up_to(s@, n as nat) == boundary_up_to(s@, k as nat),
        decreases k,
    {
        k -= 1;
    }
    proof {
        encode_utf8_valid_utf8(s@);
        is_char_boundary_start_end_of_seq(encode_utf8(s@));
    }
    let (front, _back) = s.split_at(k);
    proof {
        encode_utf8_decode_utf8(front@);
    }
    front
}

/// A cut text is a beginning of the text, and takes no more bytes than it may.
pub proof fn cut_is_a_beginning(s: Seq<char>, n: nat)
    ensures
        has_prefix(s, byte_cut(s, n)),
        byte_len(byte_cut(s, n)) <= n,
    decreases n,
{
    let bytes = encode_utf8(s);
    encode_utf8_valid_utf8(s);
    encode_utf8_decode_utf8(s);
    if n == 0 || splits_at(s, n as int) {
        let front = bytes.subrange(0, n as int);
        valid_utf8_split(bytes, n as int);
        decode_utf8_split(bytes, n as int);
        decode_utf8_encode_utf8(front);
        let cut = decode_utf8(front);
        assert(s.subrange(0, cut.len() as int) =~= cut);
    } else {
        cut_is_a_beginning(s, (n - 1) as nat);
    }
}

// ---------------------------------------------------------------------------
// Prefixes
// ---------------------------------------------------------------------------

/// Whether `chars[at..]` begins with `pat`.
pub open spec fn occurs_at(chars: Seq<char>, pat: Seq<char>, at: int) -> bool {
    0 <= at && at + pat.len() <= chars.len() && chars.subrange(at, at + pat.len()) == pat
}

/// Whether `pat` stands in `chars` at position `at`.
pub fn match_at(chars: &Vec<char>, pat: &Vec<char>, at: usize) -> (r: bool)
    requires
        at <= chars@.len(),
    ensures
        r == occurs_at(chars@, pat@, at as int),
{
    if chars.len() - at < pat.len() {
        return false;
    }
    let mut k: usize = 0;
    while k < pat.len()
        invariant
            at + pat@.len() <= chars.len(),
            k <= pat@.len(),
            forall|j: int| 0 <= j < k ==> chars@[at + j] == pat@[j],
        decreases pat@.len() - k,
    {
        if chars[at + k] != pat[k] {
            assert(chars@.subrange(at as int, at + pat@.len())[k as int] != pat@[k as int]);
            return false;
        }
        k += 1;
    }
    assert(chars@.subrange(at as int, at + pat@.len()) =~= pat@);
    true
}

/// Whether `s` begins with `prefix`.
pub open spec fn has_prefix(s: Seq<char>, prefix: Seq<char>) -> bool {
    occurs_at(s, prefix, 0)
}

/// Whether `s` begins with `prefix`.
pub fn starts_with(s: &str, prefix: &str) -> (r: bool)
    ensures
        r == has_prefix(s@, prefix@),
{
    match_at(&to_chars(s), &to_chars(prefix), 0)
}

// ---------------------------------------------------------------------------
// Trimming
// ---------------------------------------------------------------------------

/// `s` without its leading white space.
pub open spec fn trim_start(s: Seq<char>) -> Seq<char>
    decreases s.len(),
{
    if s.len() > 0 && white_space(s[0]) {
        trim_start(s.drop_first())
    } else {
        s
    }
}

/// `s` without its trailing white space.
pub open spec fn trim_end(s: Seq<char>) -> Seq<char>
    decreases s.len(),
{
    if s.len() > 0 && white_space(s.last()) {
        trim_end(s.drop_last())
    } else {
        s
    }
}

/// `s` without white space at either end.
pub open spec fn trimmed(s: Seq<char>) -> Seq<char> {
    trim_end(trim_start(s))
}

/// `s` without white space at either end.
pub fn trim(s: &str) -> (r: String)
    ensures
        r@ == trimmed(s@),
{
    let chars = to_chars(s);
    let mut lo: usize = 0;
    assert(chars@.skip(0) =~= chars@);
    while lo < chars.len() && chars[lo].is_whitespace()
        invariant
            lo <= chars@.len(),
            trim_start(chars@) == trim_start(chars@.skip(lo as int)),
        decreases chars@.len() - lo,
    {
        assert(chars@.skip(lo as int).drop_first() =~= chars@.skip(lo + 1));
        lo += 1;
    }
    assert(trim_start(chars@) == chars@.skip(lo as int));
    let mut hi: usize = chars.len();
    assert(chars@.subrange(lo as int, hi as int) =~= chars@.skip(lo as int));
    while hi > lo && chars[hi - 1].is_whitespace()
        invariant
            lo <= hi <= chars@.len(),
            trim_end(chars@.skip(lo as int)) == trim_end(chars@.subrange(lo as int, hi as int)),
        decreases hi,
    {
        assert(chars@.subrange(lo as int, hi as int).drop_last() =~= chars@.subrange(
            lo as int,
            hi - 1,
        ));
        hi -= 1;
    }
    from_chars(&chars, lo, hi)
}

/// `s` without the leading occurrences of `c`.
pub open spec fn strip_leading(s: Seq<char>, c: char) -> Seq<char>
    decreases s.len(),
{
    if s.len() > 0 && s[0] == c {
        strip_leading(s.drop_first(), c)
    } else {
        s
    }
}

/// `s` without the leading occurrences of `c`.
pub fn without_leading(s: &str, c: char) -> (r: String)
    ensures
        r@ == strip_leading(s@, c),
{
    let chars = to_chars(s);
    let mut lo: usize = 0;
    assert(chars@.skip(0) =~= chars@);
    while lo < chars.len() && chars[lo] == c
        invariant
            lo <= chars@.len(),
            strip_leading(chars@, c) == strip_leading(chars@.skip(lo as int), c),
        decreases chars@.len() - lo,
    {
        assert(chars@.skip(lo as int).drop_first() =~= chars@.skip(lo + 1));
        lo += 1;
    }
    assert(chars@.skip(lo as int) =~= chars@.subrange(lo as int, chars@.len() as int));
    from_chars(&chars, lo, chars.len())
}

// ---------------------------------------------------------------------------
// Lines
// ---------------------------------------------------------------------------

/// The position of the first newline, or the length where there is none.
pub open spec fn line_end(s: Seq<char>) -> nat
    decreases s.len(),
{
    if s.len() == 0 || s[0] == '\n' {
        0
    } else {
        1 + line_end(s.drop_first())
    }
}

/// A line without the carriage return at its end, if it has one.
pub open spec fn strip_return(line: Seq<char>) -> Seq<char> {
    if line.len() > 0 && line.last() == '\r' {
        line.drop_last()
    } else {
        line
    }
}

/// The lines of a text. A line ends with a newline, or a carriage return and a
/// newline; the last one may end with the text.
pub open spec fn lines_of(s: Seq<char>) -> Seq<Seq<char>>
    decreases s.len(),
{
    let n = line_end(s);
    if s.len() == 0 {
        Seq::empty()
    } else if n >= s.len() {
        seq![s]
    } else {
        seq![strip_return(s.take(n as int))] + lines_of(s.skip(n as int + 1))
    }
}

/// The end of the line that begins at `from`.
fn find_line_end(chars: &Vec<char>, from: usize) -> (r: usize)
    requires
        from <= chars@.len(),
    ensures
        from <= r <= chars@.len(),
        r == from + line_end(chars@.skip(from as int)),
{
    let mut i: usize = from;
    while i < chars.len() && chars[i] != '\n'
        invariant
            from <= i <= chars@.len(),
            line_end(chars@.skip(from as int)) == (i - from) + line_end(chars@.skip(i as int)),
        decreases chars@.len() - i,
    {
        assert(chars@.skip(i as int).drop_first() =~= chars@.skip(i + 1));
        i += 1;
    }
    i
}

/// The lines of a text.
pub fn lines(s: &str) -> (r: Vec<String>)
    ensures
        texts(r@) == lines_of(s@),
{
    let chars = to_chars(s);
    let mut out: Vec<String> = Vec::new();
    let mut i: usize = 0;
    assert(chars@.skip(0) =~= chars@);
    assert(texts(out@) + lines_of(chars@) =~= lines_of(chars@));
    while i < chars.len()
        invariant
            i <= chars@.len(),
            lines_of(chars@) == texts(out@) + lines_of(chars@.skip(i as int)),
        decreases chars@.len() - i,
    {
        let ghost rest = chars@.skip(i as int);
        let ghost before = texts(out@);
        let end = find_line_end(&chars, i);
        if end == chars.len() {
            out.push(from_chars(&chars, i, end));
            assert(chars@.subrange(i as int, end as int) =~= rest);
            assert(texts(out@) =~= before + seq![rest]);
            i = end;
            assert(texts(out@) + lines_of(chars@.skip(i as int)) =~= before + lines_of(rest));
        } else {
            let stop = if end > i && chars[end - 1] == '\r' {
                end - 1
            } else {
                end
            };
            let line = from_chars(&chars, i, stop);
            let ghost n = end - i;
            assert(line@ =~= strip_return(rest.take(n)));
            out.push(line);
            assert(texts(out@) =~= before.push(strip_return(rest.take(n))));
            assert(rest.skip(n + 1) =~= chars@.skip(end + 1));
            i = end + 1;
            assert(texts(out@) + lines_of(chars@.skip(i as int)) =~= before + lines_of(rest));
        }
    }
    assert(texts(out@) + lines_of(chars@.skip(i as int)) =~= texts(out@));
    out
}

// ---------------------------------------------------------------------------
// Numbers
// ---------------------------------------------------------------------------

/// The decimal digit of `d`, for `d` below ten.
pub open spec fn digit(d: nat) -> char {
    seq!['0', '1', '2', '3', '4', '5', '6', '7', '8', '9'][d as int]
}

/// `n` in decimal, without leading zeros.
pub open spec fn decimal(n: nat) -> Seq<char>
    decreases n,
{
    if n < 10 {
        seq![digit(n)]
    } else {
        decimal(n / 10).push(digit(n % 10))
    }
}

/// `n` in decimal, with a leading minus sign where it is negative.
pub open spec fn signed_decimal(n: int) -> Seq<char> {
    if n < 0 {
        seq!['-'] + decimal((-n) as nat)
    } else {
        decimal(n as nat)
    }
}

fn digit_char(d: u128) -> (r: char)
    requires
        d < 10,
    ensures
        r == digit(d as nat),
{
    match d {
        0 => '0',
        1 => '1',
        2 => '2',
        3 => '3',
        4 => '4',
        5 => '5',
        6 => '6',
        7 => '7',
        8 => '8',
        _ => '9',
    }
}

/// `n` in decimal.
pub fn decimal_text(n: u128) -> (r: String)
    ensures
        r@ == decimal(n as nat),
    decreases n,
{
    let mut out = if n < 10 {
        String::new()
    } else {
        decimal_text(n / 10)
    };
    out.push(digit_char(n % 10));
    assert(n < 10 ==> out@ =~= decimal(n as nat));
    out
}

/// `n` in decimal, with its sign.
pub fn signed_decimal_text(n: i32) -> (r: String)
    ensures
        r@ == signed_decimal(n as int),
{
    if n < 0 {
        let magnitude: i64 = -(n as i64);
        proof {
            reveal_strlit("-");
            assert("-"@ =~= seq!['-']);
        }
        concat2("-", decimal_text(magnitude as u128).as_str())
    } else {
        decimal_text(n as u128)
    }
}

// ---------------------------------------------------------------------------
// Joining
// ---------------------------------------------------------------------------

/// The parts in order, with `sep` between each two.
pub open spec fn joined(parts: Seq<Seq<char>>, sep: Seq<char>) -> Seq<char>
    decreases parts.len(),
{
    if parts.len() == 0 {
        Seq::empty()
    } else if parts.len() == 1 {
        parts[0]
    } else {
        joined(parts.drop_last(), sep) + sep + parts.last()
    }
}

/// The parts in order, with nothing between them.
pub open spec fn concat_all(parts: Seq<Seq<char>>) -> Seq<char>
    decreases parts.len(),
{
    if parts.len() == 0 {
        Seq::empty()
    } else {
        concat_all(parts.drop_last()) + parts.last()
    }
}

/// The texts that a vector of strings holds.
pub open spec fn texts(v: Seq<String>) -> Seq<Seq<char>> {
    v.map_values(|s: String| s@)
}

/// The parts in order, with `sep` between each two.
pub fn join(parts: &Vec<String>, sep: &str) -> (r: String)
    ensures
        r@ == joined(texts(parts@), sep@),
{
    let mut out = String::new();
    let ghost all = texts(parts@);
    let mut i: usize = 0;
    while i < parts.len()
        invariant
            i <= parts@.len(),
            all == texts(parts@),
            out@ == joined(all.take(i as int), sep@),
        decreases parts@.len() - i,
    {
        if i > 0 {
            out.append(sep);
        }
        out.append(parts[i].as_str());
        assert(all.take(i + 1).drop_last() =~= all.take(i as int));
        assert(i == 0 ==> out@ =~= all[0]);
        i += 1;
    }
    assert(all.take(i as int) =~= all);
    out
}

// ---------------------------------------------------------------------------
// Order
// ---------------------------------------------------------------------------

/// The order of strings: by the first character in which they differ, a proper
/// prefix first.
pub open spec fn text_lt(a: Seq<char>, b: Seq<char>) -> bool
    decreases a.len(),
{
    if b.len() == 0 {
        false
    } else if a.len() == 0 {
        true
    } else if a[0] == b[0] {
        text_lt(a.drop_first(), b.drop_first())
    } else {
        a[0] < b[0]
    }
}

/// No text comes before itself.
pub proof fn text_lt_irreflexive(a: Seq<char>)
    ensures
        !text_lt(a, a),
    decreases a.len(),
{
    if a.len() > 0 {
        text_lt_irreflexive(a.drop_first());
    }
}

/// The order of texts is transitive.
pub proof fn text_lt_transitive(a: Seq<char>, b: Seq<char>, c: Seq<char>)
    requires
        text_lt(a, b),
        text_lt(b, c),
    ensures
        text_lt(a, c),
    decreases a.len(),
{
    if a.len() > 0 && a[0] == b[0] && b[0] == c[0] {
        text_lt_transitive(a.drop_first(), b.drop_first(), c.drop_first());
    }
}

/// Of two different texts one comes before the other.
pub proof fn text_lt_total(a: Seq<char>, b: Seq<char>)
    ensures
        a == b || text_lt(a, b) || text_lt(b, a),
    decreases a.len(),
{
    if a.len() > 0 && b.len() > 0 && a[0] == b[0] {
        text_lt_total(a.drop_first(), b.drop_first());
        if a.drop_first() == b.drop_first() {
            assert(a =~= seq![a[0]] + a.drop_first());
            assert(b =~= seq![b[0]] + b.drop_first());
        }
    } else if a.len() == 0 && b.len() == 0 {
        assert(a =~= b);
    }
}

/// Whether `a` comes before `b`.
pub fn comes_before(a: &str, b: &str) -> (r: bool)
    ensures
        r == text_lt(a@, b@),
{
    let ca = to_chars(a);
    let cb = to_chars(b);
    let mut i: usize = 0;
    assert(ca@.skip(0) =~= ca@);
    assert(cb@.skip(0) =~= cb@);
    while i < ca.len() && i < cb.len() && ca[i] == cb[i]
        invariant
            i <= ca@.len(),
            i <= cb@.len(),
            text_lt(ca@, cb@) == text_lt(ca@.skip(i as int), cb@.skip(i as int)),
        decreases ca@.len() - i,
    {
        assert(ca@.skip(i as int).drop_first() =~= ca@.skip(i + 1));
        assert(cb@.skip(i as int).drop_first() =~= cb@.skip(i + 1));
        i += 1;
    }
    i < cb.len() && (i >= ca.len() || ca[i] < cb[i])
}

// ---------------------------------------------------------------------------
// Laws
// ---------------------------------------------------------------------------

/// A text begins with a prefix exactly where it is the prefix with something
/// behind it.
pub proof fn prefixes_come_first(s: Seq<char>, prefix: Seq<char>, rest: Seq<char>)
    ensures
        has_prefix(prefix + rest, prefix),
        has_prefix(s, prefix) <==> s.len() >= prefix.len() && s == prefix + s.skip(
            prefix.len() as int,
        ),
        has_prefix(s, prefix) <==> prefix.is_prefix_of(s),
{
    assert((prefix + rest).subrange(0, prefix.len() as int) =~= prefix);
    if has_prefix(s, prefix) {
        assert(s =~= prefix + s.skip(prefix.len() as int));
    }
    if s.len() >= prefix.len() && s == prefix + s.skip(prefix.len() as int) {
        assert(s.subrange(0, prefix.len() as int) =~= prefix);
    }
}

/// A cut is as long as it may be: no character boundary lies between its end
/// and the limit, and a text that fits is kept whole.
pub proof fn cut_is_as_long_as_it_may_be(s: Seq<char>, n: nat, m: nat)
    ensures
        byte_len(s) <= n ==> byte_cut(s, n) == s,
        splits_at(s, m as int) && m <= n ==> m <= byte_len(byte_cut(s, n)),
    decreases n,
{
    let bytes = encode_utf8(s);
    encode_utf8_valid_utf8(s);
    encode_utf8_decode_utf8(s);
    is_char_boundary_start_end_of_seq(bytes);
    if n == 0 || splits_at(s, n as int) {
        let front = bytes.subrange(0, n as int);
        valid_utf8_split(bytes, n as int);
        decode_utf8_encode_utf8(front);
        boundaries_lie_within(bytes, n as int);
        if byte_len(s) <= n {
            assert(front =~= bytes);
        }
    } else {
        cut_is_as_long_as_it_may_be(s, (n - 1) as nat, m);
    }
}

proof fn boundaries_lie_within(bytes: Seq<u8>, n: int)
    requires
        valid_utf8(bytes),
        is_char_boundary(bytes, n),
    ensures
        0 <= n <= bytes.len(),
{
}

/// Whether a text is white space throughout.
pub open spec fn blank(s: Seq<char>) -> bool {
    forall|i: int| 0 <= i < s.len() ==> white_space(#[trigger] s[i])
}

proof fn trim_start_skips(front: Seq<char>, s: Seq<char>)
    requires
        blank(front),
        s.len() > 0 ==> !white_space(s[0]),
    ensures
        trim_start(front + s) == s,
    decreases front.len(),
{
    if front.len() == 0 {
        assert(front + s =~= s);
    } else {
        let rest = front.drop_first();
        assert forall|i: int| 0 <= i < rest.len() implies white_space(#[trigger] rest[i]) by {
            assert(rest[i] == front[i + 1]);
        }
        assert((front + s)[0] == front[0]);
        assert((front + s).drop_first() =~= rest + s);
        trim_start_skips(rest, s);
    }
}

proof fn trim_end_skips(s: Seq<char>, back: Seq<char>)
    requires
        blank(back),
        s.len() > 0 ==> !white_space(s.last()),
    ensures
        trim_end(s + back) == s,
    decreases back.len(),
{
    if back.len() == 0 {
        assert(s + back =~= s);
    } else {
        let rest = back.drop_last();
        assert forall|i: int| 0 <= i < rest.len() implies white_space(#[trigger] rest[i]) by {
            assert(rest[i] == back[i]);
        }
        assert((s + back).last() == back.last());
        assert((s + back).drop_last() =~= s + rest);
        trim_end_skips(s, rest);
    }
}

/// Trimming takes away the white space at both ends and nothing else.
pub proof fn trimming_takes_white_space_away(front: Seq<char>, s: Seq<char>, back: Seq<char>)
    requires
        blank(front),
        blank(back),
        s.len() > 0 ==> !white_space(s[0]) && !white_space(s.last()),
    ensures
        trimmed(front + s + back) == s,
{
    if s.len() > 0 {
        assert(front + s + back =~= front + (s + back));
        assert((s + back)[0] == s[0]);
        trim_start_skips(front, s + back);
        trim_end_skips(s, back);
    } else {
        let all = front + s + back;
        assert forall|i: int| 0 <= i < all.len() implies white_space(#[trigger] all[i]) by {
            if i < front.len() {
                assert(all[i] == front[i]);
            } else {
                assert(all[i] == back[i - front.len()]);
            }
        }
        assert(all + s =~= all);
        trim_start_skips(all, s);
        assert(s =~= Seq::empty());
    }
}

/// Leading occurrences of a character are taken away, and nothing else.
pub proof fn leading_marks_are_taken_away(n: nat, s: Seq<char>, c: char)
    requires
        s.len() > 0 ==> s[0] != c,
    ensures
        strip_leading(Seq::new(n, |i: int| c) + s, c) == s,
    decreases n,
{
    let marks = Seq::new(n, |i: int| c);
    if n == 0 {
        assert(marks + s =~= s);
    } else {
        let fewer = Seq::new((n - 1) as nat, |i: int| c);
        assert((marks + s)[0] == c);
        assert((marks + s).drop_first() =~= fewer + s);
        leading_marks_are_taken_away((n - 1) as nat, s, c);
    }
}

proof fn line_end_is_first_newline(line: Seq<char>, rest: Seq<char>)
    requires
        !line.contains('\n'),
        rest.len() > 0 ==> rest[0] == '\n',
    ensures
        line_end(line + rest) == line.len(),
    decreases line.len(),
{
    if line.len() == 0 {
        assert(line + rest =~= rest);
    } else {
        assert(line.contains(line[0]));
        let less = line.drop_first();
        assert(!less.contains('\n')) by {
            if less.contains('\n') {
                let i = less.index_of('\n');
                assert(line[i + 1] == '\n');
            }
        }
        assert((line + rest)[0] == line[0]);
        assert((line + rest).drop_first() =~= less + rest);
        line_end_is_first_newline(less, rest);
    }
}

/// Lines are what stands between newlines. Each line comes out as it is; a
/// carriage return before the newline goes with it, and what follows the last
/// newline is a line if it is not empty.
pub proof fn lines_are_split_at_newlines(line: Seq<char>, rest: Seq<char>)
    requires
        !line.contains('\n'),
    ensures
        lines_of(line) == (if line.len() > 0 {
            seq![line]
        } else {
            Seq::empty()
        }),
        line.len() == 0 || line.last() != '\r' ==> lines_of(line + seq!['\n'] + rest) == seq![line]
            + lines_of(rest),
        lines_of(line + seq!['\r', '\n'] + rest) == seq![line] + lines_of(rest),
{
    let none = Seq::<char>::empty();
    line_end_is_first_newline(line, none);
    assert(line + none =~= line);
    let plain = line + seq!['\n'] + rest;
    assert(plain =~= line + (seq!['\n'] + rest));
    line_end_is_first_newline(line, seq!['\n'] + rest);
    assert(plain.take(line.len() as int) =~= line);
    assert(plain.skip(line.len() as int + 1) =~= rest);
    let longer = line.push('\r');
    assert(!longer.contains('\n')) by {
        if longer.contains('\n') {
            let i = longer.index_of('\n');
            assert(line[i] == '\n');
        }
    }
    let both = line + seq!['\r', '\n'] + rest;
    assert(both =~= longer + (seq!['\n'] + rest));
    line_end_is_first_newline(longer, seq!['\n'] + rest);
    assert(both.take(longer.len() as int) =~= longer);
    assert(longer.drop_last() =~= line);
    assert(both.skip(longer.len() as int + 1) =~= rest);
}

/// What a decimal digit counts; nothing where the character is none.
pub open spec fn digit_value(c: char) -> Option<nat> {
    if '0' <= c <= '9' {
        Some((c as int - '0' as int) as nat)
    } else {
        None
    }
}

/// The number that a text of decimal digits writes.
pub open spec fn number_written(s: Seq<char>) -> Option<nat>
    decreases s.len(),
{
    if s.len() == 0 {
        None
    } else {
        let front = if s.len() == 1 {
            Some(0nat)
        } else {
            number_written(s.drop_last())
        };
        match (front, digit_value(s.last())) {
            (Some(high), Some(low)) => Some(10 * high + low),
            _ => None,
        }
    }
}

/// A number is read back from the way it is written, which has no leading zero.
pub proof fn decimals_read_back(n: nat)
    ensures
        number_written(decimal(n)) == Some(n),
        decimal(n).len() > 0,
        decimal(n).len() > 1 ==> decimal(n)[0] != '0',
        forall|i: int| 0 <= i < decimal(n).len() ==> '0' <= #[trigger] decimal(n)[i] <= '9',
    decreases n,
{
    if n < 10 {
        assert(decimal(n).last() == digit(n));
    } else {
        decimals_read_back(n / 10);
        assert(decimal(n).drop_last() =~= decimal(n / 10));
        assert(decimal(n).last() == digit(n % 10));
        assert('0' <= digit(n % 10) <= '9');
        if n / 10 < 10 {
            assert(decimal(n / 10).len() == 1);
            assert(decimal(n)[0] == digit(n / 10));
        } else {
            assert(decimal(n)[0] == decimal(n / 10)[0]);
            longer_than_one(n / 10);
        }
    }
}

proof fn longer_than_one(n: nat)
    requires
        n >= 10,
    ensures
        decimal(n).len() > 1,
{
    decimals_are_not_empty(n / 10);
}

proof fn decimals_are_not_empty(n: nat)
    ensures
        decimal(n).len() > 0,
{
}

/// A signed number is its magnitude, behind a minus sign where it is negative.
pub proof fn signs_read_back(n: int)
    ensures
        n >= 0 ==> number_written(signed_decimal(n)) == Some(n as nat),
        n < 0 ==> signed_decimal(n)[0] == '-' && number_written(signed_decimal(n).skip(1)) == Some(
            (-n) as nat,
        ),
{
    if n < 0 {
        decimals_read_back((-n) as nat);
        assert(signed_decimal(n).skip(1) =~= decimal((-n) as nat));
    } else {
        decimals_read_back(n as nat);
    }
}

/// Joining puts the separator between any two neighbours: what is joined in two
/// parts is joined with a separator between the parts.
pub proof fn joining_separates_neighbours(a: Seq<Seq<char>>, b: Seq<Seq<char>>, sep: Seq<char>)
    ensures
        a.len() == 1 ==> joined(a, sep) == a[0],
        a.len() == 0 ==> joined(a, sep).len() == 0,
        a.len() > 0 && b.len() > 0 ==> joined(a + b, sep) == joined(a, sep) + sep + joined(b, sep),
    decreases b.len(),
{
    if a.len() > 0 && b.len() > 0 {
        let all = a + b;
        assert(all.last() == b.last());
        if b.len() == 1 {
            assert(all.drop_last() =~= a);
        } else {
            let front = b.drop_last();
            assert(all.drop_last() =~= a + front);
            joining_separates_neighbours(a, front, sep);
            assert(joined(all, sep) =~= joined(a, sep) + sep + joined(b, sep));
        }
    }
}

/// Putting texts together leaves nothing out and nothing between them.
pub proof fn concatenation_adds_up(a: Seq<Seq<char>>, b: Seq<Seq<char>>, t: Seq<char>)
    ensures
        concat_all(a + b) == concat_all(a) + concat_all(b),
        concat_all(seq![t]) == t,
    decreases b.len(),
{
    reveal_with_fuel(concat_all, 2);
    assert(concat_all(seq![t]) =~= t);
    if b.len() == 0 {
        assert(a + b =~= a);
        assert(concat_all(a) + concat_all(b) =~= concat_all(a));
    } else {
        assert((a + b).drop_last() =~= a + b.drop_last());
        concatenation_adds_up(a, b.drop_last(), t);
        assert(concat_all(a) + concat_all(b) =~= concat_all(a) + concat_all(b.drop_last())
            + b.last());
    }
}

/// Texts are ordered by the first character in which they differ; a text comes
/// before any that continues it.
pub proof fn order_is_by_the_first_difference(
    common: Seq<char>,
    a: char,
    s: Seq<char>,
    b: char,
    t: Seq<char>,
)
    ensures
        a != b ==> text_lt(common + seq![a] + s, common + seq![b] + t) == (a < b),
        text_lt(common, common + seq![b] + t),
        !text_lt(common + seq![b] + t, common),
    decreases common.len(),
{
    let x = common + seq![a] + s;
    let y = common + seq![b] + t;
    if common.len() == 0 {
        assert(x[0] == a);
        assert(y[0] == b);
    } else {
        let rest = common.drop_first();
        assert(x[0] == common[0] && y[0] == common[0]);
        assert(x.drop_first() =~= rest + seq![a] + s);
        assert(y.drop_first() =~= rest + seq![b] + t);
        order_is_by_the_first_difference(rest, a, s, b, t);
    }
}

} // verus!
