//! Which texts the JSON repair can be trusted with.
//!
//! The `jsonrepair` crate, which `llm_extract` hands flawed JSON to, does not
//! come back from every text: on some it panics, on some it runs out of stack,
//! on some it loops for ever.  `repairable` leaves those out.  It leaves out a
//! few more, because the exact set is only known by running the parser; a text
//! that already is JSON never gets as far as a repair.
//!
//! The parser descends once for every bracket that is open, so what counts is
//! how deep the brackets nest.  Which brackets it sees depends on what it takes
//! for a string or a comment, and that is not always what a JSON reader would:
//! a quoted value ends at a comma, a quoted key does not.  A [`Reading`] follows
//! all the ways it may be reading at once, each with the most brackets that may
//! be open.

use vstd::prelude::*;

use crate::text::{chars_of, find, find_chars, is_digit, is_space, occurs_at, space};

verus! {

broadcast use vstd::string::group_string_axioms;

/// How many brackets may be open at once: a stack frame each.
pub const MOST_OPEN: usize = 256;

/// The white space of JSON.
pub open spec fn is_blank(c: char) -> bool {
    c == ' ' || c == '\t' || c == '\n' || c == '\r'
}

/// The marks a string may stand between.
pub open spec fn is_quote(c: char) -> bool {
    c == '"' || c == '\''
}

/// What an object or an array begins with.
pub open spec fn is_opening(c: char) -> bool {
    c == '{' || c == '['
}

/// What an object or an array ends with.
pub open spec fn is_closing(c: char) -> bool {
    c == '}' || c == ']'
}

/// Where the repair may stop reading before the text ends: behind a bracket,
/// at a fence, at the end of a call.
pub open spec fn is_cut(c: char) -> bool {
    is_closing(c) || c == ')' || c == '`'
}

/// What the repair takes for the continuation of a string that was just
/// closed.
pub open spec fn is_continuation(c: char) -> bool {
    c == '?' || c == '!' || c == '<' || c == '>' || c == '/' || c == '.'
}

/// Whether a character takes one byte.
pub open spec fn is_narrow(c: char) -> bool {
    (c as int) < 128
}

/// What a word is made of.
pub open spec fn is_word(c: char) -> bool {
    is_digit(c) || is_letter(c) || c == '_' || c == '$'
}

/// A letter of the English alphabet.
pub open spec fn is_letter(c: char) -> bool {
    'a' <= c <= 'z' || 'A' <= c <= 'Z'
}

/// How many characters behind `\u` an escaped code point at `i` may reach over:
/// its own four, and ten more where it may be the first half of a pair.
pub open spec fn escape_reach(t: Seq<char>, i: int) -> int {
    if i + 2 < t.len() && (t[i + 2] == 'd' || t[i + 2] == 'D') {
        14
    } else {
        4
    }
}

/// Escapes are cut out of a string by counting bytes: what follows a backslash
/// at `i` is narrow, and so is all that an escaped code point, or a pair of
/// them, may reach over.
pub open spec fn escape_is_narrow(t: Seq<char>, i: int) -> bool {
    t[i] == '\\' && i + 1 < t.len() ==> {
        &&& is_narrow(t[i + 1])
        &&& t[i + 1] == 'u' ==> forall|j: int|
            i + 2 <= j < i + 2 + escape_reach(t, i) && j < t.len() ==> is_narrow(#[trigger] t[j])
    }
}

/// Where the white space that begins at `i` ends.
pub open spec fn past_blanks(t: Seq<char>, i: int) -> int
    decreases t.len() - i,
{
    if 0 <= i < t.len() && is_blank(t[i]) {
        past_blanks(t, i + 1)
    } else {
        i
    }
}

/// Whether an ellipsis at `i` stands by itself, so that it may be read as a
/// value left out.
pub open spec fn stands_alone(t: Seq<char>, i: int) -> bool {
    &&& occurs_at(t, "..."@, i)
    &&& i > 0
    &&& is_blank(t[i - 1]) || is_quote(t[i - 1]) || t[i - 1] == ':' || t[i - 1] == '/'
}

/// Whether something is there at `i` that the repair can go on with: neither
/// the end, nor where it may stop reading, nor a comment, nor one more dot.
pub open spec fn goes_on(t: Seq<char>, i: int) -> bool {
    0 <= i < t.len() && !(t[i] == '.' || t[i] == '/' || t[i] == '#' || t[i] == '`' || t[i] == ')')
}

/// Behind the end of the line.
pub open spec fn past_line(t: Seq<char>, i: int) -> int
    decreases t.len() - i,
{
    if i < 0 || i >= t.len() {
        i
    } else if t[i] == '\n' || t[i] == '\r' {
        i + 1
    } else {
        past_line(t, i + 1)
    }
}

/// Behind the end of the block comment.
pub open spec fn past_comment(t: Seq<char>, i: int) -> int
    decreases t.len() - i,
{
    if i < 0 || i + 1 >= t.len() {
        if i < t.len() {
            t.len() as int
        } else {
            i
        }
    } else if t[i] == '*' && t[i + 1] == '/' {
        i + 2
    } else {
        past_comment(t, i + 1)
    }
}

/// A line or a comment ends no earlier than it begins, and inside the text.
pub proof fn lemma_past(t: Seq<char>, i: int)
    requires
        0 <= i,
    ensures
        i <= past_line(t, i),
        i <= past_comment(t, i),
        i <= t.len() ==> past_line(t, i) <= t.len() && past_comment(t, i) <= t.len(),
    decreases t.len() - i,
{
    if i < t.len() {
        lemma_past(t, i + 1);
    }
}

/// Behind the white space and the comments that begin at `i`, and behind the plus
/// signs where they join strings.
pub open spec fn past_gap(t: Seq<char>, i: int, plus: bool) -> int
    decreases t.len() - i,
{
    if i < 0 || i >= t.len() {
        i
    } else if is_blank(t[i]) || plus && t[i] == '+' {
        past_gap(t, i + 1, plus)
    } else if t[i] == '#' {
        proof {
            lemma_past(t, i + 1);
        }
        past_gap(t, past_line(t, i + 1), plus)
    } else if t[i] == '/' && i + 1 < t.len() && t[i + 1] == '/' {
        proof {
            lemma_past(t, i + 2);
        }
        past_gap(t, past_line(t, i + 2), plus)
    } else if t[i] == '/' && i + 1 < t.len() && t[i + 1] == '*' {
        proof {
            lemma_past(t, i + 2);
        }
        past_gap(t, past_comment(t, i + 2), plus)
    } else {
        i
    }
}

/// Whether a quotation mark comes, from `i` on, before the repair may stop
/// reading.
pub open spec fn quote_ahead(t: Seq<char>, i: int) -> bool
    decreases t.len() - i,
{
    if i < 0 || i >= t.len() || is_cut(t[i]) {
        false
    } else {
        is_quote(t[i]) || quote_ahead(t, i + 1)
    }
}

/// Whether what follows a quotation mark at `i` looks like the continuation of
/// the string it closes.
#[verifier::opaque]
pub open spec fn continues(t: Seq<char>, i: int) -> bool {
    let k = past_gap(t, i + 1, true);
    k < t.len() && is_continuation(t[k])
}

/// A continuation has no comment before it, and one more quotation mark behind
/// it: the repair looks for it until it finds it.
pub open spec fn continuation_ends(t: Seq<char>, i: int) -> bool {
    continues(t, i) ==> {
        let k = past_gap(t, i + 1, true);
        &&& forall|j: int| i < j < k ==> is_blank(#[trigger] t[j]) || t[j] == '+'
        &&& quote_ahead(t, k + 1)
    }
}

/// Whether a backslash before `i` may reach over it.
#[verifier::opaque]
pub open spec fn is_muddled(t: Seq<char>, i: int) -> bool {
    ||| i > 0 && t[i - 1] == '\\'
    ||| exists|j: int|
        0 <= j && i - 15 <= j <= i - 2 && #[trigger] t[j] == '\\' && t[j + 1] == 'u'
}

/// Whether a quotation mark at `i` may be taken for the second of two that open
/// a string.
pub open spec fn is_doubled(t: Seq<char>, i: int) -> bool {
    &&& i > 0
    &&& t[i - 1] == t[i]
    &&& i + 1 < t.len()
    &&& !(is_blank(t[i + 1]) || is_closing(t[i + 1]) || is_quote(t[i + 1]) || t[i + 1] == ','
        || t[i + 1] == ':')
}

/// Whether a word ends right before `i`.
pub open spec fn is_glued(t: Seq<char>, i: int) -> bool {
    i > 0 && is_word(t[i - 1])
}

// ── a reading ────────────────────────────────────────────────────────

/// Where the repair may be in a text.  For each way of reading on there is a
/// rank: zero where it cannot be reading that way, otherwise one more than the
/// brackets that may be open.
pub ghost struct Reading {
    /// Each character counts as what it is.
    pub plain: nat,
    /// Inside a quoted value, which a bracket or a comma ends too.
    pub value_double: nat,
    pub value_single: nat,
    /// Inside a quoted key, or a string that is joined to another, which only its
    /// quotation mark ends.
    pub key_double: nat,
    pub key_single: nat,
    /// Inside a quoted value that is cut at its first comma, whatever brackets come
    /// before that.
    pub cut: nat,
    /// Inside a comment that ends with its line.
    pub line: nat,
    /// Inside a comment that ends with a star and a slash.
    pub block: nat,
    /// Inside a regular expression.
    pub pattern: nat,
    /// Inside the continuation of a string, up to the next quotation mark.
    pub tail: nat,
    /// Whether a number may have begun that runs up to here.
    pub number: bool,
    /// Whether a brace has been opened.
    pub brace: bool,
    /// Whether the first value is still being read.
    pub first: bool,
    /// The brackets that are open, where there is no doubt.
    pub open: Seq<char>,
    pub sure: bool,
}

/// The larger of two ranks.
pub open spec fn top(a: nat, b: nat) -> nat {
    if a < b {
        b
    } else {
        a
    }
}

/// A rank that is only reached under a condition.
pub open spec fn given(yes: bool, n: nat) -> nat {
    if yes {
        n
    } else {
        0
    }
}

/// The rank of a way of reading that is entered at one rank and kept at another,
/// each under its condition.
#[verifier::opaque]
pub open spec fn carried(enters: bool, now: nat, stays: bool, before: nat) -> nat {
    top(given(enters, now), given(stays, before))
}

/// A rank with one more bracket open.
pub open spec fn deeper(n: nat) -> nat {
    if n == 0 {
        0
    } else {
        n + 1
    }
}

/// A rank with one bracket closed, where one was open.
pub open spec fn shallower(n: nat) -> nat {
    if n < 2 {
        n
    } else {
        (n - 1) as nat
    }
}

/// The largest rank of a reading.
pub open spec fn highest(r: Reading) -> nat {
    top(r.plain, hidden(r))
}

/// The largest rank of the ways of reading in which brackets do not count.
pub open spec fn hidden(r: Reading) -> nat {
    top(
        top(top(r.value_double, r.value_single), top(r.key_double, r.key_single)),
        top(r.cut, top(top(r.line, r.block), top(r.pattern, r.tail))),
    )
}

/// The rank at which the character at `i` counts as what it is: a quoted value
/// ends before a bracket or a comma, and a comment may end before a brace.
#[verifier::opaque]
pub open spec fn seen(r: Reading, t: Seq<char>, i: int) -> nat {
    top(
        top(r.plain, given(ends_value(t[i]), top(r.value_double, r.value_single))),
        top(given(t[i] == ',', r.cut), given(t[i] == '}', r.line)),
    )
}

/// What ends a quoted value besides its quotation mark.
pub open spec fn ends_value(c: char) -> bool {
    is_closing(c) || c == ','
}

/// The rank at which the quotation mark at `i` may close a string.
pub open spec fn closed(r: Reading, t: Seq<char>, i: int) -> nat {
    top(
        top(
            given(t[i] == '"', top(r.value_double, r.key_double)),
            given(t[i] == '\'', top(r.value_single, r.key_single)),
        ),
        given(is_quote(t[i]), r.tail),
    )
}

/// The rank at which something ends with the character at `i`.
#[verifier::opaque]
pub open spec fn ended(r: Reading, t: Seq<char>, i: int) -> nat {
    top(
        top(closed(r, t, i), given(t[i] == '\n' || t[i] == '\r', r.line)),
        top(given(ends_comment(t, i), r.block), given(t[i] == '/', r.pattern)),
    )
}

/// Whether a block comment may end with the character at `i`.
pub open spec fn ends_comment(t: Seq<char>, i: int) -> bool {
    i > 0 && t[i - 1] == '*' && t[i] == '/'
}

/// Whether the character at `i` is a slash that `c` follows.
pub open spec fn slash_before(t: Seq<char>, i: int, c: char) -> bool {
    t[i] == '/' && i + 1 < t.len() && t[i + 1] == c
}

/// The rank at which a quotation mark at `i` may be followed by a continuation:
/// it closes a string, or it stands behind a word that goes on with one.
#[verifier::opaque]
pub open spec fn closing_rank(r: Reading, t: Seq<char>, i: int) -> nat {
    top(closed(r, t, i), given(is_glued(t, i), r.plain))
}

/// Whether there is no doubt how the character at `i` is read.  Nothing is
/// hidden and it is no comment, no part of a number that would have opened a
/// bracket or a string, and closes what it should; or it stands in a string and
/// does not end it, or ends it for good.
#[verifier::opaque]
pub open spec fn is_clear(r: Reading, t: Seq<char>, i: int) -> bool {
    let c = t[i];
    if hidden(r) == 0 {
        &&& c != '#' && c != '/'
        &&& is_opening(c) ==> !r.number
        &&& is_quote(c) ==> !r.number && !is_glued(t, i)
        &&& is_closing(c) ==> r.open.len() > 0 && closes(r.open.last(), c)
    } else {
        &&& !ends_value(c)
        &&& closed(r, t, i) > 0 ==> !is_muddled(t, i) && !is_doubled(t, i) && !continues(t, i)
    }
}

/// Whether a bracket closes another.
pub open spec fn closes(open: char, close: char) -> bool {
    open == '{' && close == '}' || open == '[' && close == ']'
}

/// The brackets that are open behind the character at `i`.
pub open spec fn open_after(r: Reading, c: char) -> Seq<char> {
    if hidden(r) > 0 {
        r.open
    } else if is_opening(c) {
        r.open.push(c)
    } else if is_closing(c) && r.open.len() > 0 {
        r.open.drop_last()
    } else {
        r.open
    }
}

/// How a reading goes on over the character at `i`.
pub open spec fn read(r: Reading, t: Seq<char>, i: int) -> Reading {
    let c = t[i];
    let now = seen(r, t, i);
    let muddled = is_muddled(t, i);
    let stays = if is_opening(c) {
        deeper(now)
    } else if is_closing(c) {
        shallower(now)
    } else {
        given(is_quote(c) ==> r.number || is_glued(t, i), now)
    };
    let double = c == '"';
    let single = c == '\'';
    let again = is_doubled(t, i);
    Reading {
        plain: top(stays, ended(r, t, i)),
        value_double: carried(
            double,
            now,
            muddled || !ends_value(c) && (double ==> again),
            r.value_double,
        ),
        value_single: carried(
            single,
            now,
            muddled || !ends_value(c) && (single ==> again),
            r.value_single,
        ),
        key_double: carried(double, now, muddled || !double, r.key_double),
        key_single: carried(single, now, muddled || !single, r.key_single),
        cut: carried(double, now, muddled || !double && c != ',', r.cut),
        line: carried(
            c == '#' || slash_before(t, i, '/'),
            now,
            !(c == '\n' || c == '\r'),
            r.line,
        ),
        block: carried(
            slash_before(t, i, '*'),
            now,
            !ends_comment(t, i) || i > 1 && t[i - 2] == '/',
            r.block,
        ),
        pattern: carried(
            c == '/' && !(i > 0 && is_digit(t[i - 1])),
            now,
            muddled || c != '/',
            r.pattern,
        ),
        tail: top(
            given(is_quote(c) && continues(t, i), closing_rank(r, t, i)),
            given(!is_quote(c), r.tail),
        ),
        number: if is_blank(c) || ends_value(c) || c == '(' || c == ')' || c == ':' {
            false
        } else {
            r.number || is_digit(c) || c == '-' || c == '.'
        },
        brace: r.brace || c == '{',
        first: r.first,
        open: open_after(r, c),
        sure: r.sure && is_clear(r, t, i),
    }
}

/// A reading that has ended.
pub open spec fn over() -> Reading {
    Reading {
        plain: 0,
        value_double: 0,
        value_single: 0,
        key_double: 0,
        key_single: 0,
        cut: 0,
        line: 0,
        block: 0,
        pattern: 0,
        tail: 0,
        number: false,
        brace: false,
        first: false,
        open: Seq::empty(),
        sure: false,
    }
}

/// Where the white space of any kind that begins at `i` ends.
pub open spec fn past_spaces(t: Seq<char>, i: int) -> int
    decreases t.len() - i,
{
    if 0 <= i < t.len() && is_space(t[i]) {
        past_spaces(t, i + 1)
    } else {
        i
    }
}

/// Whether, behind a value that ends at `i`, one more may begin.  Behind a
/// bracket that surely closes the first one, a word is none.
pub open spec fn starts_more(t: Seq<char>, i: int, sure: bool) -> bool {
    let j = past_gap(t, i, false);
    let k = if j < t.len() && t[j] == ',' {
        past_gap(t, j + 1, false)
    } else {
        j
    };
    let m = past_spaces(t, k);
    m < t.len() && (is_opening(t[m]) || is_quote(t[m]) || is_digit(t[m]) || t[m] == '-' || !sure
        && is_letter(t[m]))
}

/// How a text is read: from where, whether only to the end of the first value,
/// and whether a reading may begin anywhere.
pub ghost struct Way {
    pub from: int,
    pub once: bool,
    pub loose: bool,
}

/// How a reading goes on over the character at `i`, and ends.
pub open spec fn advance(way: Way, r: Reading, t: Seq<char>, i: int) -> Reading {
    let n = read(r, t, i);
    if way.loose {
        Reading { plain: top(n.plain, 1), ..n }
    } else if r.first && n.plain == 1 && hidden(n) == 0 {
        if way.once || !starts_more(t, i + 1, n.sure) {
            over()
        } else {
            Reading { first: false, ..n }
        }
    } else {
        n
    }
}

/// A reading at its beginning.
pub open spec fn outset(way: Way, t: Seq<char>) -> Reading {
    let closable = !way.loose && way.from < t.len() && is_opening(t[way.from]);
    Reading { plain: 1, first: closable, sure: closable, ..over() }
}

/// A reading before the character at `i`.
pub open spec fn reading(way: Way, t: Seq<char>, i: int) -> Reading
    decreases i - way.from,
{
    if i <= way.from {
        outset(way, t)
    } else {
        advance(way, reading(way, t, i - 1), t, i - 1)
    }
}

/// Whether the repair gets over the character at `i`.  An ellipsis that stands by
/// itself behind an opening brace has something behind it: the repair takes the
/// next character without looking.
pub open spec fn gets_over(r: Reading, t: Seq<char>, i: int) -> bool {
    highest(r) > 0 ==> {
        &&& escape_is_narrow(t, i)
        &&& r.brace && r.plain > 1 && stands_alone(t, i) ==> goes_on(t, past_blanks(t, i + 3))
        &&& is_quote(t[i]) && closing_rank(r, t, i) > 0 ==> continuation_ends(t, i)
    }
}

/// Whether a reading goes well up to `i`.
pub open spec fn goes_well_at(way: Way, t: Seq<char>, i: int) -> bool {
    &&& highest(reading(way, t, i)) <= MOST_OPEN + 1
    &&& i < t.len() ==> gets_over(reading(way, t, i), t, i)
}

/// Whether a reading goes well to the end of the text, or to its own.
pub open spec fn goes_well(way: Way, t: Seq<char>) -> bool {
    forall|i: int| way.from <= i <= t.len() ==> #[trigger] goes_well_at(way, t, i)
}

// ── what is read ─────────────────────────────────────────────────────

/// Where a text begins behind its byte order mark.
pub open spec fn past_mark(t: Seq<char>) -> int {
    if t.len() > 0 && t[0] == '\u{feff}' {
        1
    } else {
        0
    }
}

/// Where the first bracket from `i` on opens that what stands before it sets
/// apart.
pub open spec fn opening_apart(t: Seq<char>, i: int) -> Option<int>
    decreases t.len() - i,
{
    if i < 1 || i >= t.len() {
        None
    } else if is_opening(t[i]) && (is_blank(t[i - 1]) || t[i - 1] == '(' || t[i - 1] == ':' || t[i
        - 1] == ',' || t[i - 1] == '=') {
        Some(i)
    } else {
        opening_apart(t, i + 1)
    }
}

/// How a repair reads a text that is neither fenced nor a call.  What stands
/// before the first bracket is passed over as prose, and then so is what stands
/// behind the value; where there is no bracket all of it is read.
pub open spec fn way_into(t: Seq<char>) -> Way {
    let p = past_gap(t, past_mark(t), false);
    match if p < t.len() && !is_opening(t[p]) {
        opening_apart(t, p + 1)
    } else {
        None
    } {
        Some(k) => Way { from: k, once: true, loose: false },
        None => Way { from: p, once: false, loose: false },
    }
}

/// Where a word that begins at `i` ends.
pub open spec fn past_word(t: Seq<char>, i: int) -> int
    decreases t.len() - i,
{
    if 0 <= i < t.len() && is_word(t[i]) {
        past_word(t, i + 1)
    } else {
        i
    }
}

/// Whether a text begins like a call: a word and a parenthesis.
pub open spec fn is_call(t: Seq<char>) -> bool {
    let k = past_spaces(t, past_mark(t));
    let m = past_spaces(t, past_word(t, k));
    k < t.len() && is_word(t[k]) && !is_digit(t[k]) && m < t.len() && t[m] == '('
}

/// Whether parts of a text may be read by themselves, each from its beginning:
/// what stands between fences, or the argument of a call.
pub open spec fn is_wrapped(t: Seq<char>) -> bool {
    find(t, "```"@) is Some || is_call(t)
}

/// Whether a repair of this text comes back.
pub open spec fn comes_back(t: Seq<char>) -> bool {
    if is_wrapped(t) {
        goes_well(Way { from: 0, once: false, loose: true }, t)
    } else {
        goes_well(way_into(t), t)
    }
}

/// What a count of the brackets outside of strings comes to.
pub ghost enum Count {
    /// One is closed that was never opened.
    Falls,
    /// The one that was opened first is closed here.
    Closes(int),
    /// The text ends before.
    StaysOpen,
}

/// What comes of counting brackets from `i` on until a `close` brings the count
/// back to zero.
pub open spec fn count(
    t: Seq<char>,
    i: int,
    depth: nat,
    in_string: bool,
    escaped: bool,
    close: char,
) -> Count
    decreases t.len() - i,
{
    if i < 0 || i >= t.len() {
        Count::StaysOpen
    } else if escaped {
        count(t, i + 1, depth, in_string, false, close)
    } else if in_string {
        count(t, i + 1, depth, t[i] != '"', t[i] == '\\', close)
    } else if is_closing(t[i]) {
        if depth == 0 {
            Count::Falls
        } else if depth == 1 && t[i] == close {
            Count::Closes(i)
        } else {
            count(t, i + 1, (depth - 1) as nat, false, false, close)
        }
    } else if is_opening(t[i]) {
        count(t, i + 1, depth + 1, false, false, close)
    } else {
        count(t, i + 1, depth, t[i] == '"', false, close)
    }
}

/// What comes of counting from the bracket at `i` on.
pub open spec fn count_at(t: Seq<char>, i: int) -> Count {
    count(
        t,
        i,
        0,
        false,
        false,
        if t[i] == '{' {
            '}'
        } else {
            ']'
        },
    )
}

/// A bracket is closed no earlier than the count begins, and inside the text.
pub proof fn lemma_count(
    t: Seq<char>,
    i: int,
    depth: nat,
    in_string: bool,
    escaped: bool,
    close: char,
)
    ensures
        count(t, i, depth, in_string, escaped, close) matches Count::Closes(e) ==> i <= e
            < t.len(),
    decreases t.len() - i,
{
    if 0 <= i < t.len() {
        if escaped {
            lemma_count(t, i + 1, depth, in_string, false, close);
        } else if in_string {
            lemma_count(t, i + 1, depth, t[i] != '"', t[i] == '\\', close);
        } else if is_closing(t[i]) {
            if depth > 0 {
                lemma_count(t, i + 1, (depth - 1) as nat, false, false, close);
            }
        } else if is_opening(t[i]) {
            lemma_count(t, i + 1, depth + 1, false, false, close);
        } else {
            lemma_count(t, i + 1, depth, t[i] == '"', false, close);
        }
    }
}

/// Whether no count falls, from `i` on: one starts at every bracket that opens
/// outside of what an earlier count has closed.
pub open spec fn counts_hold(t: Seq<char>, i: int) -> bool
    decreases t.len() - i,
{
    if i < 0 || i >= t.len() {
        true
    } else if is_opening(t[i]) {
        match count_at(t, i) {
            Count::Falls => false,
            Count::Closes(e) => {
                proof {
                    lemma_count(
                        t,
                        i,
                        0,
                        false,
                        false,
                        if t[i] == '{' {
                            '}'
                        } else {
                            ']'
                        },
                    );
                }
                counts_hold(t, e + 1)
            },
            Count::StaysOpen => counts_hold(t, i + 1),
        }
    } else {
        counts_hold(t, i + 1)
    }
}

/// Where the first part opens, from `i` on, that a count closes.
pub open spec fn first_part(t: Seq<char>, i: int) -> Option<int>
    decreases t.len() - i,
{
    if i < 0 || i >= t.len() {
        None
    } else if is_opening(t[i]) && count_at(t, i) is Closes {
        Some(i)
    } else {
        first_part(t, i + 1)
    }
}

/// Whether a repair of this text comes back, and one of its first bracketed part
/// too.
pub open spec fn repairable(t: Seq<char>) -> bool {
    &&& comes_back(t)
    &&& counts_hold(t, 0)
    &&& first_part(t, 0) matches Some(k) ==> is_wrapped(t) || goes_well(
        Way { from: k, once: false, loose: false },
        t,
    )
}

/// Whether the search for JSON ends with the first bracketed part of a text.
pub open spec fn ends_with_part(t: Seq<char>) -> bool {
    first_part(t, 0) is Some && find(t, "```"@) is None
}

// ── what is sure to be read ──────────────────────────────────────────

/// How many brackets a text opens.
pub open spec fn brackets(t: Seq<char>) -> nat
    decreases t.len(),
{
    if t.len() == 0 {
        0
    } else {
        brackets(t.drop_last()) + if is_opening(t.last()) {
            1nat
        } else {
            0nat
        }
    }
}

/// A longer text opens no fewer brackets.
proof fn lemma_brackets_grow(t: Seq<char>, n: int)
    requires
        0 <= n <= t.len(),
    ensures
        brackets(t.take(n)) <= brackets(t),
    decreases t.len() - n,
{
    if n < t.len() {
        lemma_brackets_grow(t, n + 1);
        assert(t.take(n + 1).drop_last() =~= t.take(n));
    } else {
        assert(t.take(n) =~= t);
    }
}

/// What counts as itself has no larger rank than the largest.
proof fn lemma_seen(r: Reading, t: Seq<char>, i: int)
    ensures
        seen(r, t, i) <= highest(r),
{
    reveal(seen);
}

/// What ends with a character has no larger rank than the largest.
proof fn lemma_ended(r: Reading, t: Seq<char>, i: int)
    ensures
        ended(r, t, i) <= highest(r),
        closing_rank(r, t, i) <= highest(r),
{
    reveal(ended);
    reveal(closing_rank);
}

/// What is carried on has no larger rank than where it comes from.
proof fn lemma_carried(enters: bool, now: nat, stays: bool, before: nat, most: nat)
    requires
        now <= most,
        before <= most,
    ensures
        carried(enters, now, stays, before) <= most,
{
    reveal(carried);
}

/// A character raises no rank, but for a bracket that opens.
proof fn lemma_read_rises(r: Reading, t: Seq<char>, i: int)
    ensures
        highest(read(r, t, i)) <= highest(r) + if is_opening(t[i]) {
            1nat
        } else {
            0nat
        },
{
    let most = highest(r);
    let n = read(r, t, i);
    lemma_seen(r, t, i);
    lemma_ended(r, t, i);
    assert forall|enters: bool, stays: bool, before: nat| before <= most implies #[trigger] carried(
        enters,
        seen(r, t, i),
        stays,
        before,
    ) <= most by {
        lemma_carried(enters, seen(r, t, i), stays, before, most);
    }
    assert(n.value_double <= most && n.value_single <= most);
    assert(n.key_double <= most && n.key_single <= most);
    assert(n.cut <= most && n.line <= most && n.block <= most && n.pattern <= most);
    assert(n.tail <= most);
}

/// No more brackets are open than the text has opened.
proof fn lemma_no_deeper_than_brackets(way: Way, t: Seq<char>, i: int)
    requires
        0 <= way.from,
        i <= t.len(),
    ensures
        highest(reading(way, t, i)) <= 1 + brackets(
            t.take(
                if i < 0 {
                    0
                } else {
                    i
                },
            ),
        ),
    decreases i - way.from,
{
    if i > way.from {
        lemma_no_deeper_than_brackets(way, t, i - 1);
        lemma_read_rises(reading(way, t, i - 1), t, i - 1);
        assert(t.take(i).drop_last() =~= t.take(i - 1));
        assert(t.take(i).last() == t[i - 1]);
    }
}

/// It takes more than [`MOST_OPEN`] brackets to be refused for how deep they
/// nest: a text that opens no more than that is read to its end wherever each of
/// its characters can be got over.
pub proof fn law_few_brackets_never_nest_too_deep(way: Way, t: Seq<char>)
    requires
        0 <= way.from,
        brackets(t) <= MOST_OPEN,
        forall|i: int|
            way.from <= i < t.len() ==> gets_over(#[trigger] reading(way, t, i), t, i),
    ensures
        goes_well(way, t),
{
    assert forall|i: int| way.from <= i <= t.len() implies #[trigger] goes_well_at(way, t, i) by {
        lemma_no_deeper_than_brackets(way, t, i);
        lemma_brackets_grow(t, i);
    }
}

/// Whether a character is white space of JSON.
fn blank(c: char) -> (yes: bool)
    ensures
        yes == is_blank(c),
{
    c == ' ' || c == '\t' || c == '\n' || c == '\r'
}

/// Whether a character is a quotation mark.
fn quote(c: char) -> (yes: bool)
    ensures
        yes == is_quote(c),
{
    c == '"' || c == '\''
}

/// Whether a character opens an object or an array.
fn opening(c: char) -> (yes: bool)
    ensures
        yes == is_opening(c),
{
    c == '{' || c == '['
}

/// Whether a character closes an object or an array.
fn closing(c: char) -> (yes: bool)
    ensures
        yes == is_closing(c),
{
    c == '}' || c == ']'
}

/// Whether a character takes one byte.
fn narrow(c: char) -> (yes: bool)
    ensures
        yes == is_narrow(c),
{
    (c as u32) < 128
}

/// Whether what an escape at `i` reaches over is narrow.
fn narrow_escape(t: &[char], i: usize) -> (yes: bool)
    requires
        i < t@.len(),
    ensures
        yes == escape_is_narrow(t@, i as int),
{
    let n: usize = t.len();
    if t[i] != '\\' || n - i < 2 {
        return true;
    }
    if !narrow(t[i + 1]) {
        return false;
    }
    if t[i + 1] != 'u' {
        return true;
    }
    let mut j: usize = i + 2;
    let reach: usize = if j < n && (t[j] == 'd' || t[j] == 'D') {
        14
    } else {
        4
    };
    let mut left: usize = reach;
    while left > 0 && j < n
        invariant
            n == t@.len(),
            i + 1 < n,
            t@[i as int] == '\\',
            t@[i + 1] == 'u',
            reach == escape_reach(t@, i as int),
            left <= reach,
            i + 2 <= j <= n,
            j + left == i + 2 + reach,
            forall|k: int| i + 2 <= k < j ==> is_narrow(#[trigger] t@[k]),
        decreases left,
    {
        if !narrow(t[j]) {
            assert(!is_narrow(t@[j as int]));
            return false;
        }
        j += 1;
        left -= 1;
    }
    true
}

/// Where the white space that begins at `from` ends.
fn blanks_end(t: &[char], from: usize) -> (out: usize)
    requires
        from <= t@.len(),
    ensures
        from <= out <= t@.len(),
        out == past_blanks(t@, from as int),
{
    let mut i: usize = from;
    while i < t.len() && blank(t[i])
        invariant
            from <= i <= t@.len(),
            past_blanks(t@, from as int) == past_blanks(t@, i as int),
        decreases t@.len() - i,
    {
        i += 1;
    }
    i
}

/// Behind the end of the line.
fn line_end(t: &[char], from: usize) -> (out: usize)
    requires
        from <= t@.len(),
    ensures
        from <= out <= t@.len(),
        out == past_line(t@, from as int),
{
    let mut i: usize = from;
    while i < t.len()
        invariant
            from <= i <= t@.len(),
            past_line(t@, from as int) == past_line(t@, i as int),
        decreases t@.len() - i,
    {
        if t[i] == '\n' || t[i] == '\r' {
            return i + 1;
        }
        i += 1;
    }
    i
}

/// Behind the end of the block comment.
fn comment_end(t: &[char], from: usize) -> (out: usize)
    requires
        from <= t@.len(),
    ensures
        from <= out <= t@.len(),
        out == past_comment(t@, from as int),
{
    let n: usize = t.len();
    let mut i: usize = from;
    while i < n && n - i >= 2
        invariant
            n == t@.len(),
            from <= i <= n,
            past_comment(t@, from as int) == past_comment(t@, i as int),
        decreases n - i,
    {
        if t[i] == '*' && t[i + 1] == '/' {
            return i + 2;
        }
        i += 1;
    }
    n
}

/// Behind the white space and the comments, and behind the plus signs.
fn gap_end(t: &[char], from: usize, plus: bool) -> (out: usize)
    requires
        from <= t@.len(),
    ensures
        from <= out <= t@.len(),
        out == past_gap(t@, from as int, plus),
{
    let n: usize = t.len();
    let mut i: usize = from;
    while i < n
        invariant
            n == t@.len(),
            from <= i <= n,
            past_gap(t@, from as int, plus) == past_gap(t@, i as int, plus),
        decreases n - i,
    {
        let c: char = t[i];
        if blank(c) || plus && c == '+' {
            i += 1;
        } else if c == '#' {
            i = line_end(t, i + 1);
        } else if c == '/' && n - i >= 2 && t[i + 1] == '/' {
            i = line_end(t, i + 2);
        } else if c == '/' && n - i >= 2 && t[i + 1] == '*' {
            i = comment_end(t, i + 2);
        } else {
            return i;
        }
    }
    i
}

/// Whether a quotation mark comes before the repair may stop reading.
fn finds_quote(t: &[char], from: usize) -> (yes: bool)
    requires
        from <= t@.len(),
    ensures
        yes == quote_ahead(t@, from as int),
{
    let mut i: usize = from;
    while i < t.len()
        invariant
            from <= i <= t@.len(),
            quote_ahead(t@, from as int) == quote_ahead(t@, i as int),
        decreases t@.len() - i,
    {
        let c: char = t[i];
        if closing(c) || c == ')' || c == '`' {
            return false;
        }
        if quote(c) {
            return true;
        }
        i += 1;
    }
    false
}

/// Whether a character is a letter.
fn letter(c: char) -> (yes: bool)
    ensures
        yes == is_letter(c),
{
    ('a' <= c && c <= 'z') || ('A' <= c && c <= 'Z')
}

/// Whether a character is a digit.
fn numeral(c: char) -> (yes: bool)
    ensures
        yes == is_digit(c),
{
    '0' <= c && c <= '9'
}

/// Whether a character belongs to a word.
fn of_word(c: char) -> (yes: bool)
    ensures
        yes == is_word(c),
{
    numeral(c) || letter(c) || c == '_' || c == '$'
}

/// Whether a bracket or a comma ends a quoted value here.
fn value_ends(c: char) -> (yes: bool)
    ensures
        yes == ends_value(c),
{
    closing(c) || c == ','
}

/// Whether an ellipsis at `i` stands by itself.
fn alone(t: &[char], i: usize) -> (yes: bool)
    requires
        i < t@.len(),
    ensures
        yes == stands_alone(t@, i as int),
{
    proof {
        reveal_strlit("...");
    }
    if i == 0 || t.len() - i < 3 {
        return false;
    }
    if !(t[i] == '.' && t[i + 1] == '.' && t[i + 2] == '.') {
        assert(stands_alone(t@, i as int) ==> t@.subrange(i as int, i + 3)[0] == '.' && t@.subrange(
            i as int,
            i + 3,
        )[1] == '.' && t@.subrange(i as int, i + 3)[2] == '.');
        return false;
    }
    assert(t@.subrange(i as int, i + 3) =~= "..."@);
    let before: char = t[i - 1];
    blank(before) || quote(before) || before == ':' || before == '/'
}

/// Whether the repair finds something behind an ellipsis at `i`.
fn has_more(t: &[char], i: usize) -> (yes: bool)
    requires
        i + 3 <= t@.len(),
    ensures
        yes == goes_on(t@, past_blanks(t@, i + 3)),
{
    let n: usize = t.len();
    let k: usize = blanks_end(t, i + 3);
    if k >= n {
        return false;
    }
    let c: char = t[k];
    !(c == '.' || c == '/' || c == '#' || c == '`' || c == ')')
}

/// Whether a string closed at `i` seems to continue.
fn seems_to_continue(t: &[char], i: usize) -> (yes: bool)
    requires
        i < t@.len(),
    ensures
        yes == continues(t@, i as int),
{
    proof {
        reveal(continues);
    }
    let n: usize = t.len();
    let k: usize = gap_end(t, i + 1, true);
    if k >= n {
        return false;
    }
    let c: char = t[k];
    c == '?' || c == '!' || c == '<' || c == '>' || c == '/' || c == '.'
}

/// Whether what continues a string closed at `i` ends.
fn continuation_is_safe(t: &[char], i: usize) -> (yes: bool)
    requires
        i < t@.len(),
    ensures
        yes == continuation_ends(t@, i as int),
{
    proof {
        reveal(continues);
    }
    let n: usize = t.len();
    if !seems_to_continue(t, i) {
        return true;
    }
    let k: usize = gap_end(t, i + 1, true);
    let mut j: usize = i + 1;
    while j < k
        invariant
            n == t@.len(),
            i < j <= k < n,
            k == past_gap(t@, i + 1, true),
            continues(t@, i as int),
            forall|m: int| i < m < j ==> is_blank(#[trigger] t@[m]) || t@[m] == '+',
        decreases k - j,
    {
        if !(blank(t[j]) || t[j] == '+') {
            assert(!(is_blank(t@[j as int]) || t@[j as int] == '+'));
            return false;
        }
        j += 1;
    }
    finds_quote(t, k + 1)
}

/// Whether a backslash before `i` may reach over it.
fn muddled_at(t: &[char], i: usize) -> (yes: bool)
    requires
        i < t@.len(),
    ensures
        yes == is_muddled(t@, i as int),
{
    proof {
        reveal(is_muddled);
    }
    if i > 0 && t[i - 1] == '\\' {
        return true;
    }
    if i < 2 {
        return false;
    }
    let least: usize = if i < 15 {
        0
    } else {
        i - 15
    };
    let mut j: usize = i - 1;
    while j > least
        invariant
            2 <= i < t@.len(),
            least <= j < i,
            least == if i < 15 {
                0
            } else {
                i - 15
            },
            forall|k: int|
                j <= k <= i - 2 ==> !(#[trigger] t@[k] == '\\' && t@[k + 1] == 'u'),
        decreases j,
    {
        j -= 1;
        if t[j] == '\\' && t[j + 1] == 'u' {
            proof {
                reveal(is_muddled);
            }
            assert(t@[j as int] == '\\');
            return true;
        }
    }
    false
}

/// Whether a quotation mark at `i` may be the second of two.
fn doubled_at(t: &[char], i: usize) -> (yes: bool)
    requires
        i < t@.len(),
    ensures
        yes == is_doubled(t@, i as int),
{
    if i == 0 || t.len() - i < 2 || t[i - 1] != t[i] {
        return false;
    }
    let next: char = t[i + 1];
    !(blank(next) || closing(next) || quote(next) || next == ',' || next == ':')
}

/// Whether a word ends right before `i`.
fn glued_at(t: &[char], i: usize) -> (yes: bool)
    requires
        i < t@.len(),
    ensures
        yes == is_glued(t@, i as int),
{
    i > 0 && of_word(t[i - 1])
}

/// A [`Reading`] that is being followed.
struct Ranks {
    plain: usize,
    value_double: usize,
    value_single: usize,
    key_double: usize,
    key_single: usize,
    cut: usize,
    line: usize,
    block: usize,
    pattern: usize,
    tail: usize,
    number: bool,
    brace: bool,
    first: bool,
    open: Vec<char>,
    sure: bool,
}

impl View for Ranks {
    type V = Reading;

    closed spec fn view(&self) -> Reading {
        Reading {
            plain: self.plain as nat,
            value_double: self.value_double as nat,
            value_single: self.value_single as nat,
            key_double: self.key_double as nat,
            key_single: self.key_single as nat,
            cut: self.cut as nat,
            line: self.line as nat,
            block: self.block as nat,
            pattern: self.pattern as nat,
            tail: self.tail as nat,
            number: self.number,
            brace: self.brace,
            first: self.first,
            open: self.open@,
            sure: self.sure,
        }
    }
}

/// The larger of two ranks.
fn upper(a: usize, b: usize) -> (n: usize)
    ensures
        n as nat == top(a as nat, b as nat),
{
    if a < b {
        b
    } else {
        a
    }
}

/// A rank that is only reached under a condition.
fn rank_if(yes: bool, n: usize) -> (out: usize)
    ensures
        out as nat == given(yes, n as nat),
{
    if yes {
        n
    } else {
        0
    }
}

/// The rank of a way of reading that is entered at one rank and kept at another.
fn carry(enters: bool, now: usize, stays: bool, before: usize) -> (n: usize)
    ensures
        n as nat == carried(enters, now as nat, stays, before as nat),
{
    proof {
        reveal(carried);
    }
    upper(rank_if(enters, now), rank_if(stays, before))
}

/// The largest rank of the ways of reading in which brackets do not count.
fn hidden_rank(r: &Ranks) -> (n: usize)
    ensures
        n as nat == hidden(r@),
{
    upper(
        upper(upper(r.value_double, r.value_single), upper(r.key_double, r.key_single)),
        upper(r.cut, upper(upper(r.line, r.block), upper(r.pattern, r.tail))),
    )
}

/// The largest rank.
fn highest_rank(r: &Ranks) -> (n: usize)
    ensures
        n as nat == highest(r@),
{
    upper(r.plain, hidden_rank(r))
}

/// The rank at which the character at `i` counts as what it is.
fn seen_rank(r: &Ranks, t: &[char], i: usize) -> (n: usize)
    requires
        i < t@.len(),
    ensures
        n as nat == seen(r@, t@, i as int),
{
    proof {
        reveal(seen);
    }
    let c: char = t[i];
    upper(
        upper(r.plain, rank_if(value_ends(c), upper(r.value_double, r.value_single))),
        upper(rank_if(c == ',', r.cut), rank_if(c == '}', r.line)),
    )
}

/// The rank at which the quotation mark at `i` may close a string.
fn closed_rank(r: &Ranks, t: &[char], i: usize) -> (n: usize)
    requires
        i < t@.len(),
    ensures
        n as nat == closed(r@, t@, i as int),
{
    let c: char = t[i];
    upper(
        upper(
            rank_if(c == '"', upper(r.value_double, r.key_double)),
            rank_if(c == '\'', upper(r.value_single, r.key_single)),
        ),
        rank_if(quote(c), r.tail),
    )
}

/// Whether a block comment may end with the character at `i`.
fn comment_ends(t: &[char], i: usize) -> (yes: bool)
    requires
        i < t@.len(),
    ensures
        yes == ends_comment(t@, i as int),
{
    i > 0 && t[i - 1] == '*' && t[i] == '/'
}

/// Whether the character at `i` is a slash that `c` follows.
fn slash_and(t: &[char], i: usize, c: char) -> (yes: bool)
    requires
        i < t@.len(),
    ensures
        yes == slash_before(t@, i as int, c),
{
    t[i] == '/' && t.len() - i >= 2 && t[i + 1] == c
}

/// The rank at which something ends with the character at `i`.
fn ended_rank(r: &Ranks, t: &[char], i: usize) -> (n: usize)
    requires
        i < t@.len(),
    ensures
        n as nat == ended(r@, t@, i as int),
{
    proof {
        reveal(ended);
    }
    let c: char = t[i];
    upper(
        upper(closed_rank(r, t, i), rank_if(c == '\n' || c == '\r', r.line)),
        upper(rank_if(comment_ends(t, i), r.block), rank_if(c == '/', r.pattern)),
    )
}

/// The rank at which a quotation mark at `i` may be followed by a continuation.
fn closing_quote(r: &Ranks, t: &[char], i: usize) -> (n: usize)
    requires
        i < t@.len(),
    ensures
        n as nat == closing_rank(r@, t@, i as int),
{
    proof {
        reveal(closing_rank);
    }
    upper(closed_rank(r, t, i), rank_if(glued_at(t, i), r.plain))
}

/// Whether there is no doubt how the character at `i` is read.
fn clear_at(r: &Ranks, t: &[char], i: usize) -> (yes: bool)
    requires
        i < t@.len(),
    ensures
        yes == is_clear(r@, t@, i as int),
{
    proof {
        reveal(is_clear);
    }
    let c: char = t[i];
    if hidden_rank(r) == 0 {
        if c == '#' || c == '/' {
            return false;
        }
        if opening(c) && r.number {
            return false;
        }
        if quote(c) && (r.number || glued_at(t, i)) {
            return false;
        }
        if closing(c) {
            let n: usize = r.open.len();
            if n == 0 {
                return false;
            }
            let top_open: char = r.open[n - 1];
            return (top_open == '{' && c == '}') || (top_open == '[' && c == ']');
        }
        true
    } else {
        if value_ends(c) {
            return false;
        }
        if closed_rank(r, t, i) > 0 {
            return !muddled_at(t, i) && !doubled_at(t, i) && !seems_to_continue(t, i);
        }
        true
    }
}

/// How a reading goes on over the character at `i`.
fn read_on(r: Ranks, t: &[char], i: usize) -> (out: Ranks)
    requires
        i < t@.len(),
        highest(r@) <= MOST_OPEN + 1,
    ensures
        out@ == read(r@, t@, i as int),
{
    let c: char = t[i];
    let now: usize = seen_rank(&r, t, i);
    proof {
        lemma_seen(r@, t@, i as int);
    }
    let ends: usize = ended_rank(&r, t, i);
    let muddled = muddled_at(t, i);
    let glued = glued_at(t, i);
    let again = doubled_at(t, i);
    let double = c == '"';
    let single = c == '\'';
    let line_ends = c == '\n' || c == '\r';
    let stays: usize = if opening(c) {
        if now == 0 {
            0
        } else {
            now + 1
        }
    } else if closing(c) {
        if now < 2 {
            now
        } else {
            now - 1
        }
    } else {
        rank_if(!quote(c) || r.number || glued, now)
    };
    let tail: usize = if quote(c) {
        rank_if(seems_to_continue(t, i), closing_quote(&r, t, i))
    } else {
        r.tail
    };
    let in_view = hidden_rank(&r) == 0;
    let sure = r.sure && clear_at(&r, t, i);
    let ghost before = r@;
    let mut open = r.open;
    if in_view {
        if opening(c) {
            open.push(c);
        } else if closing(c) && open.len() > 0 {
            let _ = open.pop();
        }
    }
    assert(open@ =~= open_after(before, c));
    let value_stays = !value_ends(c);
    Ranks {
        plain: upper(stays, ends),
        value_double: carry(
            double,
            now,
            muddled || (value_stays && (!double || again)),
            r.value_double,
        ),
        value_single: carry(
            single,
            now,
            muddled || (value_stays && (!single || again)),
            r.value_single,
        ),
        key_double: carry(double, now, muddled || !double, r.key_double),
        key_single: carry(single, now, muddled || !single, r.key_single),
        cut: carry(double, now, muddled || (!double && c != ','), r.cut),
        line: carry(c == '#' || slash_and(t, i, '/'), now, !line_ends, r.line),
        block: carry(
            slash_and(t, i, '*'),
            now,
            !comment_ends(t, i) || (i > 1 && t[i - 2] == '/'),
            r.block,
        ),
        pattern: carry(
            c == '/' && !(i > 0 && numeral(t[i - 1])),
            now,
            muddled || c != '/',
            r.pattern,
        ),
        tail,
        number: !(blank(c) || value_ends(c) || c == '(' || c == ')' || c == ':') && (r.number
            || numeral(c) || c == '-' || c == '.'),
        brace: r.brace || c == '{',
        first: r.first,
        open,
        sure,
    }
}

/// Where the white space of any kind that begins at `from` ends.
fn spaces_end(t: &[char], from: usize) -> (out: usize)
    requires
        from <= t@.len(),
    ensures
        from <= out <= t@.len(),
        out == past_spaces(t@, from as int),
{
    let mut i: usize = from;
    while i < t.len() && space(t[i])
        invariant
            from <= i <= t@.len(),
            past_spaces(t@, from as int) == past_spaces(t@, i as int),
        decreases t@.len() - i,
    {
        i += 1;
    }
    i
}

/// Whether, behind a value that ends at `i`, one more may begin.
fn more_starts(t: &[char], i: usize, sure: bool) -> (yes: bool)
    requires
        i <= t@.len(),
    ensures
        yes == starts_more(t@, i as int, sure),
{
    let n: usize = t.len();
    let mut k: usize = gap_end(t, i, false);
    if k < n && t[k] == ',' {
        k = gap_end(t, k + 1, false);
    }
    let m: usize = spaces_end(t, k);
    if m >= n {
        return false;
    }
    let c: char = t[m];
    opening(c) || quote(c) || numeral(c) || c == '-' || (!sure && letter(c))
}

/// A reading at its beginning, or behind its end.
fn at_root(plain: usize, closable: bool) -> (r: Ranks)
    ensures
        r@ == (Reading { plain: plain as nat, first: closable, sure: closable, ..over() }),
{
    let r = Ranks {
        plain,
        value_double: 0,
        value_single: 0,
        key_double: 0,
        key_single: 0,
        cut: 0,
        line: 0,
        block: 0,
        pattern: 0,
        tail: 0,
        number: false,
        brace: false,
        first: closable,
        open: Vec::new(),
        sure: closable,
    };
    assert(r.open@ =~= Seq::<char>::empty());
    r
}

/// How a reading goes on over the character at `i`, and ends.
fn step(way: Ghost<Way>, once: bool, loose: bool, r: Ranks, t: &[char], i: usize) -> (out: Ranks)
    requires
        i < t@.len(),
        highest(r@) <= MOST_OPEN + 1,
        way@.once == once,
        way@.loose == loose,
    ensures
        out@ == advance(way@, r@, t@, i as int),
{
    let first = r.first;
    assert(i < t.len());
    let n = read_on(r, t, i);
    if loose {
        let mut n = n;
        n.plain = upper(n.plain, 1);
        n
    } else if first && n.plain == 1 && hidden_rank(&n) == 0 {
        if once || !more_starts(t, i + 1, n.sure) {
            at_root(0, false)
        } else {
            let mut n = n;
            n.first = false;
            n
        }
    } else {
        n
    }
}

/// Whether the repair gets over the character at `i`.
fn step_is_safe(r: &Ranks, t: &[char], i: usize) -> (yes: bool)
    requires
        i < t@.len(),
    ensures
        yes == gets_over(r@, t@, i as int),
{
    if highest_rank(r) == 0 {
        return true;
    }
    if !narrow_escape(t, i) {
        return false;
    }
    if r.brace && r.plain > 1 && alone(t, i) {
        proof {
            reveal_strlit("...");
        }
        if !has_more(t, i) {
            return false;
        }
    }
    if quote(t[i]) && closing_quote(r, t, i) > 0 {
        return continuation_is_safe(t, i);
    }
    true
}

/// Whether a reading goes well to the end of the text, or to its own.
fn can_be_read(t: &[char], from: usize, once: bool, loose: bool) -> (yes: bool)
    requires
        from <= t@.len(),
    ensures
        yes == goes_well(Way { from: from as int, once, loose }, t@),
{
    let ghost way = Way { from: from as int, once, loose };
    let mut r = at_root(1, !loose && from < t.len() && opening(t[from]));
    let mut i: usize = from;
    assert(r@ == outset(way, t@));
    while i < t.len()
        invariant
            way == (Way { from: from as int, once, loose }),
            from <= i <= t@.len(),
            r@ == reading(way, t@, i as int),
            forall|j: int| from <= j < i ==> #[trigger] goes_well_at(way, t@, j),
        decreases t@.len() - i,
    {
        if highest_rank(&r) > MOST_OPEN + 1 || !step_is_safe(&r, t, i) {
            assert(!goes_well_at(way, t@, i as int));
            return false;
        }
        assert(goes_well_at(way, t@, i as int));
        r = step(Ghost(way), once, loose, r, t, i);
        i += 1;
    }
    let yes = highest_rank(&r) <= MOST_OPEN + 1;
    assert(yes == goes_well_at(way, t@, i as int));
    yes
}

/// Where the first bracket from `from` on opens that is set apart.
fn find_opening(t: &[char], from: usize) -> (out: Option<usize>)
    requires
        1 <= from <= t@.len(),
    ensures
        match out {
            Some(k) => opening_apart(t@, from as int) == Some(k as int) && k < t@.len(),
            None => opening_apart(t@, from as int) is None,
        },
{
    let mut i: usize = from;
    while i < t.len()
        invariant
            1 <= from <= i <= t@.len(),
            opening_apart(t@, from as int) == opening_apart(t@, i as int),
        decreases t@.len() - i,
    {
        let before: char = t[i - 1];
        if opening(t[i]) && (blank(before) || before == '(' || before == ':' || before == ','
            || before == '=') {
            return Some(i);
        }
        i += 1;
    }
    None
}

/// Behind the byte order mark.
fn mark_end(t: &[char]) -> (i: usize)
    ensures
        i <= t@.len(),
        i == past_mark(t@),
{
    if t.len() > 0 && t[0] == '\u{feff}' {
        1
    } else {
        0
    }
}

/// Whether a text begins like a call.
fn calls(t: &[char]) -> (yes: bool)
    ensures
        yes == is_call(t@),
{
    let n: usize = t.len();
    let k: usize = spaces_end(t, mark_end(t));
    let mut i: usize = k;
    while i < n && of_word(t[i])
        invariant
            n == t@.len(),
            k <= i <= n,
            past_word(t@, k as int) == past_word(t@, i as int),
        decreases n - i,
    {
        i += 1;
    }
    let m: usize = spaces_end(t, i);
    k < n && of_word(t[k]) && !numeral(t[k]) && m < n && t[m] == '('
}

/// Whether a text holds a fence mark.
fn fenced(t: &[char]) -> (yes: bool)
    ensures
        yes == (find(t@, "```"@) is Some),
{
    let mark = chars_of("```");
    find_chars(t, mark.as_slice(), 0).is_some()
}

/// Whether a repair of this text comes back.
fn survives(t: &[char]) -> (yes: bool)
    ensures
        yes == comes_back(t@),
{
    if fenced(t) || calls(t) {
        return can_be_read(t, 0, false, true);
    }
    let p: usize = gap_end(t, mark_end(t), false);
    if p < t.len() && !opening(t[p]) {
        match find_opening(t, p + 1) {
            Some(k) => can_be_read(t, k, true, false),
            None => can_be_read(t, p, false, false),
        }
    } else {
        can_be_read(t, p, false, false)
    }
}

/// What a count of the brackets comes to.
enum Counted {
    Falls,
    Closes(usize),
    StaysOpen,
}

/// What comes of counting from the bracket at `from` on.
fn count_brackets(t: &[char], from: usize) -> (out: Counted)
    requires
        from < t@.len(),
    ensures
        match out {
            Counted::Falls => count_at(t@, from as int) is Falls,
            Counted::Closes(e) => count_at(t@, from as int) == Count::Closes(e as int) && from <= e
                < t@.len(),
            Counted::StaysOpen => count_at(t@, from as int) is StaysOpen,
        },
{
    let close: char = if t[from] == '{' {
        '}'
    } else {
        ']'
    };
    let mut depth: usize = 0;
    let mut in_string = false;
    let mut escaped = false;
    let mut i: usize = from;
    while i < t.len()
        invariant
            from <= i <= t@.len(),
            from < t@.len(),
            depth <= i - from,
            count_at(t@, from as int) == count(
                t@,
                i as int,
                depth as nat,
                in_string,
                escaped,
                close,
            ),
        decreases t@.len() - i,
    {
        let c: char = t[i];
        if escaped {
            escaped = false;
        } else if in_string {
            in_string = c != '"';
            escaped = c == '\\';
        } else if closing(c) {
            if depth == 0 {
                return Counted::Falls;
            }
            if depth == 1 && c == close {
                return Counted::Closes(i);
            }
            depth -= 1;
        } else if opening(c) {
            depth += 1;
        } else {
            in_string = c == '"';
        }
        i += 1;
    }
    Counted::StaysOpen
}

/// Whether no count falls.
fn counts_are_safe(t: &[char]) -> (yes: bool)
    ensures
        yes == counts_hold(t@, 0),
{
    let mut i: usize = 0;
    while i < t.len()
        invariant
            i <= t@.len(),
            counts_hold(t@, 0) == counts_hold(t@, i as int),
        decreases t@.len() - i,
    {
        if opening(t[i]) {
            match count_brackets(t, i) {
                Counted::Falls => {
                    return false;
                },
                Counted::Closes(e) => {
                    i = e + 1;
                },
                Counted::StaysOpen => {
                    i += 1;
                },
            }
        } else {
            i += 1;
        }
    }
    true
}

/// Where the first part opens that a count closes.
fn find_part(t: &[char]) -> (out: Option<usize>)
    ensures
        match out {
            Some(k) => first_part(t@, 0) == Some(k as int) && k < t@.len(),
            None => first_part(t@, 0) is None,
        },
{
    let mut i: usize = 0;
    while i < t.len()
        invariant
            i <= t@.len(),
            first_part(t@, 0) == first_part(t@, i as int),
        decreases t@.len() - i,
    {
        if opening(t[i]) {
            if let Counted::Closes(_) = count_brackets(t, i) {
                return Some(i);
            }
        }
        i += 1;
    }
    None
}

/// Whether a repair of this text comes back, and one of its first bracketed part
/// too.
pub fn can_be_repaired(text: &str) -> (yes: bool)
    ensures
        yes == repairable(text@),
{
    let chars = chars_of(text);
    let t = chars.as_slice();
    if !survives(t) || !counts_are_safe(t) {
        return false;
    }
    match find_part(t) {
        Some(k) => fenced(t) || calls(t) || can_be_read(t, k, false, false),
        None => true,
    }
}

/// Whether a repair of the whole text comes back, where the search for JSON gets
/// as far as that: what is left of the text has no part to end with.
pub fn last_resort_is_safe(body: &str, text: &str) -> (yes: bool)
    ensures
        yes == (ends_with_part(body@) || comes_back(text@)),
{
    let chars = chars_of(body);
    let t = chars.as_slice();
    if find_part(t).is_some() && !fenced(t) {
        return true;
    }
    let whole = chars_of(text);
    survives(whole.as_slice())
}

// ── laws ─────────────────────────────────────────────────────────────

/// A gap ends no earlier than it begins.
proof fn lemma_past_gap(t: Seq<char>, i: int, plus: bool)
    requires
        0 <= i,
    ensures
        i <= past_gap(t, i, plus),
    decreases t.len() - i,
{
    if i < t.len() {
        if is_blank(t[i]) || plus && t[i] == '+' {
            lemma_past_gap(t, i + 1, plus);
        } else if t[i] == '#' {
            lemma_past(t, i + 1);
            lemma_past_gap(t, past_line(t, i + 1), plus);
        } else if t[i] == '/' && i + 1 < t.len() && t[i + 1] == '/' {
            lemma_past(t, i + 2);
            lemma_past_gap(t, past_line(t, i + 2), plus);
        } else if t[i] == '/' && i + 1 < t.len() && t[i + 1] == '*' {
            lemma_past(t, i + 2);
            lemma_past_gap(t, past_comment(t, i + 2), plus);
        }
    }
}

proof fn lemma_opening_apart(t: Seq<char>, i: int)
    ensures
        opening_apart(t, i) matches Some(k) ==> 1 <= k,
    decreases t.len() - i,
{
    if 1 <= i < t.len() {
        lemma_opening_apart(t, i + 1);
    }
}

/// Whether a text is free of what the repair may stumble over: escapes, what it
/// takes for the continuation of a string, and brackets of the other kind.
spec fn is_plain(t: Seq<char>, square: bool) -> bool {
    forall|i: int|
        0 <= i < t.len() ==> {
            let c = #[trigger] t[i];
            &&& c != '\\' && c != '?' && c != '!' && c != '<' && c != '>' && c != '/' && c != '.'
            &&& if square {
                c != '{' && c != '}'
            } else {
                c != '[' && c != ']'
            }
        }
}

proof fn lemma_plain_goes_well(way: Way, t: Seq<char>, square: bool)
    requires
        is_plain(t, square),
        brackets(t) <= 256,
        0 <= way.from,
    ensures
        goes_well(way, t),
{
    reveal_strlit("...");
    reveal(continues);
    assert forall|i: int| way.from <= i < t.len() implies gets_over(
        #[trigger] reading(way, t, i),
        t,
        i,
    ) by {
        assert(t[i] != '.');
        if occurs_at(t, "..."@, i) {
            assert(t.subrange(i, i + 3)[0] == t[i]);
        }
        let k = past_gap(t, i + 1, true);
        lemma_past_gap(t, i + 1, true);
        if k < t.len() {
            assert(!is_continuation(t[k]));
        }
    }
    law_few_brackets_never_nest_too_deep(way, t);
}

proof fn lemma_plain_count_holds(t: Seq<char>, square: bool, i: int, depth: nat, in_string: bool)
    requires
        is_plain(t, square),
        0 <= i,
        depth > 0 || !in_string && i < t.len() && is_opening(t[i]),
    ensures
        !(count(
            t,
            i,
            depth,
            in_string,
            false,
            if square {
                ']'
            } else {
                '}'
            },
        ) is Falls),
    decreases t.len() - i,
{
    if i < t.len() {
        assert(t[i] != '\\');
        if in_string {
            lemma_plain_count_holds(t, square, i + 1, depth, t[i] != '"');
        } else if is_closing(t[i]) {
            if depth > 1 {
                lemma_plain_count_holds(t, square, i + 1, (depth - 1) as nat, false);
            }
        } else if is_opening(t[i]) {
            lemma_plain_count_holds(t, square, i + 1, depth + 1, false);
        } else {
            lemma_plain_count_holds(t, square, i + 1, depth, t[i] == '"');
        }
    }
}

proof fn lemma_plain_counts_hold(t: Seq<char>, square: bool, i: int)
    requires
        is_plain(t, square),
        0 <= i,
    ensures
        counts_hold(t, i),
        first_part(t, i) matches Some(k) ==> 0 <= k,
    decreases t.len() - i,
{
    if i < t.len() {
        lemma_plain_counts_hold(t, square, i + 1);
        if is_opening(t[i]) {
            lemma_plain_count_holds(t, square, i, 0, false);
            lemma_count(
                t,
                i,
                0,
                false,
                false,
                if square {
                    ']'
                } else {
                    '}'
                },
            );
            if let Count::Closes(e) = count_at(t, i) {
                lemma_plain_counts_hold(t, square, e + 1);
            }
        }
    }
}

/// Objects in objects, or arrays in arrays, of words, numbers and strings are
/// repaired, whatever is wrong with their commas, their colons, their quotation
/// marks and their brackets, when no more brackets are opened than the stack has
/// room for.
pub proof fn law_a_plain_text_is_repaired(t: Seq<char>, square: bool)
    requires
        forall|i: int|
            0 <= i < t.len() ==> {
                let c = #[trigger] t[i];
                &&& c != '\\' && c != '?' && c != '!' && c != '<' && c != '>' && c != '/' && c != '.'
                &&& if square {
                    c != '{' && c != '}'
                } else {
                    c != '[' && c != ']'
                }
            },
        brackets(t) <= 256,
    ensures
        comes_back(t),
        repairable(t),
{
    let p = past_gap(t, past_mark(t), false);
    lemma_past_gap(t, past_mark(t), false);
    lemma_opening_apart(t, p + 1);
    lemma_plain_goes_well(way_into(t), t, square);
    lemma_plain_goes_well(Way { from: 0, once: false, loose: true }, t, square);
    lemma_plain_counts_hold(t, square, 0);
    if let Some(k) = first_part(t, 0) {
        lemma_plain_goes_well(Way { from: k, once: false, loose: false }, t, square);
    }
}

/// Each opening brace and each opening bracket counts as one, and nothing else
/// does.
pub proof fn law_brackets_are_counted_one_by_one(t: Seq<char>, c: char)
    ensures
        brackets(Seq::<char>::empty()) == 0,
        c == '{' || c == '[' ==> brackets(t.push(c)) == brackets(t) + 1,
        !(c == '{' || c == '[') ==> brackets(t.push(c)) == brackets(t),
{
    assert(t.push(c).drop_last() =~= t);
}

proof fn lemma_openings_nest(way: Way, t: Seq<char>, i: int)
    requires
        way.from == 0,
        0 <= i <= t.len(),
        forall|j: int| 0 <= j < i ==> is_opening(#[trigger] t[j]),
    ensures
        reading(way, t, i).plain >= i + 1,
    decreases i,
{
    if i > 0 {
        lemma_openings_nest(way, t, i - 1);
        let r = reading(way, t, i - 1);
        assert(is_opening(t[i - 1]));
        assert(seen(r, t, i - 1) >= r.plain) by {
            reveal(seen);
        }
        assert(read(r, t, i - 1).plain >= i + 1);
    }
}

/// A text that opens more brackets at its beginning than the stack has room for
/// is not handed to the repair.
pub proof fn law_what_nests_too_deep_is_not_repaired(t: Seq<char>)
    requires
        t.len() >= 257,
        forall|j: int| 0 <= j < 257 ==> #[trigger] t[j] == '[' || t[j] == '{',
    ensures
        !comes_back(t),
        !repairable(t),
{
    assert(t[0] == '[' || t[0] == '{');
    let whole = Way { from: 0, once: false, loose: true };
    lemma_openings_nest(whole, t, 257);
    lemma_openings_nest(way_into(t), t, 257);
    assert(!goes_well_at(whole, t, 257));
    assert(!goes_well_at(way_into(t), t, 257));
}

} // verus!
