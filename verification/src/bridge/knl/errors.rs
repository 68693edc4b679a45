//! How failures are told, and how they are read back.
//!
//! A failure is raised as a message of four fields, `knl: <method>: <kind>:
//! <reason>`.  The first three are a closed vocabulary and only the last is
//! prose, so a caller can take the message apart again.

use vstd::prelude::*;

use super::types::ErrorTable;
use crate::text::{
    chars_of, find, find_chars, lemma_find_from, lemma_first_part, lemma_line_stands,
    lemma_split_single, lines_of, occurs_at, opt_text, same, split, string_of, text_lines, views,
    without_return,
};

verus! {

broadcast use vstd::string::group_string_axioms;

/// The classes of failure.
#[derive(Debug, Clone, Copy, PartialEq, Eq, Structural)]
pub enum FailureKind {
    /// The arguments do not hold up.
    Validation,
    /// The session is over.
    Closed,
    /// The database is contended.
    Busy,
    /// The database cannot do the work.
    Storage,
    /// What the database holds cannot be read.
    Corruption,
    /// A query ran too long.
    Timeout,
    /// A balance does not cover what was asked for.
    Refused,
}

/// The words of the classes.
pub open spec fn kinds() -> Seq<Seq<char>> {
    seq![
        "validation"@,
        "closed"@,
        "busy"@,
        "storage"@,
        "corruption"@,
        "timeout"@,
        "refused"@,
    ]
}

impl FailureKind {
    /// The word of a class.
    pub open spec fn word(self) -> Seq<char> {
        match self {
            FailureKind::Validation => "validation"@,
            FailureKind::Closed => "closed"@,
            FailureKind::Busy => "busy"@,
            FailureKind::Storage => "storage"@,
            FailureKind::Corruption => "corruption"@,
            FailureKind::Timeout => "timeout"@,
            FailureKind::Refused => "refused"@,
        }
    }

    /// The word of a class.
    pub fn as_str(self) -> (out: &'static str)
        ensures
            out@ == self.word(),
    {
        match self {
            FailureKind::Validation => "validation",
            FailureKind::Closed => "closed",
            FailureKind::Busy => "busy",
            FailureKind::Storage => "storage",
            FailureKind::Corruption => "corruption",
            FailureKind::Timeout => "timeout",
            FailureKind::Refused => "refused",
        }
    }
}

/// The words of the classes.
pub fn error_kinds() -> (out: Vec<String>)
    ensures
        views(out@) == kinds(),
{
    let mut out: Vec<String> = Vec::new();
    out.push("validation".to_owned());
    out.push("closed".to_owned());
    out.push("busy".to_owned());
    out.push("storage".to_owned());
    out.push("corruption".to_owned());
    out.push("timeout".to_owned());
    out.push("refused".to_owned());
    assert(views(out@) =~= kinds());
    out
}

/// Whether a word is that of a class.
pub fn is_kind(word: &str) -> (yes: bool)
    ensures
        yes == kinds().contains(word@),
{
    let ghost all = kinds();
    proof {
        assert(all[0] == "validation"@ && all[1] == "closed"@ && all[2] == "busy"@ && all[3]
            == "storage"@ && all[4] == "corruption"@ && all[5] == "timeout"@ && all[6]
            == "refused"@);
    }
    same(word, "validation") || same(word, "closed") || same(word, "busy") || same(word, "storage")
        || same(word, "corruption") || same(word, "timeout") || same(word, "refused")
}

/// Whether asking again may help, which is so for contention alone.
pub fn kind_is_retryable(word: &str) -> (yes: bool)
    ensures
        yes == (word@ == "busy"@),
{
    same(word, "busy")
}

/// A failure of the kernel: its class and what went wrong.
pub struct KnlError {
    pub kind: FailureKind,
    pub reason: String,
}

/// A failure as a message.
pub open spec fn attribution(method: Seq<char>, kind: Seq<char>, reason: Seq<char>) -> Seq<char> {
    "knl: "@ + method + ": "@ + kind + ": "@ + reason
}

/// What the caller's arguments are refused with.
pub open spec fn refusal(method: Seq<char>, reason: Seq<char>) -> Seq<char> {
    attribution(method, "validation"@, reason)
}

/// A failure as a message.
pub fn attributed(method: &str, kind: &str, reason: &str) -> (out: String)
    ensures
        out@ == attribution(method@, kind@, reason@),
{
    let mut out = "knl: ".to_owned();
    out.append(method);
    out.append(": ");
    out.append(kind);
    out.append(": ");
    out.append(reason);
    out
}

/// What the caller's arguments are refused with.
pub fn err(method: &str, reason: &str) -> (out: String)
    ensures
        out@ == refusal(method@, reason@),
{
    attributed(method, "validation", reason)
}

/// A failure of the kernel as a message, under the class the kernel gave it.
pub fn knl_err(method: &str, error: &KnlError) -> (out: String)
    ensures
        out@ == attribution(method@, error.kind.word(), error.reason@),
{
    attributed(method, error.kind.as_str(), error.reason.as_str())
}

// ── reading a message back ───────────────────────────────────────────

/// What stands before and after the first `sep`.
pub open spec fn split_once(s: Seq<char>, sep: Seq<char>) -> Option<(Seq<char>, Seq<char>)> {
    match find(s, sep) {
        Some(i) => Some((s.take(i), s.skip(i + sep.len()))),
        None => None,
    }
}

/// What follows the prefix on the first line, from `i` on, that carries it.
pub open spec fn after_prefix(lines: Seq<Seq<char>>, i: int) -> Option<Seq<char>>
    decreases lines.len() - i,
{
    if i < 0 || i >= lines.len() {
        None
    } else {
        match split_once(lines[i], "knl: "@) {
            Some(p) => Some(p.1),
            None => after_prefix(lines, i + 1),
        }
    }
}

/// The method, the class and the reason a message carries, where it carries
/// them: the class has to be one of the published ones.
pub open spec fn parts(text: Seq<char>) -> Option<(Seq<char>, Seq<char>, Seq<char>)> {
    match after_prefix(text_lines(text), 0) {
        Some(rest) => match split_once(rest, ": "@) {
            Some((method, more)) => match split_once(more, ": "@) {
                Some((kind, reason)) => if kinds().contains(kind) {
                    Some((method, kind, reason))
                } else {
                    None
                },
                None => None,
            },
            None => None,
        },
        None => None,
    }
}

/// What stands before and after the first `sep`.
fn cut(s: &str, sep: &str) -> (out: Option<(String, String)>)
    ensures
        match out {
            Some(p) => split_once(s@, sep@) == Some((p.0@, p.1@)),
            None => split_once(s@, sep@) is None,
        },
{
    let chars = chars_of(s);
    let pat = chars_of(sep);
    match find_chars(chars.as_slice(), pat.as_slice(), 0) {
        Some(i) => {
            proof {
                lemma_find_from(s@, sep@, 0);
            }
            let n: usize = chars.len();
            let m: usize = pat.len();
            let before = string_of(chars.as_slice(), 0, i);
            let after = string_of(chars.as_slice(), i + m, n);
            assert(before@ =~= s@.take(i as int));
            assert(after@ =~= s@.skip(i + m));
            Some((before, after))
        },
        None => None,
    }
}

/// What follows the prefix on the first line that carries it.
fn attributed_part(lines: &[String]) -> (out: Option<String>)
    ensures
        opt_text(out) == after_prefix(views(lines@), 0),
{
    let mut i: usize = 0;
    while i < lines.len()
        invariant
            i <= lines@.len(),
            after_prefix(views(lines@), 0) == after_prefix(views(lines@), i as int),
        decreases lines@.len() - i,
    {
        assert(views(lines@)[i as int] == lines@[i as int]@);
        if let Some((_, rest)) = cut(lines[i].as_str(), "knl: ") {
            return Some(rest);
        }
        i += 1;
    }
    None
}

/// A raised message, read back.  One that carries no class comes back whole.
pub fn error_table(text: &str) -> (out: ErrorTable)
    ensures
        match parts(text@) {
            Some((method, kind, reason)) => {
                &&& opt_text(out.method) == Some(method)
                &&& opt_text(out.kind) == Some(kind)
                &&& out.retryable == (kind == "busy"@)
                &&& out.message@ == reason
            },
            None => {
                &&& out.method is None
                &&& out.kind is None
                &&& !out.retryable
                &&& out.message@ == text@
            },
        },
{
    let chars = chars_of(text);
    let lines = lines_of(chars.as_slice());
    if let Some(rest) = attributed_part(lines.as_slice()) {
        if let Some((method, more)) = cut(rest.as_str(), ": ") {
            if let Some((kind, reason)) = cut(more.as_str(), ": ") {
                if is_kind(kind.as_str()) {
                    let retryable = kind_is_retryable(kind.as_str());
                    return ErrorTable {
                        kind: Some(kind),
                        method: Some(method),
                        retryable,
                        message: reason,
                    };
                }
            }
        }
    }
    ErrorTable { kind: None, method: None, retryable: false, message: text.to_owned() }
}

/// A place at which a text stands is found when it stands nowhere before.
proof fn lemma_found_at(s: Seq<char>, pat: Seq<char>, i: int)
    requires
        occurs_at(s, pat, i),
        forall|j: int| 0 <= j < i ==> !#[trigger] occurs_at(s, pat, j),
    ensures
        find(s, pat) == Some(i),
{
    lemma_find_from(s, pat, 0);
    match find(s, pat) {
        Some(k) => {
            assert(occurs_at(s, pat, k));
            if k < i {
                assert(!occurs_at(s, pat, k));
            }
        },
        None => {
            assert(!occurs_at(s, pat, i));
        },
    }
}

/// A field without a separator is what stands before the first one.
proof fn lemma_field(a: Seq<char>, b: Seq<char>)
    requires
        find(a, ": "@) is None,
    ensures
        split_once(a + ": "@ + b, ": "@) == Some((a, b)),
{
    reveal_strlit(": ");
    let sep = ": "@;
    let s = a + sep + b;
    assert(sep.len() == 2 && sep[0] == ':' && sep[1] == ' ');
    assert(s.subrange(a.len() as int, (a.len() + 2) as int) =~= sep);
    lemma_find_from(a, sep, 0);
    assert forall|j: int| 0 <= j < a.len() implies !#[trigger] occurs_at(s, sep, j) by {
        if occurs_at(s, sep, j) {
            assert(s.subrange(j, j + 2)[0] == ':' && s.subrange(j, j + 2)[1] == ' ');
            assert(s[j] == ':' && s[j + 1] == ' ');
            if j + 1 < a.len() {
                assert(a.subrange(j, j + 2) =~= sep);
                assert(occurs_at(a, sep, j));
            } else {
                assert(s[j + 1] == sep[0]);
            }
        }
    }
    lemma_found_at(s, sep, a.len() as int);
    assert(s.take(a.len() as int) =~= a);
    assert(s.skip((a.len() + 2) as int) =~= b);
}

proof fn lemma_kind_has_no_separator(kind: Seq<char>)
    requires
        kinds().contains(kind),
    ensures
        find(kind, ": "@) is None,
        !kind.contains('\n'),
{
    reveal_strlit("validation");
    reveal_strlit("closed");
    reveal_strlit("busy");
    reveal_strlit("storage");
    reveal_strlit("corruption");
    reveal_strlit("timeout");
    reveal_strlit("refused");
    reveal_strlit(": ");
    let i = choose|i: int| 0 <= i < kinds().len() && kinds()[i] == kind;
    assert forall|j: int| 0 <= j < kind.len() implies kind[j] != ':' && kind[j] != '\n' by {
        assert(kinds()[i] == kind);
    }
    lemma_find_from(kind, ": "@, 0);
    match find(kind, ": "@) {
        Some(k) => {
            assert(kind.subrange(k, k + 2)[0] == ':');
            assert(kind[k] == ':');
        },
        None => {},
    }
}

/// A failure is read back as it was raised: the method, the class and the
/// reason are the ones the message was made from, also where a traceback
/// follows on further lines.
pub proof fn law_a_raised_failure_reads_back(
    method: Seq<char>,
    kind: Seq<char>,
    reason: Seq<char>,
    trace: Seq<char>,
)
    requires
        kinds().contains(kind),
        find(method, ": "@) is None,
        !method.contains('\n'),
        !reason.contains('\n'),
        trace.len() == 0 || (trace[0] == '\n' && !(reason.len() > 0 && reason.last() == '\r')),
    ensures
        parts(attribution(method, kind, reason) + trace) == Some((method, kind, reason)),
{
    reveal_strlit("knl: ");
    reveal_strlit(": ");
    let line = attribution(method, kind, reason);
    lemma_kind_has_no_separator(kind);
    assert(!line.contains('\n')) by {
        assert forall|i: int| 0 <= i < line.len() implies line[i] != '\n' by {
            let a = 5 + method.len() as int;
            let b = a + 2 + kind.len() as int;
            if i < 5 {
                assert(line[i] == "knl: "@[i]);
            } else if i < a {
                assert(line[i] == method[i - 5]);
                assert(method.contains(method[i - 5]));
            } else if i < a + 2 {
                assert(line[i] == ": "@[i - a]);
            } else if i < b {
                assert(line[i] == kind[i - a - 2]);
                assert(kind.contains(kind[i - a - 2]));
            } else if i < b + 2 {
                assert(line[i] == ": "@[i - b]);
            } else {
                assert(line[i] == reason[i - b - 2]);
                assert(reason.contains(reason[i - b - 2]));
            }
        }
    }
    let text = line + trace;
    assert(text_lines(text).len() > 0 && text_lines(text)[0] == line) by {
        if trace.len() == 0 {
            assert(text =~= line);
            lemma_split_single(line, '\n');
            assert(split(text, '\n').last() == line);
            assert(text_lines(text) =~= seq![line]);
        } else {
            assert(text =~= line + seq!['\n'] + trace.skip(1));
            lemma_first_part(line, '\n', trace.skip(1));
            let all = split(text, '\n');
            assert(all.drop_last()[0] == line);
            assert(line.last() != '\r') by {
                if reason.len() > 0 {
                    assert(line.last() == reason.last());
                } else {
                    assert(line.last() == ' ');
                }
            }
            assert(without_return(line) == line);
        }
    }
    assert(split_once(line, "knl: "@) == Some(
        (Seq::<char>::empty(), method + ": "@ + (kind + ": "@ + reason)),
    )) by {
        assert(line.subrange(0, 5) =~= "knl: "@);
        lemma_found_at(line, "knl: "@, 0);
        assert(line.take(0) =~= Seq::<char>::empty());
        assert(line.skip(5) =~= method + ": "@ + (kind + ": "@ + reason));
    }
    lemma_field(method, kind + ": "@ + reason);
    lemma_field(kind, reason);
}

/// A message that carries no attribution is not taken for one: it comes back
/// whole, and nothing is read into it.
pub proof fn law_an_unattributed_message_comes_back_whole(text: Seq<char>)
    requires
        find(text, "knl: "@) is None,
    ensures
        parts(text) is None,
{
    lemma_find_from(text, "knl: "@, 0);
    lemma_no_line_carries_it(text, 0);
}

proof fn lemma_no_line_carries_it(text: Seq<char>, i: int)
    requires
        0 <= i,
        forall|j: int| 0 <= j ==> !#[trigger] occurs_at(text, "knl: "@, j),
    ensures
        after_prefix(text_lines(text), i) is None,
    decreases text_lines(text).len() - i,
{
    if i < text_lines(text).len() {
        let line = text_lines(text)[i];
        let a = lemma_line_stands(text, i);
        lemma_find_from(line, "knl: "@, 0);
        match find(line, "knl: "@) {
            Some(k) => {
                let n = "knl: "@.len() as int;
                assert(line.subrange(k, k + n) == "knl: "@);
                assert(text.subrange(a, a + line.len()) == line);
                assert(text.subrange(a + k, a + k + n) =~= line.subrange(k, k + n));
                assert(occurs_at(text, "knl: "@, a + k));
            },
            None => {},
        }
        lemma_no_line_carries_it(text, i + 1);
    }
}

/// A failure is told as one line: the name of the bridge, the method, the class
/// and the reason, with a colon and a space behind each but the last.
pub proof fn law_a_failure_is_told_in_its_form(
    method: Seq<char>,
    kind: Seq<char>,
    reason: Seq<char>,
)
    ensures
        attribution(method, kind, reason) == seq!['k', 'n', 'l', ':', ' '] + method + seq![':', ' ']
            + kind + seq![':', ' '] + reason,
        refusal(method, reason) == seq!['k', 'n', 'l', ':', ' '] + method + seq![':', ' ']
            + "validation"@ + seq![':', ' '] + reason,
{
    reveal_strlit("knl: ");
    reveal_strlit(": ");
    assert("knl: "@ =~= seq!['k', 'n', 'l', ':', ' ']);
    assert(": "@ =~= seq![':', ' ']);
}

/// Each class of failure has its own published word.
pub proof fn law_each_class_has_its_word(kind: FailureKind)
    ensures
        kinds().contains(kind.word()),
        FailureKind::Validation.word() == "validation"@ && FailureKind::Closed.word() == "closed"@
            && FailureKind::Busy.word() == "busy"@ && FailureKind::Storage.word() == "storage"@
            && FailureKind::Corruption.word() == "corruption"@ && FailureKind::Timeout.word()
            == "timeout"@ && FailureKind::Refused.word() == "refused"@,
        kinds().len() == 7,
{
    let all = kinds();
    assert(all[0] == "validation"@ && all[1] == "closed"@ && all[2] == "busy"@ && all[3]
        == "storage"@ && all[4] == "corruption"@ && all[5] == "timeout"@ && all[6] == "refused"@);
}

/// A failure has one of the seven classes, or none at all.
pub proof fn law_only_a_class_is_a_class(text: Seq<char>)
    ensures
        parts(text) matches Some(p) ==> p.1 == "validation"@ || p.1 == "closed"@ || p.1 == "busy"@
            || p.1 == "storage"@ || p.1 == "corruption"@ || p.1 == "timeout"@ || p.1 == "refused"@,
{
}

proof fn lemma_after_prefix_shifts(line: Seq<char>, rest: Seq<Seq<char>>, i: int)
    requires
        0 <= i <= rest.len(),
    ensures
        after_prefix(seq![line] + rest, i + 1) == after_prefix(rest, i),
    decreases rest.len() - i,
{
    if i < rest.len() {
        assert((seq![line] + rest)[i + 1] == rest[i]);
        lemma_after_prefix_shifts(line, rest, i + 1);
    }
}

/// What stands on the lines before a failure does not keep it from being read.
pub proof fn law_lines_before_a_failure_do_not_count(line: Seq<char>, rest: Seq<char>)
    requires
        !line.contains('\n'),
        !line.contains('k'),
        line.len() == 0 || line.last() != '\r',
    ensures
        parts(line + seq!['\n'] + rest) == parts(rest),
{
    reveal_strlit("knl: ");
    crate::text::law_a_line_is_read_off(line, rest);
    let lines = seq![line] + text_lines(rest);
    crate::text::lemma_find_from(line, "knl: "@, 0);
    if let Some(i) = find(line, "knl: "@) {
        assert(line.subrange(i, i + 5)[0] == line[i]);
        assert(line.contains(line[i]));
    }
    assert(lines[0] == line);
    lemma_after_prefix_shifts(line, text_lines(rest), 0);
}

} // verus!
