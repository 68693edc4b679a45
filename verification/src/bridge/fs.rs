//! The editing primitives of `std.fs`: change these lines and nothing else.
//!
//! The address of an edit is a line range; the text expected there is only a
//! check.  A file is read with a `version` fingerprint, and an edit names the
//! version it was reasoned about as its `base`: when the file moved on,
//! nothing is applied.  Edits are validated as a set and applied in one write,
//! so a refused batch leaves the file untouched.  `rollback` restores the
//! content captured before the last successful edit.
//!
//! Reading and writing the file is the caller's: the functions here take the
//! content as read and say what to write.

use vstd::prelude::*;

use crate::text::{
    chars_of, hex, hex_string, is_lower_hex, join, join_strings, lemma_hex_digits, lemma_hex_len,
    same, split, split_chars,
    views,
};

verus! {

broadcast use vstd::string::group_string_axioms;

/// The SHA-256 digest of a byte string.
pub uninterp spec fn sha256_digest(bytes: Seq<u8>) -> Seq<u8>;

/// `sha2::Sha256::digest`: the SHA-256 digest of the bytes, which is a
/// function of the bytes alone and is always 32 bytes long.
#[verifier::external_body]
fn sha256(bytes: &[u8]) -> (digest: Vec<u8>)
    ensures
        digest@ == sha256_digest(bytes@),
        digest@.len() == 32,
{
    <sha2::Sha256 as sha2::Digest>::digest(bytes).to_vec()
}

/// The fingerprint a digest is shown as: its first eight bytes in hexadecimal.
pub open spec fn fingerprint(digest: Seq<u8>) -> Seq<char> {
    hex(digest.take(8))
}

/// Whether a text has the form of a fingerprint: sixteen hexadecimal digits.
pub open spec fn is_fingerprint(s: Seq<char>) -> bool {
    s.len() == 16 && forall|i: int| 0 <= i < s.len() ==> is_lower_hex(#[trigger] s[i])
}

/// The version of a content: the fingerprint of its SHA-256 digest.
pub open spec fn version(content: Seq<char>) -> Seq<char> {
    fingerprint(sha256_digest(vstd::utf8::encode_utf8(content)))
}

/// The fingerprint of a digest.
pub fn fingerprint_of(digest: &[u8]) -> (out: String)
    requires
        digest@.len() >= 8,
    ensures
        out@ == fingerprint(digest@),
        is_fingerprint(out@),
{
    proof {
        lemma_hex_len(digest@.take(8));
        lemma_hex_digits(digest@.take(8));
    }
    let head = vstd::slice::slice_subrange(digest, 0, 8);
    assert(digest@.subrange(0, 8) =~= digest@.take(8));
    hex_string(head)
}

/// Content fingerprint used as the optimistic-concurrency token.
pub fn version_of(content: &str) -> (out: String)
    ensures
        out@ == version(content@),
        is_fingerprint(out@),
{
    let digest = sha256(content.as_bytes());
    fingerprint_of(digest.as_slice())
}

/// Whether the content ends with a newline.
pub open spec fn ends_with_newline(content: Seq<char>) -> bool {
    content.len() > 0 && content.last() == '\n'
}

/// The lines of a content.  A newline at the very end closes the last line and
/// opens no further one.
pub open spec fn content_lines(content: Seq<char>) -> Seq<Seq<char>> {
    if ends_with_newline(content) {
        split(content.drop_last(), '\n')
    } else {
        split(content, '\n')
    }
}

/// The content made of `lines`, closed by a newline when `trailing_newline`.
pub open spec fn lines_content(lines: Seq<Seq<char>>, trailing_newline: bool) -> Seq<char> {
    if trailing_newline {
        join(lines, seq!['\n']).push('\n')
    } else {
        join(lines, seq!['\n'])
    }
}

/// Taking a content apart into its lines and putting them together again gives
/// the content back, the trailing newline included.
pub proof fn law_split_and_join_round_trip(content: Seq<char>)
    ensures
        lines_content(content_lines(content), ends_with_newline(content)) == content,
{
    if ends_with_newline(content) {
        crate::text::lemma_join_split(content.drop_last(), '\n');
        assert(content.drop_last().push('\n') =~= content);
    } else {
        crate::text::lemma_join_split(content, '\n');
    }
}

/// Every content has at least one line, and no line holds a newline.
pub proof fn law_lines_hold_no_newline(content: Seq<char>)
    ensures
        content_lines(content).len() >= 1,
        forall|i: int|
            0 <= i < content_lines(content).len() ==> !(#[trigger] content_lines(
                content,
            )[i]).contains('\n'),
{
    if ends_with_newline(content) {
        crate::text::lemma_split_parts(content.drop_last(), '\n');
    } else {
        crate::text::lemma_split_parts(content, '\n');
    }
}

/// Split into lines, remembering whether the file ended with a newline so the
/// edit round-trip does not silently add or drop one.
pub fn split_lines(content: &str) -> (out: (Vec<String>, bool))
    ensures
        views(out.0@) == content_lines(content@),
        out.1 == ends_with_newline(content@),
{
    let chars = chars_of(content);
    let n: usize = chars.len();
    if n > 0 && chars[n - 1] == '\n' {
        let body = vstd::slice::slice_subrange(chars.as_slice(), 0, n - 1);
        assert(body@ =~= content@.drop_last());
        (split_chars(body, '\n'), true)
    } else {
        (split_chars(chars.as_slice(), '\n'), false)
    }
}

/// Put lines together again.
pub fn join_lines(lines: &[String], trailing_newline: bool) -> (out: String)
    ensures
        out@ == lines_content(views(lines@), trailing_newline),
{
    proof {
        reveal_strlit("\n");
        assert("\n"@ =~= seq!['\n']);
    }
    let mut out = join_strings(lines, "\n");
    if trailing_newline {
        out.push('\n');
    }
    out
}

/// What a reader of a file is told about it, beside the content itself.
pub struct ReadVersioned {
    pub lines: usize,
    pub version: String,
}

/// The line count and the version of a content.
pub fn read_versioned(content: &str) -> (out: ReadVersioned)
    ensures
        out.lines == content_lines(content@).len(),
        out.version@ == version(content@),
        is_fingerprint(out.version@),
{
    let (lines, _trailing) = split_lines(content);
    assert(views(lines@).len() == lines@.len());
    ReadVersioned { lines: lines.len(), version: version_of(content) }
}

/// One requested edit: the lines `start_line..=end_line` (counted from one),
/// the text expected there, and the text to put in their place.
pub struct EditRequest {
    pub start_line: usize,
    pub end_line: usize,
    pub expect: String,
    pub replace: String,
}

/// Why a batch of edits was refused.  A refusal is a value: nothing has been
/// applied.
pub enum EditRefusal {
    /// The file is not the one the caller read.
    StaleBase { expected_version: String, actual_version: String },
    /// An edit whose range is not one.
    BadRange { edit_index: usize, start_line: usize, end_line: usize },
    /// An edit past the end of the file.
    OutOfRange { edit_index: usize, end_line: usize, file_lines: usize },
    /// The lines hold something else; `actual` is the text that is there.
    ExpectMismatch { edit_index: usize, start_line: usize, end_line: usize, actual: String },
    /// A batch without edits.
    NoEdits,
    /// Two edits that touch the same line.
    OverlappingEdits { edit_index: usize, other_edit_index: usize },
}

impl EditRefusal {
    /// The word a refusal is reported under.
    pub open spec fn reason_word(&self) -> Seq<char> {
        match self {
            EditRefusal::StaleBase { .. } => "stale_base"@,
            EditRefusal::BadRange { .. } => "bad_range"@,
            EditRefusal::OutOfRange { .. } => "out_of_range"@,
            EditRefusal::ExpectMismatch { .. } => "expect_mismatch"@,
            EditRefusal::NoEdits => "no_edits"@,
            EditRefusal::OverlappingEdits { .. } => "overlapping_edits"@,
        }
    }

    /// The word a refusal is reported under.
    pub fn reason(&self) -> (word: &'static str)
        ensures
            word@ == self.reason_word(),
    {
        match self {
            EditRefusal::StaleBase { .. } => "stale_base",
            EditRefusal::BadRange { .. } => "bad_range",
            EditRefusal::OutOfRange { .. } => "out_of_range",
            EditRefusal::ExpectMismatch { .. } => "expect_mismatch",
            EditRefusal::NoEdits => "no_edits",
            EditRefusal::OverlappingEdits { .. } => "overlapping_edits",
        }
    }
}

/// The text at the lines `start..=end`, counted from one.
pub open spec fn text_at(lines: Seq<Seq<char>>, start: int, end: int) -> Seq<char> {
    join(lines.subrange(start - 1, end), seq!['\n'])
}

/// Whether the edit names lines of the file and expects what they hold.
pub open spec fn edit_fits(lines: Seq<Seq<char>>, e: EditRequest) -> bool {
    &&& 1 <= e.start_line <= e.end_line <= lines.len()
    &&& text_at(lines, e.start_line as int, e.end_line as int) == e.expect@
}

/// What an edit that does not fit is refused with: the range is looked at
/// first, then the file's length, then the text.
pub open spec fn edit_refusal(
    lines: Seq<Seq<char>>,
    e: EditRequest,
    index: int,
    r: EditRefusal,
) -> bool {
    if e.start_line == 0 || e.end_line < e.start_line {
        r matches EditRefusal::BadRange { edit_index, start_line, end_line } && edit_index == index
            && start_line == e.start_line && end_line == e.end_line
    } else if e.end_line > lines.len() {
        r matches EditRefusal::OutOfRange { edit_index, end_line, file_lines } && edit_index
            == index && end_line == e.end_line && file_lines == lines.len()
    } else {
        r matches EditRefusal::ExpectMismatch { edit_index, start_line, end_line, actual }
            && edit_index == index && start_line == e.start_line && end_line == e.end_line
            && actual@ == text_at(lines, e.start_line as int, e.end_line as int)
    }
}

/// Hold one edit against the file's lines.  `index` is its place in the batch,
/// counted from one.
pub fn check_edit(lines: &[String], e: &EditRequest, index: usize) -> (out: Option<EditRefusal>)
    ensures
        out is None <==> edit_fits(views(lines@), *e),
        out matches Some(r) ==> edit_refusal(views(lines@), *e, index as int, r),
{
    if e.start_line == 0 || e.end_line < e.start_line {
        return Some(
            EditRefusal::BadRange {
                edit_index: index,
                start_line: e.start_line,
                end_line: e.end_line,
            },
        );
    }
    if e.end_line > lines.len() {
        return Some(
            EditRefusal::OutOfRange {
                edit_index: index,
                end_line: e.end_line,
                file_lines: lines.len(),
            },
        );
    }
    let there = vstd::slice::slice_subrange(lines, e.start_line - 1, e.end_line);
    proof {
        reveal_strlit("\n");
        assert("\n"@ =~= seq!['\n']);
        assert(views(there@) =~= views(lines@).subrange(e.start_line - 1, e.end_line as int));
    }
    let actual = join_strings(there, "\n");
    if same(actual.as_str(), e.expect.as_str()) {
        None
    } else {
        Some(
            EditRefusal::ExpectMismatch {
                edit_index: index,
                start_line: e.start_line,
                end_line: e.end_line,
                actual,
            },
        )
    }
}

/// The first edit that does not fit, if any, decides what the batch is refused
/// with.
pub open spec fn batch_refusal(
    lines: Seq<Seq<char>>,
    edits: Seq<EditRequest>,
    r: EditRefusal,
) -> bool {
    exists|k: int|
        #![trigger edits[k]]
        0 <= k < edits.len() && !edit_fits(lines, edits[k]) && edit_refusal(
            lines,
            edits[k],
            k + 1,
            r,
        ) && forall|j: int| #![trigger edits[j]] 0 <= j < k ==> edit_fits(lines, edits[j])
}

/// Whether every edit of the batch fits.
pub open spec fn batch_fits(lines: Seq<Seq<char>>, edits: Seq<EditRequest>) -> bool {
    forall|j: int| #![trigger edits[j]] 0 <= j < edits.len() ==> edit_fits(lines, edits[j])
}

/// Hold every edit against the file's lines, in order, up to the first that
/// does not fit.
pub fn check_edits(lines: &[String], edits: &[EditRequest]) -> (out: Option<EditRefusal>)
    ensures
        out is None <==> batch_fits(views(lines@), edits@),
        out matches Some(r) ==> batch_refusal(views(lines@), edits@, r),
{
    let mut i: usize = 0;
    while i < edits.len()
        invariant
            0 <= i <= edits@.len(),
            forall|j: int| #![trigger edits@[j]] 0 <= j < i ==> edit_fits(views(lines@), edits@[j]),
        decreases edits@.len() - i,
    {
        match check_edit(lines, &edits[i], i + 1) {
            Some(r) => {
                assert(edit_refusal(views(lines@), edits@[i as int], i + 1, r));
                return Some(r);
            },
            None => {},
        }
        i += 1;
    }
    None
}

/// `order` with the edit `i` put behind the last edit that does not start
/// after it.
pub open spec fn place(edits: Seq<EditRequest>, order: Seq<int>, i: int) -> Seq<int>
    decreases order.len(),
{
    if order.len() == 0 || edits[order.last()].start_line <= edits[i].start_line {
        order.push(i)
    } else {
        place(edits, order.drop_last(), i).push(order.last())
    }
}

/// The first `n` edits of the batch by ascending first line; edits that start
/// at the same line keep the order they came in.
pub open spec fn top_down(edits: Seq<EditRequest>, n: int) -> Seq<int>
    decreases n,
{
    if n <= 0 {
        Seq::<int>::empty()
    } else {
        place(edits, top_down(edits, n - 1), n - 1)
    }
}

/// Placing `i` is inserting it between what starts no later and what starts
/// later.
proof fn lemma_place_is_insert(edits: Seq<EditRequest>, order: Seq<int>, i: int, p: int)
    requires
        0 <= p <= order.len(),
        p > 0 ==> edits[order[p - 1]].start_line <= edits[i].start_line,
        forall|q: int|
            #![trigger order[q]]
            p <= q < order.len() ==> edits[order[q]].start_line > edits[i].start_line,
    ensures
        place(edits, order, i) == order.insert(p, i),
    decreases order.len(),
{
    if p == order.len() {
        assert(order.insert(p, i) =~= order.push(i));
    } else {
        assert(order.last() == order[order.len() - 1]);
        let front = order.drop_last();
        assert forall|q: int| #![trigger front[q]] p <= q < front.len() implies edits[front[q]].start_line
            > edits[i].start_line by {
            assert(front[q] == order[q]);
        }
        if p > 0 {
            assert(front[p - 1] == order[p - 1]);
        }
        lemma_place_is_insert(edits, front, i, p);
        assert(front.insert(p, i).push(order.last()) =~= order.insert(p, i));
    }
}

/// Whether `order` names each of the first `n` edits exactly once, by
/// ascending first line.
pub open spec fn sorted_permutation(edits: Seq<EditRequest>, order: Seq<int>, n: int) -> bool {
    &&& order.len() == n
    &&& forall|k: int| 0 <= k < n ==> 0 <= #[trigger] order[k] < n
    &&& forall|i: int| 0 <= i < n ==> #[trigger] order.contains(i)
    &&& order.no_duplicates()
    &&& forall|a: int, b: int|
        0 <= a < b < n ==> edits[#[trigger] order[a]].start_line
            <= edits[#[trigger] order[b]].start_line
}

proof fn lemma_insert_keeps_sorted(edits: Seq<EditRequest>, front: Seq<int>, i: int, p: int)
    requires
        0 <= i,
        sorted_permutation(edits, front, i),
        0 <= p <= front.len(),
        p > 0 ==> edits[front[p - 1]].start_line <= edits[i].start_line,
        forall|q: int|
            #![trigger front[q]]
            p <= q < front.len() ==> edits[front[q]].start_line > edits[i].start_line,
    ensures
        sorted_permutation(edits, front.insert(p, i), i + 1),
{
    let whole = front.insert(p, i);
    assert forall|k: int| 0 <= k <= i implies 0 <= #[trigger] whole[k] <= i by {
        if k < p {
            assert(whole[k] == front[k]);
        } else if k > p {
            assert(whole[k] == front[k - 1]);
        }
    }
    assert forall|j: int| 0 <= j <= i implies #[trigger] whole.contains(j) by {
        if j == i {
            assert(whole[p] == j);
        } else {
            assert(front.contains(j));
            let q = choose|q: int| 0 <= q < front.len() && front[q] == j;
            if q < p {
                assert(whole[q] == j);
            } else {
                assert(whole[q + 1] == j);
            }
        }
    }
    assert forall|a: int, b: int| 0 <= a <= i && 0 <= b <= i && a != b implies whole[a]
        != whole[b] by {
        let fa = if a < p {
            a
        } else {
            a - 1
        };
        let fb = if b < p {
            b
        } else {
            b - 1
        };
        if a != p {
            assert(whole[a] == front[fa]);
        }
        if b != p {
            assert(whole[b] == front[fb]);
        }
    }
    assert forall|a: int, b: int| 0 <= a < b <= i implies edits[#[trigger] whole[a]].start_line
        <= edits[#[trigger] whole[b]].start_line by {
        let fa = if a < p {
            a
        } else {
            a - 1
        };
        let fb = if b < p {
            b
        } else {
            b - 1
        };
        if a != p {
            assert(whole[a] == front[fa]);
            if fa < p - 1 {
                assert(edits[front[fa]].start_line <= edits[front[p - 1]].start_line);
            }
        }
        if b != p {
            assert(whole[b] == front[fb]);
        }
        if a != p && b != p {
            assert(edits[front[fa]].start_line <= edits[front[fb]].start_line);
        }
    }
}

/// The top-down order names each of the first `n` edits exactly once, by
/// ascending first line.
pub proof fn law_top_down_is_a_sorted_permutation(edits: Seq<EditRequest>, n: int)
    requires
        0 <= n <= edits.len(),
    ensures
        sorted_permutation(edits, top_down(edits, n), n),
    decreases n,
{
    if n > 0 {
        law_top_down_is_a_sorted_permutation(edits, n - 1);
        let front = top_down(edits, n - 1);
        let i = n - 1;
        let p = first_later(edits, front, i, 0);
        lemma_first_later(edits, front, i, 0);
        lemma_place_is_insert(edits, front, i, p);
        lemma_insert_keeps_sorted(edits, front, i, p);
    }
}

/// The first place from `p` on that holds an edit starting after edit `i`.
spec fn first_later(edits: Seq<EditRequest>, order: Seq<int>, i: int, p: int) -> int
    decreases order.len() - p,
{
    if p < 0 || p >= order.len() || edits[order[p]].start_line > edits[i].start_line {
        p
    } else {
        first_later(edits, order, i, p + 1)
    }
}

proof fn lemma_first_later(edits: Seq<EditRequest>, order: Seq<int>, i: int, p: int)
    requires
        0 <= p <= order.len(),
        forall|q: int|
            #![trigger order[q]]
            0 <= q < p ==> edits[order[q]].start_line <= edits[i].start_line,
        forall|a: int, b: int|
            #![trigger order[a], order[b]]
            0 <= a < b < order.len() ==> edits[order[a]].start_line <= edits[order[b]].start_line,
    ensures
        ({
            let r = first_later(edits, order, i, p);
            &&& p <= r <= order.len()
            &&& r > 0 ==> edits[order[r - 1]].start_line <= edits[i].start_line
            &&& forall|q: int|
                #![trigger order[q]]
                r <= q < order.len() ==> edits[order[q]].start_line > edits[i].start_line
        }),
    decreases order.len() - p,
{
    if p < order.len() && edits[order[p]].start_line <= edits[i].start_line {
        lemma_first_later(edits, order, i, p + 1);
    } else if p < order.len() {
        assert forall|q: int| #![trigger order[q]] p <= q < order.len() implies edits[order[q]].start_line
            > edits[i].start_line by {
            if p < q {
                assert(edits[order[p]].start_line <= edits[order[q]].start_line);
            }
        }
    }
}

/// The indices of a list of machine integers.
pub open spec fn indices(order: Seq<usize>) -> Seq<int> {
    order.map_values(|i: usize| i as int)
}

/// The places of the edits, from the top of the file down.
fn order_edits(edits: &[EditRequest]) -> (order: Vec<usize>)
    ensures
        indices(order@) == top_down(edits@, edits@.len() as int),
{
    let mut order: Vec<usize> = Vec::new();
    let mut i: usize = 0;
    assert(indices(order@) =~= top_down(edits@, 0));
    while i < edits.len()
        invariant
            0 <= i <= edits@.len(),
            indices(order@) == top_down(edits@, i as int),
        decreases edits@.len() - i,
    {
        proof {
            law_top_down_is_a_sorted_permutation(edits@, i as int);
        }
        let ghost placed = indices(order@);
        assert(placed.len() == order@.len());
        assert forall|q: int| #![trigger order@[q]] 0 <= q < order@.len() implies order@[q] < i by {
            assert(placed[q] == order@[q]);
        }
        let mut p: usize = order.len();
        while p > 0 && edits[order[p - 1]].start_line > edits[i].start_line
            invariant
                i < edits@.len(),
                placed == indices(order@),
                placed == top_down(edits@, i as int),
                placed.len() == i,
                0 <= p <= order@.len(),
                forall|k: int| #![trigger placed[k]] 0 <= k < i ==> 0 <= placed[k] < i,
                forall|q: int|
                    #![trigger placed[q]]
                    p <= q < placed.len() ==> edits@[placed[q]].start_line
                        > edits@[i as int].start_line,
                forall|q: int| #![trigger order@[q]] 0 <= q < order@.len() ==> order@[q] < i,
            decreases p,
        {
            assert(placed[p - 1] == order@[p - 1]);
            p -= 1;
        }
        proof {
            if p > 0 {
                assert(placed[p - 1] == order@[p - 1]);
            }
            lemma_place_is_insert(edits@, placed, i as int, p as int);
        }
        order.insert(p, i);
        assert(indices(order@) =~= placed.insert(p as int, i as int));
        i += 1;
    }
    order
}

/// Whether the edit at place `p` of the order reaches into the next one.
pub open spec fn overlap_at(edits: Seq<EditRequest>, order: Seq<int>, p: int) -> bool {
    edits[order[p]].end_line >= edits[order[p + 1]].start_line
}

/// Whether no edit reaches into the next one.
pub open spec fn disjoint(edits: Seq<EditRequest>, order: Seq<int>) -> bool {
    forall|p: int| 0 <= p < order.len() - 1 ==> !#[trigger] overlap_at(edits, order, p)
}

/// Whether `p` is the first place of the order that overlaps the next.
pub open spec fn first_overlap(edits: Seq<EditRequest>, order: Seq<int>, p: int) -> bool {
    &&& 0 <= p < order.len() - 1
    &&& overlap_at(edits, order, p)
    &&& forall|q: int| 0 <= q < p ==> !#[trigger] overlap_at(edits, order, q)
}

/// The lines an edit puts in: none for an empty replacement.
pub open spec fn replacement(e: EditRequest) -> Seq<Seq<char>> {
    if e.replace@.len() == 0 {
        Seq::<Seq<char>>::empty()
    } else {
        split(e.replace@, '\n')
    }
}

/// `lines` with every edit of the order applied: the lines of each edit's
/// range give way to its replacement, and every other line stays.
pub open spec fn spliced(
    lines: Seq<Seq<char>>,
    edits: Seq<EditRequest>,
    order: Seq<int>,
) -> Seq<Seq<char>>
    decreases order.len(),
{
    if order.len() == 0 {
        lines
    } else {
        let e = edits[order.last()];
        spliced(lines.subrange(0, e.start_line - 1), edits, order.drop_last()) + replacement(e)
            + lines.subrange(e.end_line as int, lines.len() as int)
    }
}

/// Append copies of `from[a..b]`.
fn extend_lines(out: &mut Vec<String>, from: &[String], a: usize, b: usize)
    requires
        a <= b <= from@.len(),
    ensures
        views(final(out)@) == views(old(out)@) + views(from@).subrange(a as int, b as int),
{
    let ghost start = views(out@);
    let mut j: usize = a;
    assert(views(from@).subrange(a as int, a as int) =~= Seq::<Seq<char>>::empty());
    assert(start + views(from@).subrange(a as int, a as int) =~= start);
    while j < b
        invariant
            a <= j <= b <= from@.len(),
            views(out@) == start + views(from@).subrange(a as int, j as int),
        decreases b - j,
    {
        let ghost so_far = out@;
        let line = from[j].clone();
        out.push(line);
        assert(views(out@) =~= views(so_far).push(from@[j as int]@));
        assert(views(out@) =~= start + views(from@).subrange(a as int, j + 1));
        j += 1;
    }
}

/// The lines an edit puts in.
fn replacement_lines(e: &EditRequest) -> (out: Vec<String>)
    ensures
        views(out@) == replacement(*e),
{
    let chars = chars_of(e.replace.as_str());
    if chars.len() == 0 {
        let none: Vec<String> = Vec::new();
        assert(views(none@) =~= Seq::<Seq<char>>::empty());
        none
    } else {
        split_chars(chars.as_slice(), '\n')
    }
}

/// Where the edits placed before `k` end.
spec fn consumed(edits: Seq<EditRequest>, order: Seq<int>, k: int) -> int {
    if k == 0 {
        0
    } else {
        edits[order[k - 1]].end_line as int
    }
}

/// Apply every edit.
fn splice_lines(lines: &[String], edits: &[EditRequest], order: &[usize]) -> (out: Vec<String>)
    requires
        batch_fits(views(lines@), edits@),
        forall|k: int| 0 <= k < order@.len() ==> #[trigger] order@[k] < edits@.len(),
        disjoint(edits@, indices(order@)),
    ensures
        views(out@) == spliced(views(lines@), edits@, indices(order@)),
{
    let ghost all = views(lines@);
    let ghost ord = indices(order@);
    let mut out: Vec<String> = Vec::new();
    let mut pos: usize = 0;
    let mut k: usize = 0;
    assert(ord.take(0) =~= Seq::<int>::empty());
    assert forall|m: int| 0 <= m <= all.len() implies #[trigger] spliced(
        all.take(m),
        edits@,
        ord.take(0),
    ) == views(out@) + all.subrange(0, m) by {
        assert(views(out@) + all.subrange(0, m) =~= all.take(m));
    }
    while k < order.len()
        invariant
            all == views(lines@),
            ord == indices(order@),
            batch_fits(all, edits@),
            forall|j: int| 0 <= j < order@.len() ==> #[trigger] order@[j] < edits@.len(),
            disjoint(edits@, ord),
            0 <= k <= order@.len(),
            pos == consumed(edits@, ord, k as int),
            pos <= all.len(),
            forall|m: int|
                pos <= m <= all.len() ==> #[trigger] spliced(
                    all.take(m),
                    edits@,
                    ord.take(k as int),
                ) == views(out@) + all.subrange(pos as int, m),
        decreases order@.len() - k,
    {
        let e = &edits[order[k]];
        let ghost upto = ord.take(k as int);
        let ghost next = ord.take(k + 1);
        let ghost before = views(out@);
        let ghost from = pos as int;
        proof {
            assert(ord[k as int] == order@[k as int]);
            assert(edit_fits(all, *e));
            if k > 0 {
                assert(!overlap_at(edits@, ord, k - 1));
            }
            assert(next.drop_last() =~= upto);
            assert(next.last() == ord[k as int]);
        }
        extend_lines(&mut out, lines, pos, e.start_line - 1);
        let ghost with_lines = views(out@);
        let mut put = replacement_lines(e);
        let ghost put_views = views(put@);
        let ghost kept = out@;
        let ghost added = put@;
        out.append(&mut put);
        assert(out@ == kept + added);
        assert(views(out@) =~= with_lines + put_views);
        pos = e.end_line;
        proof {
            let s = e.start_line - 1;
            let x = e.end_line as int;
            assert(spliced(all.take(s), edits@, upto) == before + all.subrange(from, s));
            assert forall|m: int| x <= m <= all.len() implies #[trigger] spliced(
                all.take(m),
                edits@,
                next,
            ) == views(out@) + all.subrange(x, m) by {
                let t = all.take(m);
                assert(t.subrange(0, s) =~= all.take(s));
                assert(t.subrange(x, t.len() as int) =~= all.subrange(x, m));
                assert(spliced(t, edits@, next) == spliced(t.subrange(0, s), edits@, upto)
                    + replacement(*e) + t.subrange(x, t.len() as int));
            }
        }
        k += 1;
    }
    let ghost before = views(out@);
    extend_lines(&mut out, lines, pos, lines.len());
    proof {
        let m = all.len() as int;
        assert(all.take(m) =~= all);
        assert(ord.take(ord.len() as int) =~= ord);
        assert(spliced(all.take(m), edits@, ord.take(order@.len() as int)) == before + all.subrange(
            pos as int,
            m,
        ));
    }
    out
}

/// Whether the caller's premise is stale: it named a version, and the file has
/// another.
pub open spec fn stale(base: Option<&str>, current: Seq<char>) -> bool {
    base matches Some(b) && b@.len() > 0 && b@ != current
}

/// What a batch of edits on a content comes to.  A stale premise is refused
/// first, then the first edit that does not fit, then an empty batch, then the
/// first overlap from the top of the file; otherwise the new content is the
/// old one with every edit applied.
pub open spec fn edit_result(
    content: Seq<char>,
    current: Seq<char>,
    base: Option<&str>,
    edits: Seq<EditRequest>,
    out: Result<String, EditRefusal>,
) -> bool {
    let lines = content_lines(content);
    let order = top_down(edits, edits.len() as int);
    if stale(base, current) {
        out matches Err(EditRefusal::StaleBase { expected_version, actual_version })
            && expected_version@ == base->0@ && actual_version@ == current
    } else if !batch_fits(lines, edits) {
        out matches Err(r) && batch_refusal(lines, edits, r)
    } else if edits.len() == 0 {
        out matches Err(EditRefusal::NoEdits)
    } else if !disjoint(edits, order) {
        out matches Err(EditRefusal::OverlappingEdits { edit_index, other_edit_index }) && exists|
            p: int,
        |
            #[trigger] first_overlap(edits, order, p) && edit_index == order[p] + 1
                && other_edit_index == order[p + 1] + 1
    } else {
        out matches Ok(new_content) && new_content@ == lines_content(
            spliced(lines, edits, order),
            ends_with_newline(content),
        )
    }
}

/// Decide a batch of edits on a content whose version is `current`: the
/// content to write, or why nothing may be.
pub fn edit_at_version(
    content: &str,
    current: &str,
    base: Option<&str>,
    edits: &[EditRequest],
) -> (out: Result<String, EditRefusal>)
    ensures
        edit_result(content@, current@, base, edits@, out),
{
    if let Some(b) = base {
        if !b.is_empty() && !same(b, current) {
            return Err(
                EditRefusal::StaleBase {
                    expected_version: b.to_owned(),
                    actual_version: current.to_owned(),
                },
            );
        }
    }
    let (lines, trailing_newline) = split_lines(content);
    if let Some(r) = check_edits(lines.as_slice(), edits) {
        return Err(r);
    }
    if edits.len() == 0 {
        return Err(EditRefusal::NoEdits);
    }
    let order = order_edits(edits);
    let ghost ord = indices(order@);
    proof {
        law_top_down_is_a_sorted_permutation(edits@, edits@.len() as int);
        assert(ord.len() == order@.len());
        assert forall|k: int| 0 <= k < order@.len() implies #[trigger] order@[k] < edits@.len() by {
            assert(ord[k] == order@[k]);
        }
    }
    let mut p: usize = 0;
    while p + 1 < order.len()
        invariant
            !stale(base, current@),
            batch_fits(content_lines(content@), edits@),
            edits@.len() > 0,
            ord == indices(order@),
            ord == top_down(edits@, edits@.len() as int),
            ord.len() == order@.len(),
            order@.len() == edits@.len(),
            forall|k: int| 0 <= k < order@.len() ==> #[trigger] order@[k] < edits@.len(),
            0 <= p < order@.len(),
            forall|q: int| 0 <= q < p ==> !#[trigger] overlap_at(edits@, ord, q),
        decreases order@.len() - p,
    {
        let a: usize = order[p];
        let b: usize = order[p + 1];
        assert(ord[p as int] == a && ord[p + 1] == b);
        if edits[a].end_line >= edits[b].start_line {
            assert(overlap_at(edits@, ord, p as int));
            assert(first_overlap(edits@, ord, p as int));
            return Err(
                EditRefusal::OverlappingEdits { edit_index: a + 1, other_edit_index: b + 1 },
            );
        }
        p += 1;
    }
    let out = splice_lines(lines.as_slice(), edits, order.as_slice());
    Ok(join_lines(out.as_slice(), trailing_newline))
}

/// A batch that was applied: the content to write, how many edits it holds,
/// and the version the content then has.
pub struct Edited {
    pub content: String,
    pub applied: usize,
    pub version: String,
}

/// Decide a batch of edits on a content.
pub fn edit(content: &str, base: Option<&str>, edits: &[EditRequest]) -> (out: Result<
    Edited,
    EditRefusal,
>)
    ensures
        match out {
            Ok(done) => edit_result(content@, version(content@), base, edits@, Ok(done.content))
                && done.applied == edits@.len() && done.version@ == version(done.content@)
                && is_fingerprint(done.version@),
            Err(r) => edit_result(content@, version(content@), base, edits@, Err(r)),
        },
{
    let current = version_of(content);
    match edit_at_version(content, current.as_str(), base, edits) {
        Ok(new_content) => {
            let v = version_of(new_content.as_str());
            Ok(Edited { content: new_content, applied: edits.len(), version: v })
        },
        Err(r) => Err(r),
    }
}

/// Whether the ordered edits are ranges of a file of `n` lines, each ending
/// before the next begins.
pub open spec fn laid_out(edits: Seq<EditRequest>, order: Seq<int>, n: int) -> bool {
    &&& disjoint(edits, order)
    &&& forall|k: int|
        0 <= k < order.len() ==> 1 <= edits[#[trigger] order[k]].start_line
            <= edits[order[k]].end_line <= n
}

proof fn lemma_laid_out_front(edits: Seq<EditRequest>, order: Seq<int>, n: int)
    requires
        laid_out(edits, order, n),
        order.len() > 0,
    ensures
        laid_out(edits, order.drop_last(), edits[order.last()].start_line - 1),
    decreases order.len(),
{
    let front = order.drop_last();
    let s = edits[order.last()].start_line - 1;
    assert forall|p: int| 0 <= p < front.len() - 1 implies !#[trigger] overlap_at(
        edits,
        front,
        p,
    ) by {
        assert(!overlap_at(edits, order, p));
    }
    if front.len() > 0 {
        assert(!overlap_at(edits, order, order.len() - 2));
        assert(order[order.len() - 1] == order.last());
        assert forall|k: int| 0 <= k < front.len() implies 1 <= edits[#[trigger] front[k]].start_line
            <= edits[front[k]].end_line <= s by {
            assert(front[k] == order[k]);
            lemma_ends_ascend(edits, order, n, k, order.len() - 2);
        }
    }
}

proof fn lemma_ends_ascend(edits: Seq<EditRequest>, order: Seq<int>, n: int, a: int, b: int)
    requires
        laid_out(edits, order, n),
        0 <= a <= b < order.len(),
    ensures
        edits[order[a]].end_line <= edits[order[b]].end_line,
    decreases b - a,
{
    if a < b {
        lemma_ends_ascend(edits, order, n, a, b - 1);
        assert(!overlap_at(edits, order, b - 1));
        assert(order[b] == order[b]);
        assert(1 <= edits[order[b]].start_line <= edits[order[b]].end_line);
    }
}

/// How far the edits above line `i` (counted from zero) move it.
pub open spec fn moved_by(edits: Seq<EditRequest>, order: Seq<int>, i: int) -> int
    decreases order.len(),
{
    if order.len() == 0 {
        0
    } else {
        let e = edits[order.last()];
        moved_by(edits, order.drop_last(), i) + if e.end_line <= i {
            replacement(e).len() - (e.end_line - e.start_line + 1)
        } else {
            0
        }
    }
}

/// Whether no edit of the order names line `i`, counted from zero.
pub open spec fn untouched(edits: Seq<EditRequest>, order: Seq<int>, i: int) -> bool {
    forall|k: int|
        0 <= k < order.len() ==> !(edits[#[trigger] order[k]].start_line - 1 <= i
            < edits[order[k]].end_line)
}

/// An edit changes the lines it names and nothing else: every other line is
/// still there, moved only by what the edits above it added or removed.
pub proof fn law_every_other_line_stays(
    lines: Seq<Seq<char>>,
    edits: Seq<EditRequest>,
    order: Seq<int>,
    i: int,
)
    requires
        laid_out(edits, order, lines.len() as int),
        0 <= i < lines.len(),
        untouched(edits, order, i),
    ensures
        0 <= i + moved_by(edits, order, i) < spliced(lines, edits, order).len(),
        spliced(lines, edits, order)[i + moved_by(edits, order, i)] == lines[i],
    decreases order.len(),
{
    if order.len() > 0 {
        let front = order.drop_last();
        let e = edits[order.last()];
        assert(order[order.len() - 1] == order.last());
        let s = e.start_line - 1;
        let x = e.end_line as int;
        let head = lines.subrange(0, s);
        lemma_laid_out_front(edits, order, lines.len() as int);
        assert(untouched(edits, front, i)) by {
            assert forall|k: int| 0 <= k < front.len() implies !(edits[#[trigger] front[k]].start_line
                - 1 <= i < edits[front[k]].end_line) by {
                assert(front[k] == order[k]);
            }
        }
        if i < s {
            law_every_other_line_stays(head, edits, front, i);
            assert(head[i] == lines[i]);
        } else {
            assert(i >= x);
            lemma_moved_len(head, edits, front, i);
            let base = spliced(head, edits, front) + replacement(e);
            assert(base.len() + (i - x) == i + moved_by(edits, order, i));
            assert(lines.subrange(x, lines.len() as int)[i - x] == lines[i]);
        }
    }
}

/// Past the last edit, lines move by what all edits add and remove together.
proof fn lemma_moved_len(lines: Seq<Seq<char>>, edits: Seq<EditRequest>, order: Seq<int>, i: int)
    requires
        laid_out(edits, order, lines.len() as int),
        i >= lines.len(),
    ensures
        spliced(lines, edits, order).len() == lines.len() + moved_by(edits, order, i),
    decreases order.len(),
{
    if order.len() > 0 {
        let e = edits[order.last()];
        assert(order[order.len() - 1] == order.last());
        lemma_laid_out_front(edits, order, lines.len() as int);
        lemma_moved_len(lines.subrange(0, e.start_line - 1), edits, order.drop_last(), i);
    }
}

/// The edits of a batch in this order.
pub open spec fn in_order(edits: Seq<EditRequest>, order: Seq<int>) -> Seq<EditRequest> {
    order.map_values(|i: int| edits[i])
}

/// `lines` with these edits applied, of which each ends before the next begins.
spec fn spliced_with(lines: Seq<Seq<char>>, sorted: Seq<EditRequest>) -> Seq<Seq<char>>
    decreases sorted.len(),
{
    if sorted.len() == 0 {
        lines
    } else {
        let e = sorted.last();
        spliced_with(lines.subrange(0, e.start_line - 1), sorted.drop_last()) + replacement(e)
            + lines.subrange(e.end_line as int, lines.len() as int)
    }
}

/// What a batch comes to depends on its edits in order alone.
proof fn lemma_spliced_with(lines: Seq<Seq<char>>, edits: Seq<EditRequest>, order: Seq<int>)
    ensures
        spliced(lines, edits, order) == spliced_with(lines, in_order(edits, order)),
    decreases order.len(),
{
    let sorted = in_order(edits, order);
    if order.len() > 0 {
        let e = edits[order.last()];
        assert(sorted.last() == e);
        assert(sorted.drop_last() =~= in_order(edits, order.drop_last()));
        lemma_spliced_with(lines.subrange(0, e.start_line - 1), edits, order.drop_last());
    }
}

/// Putting an edit in its place adds it to those that were placed.
proof fn lemma_place_adds(edits: Seq<EditRequest>, order: Seq<int>, i: int)
    ensures
        in_order(edits, place(edits, order, i)).to_multiset() == in_order(
            edits,
            order,
        ).to_multiset().insert(edits[i]),
    decreases order.len(),
{
    broadcast use vstd::seq_lib::group_to_multiset_ensures;

    if order.len() == 0 || edits[order.last()].start_line <= edits[i].start_line {
        assert(in_order(edits, order.push(i)) =~= in_order(edits, order).push(edits[i]));
    } else {
        let front = order.drop_last();
        let last = edits[order.last()];
        lemma_place_adds(edits, front, i);
        assert(in_order(edits, place(edits, order, i)) =~= in_order(
            edits,
            place(edits, front, i),
        ).push(last));
        assert(in_order(edits, order) =~= in_order(edits, front).push(last));
        assert(in_order(edits, place(edits, order, i)).to_multiset() =~= in_order(
            edits,
            order,
        ).to_multiset().insert(edits[i]));
    }
}

/// The edits from the top of the file down are those of the batch.
proof fn lemma_top_down_holds_all(edits: Seq<EditRequest>, n: int)
    requires
        0 <= n <= edits.len(),
    ensures
        in_order(edits, top_down(edits, n)).to_multiset() == edits.take(n).to_multiset(),
    decreases n,
{
    broadcast use vstd::seq_lib::group_to_multiset_ensures;

    if n > 0 {
        lemma_top_down_holds_all(edits, n - 1);
        lemma_place_adds(edits, top_down(edits, n - 1), n - 1);
        assert(edits.take(n) =~= edits.take(n - 1).push(edits[n - 1]));
    } else {
        assert(in_order(edits, top_down(edits, n)) =~= edits.take(n));
    }
}

/// Whether these edits go down the file, each starting behind the one before.
spec fn goes_down(sorted: Seq<EditRequest>) -> bool {
    forall|p: int, q: int|
        0 <= p < q < sorted.len() ==> (#[trigger] sorted[p]).start_line < (
        #[trigger] sorted[q]).start_line
}

/// Edits of which each starts behind the one before have no other order by first
/// line.
proof fn lemma_one_order(a: Seq<EditRequest>, b: Seq<EditRequest>)
    requires
        a.to_multiset() == b.to_multiset(),
        goes_down(a),
        forall|p: int, q: int|
            0 <= p < q < b.len() ==> (#[trigger] b[p]).start_line <= (#[trigger] b[q]).start_line,
    ensures
        a == b,
    decreases a.len(),
{
    broadcast use vstd::seq_lib::group_to_multiset_ensures;

    vstd::seq_lib::to_multiset_len(a);
    vstd::seq_lib::to_multiset_len(b);
    if a.len() > 0 {
        let last = a.len() - 1;
        assert(a.contains(a[last]));
        assert(b.to_multiset().count(a[last]) > 0);
        assert(b.contains(a[last]));
        let q = choose|q: int| 0 <= q < b.len() && b[q] == a[last];
        assert(b[q].start_line <= b[last].start_line) by {
            if q < last {
                assert(b[q].start_line <= b[last].start_line);
            }
        }
        assert(b.contains(b[last]));
        assert(a.to_multiset().count(b[last]) > 0);
        assert(a.contains(b[last]));
        let p = choose|p: int| 0 <= p < a.len() && a[p] == b[last];
        if p < last {
            assert(a[p].start_line < a[last].start_line);
        }
        assert(a[last] == b[last]);
        let x = a.drop_last();
        let y = b.drop_last();
        assert(a =~= x.push(a[last]));
        assert(b =~= y.push(a[last]));
        assert(x.to_multiset() =~= a.to_multiset().remove(a[last]));
        assert(y.to_multiset() =~= b.to_multiset().remove(a[last]));
        assert forall|i: int, j: int| 0 <= i < j < x.len() implies (#[trigger] x[i]).start_line < (
        #[trigger] x[j]).start_line by {
            assert(a[i].start_line < a[j].start_line);
        }
        assert forall|i: int, j: int| 0 <= i < j < y.len() implies (#[trigger] y[i]).start_line <= (
        #[trigger] y[j]).start_line by {
            assert(b[i].start_line <= b[j].start_line);
        }
        lemma_one_order(x, y);
    } else {
        assert(a =~= b);
    }
}

/// Fitting edits that do not overlap go down the file.
proof fn lemma_disjoint_goes_down(lines: Seq<Seq<char>>, edits: Seq<EditRequest>)
    requires
        batch_fits(lines, edits),
        disjoint(edits, top_down(edits, edits.len() as int)),
    ensures
        goes_down(in_order(edits, top_down(edits, edits.len() as int))),
{
    let n = edits.len() as int;
    let order = top_down(edits, n);
    let sorted = in_order(edits, order);
    law_top_down_is_a_sorted_permutation(edits, n);
    assert forall|p: int, q: int| 0 <= p < q < sorted.len() implies (
    #[trigger] sorted[p]).start_line < (#[trigger] sorted[q]).start_line by {
        assert(!overlap_at(edits, order, p));
        assert(0 <= order[p] < n);
        assert(edit_fits(lines, edits[order[p]]));
        if p + 1 < q {
            assert(edits[order[p + 1]].start_line <= edits[order[q]].start_line);
        }
    }
}

/// Two batches of the same edits that fit and do not overlap lie the same way.
proof fn lemma_same_order(lines: Seq<Seq<char>>, a: Seq<EditRequest>, b: Seq<EditRequest>)
    requires
        a.to_multiset() == b.to_multiset(),
        batch_fits(lines, a),
        disjoint(a, top_down(a, a.len() as int)),
    ensures
        batch_fits(lines, b),
        disjoint(b, top_down(b, b.len() as int)),
        in_order(a, top_down(a, a.len() as int)) == in_order(b, top_down(b, b.len() as int)),
{
    broadcast use vstd::seq_lib::group_to_multiset_ensures;

    let m = a.len() as int;
    let n = b.len() as int;
    vstd::seq_lib::to_multiset_len(a);
    vstd::seq_lib::to_multiset_len(b);
    let x = in_order(a, top_down(a, m));
    let y = in_order(b, top_down(b, n));
    lemma_top_down_holds_all(a, m);
    lemma_top_down_holds_all(b, n);
    assert(a.take(m) =~= a);
    assert(b.take(n) =~= b);
    lemma_disjoint_goes_down(lines, a);
    law_top_down_is_a_sorted_permutation(b, n);
    let order = top_down(b, n);
    assert forall|p: int, q: int| 0 <= p < q < y.len() implies (#[trigger] y[p]).start_line <= (
    #[trigger] y[q]).start_line by {
        assert(b[order[p]].start_line <= b[order[q]].start_line);
    }
    lemma_one_order(x, y);
    assert forall|j: int| #![trigger b[j]] 0 <= j < b.len() implies edit_fits(lines, b[j]) by {
        assert(b.contains(b[j]));
        assert(a.to_multiset().count(b[j]) > 0);
        assert(a.contains(b[j]));
        let i = choose|i: int| 0 <= i < a.len() && a[i] == b[j];
        assert(edit_fits(lines, a[i]));
    }
    law_top_down_is_a_sorted_permutation(a, m);
    assert forall|p: int| 0 <= p < order.len() - 1 implies !#[trigger] overlap_at(b, order, p) by {
        assert(!overlap_at(a, top_down(a, m), p));
        assert(x[p] == y[p] && x[p + 1] == y[p + 1]);
    }
}

/// The order of the edits in a batch does not matter: the same edits in another
/// order are applied or refused alike, and where they are applied the content is
/// the same.
pub proof fn law_the_order_of_a_batch_does_not_matter(
    content: Seq<char>,
    current: Seq<char>,
    base: Option<&str>,
    a: Seq<EditRequest>,
    b: Seq<EditRequest>,
    x: Result<String, EditRefusal>,
    y: Result<String, EditRefusal>,
)
    requires
        a.to_multiset() == b.to_multiset(),
        edit_result(content, current, base, a, x),
        edit_result(content, current, base, b, y),
    ensures
        x is Ok <==> y is Ok,
        x is Ok ==> x->Ok_0@ == y->Ok_0@,
{
    let lines = content_lines(content);
    let m = a.len() as int;
    let n = b.len() as int;
    vstd::seq_lib::to_multiset_len(a);
    vstd::seq_lib::to_multiset_len(b);
    if batch_fits(lines, a) && disjoint(a, top_down(a, m)) {
        lemma_same_order(lines, a, b);
        lemma_spliced_with(lines, a, top_down(a, m));
        lemma_spliced_with(lines, b, top_down(b, n));
    } else if batch_fits(lines, b) && disjoint(b, top_down(b, n)) {
        lemma_same_order(lines, b, a);
    }
}

/// Whether the edit puts back the very text it expects.
pub open spec fn puts_back(lines: Seq<Seq<char>>, e: EditRequest) -> bool {
    e.replace@.len() > 0 && e.replace@ == text_at(lines, e.start_line as int, e.end_line as int)
}

proof fn lemma_put_back_is_identity(
    lines: Seq<Seq<char>>,
    whole: Seq<Seq<char>>,
    edits: Seq<EditRequest>,
    order: Seq<int>,
)
    requires
        lines.len() <= whole.len(),
        lines == whole.take(lines.len() as int),
        laid_out(edits, order, lines.len() as int),
        forall|k: int| 0 <= k < order.len() ==> puts_back(whole, edits[#[trigger] order[k]]),
        forall|j: int| 0 <= j < whole.len() ==> !(#[trigger] whole[j]).contains('\n'),
    ensures
        spliced(lines, edits, order) == lines,
    decreases order.len(),
{
    if order.len() > 0 {
        let front = order.drop_last();
        let e = edits[order.last()];
        assert(order[order.len() - 1] == order.last());
        let s = e.start_line - 1;
        let x = e.end_line as int;
        lemma_laid_out_front(edits, order, lines.len() as int);
        assert(lines.subrange(0, s) =~= whole.take(s));
        assert forall|k: int| 0 <= k < front.len() implies puts_back(
            whole,
            edits[#[trigger] front[k]],
        ) by {
            assert(front[k] == order[k]);
        }
        lemma_put_back_is_identity(lines.subrange(0, s), whole, edits, front);
        let there = whole.subrange(s, x);
        assert forall|j: int| 0 <= j < there.len() implies !(#[trigger] there[j]).contains(
            '\n',
        ) by {
            assert(there[j] == whole[s + j]);
        }
        crate::text::lemma_split_join(there, '\n');
        assert(replacement(e) == there);
        assert(spliced(lines, edits, order) =~= lines);
    }
}

/// An edit batch that puts back exactly what it expects leaves the content as
/// it was, to the last character.
pub proof fn law_putting_back_changes_nothing(content: Seq<char>, edits: Seq<EditRequest>)
    requires
        batch_fits(content_lines(content), edits),
        disjoint(edits, top_down(edits, edits.len() as int)),
        forall|j: int|
            0 <= j < edits.len() ==> puts_back(content_lines(content), #[trigger] edits[j]),
    ensures
        lines_content(
            spliced(content_lines(content), edits, top_down(edits, edits.len() as int)),
            ends_with_newline(content),
        ) == content,
{
    let lines = content_lines(content);
    let order = top_down(edits, edits.len() as int);
    law_top_down_is_a_sorted_permutation(edits, edits.len() as int);
    law_lines_hold_no_newline(content);
    assert(lines.take(lines.len() as int) =~= lines);
    assert forall|k: int| 0 <= k < order.len() implies 1 <= edits[#[trigger] order[k]].start_line
        <= edits[order[k]].end_line <= lines.len() by {
        assert(edit_fits(lines, edits[order[k]]));
    }
    lemma_put_back_is_identity(lines, lines, edits, order);
    law_split_and_join_round_trip(content);
}

/// The edit round-trip never drops a trailing newline.
pub proof fn law_the_trailing_newline_stays(
    content: Seq<char>,
    current: Seq<char>,
    base: Option<&str>,
    edits: Seq<EditRequest>,
    new_content: String,
)
    requires
        edit_result(content, current, base, edits, Ok(new_content)),
        ends_with_newline(content),
    ensures
        ends_with_newline(new_content@),
{
}

/// A batch that was refused for any reason, and only such a batch, has no
/// content to write; a batch is never both applied and refused.
pub proof fn law_a_batch_is_applied_whole_or_not_at_all(
    content: Seq<char>,
    current: Seq<char>,
    base: Option<&str>,
    edits: Seq<EditRequest>,
    out: Result<String, EditRefusal>,
)
    requires
        edit_result(content, current, base, edits, out),
    ensures
        out is Ok <==> !stale(base, current) && batch_fits(content_lines(content), edits)
            && edits.len() > 0 && disjoint(edits, top_down(edits, edits.len() as int)),
{
}

// ── what an edit is for ──────────────────────────────────────────────

/// A batch is applied only where every edit of it names lines the content has and
/// these, with a newline between each two, are the very text it expects.
pub proof fn law_an_applied_edit_found_its_text(
    content: Seq<char>,
    current: Seq<char>,
    base: Option<&str>,
    edits: Seq<EditRequest>,
    out: Result<String, EditRefusal>,
    k: int,
)
    requires
        edit_result(content, current, base, edits, out),
        out is Ok,
        0 <= k < edits.len(),
    ensures
        1 <= edits[k].start_line <= edits[k].end_line <= content_lines(content).len(),
        join(
            content_lines(content).subrange(
                edits[k].start_line - 1,
                edits[k].end_line as int,
            ),
            seq!['\n'],
        ) == edits[k].expect@,
{
    assert(edit_fits(content_lines(content), edits[k]));
}

/// One edit whose lines are there but do not hold the text it expects is enough
/// for the whole batch to be refused, however many lines it names.
pub proof fn law_a_differing_text_refuses_the_batch(
    content: Seq<char>,
    current: Seq<char>,
    base: Option<&str>,
    edits: Seq<EditRequest>,
    out: Result<String, EditRefusal>,
    k: int,
)
    requires
        edit_result(content, current, base, edits, out),
        0 <= k < edits.len(),
        1 <= edits[k].start_line <= edits[k].end_line <= content_lines(content).len(),
        join(
            content_lines(content).subrange(
                edits[k].start_line - 1,
                edits[k].end_line as int,
            ),
            seq!['\n'],
        ) != edits[k].expect@,
    ensures
        out is Err,
{
    if out is Ok {
        law_an_applied_edit_found_its_text(content, current, base, edits, out, k);
    }
}

/// A batch whose every edit finds its text, of which no two name the same line,
/// is applied, unless the caller read another version.
pub proof fn law_a_batch_that_finds_its_text_is_applied(
    content: Seq<char>,
    current: Seq<char>,
    base: Option<&str>,
    edits: Seq<EditRequest>,
    out: Result<String, EditRefusal>,
)
    requires
        edit_result(content, current, base, edits, out),
        base is None || base->0@.len() == 0 || base->0@ == current,
        edits.len() > 0,
        forall|k: int|
            0 <= k < edits.len() ==> 1 <= (#[trigger] edits[k]).start_line <= edits[k].end_line
                <= content_lines(content).len() && join(
                content_lines(content).subrange(
                    edits[k].start_line - 1,
                    edits[k].end_line as int,
                ),
                seq!['\n'],
            ) == edits[k].expect@,
        forall|a: int, b: int|
            0 <= a < edits.len() && 0 <= b < edits.len() && a != b ==> (
            #[trigger] edits[a]).end_line < (#[trigger] edits[b]).start_line || edits[b].end_line
                < edits[a].start_line,
    ensures
        out is Ok,
{
    let lines = content_lines(content);
    let n = edits.len() as int;
    let order = top_down(edits, n);
    law_top_down_is_a_sorted_permutation(edits, n);
    assert forall|j: int| #![trigger edits[j]] 0 <= j < edits.len() implies edit_fits(
        lines,
        edits[j],
    ) by {
        assert(edits[j].start_line <= edits[j].end_line);
    }
    assert forall|p: int| 0 <= p < order.len() - 1 implies !#[trigger] overlap_at(
        edits,
        order,
        p,
    ) by {
        let a = order[p];
        let b = order[p + 1];
        assert(a != b);
        assert(edits[a].start_line <= edits[b].start_line);
        assert(edits[a].end_line < edits[b].start_line || edits[b].end_line < edits[a].start_line);
        assert(edits[b].start_line <= edits[b].end_line);
    }
}

/// A caller that read another version than the file has is refused and told both,
/// whatever the batch.
pub proof fn law_a_stale_version_is_refused(
    content: Seq<char>,
    current: Seq<char>,
    base: &str,
    edits: Seq<EditRequest>,
    out: Result<String, EditRefusal>,
)
    requires
        edit_result(content, current, Some(base), edits, out),
        base@.len() > 0,
        base@ != current,
    ensures
        out matches Err(EditRefusal::StaleBase { expected_version, actual_version })
            && expected_version@ == base@ && actual_version@ == current,
{
}

/// Two edits that name the same line are never both applied.
pub proof fn law_overlapping_edits_are_refused(
    content: Seq<char>,
    current: Seq<char>,
    base: Option<&str>,
    edits: Seq<EditRequest>,
    out: Result<String, EditRefusal>,
    a: int,
    b: int,
    line: int,
)
    requires
        edit_result(content, current, base, edits, out),
        0 <= a < edits.len(),
        0 <= b < edits.len(),
        a != b,
        edits[a].start_line <= line <= edits[a].end_line,
        edits[b].start_line <= line <= edits[b].end_line,
    ensures
        out is Err,
{
    if out is Ok {
        let n = edits.len() as int;
        let lines = content_lines(content);
        let order = top_down(edits, n);
        law_top_down_is_a_sorted_permutation(edits, n);
        assert(order.contains(a) && order.contains(b));
        let p = choose|p: int| 0 <= p < order.len() && order[p] == a;
        let q = choose|q: int| 0 <= q < order.len() && order[q] == b;
        lemma_disjoint_goes_down(lines, edits);
        let first = if p < q {
            p
        } else {
            q
        };
        let last = if p < q {
            q
        } else {
            p
        };
        assert(!overlap_at(edits, order, first));
        assert(edits[order[first + 1]].start_line <= edits[order[last]].start_line) by {
            if first + 1 < last {
                assert(edits[order[first + 1]].start_line <= edits[order[last]].start_line);
            }
        }
    }
}

/// The lines of a content that consists of whole lines before, a text, and whole
/// lines behind.
#[verifier::spinoff_prover]
#[verifier::rlimit(40)]
proof fn lemma_lines_around(before: Seq<char>, old_text: Seq<char>, behind: Seq<char>) -> (around: (
    Seq<Seq<char>>,
    Seq<Seq<char>>,
))
    requires
        before.len() == 0 || before.last() == '\n',
        behind.len() == 0 || behind[0] == '\n',
        behind.len() > 0 || before.len() + old_text.len() == 0 || old_text.len() > 0
            && old_text.last() != '\n',
    ensures
        content_lines(before + old_text + behind) == around.0 + split(old_text, '\n') + around.1,
        around.0.len() == split(before, '\n').len() - 1,
        before.len() == 0 <==> around.0.len() == 0,
        before.len() > 0 ==> join(around.0, seq!['\n']).push('\n') == before,
        around.1.len() == 0 ==> behind == if ends_with_newline(before + old_text + behind) {
            seq!['\n']
        } else {
            Seq::<char>::empty()
        },
        around.1.len() > 0 ==> behind == seq!['\n'] + lines_content(
            around.1,
            ends_with_newline(before + old_text + behind),
        ),
{
    let content = before + old_text + behind;
    let none = Seq::<char>::empty();
    let no_lines = Seq::<Seq<char>>::empty();
    crate::text::lemma_split_parts(old_text, '\n');
    let head = if before.len() == 0 {
        no_lines
    } else {
        split(before.drop_last(), '\n')
    };
    if before.len() > 0 {
        let p = before.drop_last();
        crate::text::lemma_join_split(p, '\n');
        crate::text::lemma_split_parts(p, '\n');
        assert(p.push('\n') =~= before);
        assert(before =~= p + seq!['\n'] + none);
        crate::text::law_a_split_goes_by_parts(p, '\n', none);
        assert(split(none, '\n').len() == 1);
    } else {
        assert(before =~= none);
        assert(split(none, '\n').len() == 1);
    }
    if behind.len() == 0 {
        assert(content =~= before + old_text);
        assert(!ends_with_newline(content)) by {
            if content.len() > 0 {
                assert(content.last() == old_text.last());
            }
        }
        lemma_head_split(before, old_text);
        assert(content_lines(content) =~= head + split(old_text, '\n') + no_lines);
        assert(behind =~= none);
        (head, no_lines)
    } else {
        let q = behind.skip(1);
        assert(behind =~= seq!['\n'] + q);
        assert(content.last() == behind.last());
        if q.len() == 0 {
            assert(behind =~= seq!['\n']);
            assert(content.drop_last() =~= before + old_text);
            lemma_head_split(before, old_text);
            assert(content_lines(content) =~= head + split(old_text, '\n') + no_lines);
            (head, no_lines)
        } else {
            assert(ends_with_newline(content) == ends_with_newline(q)) by {
                assert(q.last() == behind.last());
            }
            law_split_and_join_round_trip(q);
            law_lines_hold_no_newline(q);
            let bare = if ends_with_newline(q) {
                q.drop_last()
            } else {
                q
            };
            let rest = old_text + seq!['\n'] + bare;
            crate::text::law_a_split_goes_by_parts(old_text, '\n', bare);
            lemma_head_split(before, rest);
            if ends_with_newline(q) {
                assert(content.drop_last() =~= before + rest);
            } else {
                assert(content =~= before + rest);
            }
            assert(content_lines(content) =~= head + split(old_text, '\n') + content_lines(q));
            (head, content_lines(q))
        }
    }
}

proof fn lemma_head_split(before: Seq<char>, rest: Seq<char>)
    requires
        before.len() == 0 || before.last() == '\n',
    ensures
        split(before + rest, '\n') == (if before.len() == 0 {
            Seq::<Seq<char>>::empty()
        } else {
            split(before.drop_last(), '\n')
        }) + split(rest, '\n'),
{
    if before.len() == 0 {
        assert(before + rest =~= rest);
        assert(Seq::<Seq<char>>::empty() + split(rest, '\n') =~= split(rest, '\n'));
    } else {
        let p = before.drop_last();
        assert(before + rest =~= p + seq!['\n'] + rest);
        crate::text::law_a_split_goes_by_parts(p, '\n', rest);
    }
}

/// An edit does to a content what it says: where its text stands between whole
/// lines, counted from one, the new content is what came before, the replacement
/// and what came behind, to the letter.
pub proof fn law_an_edit_puts_its_replacement_in_the_place_of_its_text(
    before: Seq<char>,
    behind: Seq<char>,
    current: Seq<char>,
    e: EditRequest,
    out: Result<String, EditRefusal>,
)
    requires
        before.len() == 0 || before.last() == '\n',
        behind.len() == 0 || behind[0] == '\n',
        behind.len() > 0 || before.len() + e.expect@.len() == 0 || e.expect@.len() > 0
            && e.expect@.last() != '\n',
        e.start_line == split(before, '\n').len(),
        e.end_line == split(before, '\n').len() + split(e.expect@, '\n').len() - 1,
        e.replace@.len() > 0,
        edit_result(before + e.expect@ + behind, current, None, seq![e], out),
    ensures
        out matches Ok(new_content) && new_content@ == before + e.replace@ + behind,
{
    let content = before + e.expect@ + behind;
    let around = lemma_lines_around(before, e.expect@, behind);
    let head = around.0;
    let tail = around.1;
    let mid = split(e.expect@, '\n');
    let put = split(e.replace@, '\n');
    let lines = content_lines(content);
    let sep = seq!['\n'];
    crate::text::lemma_split_parts(e.expect@, '\n');
    crate::text::lemma_split_parts(e.replace@, '\n');
    crate::text::lemma_join_split(e.expect@, '\n');
    crate::text::lemma_join_split(e.replace@, '\n');
    let edits = seq![e];
    assert(lines.subrange(e.start_line - 1, e.end_line as int) =~= mid);
    law_a_batch_that_finds_its_text_is_applied(content, current, None, edits, out);
    let order = top_down(edits, 1);
    assert(top_down(edits, 0) =~= Seq::<int>::empty());
    assert(order =~= seq![0int]);
    assert(order.drop_last() =~= Seq::<int>::empty());
    assert(lines.subrange(0, e.start_line - 1) =~= head);
    assert(lines.subrange(e.end_line as int, lines.len() as int) =~= tail);
    assert(spliced(head, edits, order.drop_last()) == head);
    assert(spliced(lines, edits, order) =~= head + put + tail);
    let made = head + put + tail;
    let joined = join(made, sep);
    let front = head + put;
    assert(join(front, sep) == before + e.replace@) by {
        if head.len() > 0 {
            crate::text::law_a_join_goes_by_parts(head, put, sep);
            assert(join(head, sep) + sep =~= before);
        } else {
            assert(front =~= put);
            assert(before + e.replace@ =~= e.replace@);
        }
    }
    if tail.len() > 0 {
        crate::text::law_a_join_goes_by_parts(front, tail, sep);
        assert(lines_content(made, ends_with_newline(content)) =~= before + e.replace@ + behind);
    } else {
        assert(made =~= front);
        assert(lines_content(made, ends_with_newline(content)) =~= before + e.replace@ + behind);
    }
}

/// An edit that replaces its text by nothing takes its lines out, newline and
/// all, and leaves the rest to the letter.
pub proof fn law_an_edit_without_replacement_takes_its_lines_out(
    before: Seq<char>,
    behind: Seq<char>,
    current: Seq<char>,
    e: EditRequest,
    out: Result<String, EditRefusal>,
)
    requires
        before.len() == 0 || before.last() == '\n',
        before.len() + behind.len() > 0,
        e.start_line == split(before, '\n').len(),
        e.end_line == split(before, '\n').len() + split(e.expect@, '\n').len() - 1,
        e.replace@.len() == 0,
        edit_result(before + e.expect@ + (seq!['\n'] + behind), current, None, seq![e], out),
    ensures
        out matches Ok(new_content) && new_content@ == before + behind,
{
    let rest = seq!['\n'] + behind;
    let content = before + e.expect@ + rest;
    let around = lemma_lines_around(before, e.expect@, rest);
    let head = around.0;
    let tail = around.1;
    let mid = split(e.expect@, '\n');
    let lines = content_lines(content);
    let sep = seq!['\n'];
    crate::text::lemma_split_parts(e.expect@, '\n');
    crate::text::lemma_join_split(e.expect@, '\n');
    let edits = seq![e];
    assert(lines.subrange(e.start_line - 1, e.end_line as int) =~= mid);
    law_a_batch_that_finds_its_text_is_applied(content, current, None, edits, out);
    let order = top_down(edits, 1);
    assert(top_down(edits, 0) =~= Seq::<int>::empty());
    assert(order =~= seq![0int]);
    assert(order.drop_last() =~= Seq::<int>::empty());
    assert(lines.subrange(0, e.start_line - 1) =~= head);
    assert(lines.subrange(e.end_line as int, lines.len() as int) =~= tail);
    assert(spliced(head, edits, order.drop_last()) == head);
    let made = head + tail;
    assert(spliced(lines, edits, order) =~= made);
    assert(content.last() == rest.last());
    if tail.len() == 0 {
        assert(made =~= head);
        if behind.len() > 0 {
            assert(rest.len() > 1);
            assert(rest == seq!['\n'] || rest =~= Seq::<char>::empty());
        }
        assert(behind =~= Seq::<char>::empty());
        assert(lines_content(made, true) =~= before + behind);
    } else {
        assert(behind =~= rest.skip(1));
        assert((seq!['\n'] + lines_content(tail, ends_with_newline(content))).skip(1)
            =~= lines_content(tail, ends_with_newline(content)));
        if head.len() > 0 {
            crate::text::law_a_join_goes_by_parts(head, tail, sep);
            assert(join(head, sep) + sep =~= before);
        } else {
            assert(made =~= tail);
        }
        assert(lines_content(made, ends_with_newline(content)) =~= before + behind);
    }
}

/// Two paths in one directory are different paths when their names are.
pub proof fn law_other_names_are_other_paths(dir: Seq<char>, a: Seq<char>, b: Seq<char>)
    requires
        !a.contains('/') && !b.contains('/'),
        a.len() > 0 && b.len() > 0,
        a != seq!['.'] && b != seq!['.'],
        a != b,
    ensures
        path_key(dir + seq!['/'] + a) != path_key(dir + seq!['/'] + b),
{
    crate::text::lemma_split_append(dir, '/', a);
    crate::text::lemma_split_append(dir, '/', b);
    let pa = split(dir + seq!['/'] + a, '/');
    let pb = split(dir + seq!['/'] + b, '/');
    assert(pa.last() == a && pb.last() == b);
    assert(components(pa, pa.len() as int).last() == a);
    assert(components(pb, pb.len() as int).last() == b);
}

/// Whether the piece at place `i` of a path split at its separators is a
/// component of the path: an empty piece is none, and `.` is one only at the
/// very beginning.
pub open spec fn is_component(pieces: Seq<Seq<char>>, i: int) -> bool {
    pieces[i].len() > 0 && (pieces[i] == seq!['.'] ==> i == 0)
}

/// The components among the first `n` pieces.
pub open spec fn components(pieces: Seq<Seq<char>>, n: int) -> Seq<Seq<char>>
    decreases n,
{
    if n <= 0 {
        Seq::<Seq<char>>::empty()
    } else if is_component(pieces, n - 1) {
        components(pieces, n - 1).push(pieces[n - 1])
    } else {
        components(pieces, n - 1)
    }
}

/// What a path names: whether it starts at the root, and its components.  Two
/// spellings with the same key are the same path (`a//b`, `a/./b` and `a/b/`).
pub open spec fn path_key(path: Seq<char>) -> (bool, Seq<Seq<char>>) {
    let pieces = split(path, '/');
    (path.len() > 0 && path[0] == '/', components(pieces, pieces.len() as int))
}

/// The components of a path as strings, and whether it starts at the root.
fn key_of(path: &str) -> (out: (bool, Vec<String>))
    ensures
        (out.0, views(out.1@)) == path_key(path@),
{
    let chars = chars_of(path);
    let rooted = chars.len() > 0 && chars[0] == '/';
    let pieces = split_chars(chars.as_slice(), '/');
    let ghost all = views(pieces@);
    let mut out: Vec<String> = Vec::new();
    let mut i: usize = 0;
    assert(views(out@) =~= components(all, 0));
    while i < pieces.len()
        invariant
            all == views(pieces@),
            0 <= i <= pieces@.len(),
            views(out@) == components(all, i as int),
        decreases pieces@.len() - i,
    {
        proof {
            reveal_strlit(".");
            assert("."@ =~= seq!['.']);
            assert(all[i as int] == pieces@[i as int]@);
        }
        let piece = pieces[i].clone();
        if !piece.as_str().is_empty() && (i == 0 || !same(piece.as_str(), ".")) {
            let ghost so_far = out@;
            out.push(piece);
            assert(views(out@) =~= views(so_far).push(all[i as int]));
        }
        i += 1;
    }
    (rooted, out)
}

/// Whether two lists hold the same strings in the same order.
fn same_strings(a: &[String], b: &[String]) -> (yes: bool)
    ensures
        yes == (views(a@) == views(b@)),
{
    if a.len() != b.len() {
        assert(views(a@).len() != views(b@).len());
        return false;
    }
    let mut i: usize = 0;
    while i < a.len()
        invariant
            a@.len() == b@.len(),
            0 <= i <= a@.len(),
            forall|k: int| 0 <= k < i ==> views(a@)[k] == views(b@)[k],
        decreases a@.len() - i,
    {
        if !same(a[i].as_str(), b[i].as_str()) {
            assert(views(a@)[i as int] != views(b@)[i as int]);
            return false;
        }
        i += 1;
    }
    assert(views(a@) =~= views(b@));
    true
}

/// Whether two spellings name the same path.
pub fn same_path(a: &str, b: &str) -> (yes: bool)
    ensures
        yes == (path_key(a@) == path_key(b@)),
{
    let (a_rooted, a_parts) = key_of(a);
    let (b_rooted, b_parts) = key_of(b);
    a_rooted == b_rooted && same_strings(a_parts.as_slice(), b_parts.as_slice())
}

/// Pre-edit content of one path.
struct Snapshot {
    path: String,
    content: String,
}

/// Pre-edit content by path: one level deep, which is what "undo the last
/// thing I did" needs.
pub struct Snapshots {
    entries: Vec<Snapshot>,
}

spec fn entries_map(entries: Seq<Snapshot>) -> Map<(bool, Seq<Seq<char>>), Seq<char>>
    decreases entries.len(),
{
    if entries.len() == 0 {
        Map::empty()
    } else {
        entries_map(entries.drop_last()).insert(
            path_key(entries.last().path@),
            entries.last().content@,
        )
    }
}

spec fn distinct_paths(entries: Seq<Snapshot>) -> bool {
    forall|a: int, b: int|
        0 <= a < b < entries.len() ==> path_key((#[trigger] entries[a]).path@) != path_key(
            (#[trigger] entries[b]).path@,
        )
}

proof fn lemma_entries_map(entries: Seq<Snapshot>)
    requires
        distinct_paths(entries),
    ensures
        forall|i: int|
            0 <= i < entries.len() ==> entries_map(entries).contains_pair(
                path_key((#[trigger] entries[i]).path@),
                entries[i].content@,
            ),
        forall|k: (bool, Seq<Seq<char>>)| #[trigger]
            entries_map(entries).dom().contains(k) ==> exists|i: int|
                0 <= i < entries.len() && k == path_key((#[trigger] entries[i]).path@),
    decreases entries.len(),
{
    if entries.len() > 0 {
        let front = entries.drop_last();
        assert(distinct_paths(front)) by {
            assert forall|a: int, b: int| 0 <= a < b < front.len() implies path_key(
                (#[trigger] front[a]).path@,
            ) != path_key((#[trigger] front[b]).path@) by {
                assert(front[a] == entries[a] && front[b] == entries[b]);
            }
        }
        lemma_entries_map(front);
        let last = entries[entries.len() - 1];
        assert forall|i: int| 0 <= i < entries.len() implies entries_map(entries).contains_pair(
            path_key((#[trigger] entries[i]).path@),
            entries[i].content@,
        ) by {
            if i < front.len() {
                assert(front[i] == entries[i]);
                assert(path_key(entries[i].path@) != path_key(last.path@));
            }
        }
        assert forall|k: (bool, Seq<Seq<char>>)| #[trigger]
            entries_map(entries).dom().contains(k) implies exists|i: int|
            0 <= i < entries.len() && k == path_key((#[trigger] entries[i]).path@) by {
            if k == path_key(last.path@) {
                assert(entries[entries.len() - 1] == last);
            } else {
                assert(entries_map(front).dom().contains(k));
                let i = choose|i: int| 0 <= i < front.len() && k == path_key(
                    (#[trigger] front[i]).path@,
                );
                assert(entries[i] == front[i]);
            }
        }
    }
}

proof fn lemma_entries_remove(entries: Seq<Snapshot>, i: int)
    requires
        distinct_paths(entries),
        0 <= i < entries.len(),
    ensures
        distinct_paths(entries.remove(i)),
        entries_map(entries.remove(i)) == entries_map(entries).remove(path_key(entries[i].path@)),
{
    let rest = entries.remove(i);
    assert(distinct_paths(rest)) by {
        assert forall|a: int, b: int| 0 <= a < b < rest.len() implies path_key(
            (#[trigger] rest[a]).path@,
        ) != path_key((#[trigger] rest[b]).path@) by {
            let fa = if a < i {
                a
            } else {
                a + 1
            };
            let fb = if b < i {
                b
            } else {
                b + 1
            };
            assert(rest[a] == entries[fa] && rest[b] == entries[fb]);
        }
    }
    lemma_entries_map(entries);
    lemma_entries_map(rest);
    let whole = entries_map(entries);
    let key = path_key(entries[i].path@);
    let got = entries_map(rest);
    assert forall|k: (bool, Seq<Seq<char>>)| got.dom().contains(k) implies #[trigger] whole.remove(
        key,
    ).contains_pair(k, got[k]) by {
        let j = choose|j: int| 0 <= j < rest.len() && k == path_key((#[trigger] rest[j]).path@);
        let f = if j < i {
            j
        } else {
            j + 1
        };
        assert(rest[j] == entries[f]);
        assert(got.contains_pair(path_key(rest[j].path@), rest[j].content@));
        assert(whole.contains_pair(path_key(entries[f].path@), entries[f].content@));
        if f < i {
            assert(path_key(entries[f].path@) != path_key(entries[i].path@));
        } else {
            assert(path_key(entries[i].path@) != path_key(entries[f].path@));
        }
    }
    assert forall|k: (bool, Seq<Seq<char>>)| #[trigger] whole.remove(key).dom().contains(
        k,
    ) implies got.dom().contains(k) by {
        let f = choose|f: int| 0 <= f < entries.len() && k == path_key(
            (#[trigger] entries[f]).path@,
        );
        let j = if f < i {
            f
        } else {
            f - 1
        };
        assert(f != i);
        assert(rest[j] == entries[f]);
        assert(got.contains_pair(path_key(rest[j].path@), rest[j].content@));
    }
    assert(got =~= whole.remove(key)) by {
        assert forall|k: (bool, Seq<Seq<char>>)| got.dom().contains(k) implies got[k]
            == whole.remove(key)[k] by {
            assert(whole.remove(key).contains_pair(k, got[k]));
        }
    }
}

impl View for Snapshots {
    type V = Map<(bool, Seq<Seq<char>>), Seq<char>>;

    closed spec fn view(&self) -> Map<(bool, Seq<Seq<char>>), Seq<char>> {
        entries_map(self.entries@)
    }
}

/// The snapshots after an edit of `path` replaced `content`.
pub open spec fn after_edit(
    snapshots: Map<(bool, Seq<Seq<char>>), Seq<char>>,
    path: Seq<char>,
    content: Seq<char>,
) -> Map<(bool, Seq<Seq<char>>), Seq<char>> {
    snapshots.insert(path_key(path), content)
}

/// The snapshots after a rollback of `path`.
pub open spec fn after_rollback(
    snapshots: Map<(bool, Seq<Seq<char>>), Seq<char>>,
    path: Seq<char>,
) -> Map<(bool, Seq<Seq<char>>), Seq<char>> {
    snapshots.remove(path_key(path))
}

/// What a rollback of `path` restores.
pub open spec fn restored(
    snapshots: Map<(bool, Seq<Seq<char>>), Seq<char>>,
    path: Seq<char>,
) -> Option<Seq<char>> {
    if snapshots.dom().contains(path_key(path)) {
        Some(snapshots[path_key(path)])
    } else {
        None
    }
}

/// A rollback restores the content captured before the last successful edit of
/// the path, once, and does not reach any other path.
pub proof fn law_rollback_restores_what_the_last_edit_replaced(
    snapshots: Map<(bool, Seq<Seq<char>>), Seq<char>>,
    path: Seq<char>,
    content: Seq<char>,
    other: Seq<char>,
)
    ensures
        restored(after_edit(snapshots, path, content), path) == Some(content),
        restored(after_rollback(after_edit(snapshots, path, content), path), path) is None,
        path_key(other) != path_key(path) ==> restored(
            after_rollback(after_edit(snapshots, path, content), path),
            other,
        ) == restored(snapshots, other),
{
}

impl Snapshots {
    /// Whether no path is held twice.
    pub closed spec fn well_formed(&self) -> bool {
        distinct_paths(self.entries@)
    }

    /// No snapshots.
    pub fn new() -> (out: Snapshots)
        ensures
            out.well_formed(),
            out@ == Map::<(bool, Seq<Seq<char>>), Seq<char>>::empty(),
    {
        Snapshots { entries: Vec::new() }
    }

    /// Take the content captured for `path`, if any.
    fn take(&mut self, path: &str) -> (out: Option<String>)
        requires
            old(self).well_formed(),
        ensures
            final(self).well_formed(),
            final(self)@ == after_rollback(old(self)@, path@),
            out is Some <==> restored(old(self)@, path@) is Some,
            out matches Some(c) ==> restored(old(self)@, path@) == Some(c@),
    {
        proof {
            lemma_entries_map(self.entries@);
        }
        let mut i: usize = 0;
        while i < self.entries.len()
            invariant
                self.entries@ == old(self).entries@,
                distinct_paths(self.entries@),
                0 <= i <= self.entries@.len(),
                forall|k: int|
                    0 <= k < i ==> path_key((#[trigger] self.entries@[k]).path@) != path_key(path@),
            decreases self.entries@.len() - i,
        {
            if same_path(self.entries[i].path.as_str(), path) {
                proof {
                    lemma_entries_map(self.entries@);
                    lemma_entries_remove(self.entries@, i as int);
                }
                let found = self.entries.remove(i);
                return Some(found.content);
            }
            i += 1;
        }
        proof {
            lemma_entries_map(self.entries@);
            assert(entries_map(self.entries@).remove(path_key(path@)) =~= entries_map(
                self.entries@,
            ));
        }
        None
    }

    /// Remember the content an edit of `path` replaced, in place of what was
    /// remembered for that path before.
    pub fn remember(&mut self, path: &str, content: &str)
        requires
            old(self).well_formed(),
        ensures
            final(self).well_formed(),
            final(self)@ == after_edit(old(self)@, path@, content@),
    {
        let _replaced = self.take(path);
        let ghost rest = self.entries@;
        let ghost rest_map = self@;
        let entry = Snapshot { path: path.to_owned(), content: content.to_owned() };
        proof {
            lemma_entries_map(rest);
        }
        self.entries.push(entry);
        proof {
            assert(self.entries@.drop_last() =~= rest);
            assert forall|a: int, b: int| 0 <= a < b < self.entries@.len() implies path_key(
                (#[trigger] self.entries@[a]).path@,
            ) != path_key((#[trigger] self.entries@[b]).path@) by {
                assert(self.entries@[a] == rest[a]);
                if b < rest.len() {
                    assert(self.entries@[b] == rest[b]);
                } else {
                    assert(rest_map.contains_pair(path_key(rest[a].path@), rest[a].content@));
                }
            }
            assert(self@ =~= after_edit(old(self)@, path@, content@));
        }
    }

    /// Undo the last edit of `path`: the content to write back and the version
    /// it has.  Without a snapshot there is nothing to undo, and the caller
    /// reports `no_snapshot`.
    pub fn rollback(&mut self, path: &str) -> (out: Option<Restored>)
        requires
            old(self).well_formed(),
        ensures
            final(self).well_formed(),
            final(self)@ == after_rollback(old(self)@, path@),
            out is Some <==> restored(old(self)@, path@) is Some,
            out matches Some(r) ==> restored(old(self)@, path@) == Some(r.content@) && r.version@
                == version(r.content@) && is_fingerprint(r.version@),
    {
        match self.take(path) {
            Some(content) => {
                let v = version_of(content.as_str());
                Some(Restored { content, version: v })
            },
            None => None,
        }
    }
}

/// A content put back by a rollback, and its version.
pub struct Restored {
    pub content: String,
    pub version: String,
}

// ── laws of refusals, paths and versions ─────────────────────────────

/// The first edit of a batch that does not fit decides what the batch is refused
/// with: a range that is none, a range that goes past the file, or a text that
/// is not there, with what is there instead.
pub proof fn law_the_first_edit_that_does_not_fit_is_told(
    content: Seq<char>,
    current: Seq<char>,
    edits: Seq<EditRequest>,
    r: EditRefusal,
    k: int,
)
    requires
        edit_result(content, current, None, edits, Err(r)),
        0 <= k < edits.len(),
        forall|j: int|
            #![trigger edits[j]]
            0 <= j < k ==> 1 <= edits[j].start_line <= edits[j].end_line <= content_lines(
                content,
            ).len() && join(
                content_lines(content).subrange(
                    edits[j].start_line - 1,
                    edits[j].end_line as int,
                ),
                seq!['\n'],
            ) == edits[j].expect@,
    ensures
        edits[k].start_line == 0 || edits[k].end_line < edits[k].start_line ==> r
            == (EditRefusal::BadRange {
            edit_index: (k + 1) as usize,
            start_line: edits[k].start_line,
            end_line: edits[k].end_line,
        }),
        1 <= edits[k].start_line <= edits[k].end_line && edits[k].end_line > content_lines(
            content,
        ).len() ==> r == (EditRefusal::OutOfRange {
            edit_index: (k + 1) as usize,
            end_line: edits[k].end_line,
            file_lines: content_lines(content).len() as usize,
        }),
        1 <= edits[k].start_line <= edits[k].end_line <= content_lines(content).len() && join(
            content_lines(content).subrange(edits[k].start_line - 1, edits[k].end_line as int),
            seq!['\n'],
        ) != edits[k].expect@ ==> r is ExpectMismatch && r->ExpectMismatch_edit_index == k + 1
            && r->ExpectMismatch_start_line == edits[k].start_line && r->ExpectMismatch_end_line
            == edits[k].end_line && r->actual@ == join(
            content_lines(content).subrange(edits[k].start_line - 1, edits[k].end_line as int),
            seq!['\n'],
        ),
{
    let lines = content_lines(content);
    if !edit_fits(lines, edits[k]) {
        assert(batch_refusal(lines, edits, r));
        let i = choose|i: int|
            #![trigger edits[i]]
            0 <= i < edits.len() && !edit_fits(lines, edits[i]) && edit_refusal(
                lines,
                edits[i],
                i + 1,
                r,
            ) && forall|j: int| #![trigger edits[j]] 0 <= j < i ==> edit_fits(lines, edits[j]);
        if i < k {
            assert(edit_fits(lines, edits[i]));
        } else if k < i {
            assert(edit_fits(lines, edits[k]));
        }
    }
}

/// Of two edits that overlap the one that starts first is named first.
pub proof fn law_an_overlap_names_both_edits(
    content: Seq<char>,
    current: Seq<char>,
    edits: Seq<EditRequest>,
    first: usize,
    second: usize,
)
    requires
        edit_result(
            content,
            current,
            None,
            edits,
            Err(EditRefusal::OverlappingEdits { edit_index: first, other_edit_index: second }),
        ),
    ensures
        1 <= first <= edits.len(),
        1 <= second <= edits.len(),
        first != second,
        edits[first - 1].start_line <= edits[second - 1].start_line <= edits[first - 1].end_line,
        edits[first - 1].start_line == edits[second - 1].start_line ==> first < second,
{
    let lines = content_lines(content);
    let order = top_down(edits, edits.len() as int);
    lemma_order_is_stable(edits, edits.len() as int);
    law_top_down_is_a_sorted_permutation(edits, edits.len() as int);
    let r = EditRefusal::OverlappingEdits { edit_index: first, other_edit_index: second };
    if !batch_fits(lines, edits) {
        assert(batch_refusal(lines, edits, r));
    }
    let p = choose|p: int|
        #[trigger] first_overlap(edits, order, p) && first == order[p] + 1 && second == order[p + 1]
            + 1;
    assert(overlap_at(edits, order, p));
    assert(order[p] != order[p + 1]);
}

/// Edits that start on one line keep the order they came in.
proof fn lemma_order_is_stable(edits: Seq<EditRequest>, n: int)
    requires
        0 <= n <= edits.len(),
    ensures
        forall|a: int, b: int|
            0 <= a < b < n && edits[#[trigger] top_down(edits, n)[a]].start_line
                == edits[#[trigger] top_down(edits, n)[b]].start_line ==> top_down(edits, n)[a]
                < top_down(edits, n)[b],
    decreases n,
{
    if n > 0 {
        lemma_order_is_stable(edits, n - 1);
        law_top_down_is_a_sorted_permutation(edits, n - 1);
        lemma_place_is_stable(edits, top_down(edits, n - 1), n - 1);
    }
}

proof fn lemma_place_is_stable(edits: Seq<EditRequest>, order: Seq<int>, i: int)
    requires
        forall|k: int| 0 <= k < order.len() ==> 0 <= #[trigger] order[k] < i,
        forall|a: int, b: int|
            0 <= a < b < order.len() ==> edits[#[trigger] order[a]].start_line
                <= edits[#[trigger] order[b]].start_line,
        forall|a: int, b: int|
            0 <= a < b < order.len() && edits[#[trigger] order[a]].start_line
                == edits[#[trigger] order[b]].start_line ==> order[a] < order[b],
    ensures
        place(edits, order, i).len() == order.len() + 1,
        forall|a: int, b: int|
            0 <= a < b <= order.len() && edits[#[trigger] place(edits, order, i)[a]].start_line
                == edits[#[trigger] place(edits, order, i)[b]].start_line ==> place(
                edits,
                order,
                i,
            )[a] < place(edits, order, i)[b],
        forall|k: int|
            0 <= k <= order.len() ==> (#[trigger] place(edits, order, i)[k] == i || order.contains(
                place(edits, order, i)[k],
            )),
    decreases order.len(),
{
    if !(order.len() == 0 || edits[order.last()].start_line <= edits[i].start_line) {
        let front = order.drop_last();
        lemma_place_is_stable(edits, front, i);
        let inner = place(edits, front, i);
        let out = place(edits, order, i);
        assert(out == inner.push(order.last()));
        assert forall|k: int| 0 <= k <= order.len() implies (#[trigger] out[k] == i
            || order.contains(out[k])) by {
            if k < inner.len() {
                if inner[k] != i {
                    let q = choose|q: int| 0 <= q < front.len() && front[q] == inner[k];
                    assert(order[q] == inner[k]);
                }
            } else {
                assert(order[order.len() - 1] == out[k]);
            }
        }
        assert forall|a: int, b: int|
            0 <= a < b <= order.len() && edits[#[trigger] out[a]].start_line
                == edits[#[trigger] out[b]].start_line implies out[a] < out[b] by {
            if b == order.len() {
                if inner[a] != i {
                    let q = choose|q: int| 0 <= q < front.len() && front[q] == inner[a];
                    assert(order[q] == inner[a]);
                }
            } else {
                assert(out[a] == inner[a] && out[b] == inner[b]);
            }
        }
    } else {
        let out = place(edits, order, i);
        assert forall|k: int| 0 <= k <= order.len() implies (#[trigger] out[k] == i
            || order.contains(out[k])) by {
            if k < order.len() {
                assert(order[k] == out[k]);
            }
        }
    }
}

/// Each refusal is told by a word of its own.
pub proof fn law_each_refusal_has_its_word(r: EditRefusal)
    ensures
        r is StaleBase ==> r.reason_word() == "stale_base"@,
        r is BadRange ==> r.reason_word() == "bad_range"@,
        r is OutOfRange ==> r.reason_word() == "out_of_range"@,
        r is ExpectMismatch ==> r.reason_word() == "expect_mismatch"@,
        r is NoEdits ==> r.reason_word() == "no_edits"@,
        r is OverlappingEdits ==> r.reason_word() == "overlapping_edits"@,
{
}

/// A piece that is no component can be left out, but for the first.
proof fn lemma_no_component(pieces: Seq<Seq<char>>, i: int, n: int)
    requires
        0 < i < pieces.len(),
        !is_component(pieces, i),
        0 <= n <= pieces.len(),
    ensures
        components(pieces, n) == components(
            pieces.remove(i),
            if n <= i {
                n
            } else {
                n - 1
            },
        ),
    decreases n,
{
    if n > 0 {
        lemma_no_component(pieces, i, n - 1);
        let rest = pieces.remove(i);
        if n - 1 < i {
            assert(rest[n - 1] == pieces[n - 1]);
        } else if n - 1 > i {
            assert(rest[n - 2] == pieces[n - 1]);
        }
    }
}

/// A path names the same file with a dot or a separator more inside it, or one
/// at its end; one that starts at the root names another than one that does not.
pub proof fn law_a_path_may_be_written_in_other_ways(a: Seq<char>, b: Seq<char>)
    ensures
        path_key(a + seq!['/', '.', '/'] + b) == path_key(a + seq!['/'] + b),
        path_key(a + seq!['/', '/'] + b) == path_key(a + seq!['/'] + b),
        a.len() > 0 ==> path_key(a + seq!['/']) == path_key(a),
        a.len() == 0 || a[0] != '/' ==> path_key(seq!['/'] + a) != path_key(a),
{
    let none = Seq::<char>::empty();
    crate::text::lemma_split_parts(a, '/');
    crate::text::lemma_split_parts(b, '/');
    let plain = a + seq!['/'] + b;
    crate::text::law_a_split_goes_by_parts(a, '/', b);
    crate::text::law_a_split_goes_by_parts(a, '/', seq!['.'] + seq!['/'] + b);
    crate::text::law_a_split_goes_by_parts(seq!['.'], '/', b);
    crate::text::lemma_split_single(seq!['.'], '/');
    let dotted = a + seq!['/', '.', '/'] + b;
    assert(dotted =~= a + seq!['/'] + (seq!['.'] + seq!['/'] + b));
    let n = split(a, '/').len() as int;
    let pieces = split(dotted, '/');
    assert(pieces =~= split(a, '/') + (seq![seq!['.']] + split(b, '/')));
    assert(pieces[n] == seq!['.']);
    assert(pieces.remove(n) =~= split(plain, '/'));
    lemma_no_component(pieces, n, pieces.len() as int);
    assert(dotted[0] == plain[0]);
    crate::text::law_a_split_goes_by_parts(a, '/', none + seq!['/'] + b);
    crate::text::law_a_split_goes_by_parts(none, '/', b);
    crate::text::lemma_split_single(none, '/');
    let doubled = a + seq!['/', '/'] + b;
    assert(doubled =~= a + seq!['/'] + (none + seq!['/'] + b));
    let more = split(doubled, '/');
    assert(more =~= split(a, '/') + (seq![none] + split(b, '/')));
    assert(more[n] == none);
    assert(more.remove(n) =~= split(plain, '/'));
    lemma_no_component(more, n, more.len() as int);
    assert(doubled[0] == plain[0]);
    crate::text::law_a_split_goes_by_parts(a, '/', none);
    let ended = a + seq!['/'];
    assert(ended =~= a + seq!['/'] + none);
    let last = split(ended, '/');
    assert(last =~= split(a, '/') + seq![none]);
    assert(last[n] == none);
    assert(last.remove(n) =~= split(a, '/'));
    lemma_no_component(last, n, last.len() as int);
    if a.len() > 0 {
        assert(ended[0] == a[0]);
    }
    assert((seq!['/'] + a)[0] == '/');
}

/// A version is the first eight bytes of the digest, two digits each.
pub proof fn law_a_version_is_the_front_of_the_digest(digest: Seq<u8>, i: int)
    requires
        digest.len() >= 8,
        0 <= i < 8,
    ensures
        fingerprint(digest).len() == 16,
        fingerprint(digest)[2 * i] == "0123456789abcdef"@[digest[i] as int / 16],
        fingerprint(digest)[2 * i + 1] == "0123456789abcdef"@[digest[i] as int % 16],
{
    reveal_strlit("0123456789abcdef");
    let front = digest.take(8);
    crate::host::lemma_hex_pairs(front, i);
    assert(front[i] == digest[i]);
    let hi = digest[i] as int / 16;
    let lo = digest[i] as int % 16;
    assert(forall|d: int| 0 <= d < 16 ==> crate::text::hex_digit(d) == #[trigger] "0123456789abcdef"@[d]);
}

/// Every edit of a batch is applied: where the lines it names stood there stand
/// the lines of its replacement, moved only by what the edits above it added or
/// removed.
pub proof fn law_every_edit_puts_its_lines_in(
    lines: Seq<Seq<char>>,
    edits: Seq<EditRequest>,
    order: Seq<int>,
    k: int,
)
    requires
        laid_out(edits, order, lines.len() as int),
        0 <= k < order.len(),
    ensures
        ({
            let e = edits[order[k]];
            let at = e.start_line - 1 + moved_by(edits, order, e.start_line - 1);
            let put = if e.replace@.len() == 0 {
                Seq::<Seq<char>>::empty()
            } else {
                split(e.replace@, '\n')
            };
            &&& 0 <= at
            &&& at + put.len() <= spliced(lines, edits, order).len()
            &&& spliced(lines, edits, order).subrange(at, at + put.len()) == put
        }),
    decreases order.len(),
{
    let front = order.drop_last();
    let last = edits[order.last()];
    assert(order[order.len() - 1] == order.last());
    let s = last.start_line - 1;
    let head = lines.subrange(0, s);
    let tail = lines.subrange(last.end_line as int, lines.len() as int);
    let above = spliced(head, edits, front);
    lemma_laid_out_front(edits, order, lines.len() as int);
    let e = edits[order[k]];
    let put = if e.replace@.len() == 0 {
        Seq::<Seq<char>>::empty()
    } else {
        split(e.replace@, '\n')
    };
    let all = spliced(lines, edits, order);
    assert(all == above + replacement(last) + tail);
    if k == order.len() - 1 {
        lemma_moved_len(head, edits, front, s);
        let at = above.len() as int;
        assert(all.subrange(at, at + put.len()) =~= put);
    } else {
        assert(front[k] == order[k]);
        law_every_edit_puts_its_lines_in(head, edits, front, k);
        let i = e.start_line - 1;
        assert(i < s);
        let at = i + moved_by(edits, front, i);
        assert(moved_by(edits, order, i) == moved_by(edits, front, i));
        assert(all.subrange(at, at + put.len()) =~= above.subrange(at, at + put.len()));
    }
}

} // verus!
