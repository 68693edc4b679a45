//! Salvage of text that came back from a model: fences the model may forget to
//! close, `<think>` blocks, JSON with flaws.

use vstd::prelude::*;

use crate::text::{
    chars_of, find, find_from, is_space, join, join_strings, law_a_line_is_read_off,
    law_a_split_goes_by_parts, law_lines_go_by_parts, law_trim_drops_the_white_space_around,
    lemma_find_from, lemma_join_split, lemma_line_stands, lemma_part_stands, lemma_split_parts,
    lines_of, occurs_at, same, space, split, stands_at, text_lines, trim, trim_end, trim_start,
    trimmed, views,
};

use super::repair::{
    brackets, can_be_repaired, comes_back, ends_with_part, last_resort_is_safe,
    law_a_plain_text_is_repaired, repairable,
};

verus! {

broadcast use vstd::string::group_string_axioms;

/// What is left of a text when its `<think>` blocks are removed.  A block that
/// is never closed runs to the end of the text.
pub open spec fn without_think(text: Seq<char>) -> Seq<char>
    decreases text.len(),
{
    match find(text, "<think>"@) {
        None => text,
        Some(open) => {
            let inside = text.skip(open + 7);
            match find(inside, "</think>"@) {
                None => text.take(open),
                Some(close) => {
                    proof {
                        lemma_think_ends(text);
                    }
                    text.take(open) + without_think(inside.skip(close + 8))
                },
            }
        },
    }
}

/// A thought ends behind where it begins, and inside the text.
pub proof fn lemma_think_ends(text: Seq<char>)
    ensures
        find(text, "<think>"@) matches Some(open) ==> {
            &&& 0 <= open
            &&& open + 7 <= text.len()
            &&& find(text.skip(open + 7), "</think>"@) matches Some(close) ==> 0 <= close && open
                + 15 + close <= text.len()
        },
{
    reveal_strlit("<think>");
    reveal_strlit("</think>");
    lemma_find_from(text, "<think>"@, 0);
    if let Some(open) = find(text, "<think>"@) {
        lemma_find_from(text.skip(open + 7), "</think>"@, 0);
    }
}

/// Where the spaces and tabs that begin at `i` end.
pub open spec fn past_indent(s: Seq<char>, i: int) -> int
    decreases s.len() - i,
{
    if 0 <= i < s.len() && (s[i] == ' ' || s[i] == '\t') {
        past_indent(s, i + 1)
    } else {
        i
    }
}

/// The first newline from `i` on whose next line begins, behind its indent,
/// with a fence mark.
pub open spec fn before_fence(s: Seq<char>, i: int) -> Option<int>
    decreases s.len() - i,
{
    if i < 0 || i >= s.len() {
        None
    } else if s[i] == '\n' && occurs_at(s, "```"@, past_indent(s, i + 1)) {
        Some(i)
    } else {
        before_fence(s, i + 1)
    }
}

/// Where the first fence mark at the beginning of a line stands.
pub open spec fn first_fence(s: Seq<char>) -> Option<int> {
    if occurs_at(s, "```"@, 0) {
        Some(0)
    } else {
        match before_fence(s, 0) {
            Some(i) => Some(past_indent(s, i + 1)),
            None => None,
        }
    }
}

/// The content of the first fence of a text, whatever its tag, without the white
/// space around it: the lines up to the next fence mark, or to the end.  A text
/// without a fence, or with nothing behind its first, is given back as it is.
pub open spec fn inside_fence(text: Seq<char>) -> Seq<char> {
    let t = trim(text);
    match first_fence(t) {
        None => text,
        Some(open) => match find_from(t, seq!['\n'], open) {
            None => text,
            Some(line) => {
                let body = t.skip(line + 1);
                if occurs_at(body, "```"@, 0) {
                    trim(body.take(0))
                } else {
                    match before_fence(body, 0) {
                        Some(end) => trim(body.take(end)),
                        None => trim(body),
                    }
                }
            },
        },
    }
}

/// Whether a text is JSON.
pub uninterp spec fn is_json(text: Seq<char>) -> bool;

/// The JSON value found in a text, written out, or what is said when there is
/// none.
pub uninterp spec fn json_in(text: Seq<char>) -> Result<Seq<char>, Seq<char>>;

/// What is left of a text without its thoughts, inside its fence.
pub open spec fn rest(text: Seq<char>) -> Seq<char> {
    inside_fence(without_think(text))
}

/// Whether the JSON in a text can be looked for: the text is over the limit and
/// refused at once, or what is left of it is JSON, or it can be repaired.  The
/// text as it came is repaired last, and only where what is left of it has no
/// bracketed part.
pub open spec fn extractable(text: Seq<char>) -> bool {
    let body = rest(text);
    ||| vstd::utf8::encode_utf8(text).len() > 1048576
    ||| is_json(trim(body))
    ||| repairable(body) && (ends_with_part(body) || comes_back(text))
}

/// Whether what is left of a text can be repaired by itself: nothing more is left
/// out of it.
pub open spec fn rest_stands(text: Seq<char>) -> bool {
    rest(rest(text)) == rest(text) && repairable(rest(text))
}

/// `llm_extract::strip_think_blocks`: cuts out what stands from each `<think>`
/// to the next `</think>`, or to the end.
#[verifier::external_body]
fn think_stripped(text: &str) -> (out: String)
    ensures
        out@ == without_think(text@),
{
    llm_extract::strip_think_blocks(text).into_owned()
}

/// `llm_extract::strip_fences`: looks for the first line that begins with a
/// fence mark, and gives back what stands between that line and the next such
/// line, trimmed.
#[verifier::external_body]
fn fence_stripped(text: &str) -> (out: String)
    ensures
        out@ == inside_fence(text@),
{
    llm_extract::strip_fences(text).to_string()
}

/// `serde_json::from_str`: whether it reads a value is a function of the text
/// alone.
#[verifier::external_body]
fn reads_as_json(text: &str) -> (yes: bool)
    ensures
        yes == is_json(text@),
{
    serde_json::from_str::<serde_json::Value>(text).is_ok()
}

/// `llm_extract::extract_json`, its value written out as JSON and its error as
/// text: a function of the text alone.  A text of more than a mebibyte is
/// refused.  Where what is left without thoughts and fence is JSON, that is what
/// is found.  Otherwise that is handed to `jsonrepair`, then its first bracketed
/// part, whose repair decides, and where there is none the whole text.
/// `jsonrepair` does not come back from every text: those it does not come back
/// from are among those that are not `extractable`.
#[verifier::external_body]
fn json_extracted(text: &str) -> (out: Result<String, String>)
    requires
        extractable(text@),
    ensures
        match out {
            Ok(v) => json_in(text@) == Ok::<Seq<char>, Seq<char>>(v@),
            Err(e) => json_in(text@) == Err::<Seq<char>, Seq<char>>(e@),
        },
        vstd::utf8::encode_utf8(text@).len() > 1048576 ==> out is Err,
        vstd::utf8::encode_utf8(text@).len() <= 1048576 && is_json(trim(rest(text@))) ==> out is Ok,
{
    llm_extract::extract_json(text).map(|v| v.to_string()).map_err(|e| e.to_string())
}

/// The text without its `<think>` blocks.
pub fn strip_think_blocks(text: &str) -> (out: String)
    ensures
        out@ == without_think(text@),
{
    think_stripped(text)
}

/// The content of the first fence, or the text where there is none.
pub fn strip_fences(text: &str) -> (out: String)
    ensures
        out@ == inside_fence(text@),
        find(text@, "```"@) is None ==> out@ == text@,
{
    proof {
        if find(text@, "```"@) is None {
            law_no_fence_no_content(text@);
        }
    }
    fence_stripped(text)
}

/// The JSON value found in a text, written out.  A text that the repair may not
/// come back from is not handed to it: only what is left of it is, where that
/// can be.
pub fn extract_json(text: &str) -> (out: Result<String, String>)
    ensures
        extractable(text@) ==> match out {
            Ok(v) => json_in(text@) == Ok::<Seq<char>, Seq<char>>(v@),
            Err(e) => json_in(text@) == Err::<Seq<char>, Seq<char>>(e@),
        },
        !extractable(text@) ==> match out {
            Ok(v) => rest_stands(text@) && json_in(rest(text@)) == Ok::<Seq<char>, Seq<char>>(v@),
            Err(e) => (rest_stands(text@) ==> json_in(rest(text@)) is Err) && e@
                == "the text is not JSON and is not handed to the repair"@,
        },
        vstd::utf8::encode_utf8(text@).len() > 1048576 ==> out is Err,
        vstd::utf8::encode_utf8(text@).len() <= 1048576 && is_json(trim(rest(text@))) ==> out is Ok,
{
    let body = fence_stripped(think_stripped(text).as_str());
    let chars = chars_of(body.as_str());
    let bare = trimmed(chars.as_slice(), 0);
    assert(chars@.skip(0) =~= chars@);
    if text.as_bytes().len() > 1048576 || reads_as_json(bare.as_str()) {
        return json_extracted(text);
    }
    if can_be_repaired(body.as_str()) {
        if last_resort_is_safe(body.as_str(), text) {
            return json_extracted(text);
        }
        let again = fence_stripped(think_stripped(body.as_str()).as_str());
        if same(again.as_str(), body.as_str()) {
            if let Ok(found) = json_extracted(body.as_str()) {
                return Ok(found);
            }
        }
    }
    Err("the text is not JSON and is not handed to the repair".to_owned())
}

/// Whether a line opens or closes a fenced block.
pub open spec fn is_fence(line: Seq<char>) -> bool {
    occurs_at(trim_start(line), "```"@, 0)
}

/// The info string of a fence, without the white space around it.
pub open spec fn fence_tag(line: Seq<char>) -> Seq<char> {
    trim(trim_start(line).skip(3))
}

/// Where the block that begins at line `from` ends: at the next fence, or at
/// the end of the text for a block that was never closed.
pub open spec fn block_end(lines: Seq<Seq<char>>, from: int) -> int
    decreases lines.len() - from,
{
    if from >= lines.len() || is_fence(lines[from]) {
        from
    } else {
        block_end(lines, from + 1)
    }
}

/// A block ends no earlier than it begins, and no later than the text.
pub proof fn lemma_block_end(lines: Seq<Seq<char>>, from: int)
    requires
        0 <= from <= lines.len(),
    ensures
        from <= block_end(lines, from) <= lines.len(),
    decreases lines.len() - from,
{
    if from < lines.len() && !is_fence(lines[from]) {
        lemma_block_end(lines, from + 1);
    }
}

/// The content of the first block, from line `i` on, whose info string is
/// `lang`, letter for letter.  A fence inside a block opens none.
pub open spec fn tagged_block(lines: Seq<Seq<char>>, lang: Seq<char>, i: int) -> Option<Seq<char>>
    decreases lines.len() + 1 - i,
{
    if i < 0 || i >= lines.len() {
        None
    } else if !is_fence(lines[i]) {
        tagged_block(lines, lang, i + 1)
    } else {
        let end = block_end(lines, i + 1);
        if fence_tag(lines[i]) == lang {
            Some(join(lines.subrange(i + 1, end), seq!['\n']))
        } else {
            proof {
                lemma_block_end(lines, i + 1);
            }
            tagged_block(lines, lang, end + 1)
        }
    }
}

/// What stands behind the white space a line begins with.
fn line_start(chars: &[char]) -> (a: usize)
    ensures
        a <= chars@.len(),
        chars@.skip(a as int) == trim_start(chars@),
{
    let mut a: usize = 0;
    assert(chars@.skip(0) =~= chars@);
    while a < chars.len() && space(chars[a])
        invariant
            a <= chars@.len(),
            trim_start(chars@) == trim_start(chars@.skip(a as int)),
        decreases chars@.len() - a,
    {
        assert(chars@.skip(a as int).skip(1) =~= chars@.skip(a + 1));
        assert(chars@.skip(a as int)[0] == chars@[a as int]);
        a += 1;
    }
    let ghost rest = chars@.skip(a as int);
    assert(trim_start(rest) == rest) by {
        if rest.len() > 0 {
            assert(rest[0] == chars@[a as int]);
        }
    }
    a
}

/// The info string of a line, when it is a fence.
fn fence_of(line: &str) -> (out: Option<String>)
    ensures
        match out {
            Some(tag) => is_fence(line@) && tag@ == fence_tag(line@),
            None => !is_fence(line@),
        },
{
    let chars = chars_of(line);
    let a: usize = line_start(chars.as_slice());
    let n: usize = chars.len();
    let rest = vstd::slice::slice_subrange(chars.as_slice(), a, n);
    assert(rest@ =~= trim_start(line@));
    let mark = chars_of("```");
    proof {
        reveal_strlit("```");
    }
    if stands_at(rest, mark.as_slice(), 0) {
        Some(trimmed(rest, 3))
    } else {
        None
    }
}

/// Content of the first fenced block whose info string is `lang`.  An unclosed
/// block runs to the end of the text: a truncated response still carries the
/// code written so far.
pub fn fenced_block_tagged(text: &str, lang: &str) -> (out: Option<String>)
    ensures
        match out {
            Some(code) => tagged_block(text_lines(text@), lang@, 0) == Some(code@),
            None => tagged_block(text_lines(text@), lang@, 0) is None,
        },
{
    let chars = chars_of(text);
    let lines = lines_of(chars.as_slice());
    let ghost all = views(lines@);
    proof {
        reveal_strlit("\n");
        assert("\n"@ =~= seq!['\n']);
    }
    let mut i: usize = 0;
    while i < lines.len()
        invariant
            all == views(lines@),
            all == text_lines(text@),
            "\n"@ == seq!['\n'],
            0 <= i <= lines@.len(),
            tagged_block(all, lang@, 0) == tagged_block(all, lang@, i as int),
        decreases lines@.len() - i,
    {
        let n: usize = lines.len();
        assert(all[i as int] == lines@[i as int]@);
        match fence_of(lines[i].as_str()) {
            None => {
                i += 1;
            },
            Some(tag) => {
                let mut end: usize = i + 1;
                let mut closed = false;
                while end < n && !closed
                    invariant
                        n == lines@.len(),
                        all == views(lines@),
                        i < end <= n,
                        block_end(all, i + 1) == block_end(all, end as int),
                        closed ==> block_end(all, i + 1) == end,
                    decreases n - end, if closed { 0int } else { 1int },
                {
                    assert(all[end as int] == lines@[end as int]@);
                    match fence_of(lines[end].as_str()) {
                        Some(_) => {
                            closed = true;
                        },
                        None => {
                            end += 1;
                        },
                    }
                }
                assert(block_end(all, i + 1) == end);
                if same(tag.as_str(), lang) {
                    let body = vstd::slice::slice_subrange(lines.as_slice(), i + 1, end);
                    assert(views(body@) =~= all.subrange(i + 1, end as int));
                    return Some(join_strings(body, "\n"));
                }
                if end == n {
                    assert(tagged_block(all, lang@, end + 1) is None);
                    return None;
                }
                i = end + 1;
            },
        }
    }
    None
}

/// The code in a response whose think blocks are gone: the block tagged
/// `lang`, else what the first fence holds.
pub open spec fn code_in(body: Seq<char>, lang: Option<&str>, fenced: Seq<char>) -> Seq<char> {
    match lang {
        Some(l) => match tagged_block(text_lines(body), l@, 0) {
            Some(code) => code,
            None => fenced,
        },
        None => fenced,
    }
}

/// The code in a response whose think blocks are gone, given what its first
/// fence holds.
pub fn pick_code(body: &str, lang: Option<&str>, fenced: &str) -> (out: String)
    ensures
        out@ == code_in(body@, lang, fenced@),
{
    if let Some(l) = lang {
        if let Some(code) = fenced_block_tagged(body, l) {
            return code;
        }
    }
    fenced.to_owned()
}

/// What is left when leading white space is gone stands at the end.
proof fn lemma_trim_start_is_suffix(s: Seq<char>) -> (k: int)
    ensures
        0 <= k <= s.len(),
        trim_start(s) == s.skip(k),
    decreases s.len(),
{
    if s.len() > 0 && is_space(s[0]) {
        let k = lemma_trim_start_is_suffix(s.skip(1));
        assert(s.skip(1).skip(k) =~= s.skip(k + 1));
        k + 1
    } else {
        assert(s.skip(0) =~= s);
        0
    }
}

/// What is left when trailing white space is gone stands at the beginning.
proof fn lemma_trim_end_is_prefix(s: Seq<char>) -> (k: int)
    ensures
        0 <= k <= s.len(),
        trim_end(s) == s.take(k),
    decreases s.len(),
{
    if s.len() > 0 && is_space(s.last()) {
        let k = lemma_trim_end_is_prefix(s.drop_last());
        assert(s.drop_last().take(k) =~= s.take(k));
        k
    } else {
        assert(s.take(s.len() as int) =~= s);
        s.len() as int
    }
}

/// A fence mark at the beginning of a line stands in the text.
proof fn lemma_before_fence_stands(s: Seq<char>, i: int)
    requires
        0 <= i,
    ensures
        before_fence(s, i) matches Some(k) ==> occurs_at(s, "```"@, past_indent(s, k + 1)),
    decreases s.len() - i,
{
    if i < s.len() && !(s[i] == '\n' && occurs_at(s, "```"@, past_indent(s, i + 1))) {
        lemma_before_fence_stands(s, i + 1);
    }
}

/// A text that holds no fence mark is its own content.
pub proof fn law_no_fence_no_content(text: Seq<char>)
    requires
        find(text, "```"@) is None,
    ensures
        inside_fence(text) == text,
{
    let t = trim(text);
    let mark = "```"@;
    lemma_find_from(text, mark, 0);
    lemma_before_fence_stands(t, 0);
    if let Some(open) = first_fence(t) {
        assert(occurs_at(t, mark, open));
        let a = lemma_trim_start_is_suffix(text);
        let b = lemma_trim_end_is_prefix(trim_start(text));
        assert(text.subrange(a + open, a + open + mark.len()) =~= t.subrange(
            open,
            open + mark.len(),
        ));
        assert(occurs_at(text, mark, a + open));
    }
}

/// A text that holds no fence mark has no fenced block.
pub proof fn law_no_fence_no_block(text: Seq<char>, lang: Seq<char>, i: int)
    requires
        find(text, "```"@) is None,
        0 <= i,
    ensures
        tagged_block(text_lines(text), lang, i) is None,
    decreases text_lines(text).len() + 1 - i,
{
    let lines = text_lines(text);
    if i < lines.len() {
        let mark = "```"@;
        if is_fence(lines[i]) {
            let line = lines[i];
            let a = lemma_line_stands(text, i);
            let k = lemma_trim_start_is_suffix(line);
            let rest = trim_start(line);
            assert(rest.subrange(0, mark.len() as int) == mark);
            assert(text.subrange(a, a + line.len()) == line);
            assert(text.subrange(a + k, a + k + mark.len()) =~= rest.subrange(
                0,
                mark.len() as int,
            ));
            assert(occurs_at(text, mark, a + k));
            lemma_find_from(text, mark, 0);
        }
        law_no_fence_no_block(text, lang, i + 1);
    }
}

/// Pull the code out of a model response.
///
/// Think blocks are removed first, so a fence the model wrote while reasoning
/// cannot be mistaken for the answer.  Then the `lang`-tagged block if there is
/// one, then any fenced block, then the text as it is.
pub fn extract_code(text: &str, lang: Option<&str>) -> (out: String)
    ensures
        out@ == code_in(without_think(text@), lang, inside_fence(without_think(text@))),
        find(text@, "<think>"@) is None && find(text@, "```"@) is None ==> out@ == text@,
{
    let body = think_stripped(text);
    let fenced = fence_stripped(body.as_str());
    proof {
        if find(text@, "<think>"@) is None && find(text@, "```"@) is None {
            law_no_fence_no_content(text@);
            if let Some(l) = lang {
                law_no_fence_no_block(text@, l@, 0);
            }
        }
    }
    pick_code(body.as_str(), lang, fenced.as_str())
}

// ── laws of the fences ───────────────────────────────────────────────

/// A line is a fence when its first three visible characters are backticks, and
/// its tag is what it says behind them.
pub proof fn law_a_fence_is_three_backticks(indent: Seq<char>, line: Seq<char>, info: Seq<char>)
    requires
        forall|i: int| 0 <= i < indent.len() ==> #[trigger] indent[i] == ' ' || indent[i] == '\t',
        info.len() == 0 || '!' <= info[0] <= '~' && '!' <= info.last() <= '~',
    ensures
        line == indent + seq!['`', '`', '`'] + info ==> is_fence(line) && fence_tag(line) == info,
        line == indent + seq!['`', '`', '`', ' '] + info ==> is_fence(line) && fence_tag(line)
            == info,
        line == indent ==> !is_fence(line),
        line == indent + info && info.len() > 0 && !(info.len() >= 3 && info[0] == '`' && info[1]
            == '`' && info[2] == '`') ==> !is_fence(line),
{
    reveal_strlit("```");
    let none = Seq::<char>::empty();
    let mark = seq!['`', '`', '`'];
    assert("```"@ =~= mark);
    if line == indent + mark + info {
        let s = mark + info;
        assert(line =~= indent + s + none);
        law_trim_drops_the_white_space_around(indent, s, none);
        assert(s + none =~= s);
        assert(s.subrange(0, 3) =~= mark);
        assert(s.skip(3) =~= none + info + none);
        law_trim_drops_the_white_space_around(none, info, none);
    }
    if line == indent + seq!['`', '`', '`', ' '] + info {
        let s = mark + seq![' '] + info;
        if info.len() == 0 {
            assert(line =~= indent + mark + seq![' ']);
            law_trim_drops_the_white_space_around(indent, mark, seq![' ']);
            assert((mark + seq![' ']).subrange(0, 3) =~= mark);
            assert((mark + seq![' ']).skip(3) =~= seq![' '] + info + none);
        } else {
            assert(line =~= indent + s + none);
            law_trim_drops_the_white_space_around(indent, s, none);
            assert(s + none =~= s);
            assert(s.subrange(0, 3) =~= mark);
            assert(s.skip(3) =~= seq![' '] + info + none);
        }
        law_trim_drops_the_white_space_around(seq![' '], info, none);
    }
    if line == indent {
        assert(indent =~= indent + none);
        law_trim_drops_the_white_space_around(indent, none, none);
    }
    if line == indent + info {
        law_trim_drops_the_white_space_around(indent, info, none);
        if is_fence(line) {
            assert(info.subrange(0, 3)[0] == '`' && info.subrange(0, 3)[1] == '`' && info.subrange(
                0,
                3,
            )[2] == '`');
        }
    }
}

/// How many fences stand before line `n`.
pub open spec fn fences(lines: Seq<Seq<char>>, n: int) -> nat
    decreases n,
{
    if n <= 0 {
        0
    } else {
        fences(lines, n - 1) + if is_fence(lines[n - 1]) {
            1nat
        } else {
            0nat
        }
    }
}

/// Whether line `k` opens a block: every second fence does, the first among them.
pub open spec fn opens_block(lines: Seq<Seq<char>>, k: int) -> bool {
    is_fence(lines[k]) && fences(lines, k) % 2 == 0
}

proof fn lemma_fences_of_run(lines: Seq<Seq<char>>, a: int, b: int)
    requires
        0 <= a <= b <= lines.len(),
        forall|k: int| a <= k < b ==> !is_fence(#[trigger] lines[k]),
    ensures
        fences(lines, b) == fences(lines, a),
        b < lines.len() && is_fence(lines[b]) ==> block_end(lines, a) == b,
        b == lines.len() ==> block_end(lines, a) == b,
    decreases b - a,
{
    if a < b {
        assert(!is_fence(lines[a]));
        assert(!is_fence(lines[b - 1]));
        lemma_fences_of_run(lines, a + 1, b);
        assert(fences(lines, a + 1) == fences(lines, a));
    }
}

proof fn lemma_block_end_stops(lines: Seq<Seq<char>>, from: int)
    requires
        0 <= from <= lines.len(),
    ensures
        forall|k: int| from <= k < block_end(lines, from) ==> !is_fence(#[trigger] lines[k]),
        block_end(lines, from) < lines.len() ==> is_fence(lines[block_end(lines, from)]),
    decreases lines.len() - from,
{
    if from < lines.len() && !is_fence(lines[from]) {
        lemma_block_end_stops(lines, from + 1);
    }
}

/// Lines that open no block under a tag can be passed over.
proof fn lemma_pass_over(lines: Seq<Seq<char>>, lang: Seq<char>, s: int, i: int)
    requires
        0 <= s <= i <= lines.len(),
        fences(lines, s) % 2 == 0,
        i < lines.len() ==> fences(lines, i) % 2 == 0,
        forall|k: int|
            s <= k < i ==> (#[trigger] opens_block(lines, k) ==> fence_tag(lines[k]) != lang),
    ensures
        tagged_block(lines, lang, s) == tagged_block(lines, lang, i),
    decreases i - s,
{
    if s < i {
        if !is_fence(lines[s]) {
            assert(fences(lines, s + 1) == fences(lines, s));
            lemma_pass_over(lines, lang, s + 1, i);
        } else {
            assert(opens_block(lines, s));
            let end = block_end(lines, s + 1);
            lemma_block_end(lines, s + 1);
            lemma_block_end_stops(lines, s + 1);
            assert(fences(lines, s + 1) == fences(lines, s) + 1);
            lemma_fences_of_run(lines, s + 1, end);
            if end >= i {
                if i < lines.len() {
                    lemma_fences_of_run(lines, s + 1, i);
                    assert(false);
                }
                assert(end == lines.len());
                assert(tagged_block(lines, lang, end + 1) is None);
                assert(tagged_block(lines, lang, i) is None);
            } else {
                assert(fences(lines, end + 1) == fences(lines, end) + 1);
                lemma_pass_over(lines, lang, end + 1, i);
            }
        }
    }
}

/// What is found under a tag is every line between the first fence that opens a
/// block under it and the next fence, or the end of the text: none of them is a
/// fence, none is left out, and there is a newline between each two.
pub proof fn law_a_tagged_block_is_all_between_its_fences(
    lines: Seq<Seq<char>>,
    lang: Seq<char>,
    i: int,
    j: int,
)
    requires
        0 <= i < j <= lines.len(),
        opens_block(lines, i),
        fence_tag(lines[i]) == lang,
        forall|k: int|
            0 <= k < i ==> (#[trigger] opens_block(lines, k) ==> fence_tag(lines[k]) != lang),
        forall|k: int| i < k < j ==> !is_fence(#[trigger] lines[k]),
        j < lines.len() ==> is_fence(lines[j]),
    ensures
        tagged_block(lines, lang, 0) == Some(join(lines.subrange(i + 1, j), seq!['\n'])),
{
    lemma_pass_over(lines, lang, 0, i);
    lemma_fences_of_run(lines, i + 1, j);
}

/// Nothing is found under a tag that opens no block.
pub proof fn law_without_its_tag_there_is_no_block(lines: Seq<Seq<char>>, lang: Seq<char>)
    requires
        forall|k: int|
            0 <= k < lines.len() ==> (#[trigger] opens_block(lines, k) ==> fence_tag(lines[k])
                != lang),
    ensures
        tagged_block(lines, lang, 0) is None,
{
    lemma_pass_over(lines, lang, 0, lines.len() as int);
}

proof fn lemma_no_backtick_no_fence(s: Seq<char>, i: int)
    requires
        !s.contains('`'),
        0 <= i < split(s, '\n').len(),
    ensures
        !is_fence(split(s, '\n')[i]),
{
    reveal_strlit("```");
    let part = split(s, '\n')[i];
    let at = lemma_part_stands(s, '\n', i);
    if is_fence(part) {
        let k = lemma_trim_start_is_suffix(part);
        assert(part.skip(k).subrange(0, 3)[0] == '`');
        assert(part[k] == '`');
        assert(s.subrange(at, at + part.len())[k] == '`');
        assert(s[at + k] == '`');
    }
}

/// The lines of fenced code: the fence that opens it, its own, and the fence that
/// closes it with all that follows.
proof fn lemma_fenced_lines(lang: Seq<char>, code: Seq<char>, behind: Seq<char>) -> (closing: Seq<
    Seq<char>,
>)
    requires
        forall|i: int| 0 <= i < lang.len() ==> '!' <= #[trigger] lang[i] <= '~',
        !code.contains('\r'),
        behind.len() == 0 || behind[0] == '\n',
    ensures
        closing.len() >= 1,
        closing[0] == seq!['`', '`', '`'],
        text_lines(
            seq!['`', '`', '`'] + lang + seq!['\n'] + (code + seq!['\n'] + (seq!['`', '`', '`']
                + behind)),
        ) == seq![seq!['`', '`', '`'] + lang] + split(code, '\n') + closing,
{
    let mark = seq!['`', '`', '`'];
    let open = mark + lang;
    let tail = mark + behind;
    let none = Seq::<char>::empty();
    let closing = text_lines(tail);
    assert(!mark.contains('\n'));
    if behind.len() == 0 {
        law_a_line_is_read_off(mark, none);
        assert(tail =~= mark);
    } else {
        law_a_line_is_read_off(mark, behind.skip(1));
        assert(tail =~= mark + seq!['\n'] + behind.skip(1));
    }
    law_lines_go_by_parts(code, tail);
    let rest = code + seq!['\n'] + tail;
    assert forall|k: int| 0 <= k < open.len() implies open[k] != '\n' && open[k] != '\r' by {
        if k >= 3 {
            assert(open[k] == lang[k - 3]);
        }
    }
    law_a_line_is_read_off(open, rest);
    assert(text_lines(open + seq!['\n'] + rest) =~= seq![open] + split(code, '\n') + closing);
    closing
}

/// Fenced code is found behind lines that are no fences.
proof fn lemma_found_behind(
    head: Seq<Seq<char>>,
    lang: Seq<char>,
    code: Seq<char>,
    closing: Seq<Seq<char>>,
)
    requires
        forall|k: int| 0 <= k < head.len() ==> !is_fence(#[trigger] head[k]),
        lang.len() == 0 || '!' <= lang[0] <= '~' && '!' <= lang.last() <= '~',
        !code.contains('`'),
        closing.len() >= 1,
        closing[0] == seq!['`', '`', '`'],
    ensures
        tagged_block(
            head + (seq![seq!['`', '`', '`'] + lang] + split(code, '\n') + closing),
            lang,
            0,
        ) == Some(code),
{
    let mark = seq!['`', '`', '`'];
    let open = mark + lang;
    let none = Seq::<char>::empty();
    let inner = split(code, '\n');
    let block = seq![open] + inner + closing;
    let lines = head + block;
    lemma_split_parts(code, '\n');
    lemma_join_split(code, '\n');
    let i = head.len() as int;
    let j = i + 1 + inner.len();
    assert forall|k: int| 0 <= k < i implies !is_fence(#[trigger] lines[k]) by {
        assert(lines[k] == head[k]);
    }
    assert forall|k: int| i < k < j implies !is_fence(#[trigger] lines[k]) by {
        lemma_no_backtick_no_fence(code, k - i - 1);
        assert(lines[k] == inner[k - i - 1]);
    }
    assert(lines[i] == block[0]);
    assert(lines[j] == block[j - i]);
    assert(block[j - i] == closing[0]);
    assert(open =~= none + mark + lang);
    assert(mark =~= none + mark + none);
    law_a_fence_is_three_backticks(none, open, lang);
    law_a_fence_is_three_backticks(none, mark, none);
    lemma_fences_of_run(lines, 0, i);
    assert(fences(lines, 0) == 0);
    assert(opens_block(lines, i));
    law_a_tagged_block_is_all_between_its_fences(lines, lang, i, j);
    assert(lines.subrange(i + 1, j) =~= inner);
}

/// Code that is written between two fences is read back from them, line for line
/// and letter for letter, whatever text without fences comes before and whatever
/// comes behind.
pub proof fn law_fenced_code_comes_back(
    before: Seq<char>,
    lang: Seq<char>,
    code: Seq<char>,
    behind: Seq<char>,
)
    requires
        !before.contains('`') && !before.contains('\r'),
        before.len() == 0 || before.last() == '\n',
        forall|i: int| 0 <= i < lang.len() ==> '!' <= #[trigger] lang[i] <= '~',
        !code.contains('`') && !code.contains('\r'),
        behind.len() == 0 || behind[0] == '\n',
    ensures
        tagged_block(
            text_lines(
                before + (seq!['`', '`', '`'] + lang + seq!['\n'] + (code + seq!['\n'] + (seq![
                    '`',
                    '`',
                    '`',
                ] + behind))),
            ),
            lang,
            0,
        ) == Some(code),
{
    let closing = lemma_fenced_lines(lang, code, behind);
    let block = seq!['`', '`', '`'] + lang + seq!['\n'] + (code + seq!['\n'] + (seq![
        '`',
        '`',
        '`',
    ] + behind));
    let none = Seq::<Seq<char>>::empty();
    if before.len() == 0 {
        assert(before + block =~= block);
        assert(none + text_lines(block) =~= text_lines(block));
        lemma_found_behind(none, lang, code, closing);
    } else {
        let p = before.drop_last();
        assert forall|k: int| 0 <= k < p.len() implies p[k] != '\r' && p[k] != '`' by {
            assert(before.contains(before[k]));
        }
        assert(before + block =~= p + seq!['\n'] + block);
        law_lines_go_by_parts(p, block);
        let head = split(p, '\n');
        assert forall|k: int| 0 <= k < head.len() implies !is_fence(#[trigger] head[k]) by {
            lemma_no_backtick_no_fence(p, k);
        }
        lemma_found_behind(head, lang, code, closing);
    }
}

/// The code under the tag that was asked for comes before what the first fence
/// holds, which stands in where there is no such code or no tag was asked for.
pub proof fn law_the_tag_comes_before_the_first_fence(body: Seq<char>, lang: &str, fenced: Seq<char>)
    ensures
        code_in(body, None, fenced) == fenced,
        tagged_block(text_lines(body), lang@, 0) is None ==> code_in(body, Some(lang), fenced)
            == fenced,
        tagged_block(text_lines(body), lang@, 0) is Some ==> code_in(body, Some(lang), fenced)
            == tagged_block(text_lines(body), lang@, 0)->0,
{
}

/// A pattern is found where it stands when its first character stands nowhere
/// before.
proof fn lemma_found_at(s: Seq<char>, pat: Seq<char>, from: int, at: int)
    requires
        0 <= from <= at,
        pat.len() > 0,
        occurs_at(s, pat, at),
        forall|k: int| from <= k < at ==> #[trigger] s[k] != pat[0],
    ensures
        find_from(s, pat, from) == Some(at),
{
    lemma_find_from(s, pat, from);
    let got = find_from(s, pat, from)->0;
    if got < at {
        assert(s.subrange(got, got + pat.len())[0] == s[got]);
    }
}

proof fn lemma_not_found(s: Seq<char>, pat: Seq<char>)
    requires
        pat.len() > 0,
        !s.contains(pat[0]),
    ensures
        find(s, pat) is None,
{
    lemma_find_from(s, pat, 0);
    if let Some(got) = find(s, pat) {
        assert(s.subrange(got, got + pat.len())[0] == s[got]);
    }
}

/// A thought is left out and all around it stays: what comes before as it is,
/// what comes behind without the thoughts in it.  One that is not closed takes
/// all that follows with it.
pub proof fn law_a_thought_is_left_out(before: Seq<char>, thought: Seq<char>, behind: Seq<char>)
    requires
        !before.contains('<'),
        !thought.contains('<'),
    ensures
        without_think(before + "<think>"@ + thought + "</think>"@ + behind) == before
            + without_think(behind),
        without_think(before + "<think>"@ + thought) == before,
        without_think(before) == before,
{
    reveal_strlit("<think>");
    reveal_strlit("</think>");
    let open = "<think>"@;
    let close = "</think>"@;
    let n = before.len() as int;
    lemma_not_found(before, open);
    let text = before + open + thought + close + behind;
    assert(text.subrange(n, n + 7) =~= open);
    assert forall|k: int| 0 <= k < n implies #[trigger] text[k] != open[0] by {
        assert(before.contains(before[k]));
    }
    lemma_found_at(text, open, 0, n);
    let inside = text.skip(n + 7);
    assert(inside =~= thought + close + behind);
    let m = thought.len() as int;
    assert(inside.subrange(m, m + 8) =~= close);
    assert forall|k: int| 0 <= k < m implies #[trigger] inside[k] != close[0] by {
        assert(thought.contains(thought[k]));
    }
    lemma_found_at(inside, close, 0, m);
    assert(text.take(n) =~= before);
    assert(inside.skip(m + 8) =~= behind);
    let cut = before + open + thought;
    assert(cut.subrange(n, n + 7) =~= open);
    assert forall|k: int| 0 <= k < n implies #[trigger] cut[k] != open[0] by {
        assert(before.contains(before[k]));
    }
    lemma_found_at(cut, open, 0, n);
    assert(cut.skip(n + 7) =~= thought);
    lemma_not_found(thought, close);
    assert(cut.take(n) =~= before);
}

proof fn lemma_before_fence_found(s: Seq<char>, i: int, at: int)
    requires
        0 <= i <= at < s.len(),
        forall|k: int| 0 <= k < at ==> #[trigger] s[k] != '`',
        s[at] == '\n',
        occurs_at(s, seq!['`', '`', '`'], at + 1),
    ensures
        before_fence(s, i) == Some(at),
    decreases at - i,
{
    reveal_strlit("```");
    assert("```"@ =~= seq!['`', '`', '`']);
    if i < at {
        lemma_past_indent_short(s, i + 1, at);
        assert(!(s[i] == '\n' && occurs_at(s, "```"@, past_indent(s, i + 1)))) by {
            let q = past_indent(s, i + 1);
            if occurs_at(s, "```"@, q) {
                assert(s.subrange(q, q + 3)[0] == s[q]);
            }
        }
        lemma_before_fence_found(s, i + 1, at);
    } else {
        assert(s.subrange(at + 1, at + 4)[0] == s[at + 1]);
        assert(past_indent(s, at + 1) == at + 1);
    }
}

proof fn lemma_past_indent_short(s: Seq<char>, i: int, at: int)
    requires
        0 <= i <= at < s.len(),
        s[at] == '\n',
    ensures
        i <= past_indent(s, i) <= at,
    decreases at - i,
{
    if i < at && (s[i] == ' ' || s[i] == '\t') {
        lemma_past_indent_short(s, i + 1, at);
    }
}

/// What a response holds that is one fenced block, whatever its tag, is the
/// content of the block without the white space around it.
pub proof fn law_one_fenced_block_is_its_content(tag: Seq<char>, content: Seq<char>)
    requires
        !tag.contains('\n'),
        !content.contains('`'),
    ensures
        inside_fence(
            seq!['`', '`', '`'] + tag + seq!['\n'] + content + seq!['\n', '`', '`', '`'],
        ) == trim(content),
{
    reveal_strlit("```");
    let mark = seq!['`', '`', '`'];
    assert("```"@ =~= mark);
    let none = Seq::<char>::empty();
    let text = mark + tag + seq!['\n'] + content + seq!['\n', '`', '`', '`'];
    assert(text =~= none + text + none);
    law_trim_drops_the_white_space_around(none, text, none);
    assert(text.subrange(0, 3) =~= mark);
    let line = 3 + tag.len() as int;
    assert(text.subrange(line, line + 1) =~= seq!['\n']);
    assert forall|k: int| 0 <= k < line implies #[trigger] text[k] != seq!['\n'][0] by {
        if k >= 3 {
            assert(tag.contains(tag[k - 3]));
        }
    }
    lemma_found_at(text, seq!['\n'], 0, line);
    let body = text.skip(line + 1);
    assert(body =~= content + seq!['\n', '`', '`', '`']);
    let at = content.len() as int;
    assert(body.subrange(at + 1, at + 4) =~= mark);
    assert forall|k: int| 0 <= k < at implies #[trigger] body[k] != '`' by {
        assert(content.contains(content[k]));
    }
    lemma_before_fence_found(body, 0, at);
    assert(!occurs_at(body, mark, 0)) by {
        assert(body[0] != '`');
        if occurs_at(body, mark, 0) {
            assert(body.subrange(0, 3)[0] == body[0]);
        }
    }
    assert(body.take(at) =~= content);
}

/// Objects in objects, or arrays in arrays, of words, numbers and strings are
/// looked through as they are, whatever is wrong with them as JSON.
pub proof fn law_a_plain_text_is_looked_through(text: Seq<char>, square: bool)
    requires
        forall|i: int|
            0 <= i < text.len() ==> {
                let c = #[trigger] text[i];
                &&& c != '\\' && c != '?' && c != '!' && c != '<' && c != '>' && c != '/' && c != '.'
                    && c != '`'
                &&& if square {
                    c != '{' && c != '}'
                } else {
                    c != '[' && c != ']'
                }
            },
        brackets(text) <= 256,
    ensures
        rest(text) == text,
        extractable(text),
{
    reveal_strlit("<think>");
    reveal_strlit("```");
    lemma_not_found(text, "<think>"@);
    lemma_not_found(text, "```"@);
    law_no_fence_no_content(text);
    law_a_plain_text_is_repaired(text, square);
}

} // verus!
