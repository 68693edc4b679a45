//! Text as sequences of characters: the shared vocabulary of the contracts,
//! and the small executable functions the other modules build on.

use vstd::prelude::*;

verus! {

broadcast use vstd::string::group_string_axioms;

/// `String::push` appends one character at the end of the string.
pub assume_specification[ String::push ](s: &mut String, c: char)
    ensures
        final(s)@ == old(s)@.push(c),
;

/// What each string of a list reads as.
pub open spec fn views(list: Seq<String>) -> Seq<Seq<char>> {
    list.map_values(|s: String| s@)
}

/// The characters of a string, in order.
pub fn chars_of(s: &str) -> (out: Vec<char>)
    ensures
        out@ == s@,
{
    let mut out: Vec<char> = Vec::new();
    for c in it: s.chars()
        invariant
            out@ == it.seq().take(it.index()),
            it.seq() == s@,
    {
        out.push(c);
    }
    out
}

/// The string made of `chars[from..to]`.
pub fn string_of(chars: &[char], from: usize, to: usize) -> (out: String)
    requires
        from <= to <= chars@.len(),
    ensures
        out@ == chars@.subrange(from as int, to as int),
{
    let mut out = String::new();
    let mut i: usize = from;
    while i < to
        invariant
            from <= i <= to <= chars@.len(),
            out@ == chars@.subrange(from as int, i as int),
        decreases to - i,
    {
        out.push(chars[i]);
        i += 1;
    }
    out
}

/// `s` cut at every `c`: always at least one part, and none holds a `c`.
pub open spec fn split(s: Seq<char>, c: char) -> Seq<Seq<char>>
    decreases s.len(),
{
    if s.len() == 0 {
        seq![Seq::<char>::empty()]
    } else {
        let front = split(s.drop_last(), c);
        if s.last() == c {
            front.push(Seq::<char>::empty())
        } else {
            front.drop_last().push(front.last().push(s.last()))
        }
    }
}

/// The parts in order with `sep` between each two.
pub open spec fn join(parts: Seq<Seq<char>>, sep: Seq<char>) -> Seq<char>
    decreases parts.len(),
{
    if parts.len() == 0 {
        Seq::<char>::empty()
    } else if parts.len() == 1 {
        parts[0]
    } else {
        join(parts.drop_last(), sep) + sep + parts.last()
    }
}

/// A split has at least one part, and none of its parts holds the separator.
pub proof fn lemma_split_parts(s: Seq<char>, c: char)
    ensures
        split(s, c).len() >= 1,
        forall|i: int| 0 <= i < split(s, c).len() ==> !(#[trigger] split(s, c)[i]).contains(c),
    decreases s.len(),
{
    if s.len() > 0 {
        let front = split(s.drop_last(), c);
        lemma_split_parts(s.drop_last(), c);
        assert forall|i: int| 0 <= i < split(s, c).len() implies !(#[trigger] split(
            s,
            c,
        )[i]).contains(c) by {
            if i < front.len() - 1 {
                assert(split(s, c)[i] == front[i]);
            } else if s.last() == c {
                if i == front.len() - 1 {
                    assert(split(s, c)[i] == front[i]);
                }
            } else {
                let part = split(s, c)[i];
                assert(part == front.last().push(s.last()));
                if part.contains(c) {
                    let k = choose|k: int| 0 <= k < part.len() && part[k] == c;
                    if k < front.last().len() {
                        assert(front[front.len() - 1].contains(c)) by {
                            assert(front.last()[k] == c);
                        }
                    }
                }
            }
        }
    }
}

/// Every part of a split stands somewhere in the text, the last one at its
/// end.
pub proof fn lemma_part_stands(s: Seq<char>, c: char, i: int) -> (a: int)
    requires
        0 <= i < split(s, c).len(),
    ensures
        occurs_at(s, split(s, c)[i], a),
        i == split(s, c).len() - 1 ==> a + split(s, c)[i].len() == s.len(),
    decreases s.len(),
{
    if s.len() == 0 {
        assert(s.subrange(0, 0) =~= split(s, c)[i]);
        0
    } else {
        let init = s.drop_last();
        let front = split(init, c);
        lemma_split_parts(init, c);
        if s.last() == c && i == front.len() {
            assert(s.subrange(s.len() as int, s.len() as int) =~= split(s, c)[i]);
            s.len() as int
        } else {
            let a = lemma_part_stands(init, c, i);
            let part = front[i];
            assert(init.subrange(a, a + part.len()) == part);
            if s.last() == c || i < front.len() - 1 {
                assert(split(s, c)[i] == part);
                assert(s.subrange(a, a + part.len()) =~= part);
            } else {
                assert(split(s, c)[i] == part.push(s.last()));
                assert(s.subrange(a, a + part.len() + 1) =~= part.push(s.last()));
            }
            a
        }
    }
}

/// Joining what a split produced, with the character it was split at, gives
/// the text back.
pub proof fn lemma_join_split(s: Seq<char>, c: char)
    ensures
        join(split(s, c), seq![c]) == s,
    decreases s.len(),
{
    if s.len() > 0 {
        let front = split(s.drop_last(), c);
        lemma_join_split(s.drop_last(), c);
        lemma_split_parts(s.drop_last(), c);
        if s.last() == c {
            assert(split(s, c).drop_last() =~= front);
            assert(join(split(s, c), seq![c]) =~= s);
        } else {
            let whole = split(s, c);
            assert(whole.drop_last() =~= front.drop_last());
            assert(whole.last() =~= front.last().push(s.last()));
            if front.len() == 1 {
                assert(join(front, seq![c]) == front[0]);
                assert(join(whole, seq![c]) =~= s);
            } else {
                assert(join(front, seq![c]) == join(front.drop_last(), seq![c]) + seq![c]
                    + front.last());
                assert(whole.len() == front.len());
                assert(join(whole, seq![c]) == join(whole.drop_last(), seq![c]) + seq![c]
                    + whole.last());
                assert(join(whole, seq![c]) =~= s.drop_last().push(s.last()));
                assert(s.drop_last().push(s.last()) =~= s);
            }
        }
    }
}

/// A text without the separator is one part.
pub proof fn lemma_split_single(s: Seq<char>, c: char)
    requires
        !s.contains(c),
    ensures
        split(s, c) == seq![s],
    decreases s.len(),
{
    if s.len() > 0 {
        assert(s.contains(s.last())) by {
            assert(s[s.len() - 1] == s.last());
        }
        assert forall|k: int| 0 <= k < s.drop_last().len() implies s.drop_last()[k] != c by {
            assert(s[k] == s.drop_last()[k]);
            assert(s.contains(s[k]));
        }
        lemma_split_single(s.drop_last(), c);
        assert(split(s, c) =~= seq![s]) by {
            assert(s.drop_last().push(s.last()) =~= s);
        }
    } else {
        assert(s =~= Seq::<char>::empty());
    }
}

/// Splitting `a`, a separator and a text without one is splitting `a` and
/// appending that text as the last part.
pub proof fn lemma_split_append(a: Seq<char>, c: char, b: Seq<char>)
    requires
        !b.contains(c),
    ensures
        split(a + seq![c] + b, c) == split(a, c).push(b),
    decreases b.len(),
{
    let s = a + seq![c] + b;
    if b.len() == 0 {
        assert(s.drop_last() =~= a);
        assert(s.last() == c);
        assert(b =~= Seq::<char>::empty());
    } else {
        assert(b.contains(b.last())) by {
            assert(b[b.len() - 1] == b.last());
        }
        assert forall|k: int| 0 <= k < b.drop_last().len() implies b.drop_last()[k] != c by {
            assert(b[k] == b.drop_last()[k]);
            assert(b.contains(b[k]));
        }
        lemma_split_append(a, c, b.drop_last());
        assert(s.drop_last() =~= a + seq![c] + b.drop_last());
        assert(b.drop_last().push(b.last()) =~= b);
        assert(split(s, c) =~= split(a, c).push(b));
    }
}

/// Splitting what was joined gives the parts back, when there is at least one
/// part and none holds the separator.
pub proof fn lemma_split_join(parts: Seq<Seq<char>>, c: char)
    requires
        parts.len() >= 1,
        forall|i: int| 0 <= i < parts.len() ==> !(#[trigger] parts[i]).contains(c),
    ensures
        split(join(parts, seq![c]), c) == parts,
    decreases parts.len(),
{
    if parts.len() == 1 {
        lemma_split_single(parts[0], c);
        assert(parts =~= seq![parts[0]]);
    } else {
        assert forall|i: int| 0 <= i < parts.drop_last().len() implies !(
        #[trigger] parts.drop_last()[i]).contains(c) by {
            assert(parts[i] == parts.drop_last()[i]);
        }
        lemma_split_join(parts.drop_last(), c);
        assert(parts.last() == parts[parts.len() - 1]);
        lemma_split_append(join(parts.drop_last(), seq![c]), c, parts.last());
        assert(parts.drop_last().push(parts.last()) =~= parts);
    }
}

/// What stands before the first `c` is the first part, and there is another.
pub proof fn lemma_first_part(a: Seq<char>, c: char, b: Seq<char>)
    requires
        !a.contains(c),
    ensures
        split(a + seq![c] + b, c).len() >= 2,
        split(a + seq![c] + b, c)[0] == a,
    decreases b.len(),
{
    let whole = a + seq![c] + b;
    if b.len() == 0 {
        assert(whole.drop_last() =~= a);
        assert(whole.last() == c);
        lemma_split_single(a, c);
    } else {
        assert(whole.drop_last() =~= a + seq![c] + b.drop_last());
        lemma_first_part(a, c, b.drop_last());
    }
}

/// The parts of `chars` between the occurrences of `c`.
pub fn split_chars(chars: &[char], c: char) -> (out: Vec<String>)
    ensures
        views(out@) == split(chars@, c),
{
    let mut out: Vec<String> = Vec::new();
    let mut part = String::new();
    let mut i: usize = 0;
    assert(chars@.take(0) =~= Seq::<char>::empty());
    assert(views(out@).push(part@) =~= seq![Seq::<char>::empty()]);
    while i < chars.len()
        invariant
            0 <= i <= chars@.len(),
            views(out@).push(part@) == split(chars@.take(i as int), c),
        decreases chars@.len() - i,
    {
        let ghost before = chars@.take(i as int);
        let ghost after = chars@.take(i + 1);
        let ghost done = views(out@);
        let ghost open = part@;
        assert(after.drop_last() =~= before);
        assert(after.last() == chars@[i as int]);
        let ch = chars[i];
        if ch == c {
            out.push(part);
            part = String::new();
            assert(views(out@) =~= done.push(open));
        } else {
            part.push(ch);
            assert(done.push(open).drop_last() =~= done);
        }
        i += 1;
    }
    let ghost done = views(out@);
    let ghost open = part@;
    out.push(part);
    assert(views(out@) =~= done.push(open));
    assert(chars@.take(chars@.len() as int) =~= chars@);
    out
}

/// `parts` in order with `sep` between each two.
pub fn join_strings(parts: &[String], sep: &str) -> (out: String)
    ensures
        out@ == join(views(parts@), sep@),
{
    let mut out = String::new();
    let mut i: usize = 0;
    let ghost all = views(parts@);
    while i < parts.len()
        invariant
            0 <= i <= parts@.len(),
            all == views(parts@),
            out@ == join(all.take(i as int), sep@),
        decreases parts@.len() - i,
    {
        let ghost after = all.take(i + 1);
        assert(after.drop_last() =~= all.take(i as int));
        assert(after.last() == parts@[i as int]@);
        if i > 0 {
            out.append(sep);
        }
        out.append(parts[i].as_str());
        assert(out@ =~= join(after, sep@));
        i += 1;
    }
    assert(all.take(all.len() as int) =~= all);
    out
}

/// Whether two texts are the same.
pub fn same(a: &str, b: &str) -> (yes: bool)
    ensures
        yes == (a@ == b@),
{
    let x = chars_of(a);
    let y = chars_of(b);
    if x.len() != y.len() {
        return false;
    }
    let mut i: usize = 0;
    while i < x.len()
        invariant
            0 <= i <= x@.len(),
            x@.len() == y@.len(),
            x@ == a@,
            y@ == b@,
            forall|k: int| 0 <= k < i ==> x@[k] == y@[k],
        decreases x@.len() - i,
    {
        if x[i] != y[i] {
            assert(a@[i as int] != b@[i as int]);
            return false;
        }
        i += 1;
    }
    assert(a@ =~= b@);
    true
}

/// The character of one hexadecimal digit, lower case.
pub open spec fn hex_digit(d: int) -> char {
    if d < 10 {
        (48 + d) as char
    } else {
        (87 + d) as char
    }
}

/// Two lower-case hexadecimal digits for each byte.
pub open spec fn hex(bytes: Seq<u8>) -> Seq<char>
    decreases bytes.len(),
{
    if bytes.len() == 0 {
        Seq::<char>::empty()
    } else {
        hex(bytes.drop_last()).push(hex_digit(bytes.last() as int / 16)).push(
            hex_digit(bytes.last() as int % 16),
        )
    }
}

/// The character of one hexadecimal digit.
pub fn hex_char(d: u8) -> (c: char)
    requires
        d < 16,
    ensures
        c == hex_digit(d as int),
{
    if d < 10 {
        (48 + d) as char
    } else {
        (87 + d) as char
    }
}

/// The bytes in hexadecimal.
pub fn hex_string(bytes: &[u8]) -> (out: String)
    ensures
        out@ == hex(bytes@),
{
    let mut out = String::new();
    let mut i: usize = 0;
    while i < bytes.len()
        invariant
            0 <= i <= bytes@.len(),
            out@ == hex(bytes@.take(i as int)),
        decreases bytes@.len() - i,
    {
        assert(bytes@.take(i + 1).drop_last() =~= bytes@.take(i as int));
        assert(bytes@.take(i + 1).last() == bytes@[i as int]);
        let b: u8 = bytes[i];
        out.push(hex_char(b / 16));
        out.push(hex_char(b % 16));
        i += 1;
    }
    assert(bytes@.take(bytes@.len() as int) =~= bytes@);
    out
}

/// Each byte adds two characters.
pub proof fn lemma_hex_len(bytes: Seq<u8>)
    ensures
        hex(bytes).len() == 2 * bytes.len(),
    decreases bytes.len(),
{
    if bytes.len() > 0 {
        lemma_hex_len(bytes.drop_last());
    }
}

/// Whether a character is a lower-case hexadecimal digit.
pub open spec fn is_lower_hex(c: char) -> bool {
    '0' <= c <= '9' || 'a' <= c <= 'f'
}

/// Every character of bytes in hexadecimal is a digit.
pub proof fn lemma_hex_digits(bytes: Seq<u8>)
    ensures
        forall|i: int| 0 <= i < hex(bytes).len() ==> is_lower_hex(#[trigger] hex(bytes)[i]),
    decreases bytes.len(),
{
    if bytes.len() > 0 {
        let front = hex(bytes.drop_last());
        lemma_hex_digits(bytes.drop_last());
        assert forall|i: int| 0 <= i < hex(bytes).len() implies is_lower_hex(
            #[trigger] hex(bytes)[i],
        ) by {
            if i < front.len() {
                assert(hex(bytes)[i] == front[i]);
            }
        }
    }
}

/// Whether a character counts as white space in Unicode.
pub open spec fn is_space(c: char) -> bool {
    let u = c as u32;
    ||| 0x9 <= u <= 0xd
    ||| u == 0x20
    ||| u == 0x85
    ||| u == 0xa0
    ||| u == 0x1680
    ||| 0x2000 <= u <= 0x200a
    ||| u == 0x2028
    ||| u == 0x2029
    ||| u == 0x202f
    ||| u == 0x205f
    ||| u == 0x3000
}

/// Whether a character counts as white space.
pub fn space(c: char) -> (yes: bool)
    ensures
        yes == is_space(c),
{
    let u: u32 = c as u32;
    (0x9 <= u && u <= 0xd) || u == 0x20 || u == 0x85 || u == 0xa0 || u == 0x1680 || (0x2000 <= u
        && u <= 0x200a) || u == 0x2028 || u == 0x2029 || u == 0x202f || u == 0x205f || u == 0x3000
}

/// `s` without the white space it begins with.
pub open spec fn trim_start(s: Seq<char>) -> Seq<char>
    decreases s.len(),
{
    if s.len() > 0 && is_space(s[0]) {
        trim_start(s.skip(1))
    } else {
        s
    }
}

/// `s` without the white space it ends with.
pub open spec fn trim_end(s: Seq<char>) -> Seq<char>
    decreases s.len(),
{
    if s.len() > 0 && is_space(s.last()) {
        trim_end(s.drop_last())
    } else {
        s
    }
}

/// `s` without the white space it begins and ends with.
pub open spec fn trim(s: Seq<char>) -> Seq<char> {
    trim_end(trim_start(s))
}

/// `chars[from..]` without the white space at both ends.
pub fn trimmed(chars: &[char], from: usize) -> (out: String)
    requires
        from <= chars@.len(),
    ensures
        out@ == trim(chars@.skip(from as int)),
{
    let mut a: usize = from;
    while a < chars.len() && space(chars[a])
        invariant
            from <= a <= chars@.len(),
            trim_start(chars@.skip(from as int)) == trim_start(chars@.skip(a as int)),
        decreases chars@.len() - a,
    {
        assert(chars@.skip(a as int).skip(1) =~= chars@.skip(a + 1));
        assert(chars@.skip(a as int)[0] == chars@[a as int]);
        a += 1;
    }
    let ghost rest = chars@.skip(a as int);
    assert(trim_start(rest) == rest) by {
        if rest.len() > 0 {
            assert(rest[0] == chars@[a as int]);
        }
    }
    let mut b: usize = chars.len();
    assert(chars@.subrange(a as int, b as int) =~= rest);
    while b > a && space(chars[b - 1])
        invariant
            a <= b <= chars@.len(),
            trim_end(rest) == trim_end(chars@.subrange(a as int, b as int)),
        decreases b,
    {
        let ghost now = chars@.subrange(a as int, b as int);
        assert(now.drop_last() =~= chars@.subrange(a as int, b - 1));
        assert(now.last() == chars@[b - 1]);
        b -= 1;
    }
    let ghost now = chars@.subrange(a as int, b as int);
    assert(trim_end(now) == now) by {
        if now.len() > 0 {
            assert(now.last() == chars@[b - 1]);
        }
    }
    string_of(chars, a, b)
}

/// Whether `pat` stands in `s` at place `i`.
pub open spec fn occurs_at(s: Seq<char>, pat: Seq<char>, i: int) -> bool {
    0 <= i && i + pat.len() <= s.len() && s.subrange(i, i + pat.len()) == pat
}

/// The first place of `s`, from `from` on, at which `pat` stands.
pub open spec fn find_from(s: Seq<char>, pat: Seq<char>, from: int) -> Option<int>
    decreases s.len() + 1 - from,
{
    if from < 0 || from + pat.len() > s.len() {
        None
    } else if occurs_at(s, pat, from) {
        Some(from)
    } else {
        find_from(s, pat, from + 1)
    }
}

/// The first place of `s` at which `pat` stands.
pub open spec fn find(s: Seq<char>, pat: Seq<char>) -> Option<int> {
    find_from(s, pat, 0)
}

/// What `find_from` gives is the first occurrence; when it gives none, there
/// is none.
pub proof fn lemma_find_from(s: Seq<char>, pat: Seq<char>, from: int)
    requires
        0 <= from,
    ensures
        match find_from(s, pat, from) {
            Some(i) => from <= i && occurs_at(s, pat, i) && forall|j: int|
                from <= j < i ==> !#[trigger] occurs_at(s, pat, j),
            None => forall|j: int| from <= j ==> !#[trigger] occurs_at(s, pat, j),
        },
    decreases s.len() + 1 - from,
{
    if from + pat.len() <= s.len() && !occurs_at(s, pat, from) {
        lemma_find_from(s, pat, from + 1);
    }
}

/// Whether `pat` stands in `chars` at place `i`.
pub fn stands_at(chars: &[char], pat: &[char], i: usize) -> (yes: bool)
    requires
        i <= chars@.len(),
    ensures
        yes == occurs_at(chars@, pat@, i as int),
{
    let n: usize = chars.len();
    if n - i < pat.len() {
        return false;
    }
    let mut k: usize = 0;
    while k < pat.len()
        invariant
            n == chars@.len(),
            i + pat@.len() <= chars@.len(),
            0 <= k <= pat@.len(),
            forall|j: int| 0 <= j < k ==> chars@[i + j] == pat@[j],
        decreases pat@.len() - k,
    {
        if chars[i + k] != pat[k] {
            assert(chars@.subrange(i as int, i + pat@.len())[k as int] != pat@[k as int]);
            return false;
        }
        k += 1;
    }
    assert(chars@.subrange(i as int, i + pat@.len()) =~= pat@);
    true
}

/// The first place of `chars`, from `from` on, at which `pat` stands.
pub fn find_chars(chars: &[char], pat: &[char], from: usize) -> (out: Option<usize>)
    requires
        from <= chars@.len(),
    ensures
        match out {
            Some(i) => find_from(chars@, pat@, from as int) == Some(i as int),
            None => find_from(chars@, pat@, from as int) is None,
        },
{
    let mut i: usize = from;
    while i <= chars.len() && chars.len() - i >= pat.len()
        invariant
            from <= i <= chars@.len() + 1,
            find_from(chars@, pat@, from as int) == find_from(chars@, pat@, i as int),
        decreases chars@.len() + 1 - i,
    {
        if stands_at(chars, pat, i) {
            return Some(i);
        }
        if i == chars.len() {
            assert(find_from(chars@, pat@, i + 1) is None);
            return None;
        }
        i += 1;
    }
    None
}

/// The lines of a text: what stands between the newlines, without the carriage
/// return before one.  A newline at the very end opens no further line.
pub open spec fn text_lines(s: Seq<char>) -> Seq<Seq<char>> {
    let parts = split(s, '\n');
    let closed = parts.drop_last().map_values(|p: Seq<char>| without_return(p));
    if parts.last().len() == 0 {
        closed
    } else {
        closed.push(parts.last())
    }
}

/// `s` without a carriage return at its end.
pub open spec fn without_return(s: Seq<char>) -> Seq<char> {
    if s.len() > 0 && s.last() == '\r' {
        s.drop_last()
    } else {
        s
    }
}

/// Every line of a text stands somewhere in it.
pub proof fn lemma_line_stands(s: Seq<char>, i: int) -> (a: int)
    requires
        0 <= i < text_lines(s).len(),
    ensures
        occurs_at(s, text_lines(s)[i], a),
{
    lemma_split_parts(s, '\n');
    let parts = split(s, '\n');
    let a = lemma_part_stands(s, '\n', i);
    let part = parts[i];
    let line = text_lines(s)[i];
    if i < parts.len() - 1 {
        assert(line == without_return(parts.drop_last()[i]));
    }
    assert(s.subrange(a, a + part.len()) == part);
    assert(s.subrange(a, a + line.len()) =~= part.take(line.len() as int));
    assert(part.take(line.len() as int) =~= line);
    a
}

/// The lines of a text.
pub fn lines_of(chars: &[char]) -> (out: Vec<String>)
    ensures
        views(out@) == text_lines(chars@),
{
    proof {
        lemma_split_parts(chars@, '\n');
    }
    let parts = split_chars(chars, '\n');
    let ghost all = views(parts@);
    assert(all.len() == parts@.len());
    let n: usize = parts.len() - 1;
    let mut out: Vec<String> = Vec::new();
    let mut i: usize = 0;
    let ghost f = |p: Seq<char>| without_return(p);
    assert(views(out@) =~= all.take(0).map_values(f));
    while i < n
        invariant
            all == views(parts@),
            n == parts@.len() - 1,
            0 <= i <= n,
            f == (|p: Seq<char>| without_return(p)),
            views(out@) == all.take(i as int).map_values(f),
        decreases n - i,
    {
        let part = chars_of(parts[i].as_str());
        assert(part@ == all[i as int]);
        let m: usize = part.len();
        let end: usize = if m > 0 && part[m - 1] == '\r' {
            m - 1
        } else {
            m
        };
        let line = string_of(part.as_slice(), 0, end);
        assert(line@ =~= without_return(all[i as int]));
        let ghost so_far = out@;
        out.push(line);
        assert(views(out@) =~= views(so_far).push(line@));
        assert(all.take(i + 1).map_values(f) =~= all.take(i as int).map_values(f).push(
            without_return(all[i as int]),
        ));
        i += 1;
    }
    assert(all.take(n as int) =~= all.drop_last());
    assert(all.last() == parts@[n as int]@);
    if !parts[n].as_str().is_empty() {
        let ghost so_far = out@;
        let last = parts[n].clone();
        out.push(last);
        assert(views(out@) =~= views(so_far).push(all.last()));
    }
    out
}

/// A character in lower case, when it is an ASCII letter.
pub open spec fn lower_char(c: char) -> char {
    if 'A' <= c <= 'Z' {
        (c as u32 + 32) as char
    } else {
        c
    }
}

/// `s` with its ASCII letters in lower case.
pub open spec fn lower(s: Seq<char>) -> Seq<char> {
    s.map_values(|c: char| lower_char(c))
}

/// `s` with its ASCII letters in lower case.
pub fn to_lower(s: &str) -> (out: String)
    ensures
        out@ == lower(s@),
{
    let chars = chars_of(s);
    let mut out = String::new();
    let mut i: usize = 0;
    assert(out@ =~= lower(chars@.take(0)));
    while i < chars.len()
        invariant
            0 <= i <= chars@.len(),
            out@ == lower(chars@.take(i as int)),
        decreases chars@.len() - i,
    {
        let c = chars[i];
        let l = if 'A' <= c && c <= 'Z' {
            (c as u8 + 32) as char
        } else {
            c
        };
        out.push(l);
        assert(lower(chars@.take(i + 1)) =~= lower(chars@.take(i as int)).push(lower_char(c)));
        i += 1;
    }
    assert(chars@.take(chars@.len() as int) =~= chars@);
    out
}

/// The character of one decimal digit.
pub open spec fn digit(d: int) -> char {
    (48 + d) as char
}

/// A number in decimal, without leading zeroes.
pub open spec fn dec(n: nat) -> Seq<char>
    decreases n,
{
    if n < 10 {
        seq![digit(n as int)]
    } else {
        dec(n / 10).push(digit((n % 10) as int))
    }
}

/// A number in decimal, behind as many zeroes as make it `width` long.
pub open spec fn padded(n: nat, width: nat) -> Seq<char> {
    Seq::new(
        if dec(n).len() < width {
            (width - dec(n).len()) as nat
        } else {
            0
        },
        |i: int| '0',
    ) + dec(n)
}

/// A number below a hundred is padded to its two digits.
pub proof fn lemma_two_digits(n: nat)
    requires
        n < 100,
    ensures
        padded(n, 2) == seq![digit(n as int / 10), digit(n as int % 10)],
{
    reveal_with_fuel(dec, 2);
    assert(padded(n, 2) =~= seq![digit(n as int / 10), digit(n as int % 10)]);
}

/// A number below ten thousand is padded to its four digits.
pub proof fn lemma_four_digits(n: nat)
    requires
        n < 10000,
    ensures
        padded(n, 4) == padded(n / 100, 2) + padded(n % 100, 2),
{
    reveal_with_fuel(dec, 4);
    lemma_two_digits(n / 100);
    lemma_two_digits(n % 100);
    assert(n / 10 / 10 == n / 100);
    assert(n / 10 / 10 / 10 == n / 100 / 10);
    assert(n / 10 % 10 == n % 100 / 10);
    assert(n % 10 == n % 100 % 10);
    assert(padded(n, 4) =~= padded(n / 100, 2) + padded(n % 100, 2));
}

/// Whether two texts agree before place `i`, and the first is smaller there.
pub open spec fn smaller_at(a: Seq<char>, b: Seq<char>, i: int) -> bool {
    &&& 0 <= i <= a.len()
    &&& i < b.len()
    &&& a.take(i) == b.take(i)
    &&& i == a.len() || a[i] < b[i]
}

/// Whether a text sorts before another.
pub open spec fn sorts_before(a: Seq<char>, b: Seq<char>) -> bool {
    exists|i: int| smaller_at(a, b, i)
}

/// A number in decimal.
pub fn decimal(n: u64) -> (out: String)
    ensures
        out@ == dec(n as nat),
    decreases n,
{
    let d: u8 = (n % 10) as u8;
    let c = (48 + d) as char;
    if n < 10 {
        let mut out = String::new();
        out.push(c);
        assert(out@ =~= seq![digit(n as int)]);
        out
    } else {
        let mut out = decimal(n / 10);
        out.push(c);
        out
    }
}

/// A number in decimal, at least `width` digits long.
pub fn decimal_padded(n: u64, width: usize) -> (out: String)
    ensures
        out@ == padded(n as nat, width as nat),
{
    let digits = decimal(n);
    let chars = chars_of(digits.as_str());
    let mut out = String::new();
    let mut i: usize = chars.len();
    let ghost start = i;
    while i < width
        invariant
            start == chars@.len(),
            start <= i,
            start <= width ==> i <= width,
            start > width ==> i == start,
            out@ == Seq::new((i - start) as nat, |k: int| '0'),
        decreases width - i,
    {
        out.push('0');
        assert(out@ =~= Seq::new((i + 1 - start) as nat, |k: int| '0'));
        i += 1;
    }
    out.append(digits.as_str());
    out
}

/// An integer in decimal.
pub open spec fn dec_int(n: int) -> Seq<char> {
    if n < 0 {
        seq!['-'] + dec((-n) as nat)
    } else {
        dec(n as nat)
    }
}

/// An integer in decimal.
pub fn decimal_signed(n: i64) -> (out: String)
    ensures
        out@ == dec_int(n as int),
{
    if n < 0 {
        let magnitude: u64 = (-(n as i128)) as u64;
        let digits = decimal(magnitude);
        let mut out = String::new();
        out.push('-');
        out.append(digits.as_str());
        assert(out@ =~= seq!['-'] + digits@);
        out
    } else {
        decimal(n as u64)
    }
}

/// Why a text is not an integer of its type.
#[derive(Clone, Copy, PartialEq, Eq, Structural)]
pub enum IntFault {
    Empty,
    InvalidDigit,
    TooLarge,
    TooSmall,
}

/// Whether a character is a decimal digit.
pub open spec fn is_digit(c: char) -> bool {
    '0' <= c <= '9'
}

/// The number that digits stand for, read from the left; the first character
/// that is no digit, or that leads out of `lo..=hi`, is what is wrong.
pub open spec fn scan_digits(s: Seq<char>, negative: bool, lo: int, hi: int) -> Result<
    int,
    IntFault,
>
    decreases s.len(),
{
    if s.len() == 0 {
        Ok(0)
    } else {
        match scan_digits(s.drop_last(), negative, lo, hi) {
            Err(e) => Err(e),
            Ok(v) => {
                let d = s.last() as int - 48;
                let w = if negative {
                    10 * v - d
                } else {
                    10 * v + d
                };
                if !is_digit(s.last()) {
                    Err(IntFault::InvalidDigit)
                } else if w > hi {
                    Err(IntFault::TooLarge)
                } else if w < lo {
                    Err(IntFault::TooSmall)
                } else {
                    Ok(w)
                }
            },
        }
    }
}

/// The integer between `lo` and `hi` that a text stands for: digits behind an
/// optional sign, which may be a minus only where `lo` is negative.
pub open spec fn parse_int(s: Seq<char>, lo: int, hi: int) -> Result<int, IntFault> {
    if s.len() == 0 {
        Err(IntFault::Empty)
    } else if s.len() == 1 && (s[0] == '+' || s[0] == '-') {
        Err(IntFault::InvalidDigit)
    } else if s[0] == '+' {
        scan_digits(s.skip(1), false, lo, hi)
    } else if s[0] == '-' && lo < 0 {
        scan_digits(s.skip(1), true, lo, hi)
    } else {
        scan_digits(s, false, lo, hi)
    }
}

/// Once something is wrong, what follows does not mend it.
proof fn lemma_scan_fault(s: Seq<char>, n: int, negative: bool, lo: int, hi: int)
    requires
        0 <= n <= s.len(),
        scan_digits(s.take(n), negative, lo, hi) is Err,
    ensures
        scan_digits(s, negative, lo, hi) == scan_digits(s.take(n), negative, lo, hi),
    decreases s.len() - n,
{
    if n == s.len() {
        assert(s.take(n) =~= s);
    } else {
        assert(s.take(n + 1).drop_last() =~= s.take(n));
        lemma_scan_fault(s, n + 1, negative, lo, hi);
    }
}

/// Read `chars[from..]` as digits of a number between `lo` and `hi`.
fn scan(chars: &[char], from: usize, negative: bool, lo: i128, hi: i128) -> (out: Result<
    i128,
    IntFault,
>)
    requires
        from <= chars@.len(),
        -0x1_0000_0000_0000_0000 <= lo <= 0 <= hi <= 0x1_0000_0000_0000_0000,
    ensures
        match out {
            Ok(v) => scan_digits(chars@.skip(from as int), negative, lo as int, hi as int) == Ok::<
                int,
                IntFault,
            >(v as int) && lo <= v <= hi,
            Err(e) => scan_digits(chars@.skip(from as int), negative, lo as int, hi as int)
                == Err::<int, IntFault>(e),
        },
{
    let ghost all = chars@.skip(from as int);
    let mut v: i128 = 0;
    let mut i: usize = from;
    assert(all.take(0) =~= Seq::<char>::empty());
    while i < chars.len()
        invariant
            from <= i <= chars@.len(),
            all == chars@.skip(from as int),
            -0x1_0000_0000_0000_0000 <= lo <= 0 <= hi <= 0x1_0000_0000_0000_0000,
            lo <= v <= hi,
            scan_digits(all.take(i - from), negative, lo as int, hi as int) == Ok::<int, IntFault>(
                v as int,
            ),
        decreases chars@.len() - i,
    {
        let ghost now = all.take(i + 1 - from);
        assert(now.drop_last() =~= all.take(i - from));
        assert(now.last() == chars@[i as int]);
        let c = chars[i];
        if !('0' <= c && c <= '9') {
            proof {
                lemma_scan_fault(all, i + 1 - from, negative, lo as int, hi as int);
            }
            return Err(IntFault::InvalidDigit);
        }
        let d: i128 = (c as u8 - 48) as i128;
        let w: i128 = if negative {
            10 * v - d
        } else {
            10 * v + d
        };
        if w > hi {
            proof {
                lemma_scan_fault(all, i + 1 - from, negative, lo as int, hi as int);
            }
            return Err(IntFault::TooLarge);
        }
        if w < lo {
            proof {
                lemma_scan_fault(all, i + 1 - from, negative, lo as int, hi as int);
            }
            return Err(IntFault::TooSmall);
        }
        v = w;
        i += 1;
    }
    assert(all.take(all.len() as int) =~= all);
    Ok(v)
}

/// Read a text as an integer between `lo` and `hi`.
fn parse_between(s: &str, lo: i128, hi: i128) -> (out: Result<i128, IntFault>)
    requires
        -0x1_0000_0000_0000_0000 <= lo <= 0 <= hi <= 0x1_0000_0000_0000_0000,
    ensures
        match out {
            Ok(v) => parse_int(s@, lo as int, hi as int) == Ok::<int, IntFault>(v as int) && lo <= v
                <= hi,
            Err(e) => parse_int(s@, lo as int, hi as int) == Err::<int, IntFault>(e),
        },
{
    let chars = chars_of(s);
    assert(chars@.skip(0) =~= chars@);
    if chars.len() == 0 {
        Err(IntFault::Empty)
    } else if chars.len() == 1 && (chars[0] == '+' || chars[0] == '-') {
        Err(IntFault::InvalidDigit)
    } else if chars[0] == '+' {
        scan(chars.as_slice(), 1, false, lo, hi)
    } else if chars[0] == '-' && lo < 0 {
        scan(chars.as_slice(), 1, true, lo, hi)
    } else {
        scan(chars.as_slice(), 0, false, lo, hi)
    }
}

/// Read a text as a signed 64-bit integer.
pub fn parse_i64(s: &str) -> (out: Result<i64, IntFault>)
    ensures
        match out {
            Ok(v) => parse_int(s@, i64::MIN as int, i64::MAX as int) == Ok::<int, IntFault>(
                v as int,
            ),
            Err(e) => parse_int(s@, i64::MIN as int, i64::MAX as int) == Err::<int, IntFault>(e),
        },
{
    match parse_between(s, i64::MIN as i128, i64::MAX as i128) {
        Ok(v) => Ok(v as i64),
        Err(e) => Err(e),
    }
}

/// Read a text as an unsigned 64-bit integer.
pub fn parse_u64(s: &str) -> (out: Result<u64, IntFault>)
    ensures
        match out {
            Ok(v) => parse_int(s@, 0, u64::MAX as int) == Ok::<int, IntFault>(v as int),
            Err(e) => parse_int(s@, 0, u64::MAX as int) == Err::<int, IntFault>(e),
        },
{
    match parse_between(s, 0, u64::MAX as i128) {
        Ok(v) => Ok(v as u64),
        Err(e) => Err(e),
    }
}

/// Read a text as a machine-sized unsigned integer.
pub fn parse_usize(s: &str) -> (out: Result<usize, IntFault>)
    ensures
        match out {
            Ok(v) => parse_int(s@, 0, usize::MAX as int) == Ok::<int, IntFault>(v as int),
            Err(e) => parse_int(s@, 0, usize::MAX as int) == Err::<int, IntFault>(e),
        },
{
    match parse_between(s, 0, usize::MAX as i128) {
        Ok(v) => Ok(v as usize),
        Err(e) => Err(e),
    }
}

/// Reading the decimal form of a number gives the number back.
pub proof fn law_decimal_reads_back(n: nat, lo: int, hi: int)
    requires
        lo <= 0,
        n <= hi,
    ensures
        parse_int(dec(n), lo, hi) == Ok::<int, IntFault>(n as int),
{
    lemma_scan_dec(n, lo, hi);
    lemma_dec_digits(n);
}

/// A number in decimal is made of digits.
pub proof fn lemma_dec_digits(n: nat)
    ensures
        dec(n).len() >= 1,
        forall|i: int| 0 <= i < dec(n).len() ==> is_digit(#[trigger] dec(n)[i]),
    decreases n,
{
    if n >= 10 {
        lemma_dec_digits(n / 10);
    }
}

proof fn lemma_scan_dec(n: nat, lo: int, hi: int)
    requires
        lo <= 0,
        n <= hi,
    ensures
        scan_digits(dec(n), false, lo, hi) == Ok::<int, IntFault>(n as int),
    decreases n,
{
    if n < 10 {
        assert(dec(n).drop_last() =~= Seq::<char>::empty());
        assert(scan_digits(dec(n).drop_last(), false, lo, hi) == Ok::<int, IntFault>(0));
    } else {
        lemma_scan_dec(n / 10, lo, hi);
        assert(dec(n).drop_last() =~= dec(n / 10));
    }
}

/// What is said of a text that is not an integer.
pub open spec fn fault_words(f: IntFault) -> Seq<char> {
    match f {
        IntFault::Empty => "cannot parse integer from empty string"@,
        IntFault::InvalidDigit => "invalid digit found in string"@,
        IntFault::TooLarge => "number too large to fit in target type"@,
        IntFault::TooSmall => "number too small to fit in target type"@,
    }
}

/// What is said of a text that is not an integer.
pub fn fault_text(f: IntFault) -> (out: String)
    ensures
        out@ == fault_words(f),
{
    match f {
        IntFault::Empty => "cannot parse integer from empty string".to_owned(),
        IntFault::InvalidDigit => "invalid digit found in string".to_owned(),
        IntFault::TooLarge => "number too large to fit in target type".to_owned(),
        IntFault::TooSmall => "number too small to fit in target type".to_owned(),
    }
}

/// The last place of `s` that holds `c`.
pub open spec fn last_place(s: Seq<char>, c: char) -> Option<int>
    decreases s.len(),
{
    if s.len() == 0 {
        None
    } else if s.last() == c {
        Some(s.len() - 1)
    } else {
        last_place(s.drop_last(), c)
    }
}

/// The last place of `chars` that holds `c`.
pub fn find_last(chars: &[char], c: char) -> (out: Option<usize>)
    ensures
        match out {
            Some(i) => i < chars@.len() && last_place(chars@, c) == Some(i as int),
            None => last_place(chars@, c) is None,
        },
{
    let mut n: usize = chars.len();
    assert(chars@.take(n as int) =~= chars@);
    while n > 0
        invariant
            0 <= n <= chars@.len(),
            last_place(chars@, c) == last_place(chars@.take(n as int), c),
        decreases n,
    {
        assert(chars@.take(n as int).last() == chars@[n - 1]);
        assert(chars@.take(n as int).drop_last() =~= chars@.take(n - 1));
        if chars[n - 1] == c {
            return Some(n - 1);
        }
        n -= 1;
    }
    None
}

/// Whether every character is a decimal digit.
pub open spec fn all_digits(s: Seq<char>) -> bool {
    forall|i: int| 0 <= i < s.len() ==> is_digit(#[trigger] s[i])
}

/// Whether every character of `chars[from..]` is a decimal digit.
pub fn digits_from(chars: &[char], from: usize) -> (yes: bool)
    requires
        from <= chars@.len(),
    ensures
        yes == all_digits(chars@.skip(from as int)),
{
    let mut i: usize = from;
    while i < chars.len()
        invariant
            from <= i <= chars@.len(),
            forall|k: int| from <= k < i ==> is_digit(#[trigger] chars@[k]),
        decreases chars@.len() - i,
    {
        let c = chars[i];
        if !('0' <= c && c <= '9') {
            assert(!is_digit(chars@.skip(from as int)[i - from]));
            return false;
        }
        i += 1;
    }
    assert forall|k: int| 0 <= k < chars@.len() - from implies is_digit(
        #[trigger] chars@.skip(from as int)[k],
    ) by {
        assert(is_digit(chars@[from + k]));
    }
    true
}

/// What an optional text reads as.
pub open spec fn opt_text(o: Option<String>) -> Option<Seq<char>> {
    match o {
        Some(s) => Some(s@),
        None => None,
    }
}

/// The same optional text again.
pub fn clone_opt(o: &Option<String>) -> (out: Option<String>)
    ensures
        opt_text(out) == opt_text(*o),
{
    match o {
        Some(s) => Some(s.clone()),
        None => None,
    }
}

// ── laws ─────────────────────────────────────────────────────────────

/// Cutting two texts with a separator between them is cutting each.
pub proof fn law_a_split_goes_by_parts(a: Seq<char>, c: char, b: Seq<char>)
    ensures
        split(a + seq![c] + b, c) == split(a, c) + split(b, c),
        !a.contains(c) ==> split(a, c) == seq![a],
    decreases b.len(),
{
    let whole = a + seq![c] + b;
    if !a.contains(c) {
        lemma_split_single(a, c);
    }
    lemma_split_parts(a, c);
    if b.len() == 0 {
        assert(whole.drop_last() =~= a);
        assert(whole.last() == c);
        assert(b =~= Seq::<char>::empty());
        assert(split(whole, c) =~= split(a, c) + split(b, c));
    } else {
        let front = b.drop_last();
        law_a_split_goes_by_parts(a, c, front);
        lemma_split_parts(front, c);
        assert(whole.drop_last() =~= a + seq![c] + front);
        assert(whole.last() == b.last());
        assert(split(whole, c) =~= split(a, c) + split(b, c));
    }
}

/// The white space around a text goes, and only that.
pub proof fn law_trim_drops_the_white_space_around(a: Seq<char>, s: Seq<char>, b: Seq<char>)
    requires
        forall|i: int|
            0 <= i < a.len() ==> #[trigger] a[i] == ' ' || a[i] == '\t' || a[i] == '\n' || a[i]
                == '\r',
        forall|i: int|
            0 <= i < b.len() ==> #[trigger] b[i] == ' ' || b[i] == '\t' || b[i] == '\n' || b[i]
                == '\r',
        s.len() == 0 || '!' <= s[0] <= '~' && '!' <= s.last() <= '~',
    ensures
        trim(a + s + b) == s,
        trim_start(a + s) == s,
        s.len() > 0 ==> trim_start(a + s + b) == s + b,
    decreases a.len(),
{
    if a.len() > 0 {
        let rest = a.skip(1);
        assert forall|i: int| 0 <= i < rest.len() implies #[trigger] rest[i] == ' ' || rest[i]
            == '\t' || rest[i] == '\n' || rest[i] == '\r' by {
            assert(rest[i] == a[i + 1]);
        }
        assert(a[0] == ' ' || a[0] == '\t' || a[0] == '\n' || a[0] == '\r');
        law_trim_drops_the_white_space_around(rest, s, b);
        assert((a + s + b).skip(1) =~= rest + s + b);
        assert((a + s).skip(1) =~= rest + s);
        assert((a + s + b)[0] == a[0]);
        assert((a + s)[0] == a[0]);
    } else {
        assert(a + s + b =~= s + b);
        assert(a + s =~= s);
        if s.len() == 0 {
            assert(s + b =~= b);
            lemma_blank_trims_away(b);
            assert(s =~= Seq::<char>::empty());
        } else {
            assert((s + b)[0] == s[0]);
            assert(trim_start(s + b) == s + b);
            lemma_trim_end_drops(s, b);
        }
    }
}

proof fn lemma_blank_trims_away(b: Seq<char>)
    requires
        forall|i: int|
            0 <= i < b.len() ==> #[trigger] b[i] == ' ' || b[i] == '\t' || b[i] == '\n' || b[i]
                == '\r',
    ensures
        trim_start(b) == Seq::<char>::empty(),
        trim(b) == Seq::<char>::empty(),
    decreases b.len(),
{
    if b.len() > 0 {
        let rest = b.skip(1);
        assert(b[0] == ' ' || b[0] == '\t' || b[0] == '\n' || b[0] == '\r');
        assert forall|i: int| 0 <= i < rest.len() implies #[trigger] rest[i] == ' ' || rest[i]
            == '\t' || rest[i] == '\n' || rest[i] == '\r' by {
            assert(rest[i] == b[i + 1]);
        }
        lemma_blank_trims_away(rest);
    } else {
        assert(b =~= Seq::<char>::empty());
    }
}

proof fn lemma_trim_end_drops(s: Seq<char>, b: Seq<char>)
    requires
        forall|i: int|
            0 <= i < b.len() ==> #[trigger] b[i] == ' ' || b[i] == '\t' || b[i] == '\n' || b[i]
                == '\r',
        s.len() > 0,
        '!' <= s.last() <= '~',
    ensures
        trim_end(s + b) == s,
    decreases b.len(),
{
    if b.len() > 0 {
        let last = b.len() - 1;
        assert(b[last] == ' ' || b[last] == '\t' || b[last] == '\n' || b[last] == '\r');
        assert((s + b).last() == b[last]);
        assert((s + b).drop_last() =~= s + b.drop_last());
        assert forall|i: int| 0 <= i < b.drop_last().len() implies #[trigger] b.drop_last()[i] == ' '
            || b.drop_last()[i] == '\t' || b.drop_last()[i] == '\n' || b.drop_last()[i] == '\r' by {
            assert(b.drop_last()[i] == b[i]);
        }
        lemma_trim_end_drops(s, b.drop_last());
    } else {
        assert(s + b =~= s);
    }
}

/// The lines of a text are read off one by one, each up to its newline and
/// without the carriage return before it; the last one needs none.
pub proof fn law_a_line_is_read_off(line: Seq<char>, rest: Seq<char>)
    requires
        !line.contains('\n'),
        line.len() == 0 || line.last() != '\r',
    ensures
        text_lines(line + seq!['\n'] + rest) == seq![line] + text_lines(rest),
        text_lines(line + seq!['\r', '\n'] + rest) == seq![line] + text_lines(rest),
        line.len() > 0 ==> text_lines(line) == seq![line],
        text_lines(Seq::<char>::empty()) == Seq::<Seq<char>>::empty(),
{
    lemma_split_parts(rest, '\n');
    lemma_lines_by_parts(line, line, rest);
    let returned = line.push('\r');
    assert forall|k: int| 0 <= k < returned.len() implies returned[k] != '\n' by {
        if k < line.len() {
            assert(line.contains(line[k]));
        }
    }
    assert(without_return(returned) =~= line);
    lemma_lines_by_parts(returned, line, rest);
    assert(returned + seq!['\n'] + rest =~= line + seq!['\r', '\n'] + rest);
    lemma_split_single(line, '\n');
    let none = Seq::<char>::empty();
    assert(split(none, '\n').drop_last() =~= Seq::<Seq<char>>::empty());
    assert(text_lines(none) =~= Seq::<Seq<char>>::empty());
    if line.len() > 0 {
        assert(text_lines(line) =~= seq![line]);
    }
}

proof fn lemma_lines_by_parts(raw: Seq<char>, line: Seq<char>, rest: Seq<char>)
    requires
        !raw.contains('\n'),
        without_return(raw) == line,
    ensures
        text_lines(raw + seq!['\n'] + rest) == seq![line] + text_lines(rest),
{
    law_a_split_goes_by_parts(raw, '\n', rest);
    lemma_split_parts(rest, '\n');
    let f = |p: Seq<char>| without_return(p);
    let parts = split(rest, '\n');
    let whole = split(raw + seq!['\n'] + rest, '\n');
    assert(whole == seq![raw] + parts);
    assert(whole.drop_last() =~= seq![raw] + parts.drop_last());
    assert(whole.last() == parts.last());
    assert(whole.drop_last().map_values(f) =~= seq![line] + parts.drop_last().map_values(f));
    assert(text_lines(raw + seq!['\n'] + rest) =~= seq![line] + text_lines(rest));
}

/// The lines of two texts with a newline between them are those of the first,
/// empty ones at its end included, and then those of the second.
pub proof fn law_lines_go_by_parts(a: Seq<char>, b: Seq<char>)
    requires
        !a.contains('\r'),
    ensures
        text_lines(a + seq!['\n'] + b) == split(a, '\n') + text_lines(b),
{
    law_a_split_goes_by_parts(a, '\n', b);
    lemma_split_parts(a, '\n');
    lemma_split_parts(b, '\n');
    let f = |p: Seq<char>| without_return(p);
    let head = split(a, '\n');
    let tail = split(b, '\n');
    let whole = split(a + seq!['\n'] + b, '\n');
    assert(whole.drop_last() =~= head + tail.drop_last());
    assert forall|i: int| 0 <= i < head.len() implies #[trigger] without_return(head[i]) == head[i] by {
        let at = lemma_part_stands(a, '\n', i);
        let part = head[i];
        if part.len() > 0 && part.last() == '\r' {
            assert(a.subrange(at, at + part.len())[part.len() - 1] == '\r');
            assert(a[at + part.len() - 1] == '\r');
        }
    }
    assert(whole.drop_last().map_values(f) =~= head + tail.drop_last().map_values(f));
    assert(whole.last() == tail.last());
    assert(text_lines(a + seq!['\n'] + b) =~= head + text_lines(b));
}

/// Joining two lists of parts is joining each, with the separator between.
pub proof fn law_a_join_goes_by_parts(a: Seq<Seq<char>>, b: Seq<Seq<char>>, sep: Seq<char>)
    requires
        a.len() > 0,
        b.len() > 0,
    ensures
        join(a + b, sep) == join(a, sep) + sep + join(b, sep),
        join(seq![a[0]], sep) == a[0],
    decreases b.len(),
{
    let whole = a + b;
    assert(whole.last() == b.last());
    assert(whole.drop_last() =~= a + b.drop_last());
    if b.len() == 1 {
        assert(a + b.drop_last() =~= a);
        assert(b[0] == b.last());
    } else {
        law_a_join_goes_by_parts(a, b.drop_last(), sep);
        assert(join(whole, sep) =~= join(a, sep) + sep + join(b, sep));
    }
}

/// Lower case goes letter by letter: the capitals of the alphabet become small,
/// and nothing else changes.
pub proof fn law_lower_case_goes_letter_by_letter(s: Seq<char>, i: int)
    requires
        0 <= i < s.len(),
    ensures
        lower(s).len() == s.len(),
        'A' <= s[i] <= 'Z' ==> lower(s)[i] as int == s[i] as int + 32,
        !('A' <= s[i] <= 'Z') ==> lower(s)[i] == s[i],
{
}

/// What counts as white space: what moves the pen without leaving a mark, in
/// ASCII and beyond it.
pub proof fn law_what_is_white_space(c: char)
    ensures
        c == ' ' || c == '\t' || c == '\n' || c == '\r' || c == '\u{b}' || c == '\u{c}' ==> is_space(c),
        c == '\u{85}' || c == '\u{a0}' || c == '\u{1680}' || '\u{2000}' <= c <= '\u{200a}' || c
            == '\u{2028}' || c == '\u{2029}' || c == '\u{202f}' || c == '\u{205f}' || c
            == '\u{3000}' ==> is_space(c),
        '!' <= c <= '~' ==> !is_space(c),
        'à' <= c <= 'ÿ' ==> !is_space(c),
        '\u{3001}' <= c ==> !is_space(c),
{
}

/// A number is written digit by digit, the most significant first.
pub proof fn law_a_number_is_written_digit_by_digit(n: nat, d: nat)
    requires
        d < 10,
    ensures
        dec(d) == seq!["0123456789"@[d as int]],
        n > 0 ==> dec(10 * n + d) == dec(n).push("0123456789"@[d as int]),
{
    reveal_strlit("0123456789");
    assert(digit(d as int) == "0123456789"@[d as int]);
    if n > 0 {
        assert((10 * n + d) / 10 == n && (10 * n + d) % 10 == d);
    }
}

proof fn lemma_scan_negative(n: nat, lo: int, hi: int)
    requires
        lo <= -n,
        0 <= hi,
    ensures
        scan_digits(dec(n), true, lo, hi) == Ok::<int, IntFault>(-n),
    decreases n,
{
    let s = dec(n);
    if n < 10 {
        assert(s.drop_last() =~= Seq::<char>::empty());
        assert(scan_digits(s.drop_last(), true, lo, hi) == Ok::<int, IntFault>(0));
    } else {
        lemma_scan_negative(n / 10, lo, hi);
        assert(s.drop_last() =~= dec(n / 10));
        assert(n == 10 * (n / 10) + n % 10);
    }
}

/// A number is read with its sign: a plus changes nothing and a minus turns it
/// round where numbers below zero are wanted; a sign alone is none.
pub proof fn law_a_number_is_read_with_its_sign(n: nat, lo: int, hi: int)
    requires
        lo <= 0 <= hi,
    ensures
        n <= hi ==> parse_int(seq!['+'] + dec(n), lo, hi) == Ok::<int, IntFault>(n as int),
        lo < 0 && lo <= -n ==> parse_int(seq!['-'] + dec(n), lo, hi) == Ok::<int, IntFault>(-n),
        parse_int(seq!['+'], lo, hi) is Err,
        parse_int(seq!['-'], lo, hi) is Err,
        parse_int(Seq::<char>::empty(), lo, hi) is Err,
{
    lemma_dec_digits(n);
    assert(dec(n).len() > 0);
    let plus = seq!['+'] + dec(n);
    assert(plus.skip(1) =~= dec(n));
    if n <= hi {
        lemma_scan_dec(n, lo, hi);
    }
    let minus = seq!['-'] + dec(n);
    assert(minus.skip(1) =~= dec(n));
    if lo < 0 && lo <= -n {
        lemma_scan_negative(n, lo, hi);
    }
}

} // verus!
