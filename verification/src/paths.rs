//! File names and directories of paths, as far as the host looks at them.

use vstd::prelude::*;

use crate::text::{chars_of, string_of};

verus! {

broadcast use vstd::string::group_string_axioms;

/// How much of a path its root takes up.
pub open spec fn root_len(p: Seq<char>) -> int {
    if p.len() > 0 && p[0] == '/' {
        1
    } else {
        0
    }
}

/// Where the last piece of a path begins: behind its last separator.
pub open spec fn last_piece(p: Seq<char>) -> int
    decreases p.len(),
{
    if p.len() == 0 || p.last() == '/' {
        p.len() as int
    } else {
        last_piece(p.drop_last())
    }
}

/// A path without what it ends with that names nothing: separators behind its
/// last component, and `.` anywhere but at the very beginning.
pub open spec fn bare(p: Seq<char>) -> Seq<char>
    decreases p.len(),
{
    if p.len() <= root_len(p) {
        p
    } else if p.last() == '/' {
        bare(p.drop_last())
    } else if p.last() == '.' && last_piece(p) == p.len() - 1 && p.len() > 1 {
        bare(p.drop_last())
    } else {
        p
    }
}

/// The last component of a path, unless it has none or that is `.` or `..`.
pub open spec fn file_part(path: Seq<char>) -> Option<Seq<char>> {
    let b = bare(path);
    let piece = b.skip(last_piece(b));
    if b.len() <= root_len(b) || piece == seq!['.'] || piece == seq!['.', '.'] {
        None
    } else {
        Some(piece)
    }
}

/// The path without its last component, unless it has none.
pub open spec fn dir_part(path: Seq<char>) -> Option<Seq<char>> {
    let b = bare(path);
    if b.len() <= root_len(b) {
        None
    } else {
        Some(bare(b.take(last_piece(b))))
    }
}

/// Where the last piece of `chars[..n]` begins.
fn piece_start(chars: &[char], n: usize) -> (i: usize)
    requires
        n <= chars@.len(),
    ensures
        i <= n,
        i == last_piece(chars@.take(n as int)),
{
    let mut i: usize = n;
    while i > 0 && chars[i - 1] != '/'
        invariant
            i <= n <= chars@.len(),
            last_piece(chars@.take(n as int)) == last_piece(chars@.take(i as int)),
        decreases i,
    {
        assert(chars@.take(i as int).last() == chars@[i - 1]);
        assert(chars@.take(i as int).drop_last() =~= chars@.take(i - 1));
        i -= 1;
    }
    if i > 0 {
        assert(chars@.take(i as int).last() == chars@[i - 1]);
    }
    i
}

/// How long `chars[..n]` is without what it ends with that names nothing.
fn bare_len(chars: &[char], n: usize) -> (m: usize)
    requires
        n <= chars@.len(),
    ensures
        m <= n,
        chars@.take(m as int) == bare(chars@.take(n as int)),
        m > root_len(chars@.take(m as int)) ==> root_len(chars@.take(m as int)) == root_len(
            chars@.take(n as int),
        ),
{
    let root: usize = if n > 0 && chars[0] == '/' {
        1
    } else {
        0
    };
    let mut m: usize = n;
    let mut more = true;
    assert(root == root_len(chars@.take(n as int)));
    while more
        invariant
            m <= n <= chars@.len(),
            root <= n,
            m >= root,
            root <= 1,
            n > 0 ==> (root == 1 <==> chars@[0] == '/'),
            n == 0 ==> root == 0,
            bare(chars@.take(n as int)) == bare(chars@.take(m as int)),
            !more ==> bare(chars@.take(m as int)) == chars@.take(m as int),
        decreases m, if more { 1int } else { 0int },
    {
        let ghost now = chars@.take(m as int);
        assert(m > 0 ==> now[0] == chars@[0]);
        assert(m > root ==> root_len(now) == root);
        assert(m <= root ==> now.len() <= root_len(now));
        if m <= root {
            more = false;
        } else {
            assert(now.last() == chars@[m - 1]);
            assert(now.drop_last() =~= chars@.take(m - 1));
            if chars[m - 1] == '/' {
                m -= 1;
            } else if chars[m - 1] == '.' && m > 1 && piece_start(chars, m) == m - 1 {
                m -= 1;
            } else {
                more = false;
            }
        }
    }
    m
}

/// The last component of a path, unless it has none or that is `.` or `..`.
pub fn file_name(path: &str) -> (out: Option<String>)
    ensures
        match out {
            Some(f) => file_part(path@) == Some(f@),
            None => file_part(path@) is None,
        },
{
    let chars = chars_of(path);
    assert(chars@.take(chars@.len() as int) =~= chars@);
    let m: usize = bare_len(chars.as_slice(), chars.len());
    let ghost b = chars@.take(m as int);
    assert(b == bare(path@));
    assert(m > 0 ==> b[0] == chars@[0]);
    let root: usize = if m > 0 && chars[0] == '/' {
        1
    } else {
        0
    };
    assert(root == root_len(b));
    if m <= root {
        return None;
    }
    let i: usize = piece_start(chars.as_slice(), m);
    let ghost piece = b.skip(i as int);
    assert(piece =~= chars@.subrange(i as int, m as int));
    if m - i == 1 && chars[i] == '.' {
        assert(piece =~= seq!['.']);
        return None;
    }
    if m - i == 2 && chars[i] == '.' && chars[i + 1] == '.' {
        assert(piece =~= seq!['.', '.']);
        return None;
    }
    proof {
        if piece == seq!['.'] {
            assert(piece.len() == 1);
            assert(piece[0] == chars@[i as int]);
        }
        if piece == seq!['.', '.'] {
            assert(piece.len() == 2);
            assert(piece[0] == chars@[i as int]);
            assert(piece[1] == chars@[i + 1]);
        }
    }
    Some(string_of(chars.as_slice(), i, m))
}

/// The path without its last component, unless it has none.
pub fn parent(path: &str) -> (out: Option<String>)
    ensures
        match out {
            Some(d) => dir_part(path@) == Some(d@),
            None => dir_part(path@) is None,
        },
{
    let chars = chars_of(path);
    assert(chars@.take(chars@.len() as int) =~= chars@);
    let m: usize = bare_len(chars.as_slice(), chars.len());
    let ghost b = chars@.take(m as int);
    assert(m > 0 ==> b[0] == chars@[0]);
    let root: usize = if m > 0 && chars[0] == '/' {
        1
    } else {
        0
    };
    assert(root == root_len(b));
    if m <= root {
        return None;
    }
    let i: usize = piece_start(chars.as_slice(), m);
    assert(b.take(i as int) =~= chars@.take(i as int));
    let k: usize = bare_len(chars.as_slice(), i);
    let out = string_of(chars.as_slice(), 0, k);
    assert(out@ =~= chars@.take(k as int));
    Some(out)
}

proof fn lemma_last_piece(a: Seq<char>, name: Seq<char>)
    requires
        a.len() == 0 || a.last() == '/',
        !name.contains('/'),
    ensures
        last_piece(a + name) == a.len(),
    decreases name.len(),
{
    let whole = a + name;
    if name.len() == 0 {
        assert(whole =~= a);
    } else {
        assert(name.contains(name[name.len() - 1]));
        assert(whole.last() == name[name.len() - 1]);
        assert(whole.drop_last() =~= a + name.drop_last());
        assert forall|k: int| 0 <= k < name.drop_last().len() implies name.drop_last()[k] != '/' by {
            assert(name.contains(name[k]));
        }
        lemma_last_piece(a, name.drop_last());
    }
}

/// A file in a directory has its name and its directory, and a bare name is its
/// own name and lies nowhere in particular.
pub proof fn law_a_path_is_a_directory_and_a_name(dir: Seq<char>, name: Seq<char>)
    requires
        dir.len() > 0,
        dir.last() != '/' && dir.last() != '.',
        name.len() > 0,
        !name.contains('/'),
        name.last() != '.',
    ensures
        file_part(dir + seq!['/'] + name) == Some(name),
        dir_part(dir + seq!['/'] + name) == Some(dir),
        file_part(name) == Some(name),
        dir_part(name) == Some(Seq::<char>::empty()),
        file_part(seq!['/']) is None && dir_part(seq!['/']) is None,
{
    let none = Seq::<char>::empty();
    let head = dir + seq!['/'];
    let path = dir + seq!['/'] + name;
    assert(name.contains(name[name.len() - 1]));
    assert(path.last() == name.last());
    assert(path[0] == dir[0]);
    assert(bare(path) == path);
    assert(path =~= head + name);
    lemma_last_piece(head, name);
    assert(path.skip(head.len() as int) =~= name);
    assert(path.take(head.len() as int) =~= head);
    assert(head.last() == '/');
    assert(head[0] == dir[0]);
    assert(head.drop_last() =~= dir);
    assert(bare(dir) == dir);
    assert(bare(head) == dir);
    assert(name[0] != '/') by {
        assert(name.contains(name[0]));
    }
    assert(bare(name) == name);
    assert(none + name =~= name);
    lemma_last_piece(none, name);
    assert(name.skip(0) =~= name);
    assert(name.take(0) =~= none);
    assert(bare(none) == none);
}

/// What a path ends with that names nothing does not change what it names: a
/// separator, or a dot behind one.
pub proof fn law_the_end_of_a_path_may_name_nothing(path: Seq<char>)
    requires
        path.len() > 0,
        path.last() != '/',
    ensures
        file_part(path + seq!['/']) == file_part(path),
        dir_part(path + seq!['/']) == dir_part(path),
        file_part(path + seq!['/', '.']) == file_part(path),
        dir_part(path + seq!['/', '.']) == dir_part(path),
{
    let a = path + seq!['/'];
    assert(a.drop_last() =~= path);
    assert(a[0] == path[0]);
    assert(bare(a) == bare(path));
    let b = path + seq!['/', '.'];
    assert(b.drop_last() =~= a);
    assert(b[0] == path[0]);
    assert(last_piece(b) == last_piece(a));
    assert(last_piece(a) == a.len());
    assert(bare(b) == bare(a));
}

/// Neither the directory itself nor the one above it is a file.
pub proof fn law_dots_are_no_file(dir: Seq<char>)
    requires
        dir.len() > 0,
        dir.last() != '/',
    ensures
        file_part(dir + seq!['/', '.', '.']) is None,
        file_part(seq!['.', '.']) is None,
        file_part(seq!['.']) is None,
{
    let up = seq!['.', '.'];
    let none = Seq::<char>::empty();
    let head = dir + seq!['/'];
    let path = dir + seq!['/', '.', '.'];
    assert(path =~= head + up);
    assert(!up.contains('/'));
    lemma_last_piece(head, up);
    assert(path[0] == dir[0]);
    assert(bare(path) == path);
    assert(path.skip(head.len() as int) =~= up);
    assert(none + up =~= up);
    lemma_last_piece(none, up);
    assert(bare(up) == up);
    assert(up.skip(0) =~= up);
    let here = seq!['.'];
    assert(!here.contains('/'));
    assert(none + here =~= here);
    lemma_last_piece(none, here);
    assert(bare(here) == here);
    assert(here.skip(0) =~= here);
}

} // verus!
