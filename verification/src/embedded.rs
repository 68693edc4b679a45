//! The modules baked into the binary, as a list a caller can read.
//!
//! The sources come from whoever builds the binary; here is which modules there
//! are, in which order they are listed, and which of them a project may not
//! shadow.
//!
//! Two things are deliberately not here.  `knl_types` is embedded but generated
//! at start from the syscall surface, so it has no static source to hand out.
//! And nothing here writes: what a copy should say at the top of it, and where
//! it may land, belong to the tool doing the writing.

use vstd::prelude::*;

use crate::text::{chars_of, same, split, split_chars, views};

verus! {

broadcast use vstd::string::group_string_axioms;

/// Which of the two embedded lists an entry came from.
///
/// `Block` means the module is also reported as a tool surface; both kinds are
/// required by name and neither is a file on disk.
#[derive(Debug, Clone, Copy, PartialEq, Eq, Structural)]
pub enum Kind {
    /// An entry point.
    Block,
    /// A module.
    Lib,
}

impl Kind {
    /// The word a listing prints.
    pub open spec fn word(self) -> Seq<char> {
        match self {
            Kind::Block => "block"@,
            Kind::Lib => "lib"@,
        }
    }

    /// The word a listing prints.
    pub fn as_str(self) -> (out: &'static str)
        ensures
            out@ == self.word(),
    {
        match self {
            Kind::Block => "block",
            Kind::Lib => "lib",
        }
    }
}

/// One embedded module: the name `require` resolves, which kind it is, and its
/// Lua source.  A sub-module carries its dotted name whole.
#[derive(Debug, Clone, Copy)]
pub struct Entry {
    /// The `require` name.
    pub name: &'static str,
    /// Entry point or module.
    pub kind: Kind,
    /// The source, verbatim.
    pub source: &'static str,
}

/// The names of the embedded entry points.
pub open spec fn block_names() -> Seq<Seq<char>> {
    seq!["agent"@, "coding"@, "compile_loop"@, "coding_agent"@]
}

/// The names of the embedded modules.
pub open spec fn lib_names() -> Seq<Seq<char>> {
    seq![
        "session"@,
        "tool_loop"@,
        "llm_proto"@,
        "llm_proto.openai"@,
        "llm_proto.anthropic"@,
        "lshape"@,
        "lshape.t"@,
        "lshape.check"@,
        "lshape.reflect"@,
        "lshape.luacats"@,
        "mcp_tools"@,
        "knl"@,
        "knl_adapter"@,
        "policy"@,
    ]
}

/// What each name of a list reads as.
pub open spec fn name_views(list: Seq<&'static str>) -> Seq<Seq<char>> {
    list.map_values(|s: &'static str| s@)
}

/// The names of the embedded entry points, in the order the binary lists them.
pub fn embedded_blocks() -> (out: Vec<&'static str>)
    ensures
        name_views(out@) == block_names(),
{
    let mut out: Vec<&'static str> = Vec::new();
    out.push("agent");
    out.push("coding");
    out.push("compile_loop");
    out.push("coding_agent");
    assert(name_views(out@) =~= block_names());
    out
}

/// The names of the embedded modules, in the order the binary lists them.
pub fn embedded_libs() -> (out: Vec<&'static str>)
    ensures
        name_views(out@) == lib_names(),
{
    let mut out: Vec<&'static str> = Vec::new();
    out.push("session");
    out.push("tool_loop");
    out.push("llm_proto");
    out.push("llm_proto.openai");
    out.push("llm_proto.anthropic");
    out.push("lshape");
    out.push("lshape.t");
    out.push("lshape.check");
    out.push("lshape.reflect");
    out.push("lshape.luacats");
    out.push("mcp_tools");
    out.push("knl");
    out.push("knl_adapter");
    out.push("policy");
    assert(name_views(out@) =~= lib_names());
    out
}

/// Whether an entry is this module, under this kind.
pub open spec fn is_entry(e: Entry, module: (&'static str, &'static str), kind: Kind) -> bool {
    e.name@ == module.0@ && e.source@ == module.1@ && e.kind == kind
}

/// Whether a list is the blocks first, then the modules, each in their order.
pub open spec fn lists_modules(
    list: Seq<Entry>,
    blocks: Seq<(&'static str, &'static str)>,
    libs: Seq<(&'static str, &'static str)>,
) -> bool {
    &&& list.len() == blocks.len() + libs.len()
    &&& forall|i: int|
        0 <= i < list.len() ==> if i < blocks.len() {
            is_entry(#[trigger] list[i], blocks[i], Kind::Block)
        } else {
            is_entry(list[i], libs[i - blocks.len()], Kind::Lib)
        }
}

/// Every embedded entry: the blocks first, then the modules, each in the order
/// they are given in, with the source they are given with.
pub fn entries(
    blocks: &[(&'static str, &'static str)],
    libs: &[(&'static str, &'static str)],
) -> (out: Vec<Entry>)
    ensures
        lists_modules(out@, blocks@, libs@),
{
    let mut out: Vec<Entry> = Vec::new();
    let mut i: usize = 0;
    while i < blocks.len()
        invariant
            i <= blocks@.len(),
            out@.len() == i,
            forall|j: int| 0 <= j < i ==> is_entry(#[trigger] out@[j], blocks@[j], Kind::Block),
        decreases blocks@.len() - i,
    {
        out.push(Entry { name: blocks[i].0, kind: Kind::Block, source: blocks[i].1 });
        i += 1;
    }
    let n: usize = blocks.len();
    let mut k: usize = 0;
    while k < libs.len()
        invariant
            n == blocks@.len(),
            k <= libs@.len(),
            out@.len() == n + k,
            forall|j: int|
                0 <= j < out@.len() ==> if j < n {
                    is_entry(#[trigger] out@[j], blocks@[j], Kind::Block)
                } else {
                    is_entry(out@[j], libs@[j - n], Kind::Lib)
                },
        decreases libs@.len() - k,
    {
        out.push(Entry { name: libs[k].0, kind: Kind::Lib, source: libs[k].1 });
        k += 1;
    }
    out
}

/// The first entry of a list named `name`, if it carries one.
pub fn find(list: &[Entry], name: &str) -> (out: Option<Entry>)
    ensures
        match out {
            Some(e) => exists|i: int|
                0 <= i < list@.len() && #[trigger] list@[i] == e && e.name@ == name@ && forall|
                    j: int,
                | 0 <= j < i ==> (#[trigger] list@[j]).name@ != name@,
            None => forall|j: int| 0 <= j < list@.len() ==> (#[trigger] list@[j]).name@ != name@,
        },
{
    let mut i: usize = 0;
    while i < list.len()
        invariant
            0 <= i <= list@.len(),
            forall|j: int| 0 <= j < i ==> (#[trigger] list@[j]).name@ != name@,
        decreases list@.len() - i,
    {
        if same(list[i].name, name) {
            let e = list[i];
            assert(list@[i as int] == e);
            return Some(e);
        }
        i += 1;
    }
    None
}

/// What stands before the first dot of a module's name.
pub open spec fn root_of(name: Seq<char>) -> Seq<char> {
    split(name, '.')[0]
}

/// Whether a name is on the list of modules a project may not shadow.
pub open spec fn on_sealed_list(name: Seq<char>) -> bool {
    name == "knl"@ || name == "knl_adapter"@ || name == "knl_types"@ || name == "lshape"@
}

/// Whether a name is on the list of modules a project may not shadow.
fn sealed_name(name: &str) -> (yes: bool)
    ensures
        yes == on_sealed_list(name@),
{
    same(name, "knl") || same(name, "knl_adapter") || same(name, "knl_types") || same(
        name,
        "lshape",
    )
}

/// Whether a name is sealed: on the list, or a part of a root on the list.
pub open spec fn sealed(name: Seq<char>) -> bool {
    on_sealed_list(name) || on_sealed_list(root_of(name))
}

/// Whether `name` is a module a project may not shadow: the kernel, its
/// declaration layer, and the `lshape` those are written in.  True for a
/// sub-module of a sealed root as well as for the names listed outright.
pub fn is_sealed(name: &str) -> (yes: bool)
    ensures
        yes == sealed(name@),
{
    let chars = chars_of(name);
    let parts = split_chars(chars.as_slice(), '.');
    proof {
        crate::text::lemma_split_parts(name@, '.');
        assert(views(parts@).len() == parts@.len());
        assert(parts@[0]@ == views(parts@)[0]);
    }
    sealed_name(name) || sealed_name(parts[0].as_str())
}

/// The seal covers a root and its parts: a sub-module of a sealed root is
/// sealed, whatever it is called.
pub proof fn law_the_seal_covers_a_root_and_its_parts(root: Seq<char>, part: Seq<char>)
    requires
        on_sealed_list(root),
    ensures
        sealed(root + seq!['.'] + part),
{
    reveal_strlit("knl");
    reveal_strlit("knl_adapter");
    reveal_strlit("knl_types");
    reveal_strlit("lshape");
    assert(!root.contains('.')) by {
        assert forall|i: int| 0 <= i < root.len() implies root[i] != '.' by {}
    }
    crate::text::lemma_first_part(root, '.', part);
}

/// The place of the first sealed name of a list.
pub open spec fn first_sealed(names: Seq<Seq<char>>) -> Option<int>
    decreases names.len(),
{
    if names.len() == 0 {
        None
    } else {
        match first_sealed(names.drop_last()) {
            Some(i) => Some(i),
            None => if sealed(names.last()) {
                Some(names.len() - 1)
            } else {
                None
            },
        }
    }
}

/// Whether the setting lifts the seal: `1` does, and nothing else.
pub open spec fn lifts_seal(unseal: Option<&str>) -> bool {
    unseal matches Some(v) && v@ == "1"@
}

/// What a project that shadows a sealed module is told.
pub open spec fn seal_words(name: Seq<char>) -> Seq<char> {
    "module `"@ + name + "` is sealed: a project may not shadow it (AGENT_BLOCK_UNSEAL=1 lifts the seal)"@
}

/// Decide whether a run may go on, given the names of the modules the project
/// brings and the value of `AGENT_BLOCK_UNSEAL`: not when one of them is sealed,
/// unless the setting lifts the seal.
pub fn check_seal(shadowed: &[String], unseal: Option<&str>) -> (out: Result<(), String>)
    ensures
        out is Err <==> first_sealed(views(shadowed@)) is Some && !lifts_seal(unseal),
        out matches Err(e) ==> e@ == seal_words(
            views(shadowed@)[first_sealed(views(shadowed@))->0],
        ),
{
    if let Some(value) = unseal {
        if same(value, "1") {
            return Ok(());
        }
    }
    let ghost all = views(shadowed@);
    assert(all.take(0) =~= Seq::<Seq<char>>::empty());
    let mut i: usize = 0;
    while i < shadowed.len()
        invariant
            all == views(shadowed@),
            i <= shadowed@.len(),
            first_sealed(all.take(i as int)) is None,
            !lifts_seal(unseal),
        decreases shadowed@.len() - i,
    {
        let name = shadowed[i].as_str();
        let ghost now = all.take(i + 1);
        assert(now.drop_last() =~= all.take(i as int));
        assert(now.last() == name@);
        if is_sealed(name) {
            let mut e = "module `".to_owned();
            e.append(name);
            e.append(
                "` is sealed: a project may not shadow it (AGENT_BLOCK_UNSEAL=1 lifts the seal)",
            );
            proof {
                assert(first_sealed(now) == Some(i as int));
                lemma_first_sealed_stays(all, i + 1);
            }
            return Err(e);
        }
        i += 1;
    }
    assert(all.take(all.len() as int) =~= all);
    Ok(())
}

/// The first sealed name of the front of a list is the first of the list.
proof fn lemma_first_sealed_stays(names: Seq<Seq<char>>, n: int)
    requires
        0 <= n <= names.len(),
        first_sealed(names.take(n)) is Some,
    ensures
        first_sealed(names) == first_sealed(names.take(n)),
    decreases names.len(),
{
    if n < names.len() {
        let front = names.drop_last();
        assert(front.take(n) =~= names.take(n));
        lemma_first_sealed_stays(front, n);
    } else {
        assert(names.take(n) =~= names);
    }
}

/// What `first_sealed` gives is sealed and the first that is; where it gives
/// nothing, no name is.
pub proof fn law_a_sealed_name_is_found(names: Seq<Seq<char>>)
    ensures
        first_sealed(names) is Some <==> exists|i: int|
            0 <= i < names.len() && sealed(#[trigger] names[i]),
        first_sealed(names) matches Some(i) ==> {
            &&& 0 <= i < names.len()
            &&& sealed(names[i])
            &&& forall|j: int| 0 <= j < i ==> !sealed(#[trigger] names[j])
        },
    decreases names.len(),
{
    if names.len() > 0 {
        let front = names.drop_last();
        law_a_sealed_name_is_found(front);
        assert forall|j: int| 0 <= j < front.len() implies front[j] == names[j] by {}
        match first_sealed(front) {
            Some(i) => {
                assert(names[i] == front[i]);
                assert forall|j: int| 0 <= j < i implies !sealed(#[trigger] names[j]) by {
                    assert(front[j] == names[j]);
                }
            },
            None => {
                assert forall|j: int| 0 <= j < front.len() implies !sealed(#[trigger] names[j]) by {
                    assert(front[j] == names[j]);
                }
                if sealed(names.last()) {
                    assert(sealed(names[names.len() - 1]));
                }
            },
        }
    }
}

/// The kernel, its adapter, its declarations and the module they are written in
/// are sealed with all their parts, and no other name is.
pub proof fn law_what_is_sealed(root: Seq<char>, part: Seq<char>)
    requires
        !root.contains('.'),
    ensures
        sealed(root) <==> root == "knl"@ || root == "knl_adapter"@ || root == "knl_types"@ || root
            == "lshape"@,
        sealed(root + seq!['.'] + part) <==> sealed(root),
{
    reveal_strlit("knl");
    reveal_strlit("knl_adapter");
    reveal_strlit("knl_types");
    reveal_strlit("lshape");
    let name = root + seq!['.'] + part;
    crate::text::lemma_first_part(root, '.', part);
    crate::text::law_a_split_goes_by_parts(root, '.', Seq::<char>::empty());
    assert(name[root.len() as int] == '.');
    assert(!on_sealed_list(name));
}

/// Of several sealed names a project brings, the first is named to it, and the
/// seal gives way to `1` alone.
pub proof fn law_the_first_sealed_name_is_told(names: Seq<Seq<char>>, i: int, unseal: &str)
    requires
        0 <= i < names.len(),
        sealed(names[i]),
        forall|j: int| 0 <= j < i ==> !sealed(#[trigger] names[j]),
    ensures
        first_sealed(names) == Some(i),
        lifts_seal(Some(unseal)) <==> unseal@ == seq!['1'],
        !lifts_seal(None),
    decreases names.len(),
{
    reveal_strlit("1");
    assert("1"@ =~= seq!['1']);
    if i < names.len() - 1 {
        law_the_first_sealed_name_is_told(names.drop_last(), i, unseal);
    } else {
        lemma_none_sealed(names.drop_last());
    }
}

proof fn lemma_none_sealed(names: Seq<Seq<char>>)
    requires
        forall|j: int| 0 <= j < names.len() ==> !sealed(#[trigger] names[j]),
    ensures
        first_sealed(names) is None,
    decreases names.len(),
{
    if names.len() > 0 {
        lemma_none_sealed(names.drop_last());
    }
}

/// Every module that is given is listed under its name with its source, a block
/// as a block and a module as a module.
pub proof fn law_every_module_is_listed(
    list: Seq<Entry>,
    blocks: Seq<(&'static str, &'static str)>,
    libs: Seq<(&'static str, &'static str)>,
)
    requires
        lists_modules(list, blocks, libs),
    ensures
        list.len() == blocks.len() + libs.len(),
        forall|i: int|
            0 <= i < blocks.len() ==> (#[trigger] list[i]).name@ == blocks[i].0@ && list[i].source@
                == blocks[i].1@ && list[i].kind is Block,
        forall|i: int|
            0 <= i < libs.len() ==> (#[trigger] list[blocks.len() + i]).name@ == libs[i].0@
                && list[blocks.len() + i].source@ == libs[i].1@ && list[blocks.len()
                + i].kind is Lib,
{
    assert forall|i: int| 0 <= i < libs.len() implies (#[trigger] list[blocks.len() + i]).name@
        == libs[i].0@ && list[blocks.len() + i].source@ == libs[i].1@ && list[blocks.len()
        + i].kind is Lib by {
        let k = blocks.len() + i;
        assert(is_entry(list[k], libs[k - blocks.len()], Kind::Lib));
    }
}

/// A listing tells the two kinds apart, and a refusal names the module.
pub proof fn law_a_refusal_names_the_module(name: Seq<char>)
    ensures
        Kind::Block.word() == "block"@,
        Kind::Lib.word() == "lib"@,
        seal_words(name) == "module `"@ + name
            + "` is sealed: a project may not shadow it (AGENT_BLOCK_UNSEAL=1 lifts the seal)"@,
{
}

} // verus!
