//! The host: what a run is configured with, and in which order it is set up,
//! executed and torn down.
//!
//! Spawning virtual machines, opening databases, connecting and reading files
//! is the caller's.  The functions here decide what is read, where things lie,
//! which handlers and tools are there, what comes next, and what the run comes
//! to.

use vstd::prelude::*;

use crate::bridge::config::{
    database, is_memory_sql, join_path, joined, kv_path, sql_path, ts_path, HomeEnv,
};
use crate::bus::dispatcher::EventBus;
use crate::bus::event::{ack_value, failure_words, is_uuid, random_id, AckOutcome, Event};
use crate::embedded::{block_names, embedded_blocks, name_views, Entry};
use crate::json::{is_text, Json};
use crate::paths::{dir_part, file_name, file_part, parent};
use crate::table::Table;
use crate::text::{
    chars_of, clone_opt, dec, decimal, hex, hex_digit, is_space, lemma_hex_len, opt_text, trim,
    trim_end, trim_start, trimmed, views,
};

verus! {

broadcast use vstd::string::group_string_axioms;

/// Why a run failed.
pub enum BlockError {
    /// The script, or a file it is made from.
    Script(String),
    /// The host itself.
    Runtime(String),
    /// The event bus.
    Bus(String),
    /// The mesh.
    Mesh(String),
    /// The caller cancelled the run.
    Cancelled,
}

// ── the mesh identity ────────────────────────────────────────────────

/// Whether a character is a hexadecimal digit.
pub open spec fn is_hex_digit(c: char) -> bool {
    ||| '0' <= c <= '9'
    ||| 'a' <= c <= 'f'
    ||| 'A' <= c <= 'F'
}

/// What a hexadecimal digit stands for.
pub open spec fn hex_value(c: char) -> int {
    if '0' <= c <= '9' {
        c as int - 48
    } else if 'a' <= c <= 'f' {
        c as int - 87
    } else {
        c as int - 55
    }
}

/// The first place that holds no hexadecimal digit.
pub open spec fn first_not_hex(s: Seq<char>, i: int) -> Option<int>
    decreases s.len() - i,
{
    if i < 0 || i >= s.len() {
        None
    } else if !is_hex_digit(s[i]) {
        Some(i)
    } else {
        first_not_hex(s, i + 1)
    }
}

/// How many bytes a text takes up.
pub open spec fn byte_len(s: Seq<char>) -> nat {
    vstd::utf8::encode_utf8(s).len()
}

/// Whether a key text can be looked at digit by digit: when it has the right
/// length, the first character that is no digit is an ASCII one.
pub open spec fn readable_key(text: Seq<char>) -> bool {
    let s = trim(text);
    byte_len(s) == 64 ==> (first_not_hex(s, 0) matches Some(i) ==> s[i] <= '\u{7f}')
}

/// What the digit at a place contributes.
fn hex_nibble(c: char) -> (out: Option<u8>)
    ensures
        match out {
            Some(v) => is_hex_digit(c) && v == hex_value(c) && v < 16,
            None => !is_hex_digit(c),
        },
{
    if '0' <= c && c <= '9' {
        Some(c as u8 - 48)
    } else if 'a' <= c && c <= 'f' {
        Some(c as u8 - 87)
    } else if 'A' <= c && c <= 'F' {
        Some(c as u8 - 55)
    } else {
        None
    }
}

proof fn lemma_first_not_hex(s: Seq<char>, i: int)
    requires
        0 <= i,
    ensures
        match first_not_hex(s, i) {
            Some(k) => i <= k < s.len() && !is_hex_digit(s[k]) && forall|j: int|
                i <= j < k ==> is_hex_digit(#[trigger] s[j]),
            None => forall|j: int| i <= j < s.len() ==> is_hex_digit(#[trigger] s[j]),
        },
    decreases s.len() - i,
{
    if i < s.len() && is_hex_digit(s[i]) {
        lemma_first_not_hex(s, i + 1);
    }
}

/// Thirty-two bytes, each written as two hexadecimal digits.
pub open spec fn writes_key(s: Seq<char>, bytes: Seq<u8>) -> bool {
    &&& s.len() == 64
    &&& bytes.len() == 32
    &&& forall|i: int|
        0 <= i < 32 ==> #[trigger] bytes[i] == 16 * hex_value(s[2 * i]) + hex_value(s[2 * i + 1])
}

/// The text of digits takes up one byte for each.
proof fn lemma_digit_bytes(s: Seq<char>)
    requires
        first_not_hex(s, 0) is None,
    ensures
        byte_len(s) == s.len(),
{
    lemma_first_not_hex(s, 0);
    assert(vstd::utf8::is_ascii_chars(s)) by {
        assert forall|j: int| 0 <= j < s.len() implies '\0' <= #[trigger] s[j] <= '\u{7f}' by {
            assert(is_hex_digit(s[j]));
        }
    }
    vstd::utf8::is_ascii_chars_encode_utf8(s);
}

/// The first place that holds no hexadecimal digit.
fn bad_digit(chars: &[char]) -> (out: Option<usize>)
    ensures
        match out {
            Some(i) => first_not_hex(chars@, 0) == Some(i as int),
            None => first_not_hex(chars@, 0) is None,
        },
{
    let mut i: usize = 0;
    while i < chars.len()
        invariant
            i <= chars@.len(),
            first_not_hex(chars@, 0) == first_not_hex(chars@, i as int),
        decreases chars@.len() - i,
    {
        if hex_nibble(chars[i]).is_none() {
            return Some(i);
        }
        i += 1;
    }
    None
}

/// Whether a key text can be looked at digit by digit.
pub fn key_is_readable(text: &str) -> (yes: bool)
    ensures
        yes == readable_key(text@),
{
    let all = chars_of(text);
    assert(all@.skip(0) =~= all@);
    let s = trimmed(all.as_slice(), 0);
    if s.as_str().as_bytes().len() != 64 {
        return true;
    }
    let chars = chars_of(s.as_str());
    match bad_digit(chars.as_slice()) {
        Some(i) => {
            proof {
                lemma_first_not_hex(chars@, 0);
            }
            chars[i] <= '\u{7f}'
        },
        None => true,
    }
}

/// The mesh secret key that sixty-four hexadecimal digits write, white space
/// around them aside.
pub fn hex_decode_32(text: &str) -> (out: Result<[u8; 32], String>)
    requires
        readable_key(text@),
    ensures
        ({
            let s = trim(text@);
            match out {
                Ok(bytes) => first_not_hex(s, 0) is None && writes_key(s, bytes@),
                Err(e) => if byte_len(s) != 64 {
                    e@ == "expected 64 hex chars, got "@ + dec(byte_len(s))
                } else {
                    &&& first_not_hex(s, 0) is Some
                    &&& e@ == "invalid hex at position "@ + dec(first_not_hex(s, 0)->0 as nat)
                        + ": invalid digit found in string"@
                },
            }
        }),
{
    let all = chars_of(text);
    assert(all@.skip(0) =~= all@);
    let s = trimmed(all.as_slice(), 0);
    let len: usize = s.as_str().as_bytes().len();
    if len != 64 {
        let mut e = "expected 64 hex chars, got ".to_owned();
        e.append(decimal(len as u64).as_str());
        proof {
            if first_not_hex(s@, 0) is None {
                lemma_digit_bytes(s@);
            }
        }
        return Err(e);
    }
    let chars = chars_of(s.as_str());
    match bad_digit(chars.as_slice()) {
        Some(i) => {
            proof {
                lemma_first_not_hex(chars@, 0);
            }
            let mut e = "invalid hex at position ".to_owned();
            e.append(decimal(i as u64).as_str());
            e.append(": invalid digit found in string");
            Err(e)
        },
        None => {
            proof {
                lemma_digit_bytes(chars@);
                lemma_first_not_hex(chars@, 0);
            }
            let mut bytes: [u8; 32] = [0; 32];
            let mut i: usize = 0;
            while i < 32
                invariant
                    i <= 32,
                    chars@.len() == 64,
                    bytes@.len() == 32,
                    forall|j: int| 0 <= j < 64 ==> is_hex_digit(#[trigger] chars@[j]),
                    forall|j: int|
                        0 <= j < i ==> #[trigger] bytes@[j] == 16 * hex_value(chars@[2 * j])
                            + hex_value(chars@[2 * j + 1]),
                decreases 32 - i,
            {
                assert(is_hex_digit(chars@[2 * i as int]));
                assert(is_hex_digit(chars@[2 * i as int + 1]));
                match (hex_nibble(chars[2 * i]), hex_nibble(chars[2 * i + 1])) {
                    (Some(hi), Some(lo)) => {
                        bytes[i] = hi * 16 + lo;
                    },
                    _ => {},
                }
                i += 1;
            }
            Ok(bytes)
        },
    }
}

/// Each byte is two digits.
pub proof fn lemma_hex_pairs(bytes: Seq<u8>, i: int)
    requires
        0 <= i < bytes.len(),
    ensures
        hex(bytes).len() == 2 * bytes.len(),
        hex(bytes)[2 * i] == hex_digit(bytes[i] as int / 16),
        hex(bytes)[2 * i + 1] == hex_digit(bytes[i] as int % 16),
    decreases bytes.len(),
{
    lemma_hex_len(bytes);
    lemma_hex_len(bytes.drop_last());
    if i < bytes.len() - 1 {
        lemma_hex_pairs(bytes.drop_last(), i);
    }
}

/// A key written as lower-case hexadecimal digits is read back as it was.
pub proof fn law_a_written_key_reads_back(bytes: Seq<u8>)
    requires
        bytes.len() == 32,
    ensures
        trim(hex(bytes)) == hex(bytes),
        first_not_hex(hex(bytes), 0) is None,
        byte_len(hex(bytes)) == 64,
        writes_key(hex(bytes), bytes),
        forall|other: Seq<u8>| #[trigger] writes_key(hex(bytes), other) ==> other == bytes,
{
    let s = hex(bytes);
    lemma_hex_len(bytes);
    assert forall|j: int| 0 <= j < 64 implies is_hex_digit(#[trigger] s[j]) && !is_space(s[j]) by {
        lemma_hex_pairs(bytes, j / 2);
        assert(j == 2 * (j / 2) || j == 2 * (j / 2) + 1);
    }
    lemma_first_not_hex(s, 0);
    lemma_digit_bytes(s);
    assert(!is_space(s[0]) && !is_space(s[63]));
    assert(trim_start(s) == s);
    assert(s.last() == s[63]);
    assert(trim_end(s) == s);
    assert forall|i: int| 0 <= i < 32 implies #[trigger] bytes[i] == 16 * hex_value(s[2 * i])
        + hex_value(s[2 * i + 1]) by {
        lemma_hex_pairs(bytes, i);
    }
    assert forall|other: Seq<u8>| #[trigger] writes_key(s, other) implies other == bytes by {
        assert forall|i: int| 0 <= i < 32 implies other[i] == bytes[i] by {
            assert(bytes[i] == 16 * hex_value(s[2 * i]) + hex_value(s[2 * i + 1]));
        }
        assert(other =~= bytes);
    }
}

// ── what a run is made from ──────────────────────────────────────────

/// How the Lua script is supplied.
pub enum ScriptSource {
    /// Read from a path at the start.
    Path(String),
    /// The source itself, and the name it is shown under.
    Inline { source: String, name: String },
    /// The built-in invoker of the `agent` module.
    DefaultAgent,
}

/// How a prompt or a context is supplied.
pub enum PromptSource {
    /// The text itself.
    Inline(String),
    /// A path, read at the start.
    File(String),
}

/// How the mesh identity's secret key is supplied.
pub enum SecretKeySource {
    /// Sixty-four hexadecimal digits.
    Inline(String),
    /// The name of an environment variable, read at the start.
    Env(String),
}

/// A tool the host implements, with the handler that answers a call.
pub struct HostToolSpec<T> {
    pub name: String,
    pub description: String,
    pub input_schema: Json,
    pub group: Option<String>,
    pub handler: T,
}

/// Everything one run is configured with: `H` answers events, `T` answers tool
/// calls, `C` is an HTTP client and `S` a shutdown token.
#[non_exhaustive]
pub struct BlockConfig<H, T, C, S> {
    /// The script to execute.
    pub script: ScriptSource,
    /// Where `.env` and inline scripts lie.
    pub project_root: String,
    /// The mesh relay; without one there is no mesh.
    pub relay_url: Option<String>,
    /// The mesh identity; without one it is random.
    pub secret_key: Option<SecretKeySource>,
    /// How long one MCP round-trip may take; without a value, what the MCP
    /// manager has by default.
    pub mcp_rpc_timeout: Option<core::time::Duration>,
    /// The `_PROMPT` global.
    pub prompt: Option<PromptSource>,
    /// The `_CONTEXT` global.
    pub context: Option<PromptSource>,
    /// Handlers by event kind.
    pub host_handlers: Table<H>,
    /// The handler of every kind that has none.
    pub host_handler: Option<H>,
    /// Tools the host implements.
    pub host_tools: Vec<HostToolSpec<T>>,
    /// The HTTP client of the bridges.
    pub http_client: Option<C>,
    /// The database of `std.sql`.
    pub sql_path: Option<String>,
    /// The database of `std.kv`.
    pub kv_path: Option<String>,
    /// The database of `std.ts`.
    pub ts_path: Option<String>,
    /// Further Lua globals.
    pub extra_globals: Table<Json>,
    /// Whether the event loop runs beside the script.
    pub auto_serve_bus: bool,
    /// Cancels the run.
    pub shutdown_token: Option<S>,
}

/// Where a tool comes from.
#[derive(Debug, Clone, Copy, PartialEq, Eq, Structural)]
pub enum ToolSource {
    /// The configuration.
    HostRust,
    /// A module the binary carries.
    EmbeddedBlock,
}

/// A tool as a listing shows it.
pub struct ToolMeta {
    pub name: String,
    pub description: String,
    pub group: Option<String>,
    pub source: ToolSource,
}

/// What a listing says of an embedded block.
pub open spec fn block_description(name: Seq<char>) -> Seq<char> {
    "Embedded StdPkg block (require(\""@ + name + "\"))"@
}

/// Whether a listing shows a tool of the host as it is.
pub open spec fn shows_tool<T>(m: ToolMeta, t: HostToolSpec<T>) -> bool {
    &&& m.name@ == t.name@
    &&& m.description@ == t.description@
    &&& opt_text(m.group) == opt_text(t.group)
    &&& m.source == ToolSource::HostRust
}

/// Whether a listing shows an embedded block.
pub open spec fn shows_block(m: ToolMeta, name: Seq<char>) -> bool {
    &&& m.name@ == name
    &&& m.description@ == block_description(name)
    &&& m.group is None
    &&& m.source == ToolSource::EmbeddedBlock
}

/// The tools a configuration exposes before the script runs: those of the
/// host, then the embedded blocks, each in their order.
pub fn inspect_tools<H, T, C, S>(config: &BlockConfig<H, T, C, S>) -> (out: Vec<ToolMeta>)
    ensures
        out@.len() == config.host_tools@.len() + block_names().len(),
        forall|i: int|
            0 <= i < config.host_tools@.len() ==> shows_tool(
                #[trigger] out@[i],
                config.host_tools@[i],
            ),
        forall|i: int|
            0 <= i < block_names().len() ==> shows_block(
                #[trigger] out@[config.host_tools@.len() + i],
                block_names()[i],
            ),
{
    let mut out: Vec<ToolMeta> = Vec::new();
    let mut i: usize = 0;
    while i < config.host_tools.len()
        invariant
            i <= config.host_tools@.len(),
            out@.len() == i,
            forall|j: int| 0 <= j < i ==> shows_tool(#[trigger] out@[j], config.host_tools@[j]),
        decreases config.host_tools@.len() - i,
    {
        let t = &config.host_tools[i];
        out.push(
            ToolMeta {
                name: t.name.clone(),
                description: t.description.clone(),
                group: clone_opt(&t.group),
                source: ToolSource::HostRust,
            },
        );
        i += 1;
    }
    let blocks = embedded_blocks();
    let ghost n = out@.len() as int;
    let mut k: usize = 0;
    assert(name_views(blocks@).len() == blocks@.len());
    while k < blocks.len()
        invariant
            k <= blocks@.len(),
            n == config.host_tools@.len(),
            out@.len() == n + k,
            name_views(blocks@) == block_names(),
            forall|j: int| 0 <= j < n ==> shows_tool(#[trigger] out@[j], config.host_tools@[j]),
            forall|j: int|
                n <= j < n + k ==> shows_block(#[trigger] out@[j], block_names()[j - n]),
        decreases blocks@.len() - k,
    {
        let name: &'static str = blocks[k];
        assert(name_views(blocks@)[k as int] == name@);
        let mut description = "Embedded StdPkg block (require(\"".to_owned();
        description.append(name);
        description.append("\"))");
        out.push(
            ToolMeta {
                name: name.to_owned(),
                description,
                group: None,
                source: ToolSource::EmbeddedBlock,
            },
        );
        k += 1;
    }
    assert forall|i: int| 0 <= i < block_names().len() implies shows_block(
        #[trigger] out@[config.host_tools@.len() + i],
        block_names()[i],
    ) by {
        assert(block_names()[i] == block_names()[(n + i) - n]);
    }
    out
}

// ── where modules are looked for ─────────────────────────────────────

/// The two patterns under which a directory's modules are looked for.
pub open spec fn patterns(root: Seq<char>) -> Seq<char> {
    root + "/?.lua;"@ + root + "/?/init.lua;"@
}

/// The patterns of a list of directories, one after the other.
pub open spec fn search_path(roots: Seq<Seq<char>>) -> Seq<char>
    decreases roots.len(),
{
    if roots.len() == 0 {
        Seq::empty()
    } else {
        search_path(roots.drop_last()) + patterns(roots.last())
    }
}

/// The `blocks` directory beside the executable.
pub open spec fn exe_blocks(exe: Option<&str>) -> Option<Seq<char>> {
    match exe {
        Some(e) => match dir_part(e@) {
            Some(d) => Some(joined(d, "blocks"@)),
            None => None,
        },
        None => None,
    }
}

/// The `blocks` directories that are there: the project's, then the one beside
/// the executable.
pub open spec fn blocks_roots(
    project_root: Seq<char>,
    exe: Option<&str>,
    in_project: bool,
    beside_exe: bool,
) -> Seq<Seq<char>> {
    let first = if in_project {
        seq![joined(project_root, "blocks"@)]
    } else {
        Seq::empty()
    };
    match exe_blocks(exe) {
        Some(b) => if beside_exe {
            first.push(b)
        } else {
            first
        },
        None => first,
    }
}

/// The `blocks` directory of a project.
pub fn project_blocks(project_root: &str) -> (out: String)
    ensures
        out@ == joined(project_root@, "blocks"@),
{
    join_path(project_root, "blocks")
}

/// The `blocks` directory beside the executable.
pub fn blocks_beside(exe: Option<&str>) -> (out: Option<String>)
    ensures
        opt_text(out) == exe_blocks(exe),
{
    match exe {
        Some(e) => match parent(e) {
            Some(d) => Some(join_path(d.as_str(), "blocks")),
            None => None,
        },
        None => None,
    }
}

/// The `blocks` directories that are there, where the two answers say which
/// of them are directories.
pub fn build_blocks_roots(
    project_root: &str,
    exe: Option<&str>,
    in_project: bool,
    beside_exe: bool,
) -> (out: Vec<String>)
    ensures
        views(out@) == blocks_roots(project_root@, exe, in_project, beside_exe),
{
    let mut out: Vec<String> = Vec::new();
    if in_project {
        out.push(project_blocks(project_root));
    }
    if let Some(b) = blocks_beside(exe) {
        if beside_exe {
            out.push(b);
        }
    }
    assert(views(out@) =~= blocks_roots(project_root@, exe, in_project, beside_exe));
    out
}

/// The patterns of a list of directories.
fn patterns_of(roots: &[String]) -> (out: String)
    ensures
        out@ == search_path(views(roots@)),
{
    let mut out = String::new();
    let mut i: usize = 0;
    while i < roots.len()
        invariant
            i <= roots@.len(),
            out@ == search_path(views(roots@).take(i as int)),
        decreases roots@.len() - i,
    {
        let root = roots[i].as_str();
        out.append(root);
        out.append("/?.lua;");
        out.append(root);
        out.append("/?/init.lua;");
        proof {
            let now = views(roots@).take(i + 1);
            assert(now.drop_last() =~= views(roots@).take(i as int));
            assert(now.last() == roots@[i as int]@);
            assert(out@ =~= search_path(now));
        }
        i += 1;
    }
    assert(views(roots@).take(roots@.len() as int) =~= views(roots@));
    out
}

/// The `blocks` part of `package.path`.
pub fn build_blocks_path(
    project_root: &str,
    exe: Option<&str>,
    in_project: bool,
    beside_exe: bool,
) -> (out: String)
    ensures
        out@ == search_path(blocks_roots(project_root@, exe, in_project, beside_exe)),
{
    let roots = build_blocks_roots(project_root, exe, in_project, beside_exe);
    patterns_of(roots.as_slice())
}

/// `package.path` of a virtual machine.
pub open spec fn package(script_dir: Seq<char>, blocks_paths: Seq<char>, current: Seq<char>) -> Seq<
    char,
> {
    patterns(script_dir) + blocks_paths + current
}

/// `package.path` of a virtual machine: the script's directory, the `blocks`
/// part, and what was there.
pub fn package_path(script_dir: &str, blocks_paths: &str, current: &str) -> (out: String)
    ensures
        out@ == package(script_dir@, blocks_paths@, current@),
{
    let mut out = script_dir.to_owned();
    out.append("/?.lua;");
    out.append(script_dir);
    out.append("/?/init.lua;");
    out.append(blocks_paths);
    out.append(current);
    out
}

proof fn lemma_search_path_append(a: Seq<char>, rest: Seq<Seq<char>>)
    ensures
        search_path(seq![a] + rest) == patterns(a) + search_path(rest),
    decreases rest.len(),
{
    let all = seq![a] + rest;
    if rest.len() == 0 {
        assert(all =~= seq![a]);
        assert(all.drop_last() =~= Seq::<Seq<char>>::empty());
        assert(search_path(all.drop_last()) =~= Seq::<char>::empty());
        assert(search_path(all) =~= patterns(a));
        assert(search_path(rest) =~= Seq::<char>::empty());
        assert(patterns(a) + search_path(rest) =~= patterns(a));
    } else {
        lemma_search_path_append(a, rest.drop_last());
        assert(all.drop_last() =~= seq![a] + rest.drop_last());
        assert(all.last() == rest.last());
        assert(search_path(all) =~= patterns(a) + search_path(rest));
    }
}

/// `package.path` searches the same directories in the same order as the
/// module registry does: what the one finds first, the other does too.
pub proof fn law_both_lookups_search_the_same_roots(
    script_dir: Seq<char>,
    blocks: Seq<Seq<char>>,
    current: Seq<char>,
)
    ensures
        package(script_dir, search_path(blocks), current) == search_path(seq![script_dir] + blocks)
            + current,
{
    lemma_search_path_append(script_dir, blocks);
    assert(package(script_dir, search_path(blocks), current) =~= search_path(
        seq![script_dir] + blocks,
    ) + current);
}

/// Whether the modules a virtual machine carries are these: every embedded
/// entry with its source, then the generated declarations.
pub open spec fn carries_modules(
    list: Seq<(String, String)>,
    embedded: Seq<Entry>,
    declarations: Seq<char>,
) -> bool {
    &&& list.len() == embedded.len() + 1
    &&& forall|i: int|
        0 <= i < embedded.len() ==> (#[trigger] list[i]).0@ == embedded[i].name@ && list[i].1@
            == embedded[i].source@
    &&& list.last().0@ == "knl_types"@
    &&& list.last().1@ == declarations
}

/// The modules a virtual machine carries, each under the name `require` knows
/// it by.
pub fn memory_modules(embedded: &[Entry], declarations: String) -> (out: Vec<(String, String)>)
    ensures
        carries_modules(out@, embedded@, declarations@),
{
    let mut out: Vec<(String, String)> = Vec::new();
    let mut i: usize = 0;
    while i < embedded.len()
        invariant
            i <= embedded@.len(),
            out@.len() == i,
            forall|j: int|
                0 <= j < i ==> (#[trigger] out@[j]).0@ == embedded@[j].name@ && out@[j].1@
                    == embedded@[j].source@,
        decreases embedded@.len() - i,
    {
        out.push((embedded[i].name.to_owned(), embedded[i].source.to_owned()));
        i += 1;
    }
    out.push(("knl_types".to_owned(), declarations));
    out
}

// ── what `require` finds ─────────────────────────────────────────────

/// One of the places that `require` looks for a module in.
#[derive(Debug, PartialEq)]
pub enum Resolver {
    /// A directory, with the modules that lie in it.
    Directory(String),
    /// The modules a virtual machine carries: names and sources.
    Modules(Vec<(String, String)>),
}

/// Whether these are the places `require` looks in, in turn: each of the
/// directories, and the modules a virtual machine carries last.
pub open spec fn is_search(
    list: Seq<Resolver>,
    roots: Seq<Seq<char>>,
    modules: Seq<(String, String)>,
) -> bool {
    &&& list.len() == roots.len() + 1
    &&& forall|i: int|
        0 <= i < roots.len() ==> (#[trigger] list[i] matches Resolver::Directory(d) && d@
            == roots[i])
    &&& list.last() matches Resolver::Modules(m) && m@ == modules
}

/// The places `require` looks in, in turn: the script's directory, the `blocks`
/// directories in their order, and last the modules the virtual machine
/// carries.
pub fn resolvers(script_dir: &str, blocks: Vec<String>, modules: Vec<(String, String)>) -> (out: Vec<
    Resolver,
>)
    ensures
        is_search(out@, seq![script_dir@] + views(blocks@), modules@),
{
    let mut out: Vec<Resolver> = Vec::new();
    out.push(Resolver::Directory(script_dir.to_owned()));
    let mut i: usize = 0;
    while i < blocks.len()
        invariant
            i <= blocks@.len(),
            out@.len() == i + 1,
            forall|j: int|
                0 <= j <= i ==> (#[trigger] out@[j] matches Resolver::Directory(d) && d@ == (seq![
                    script_dir@,
                ] + views(blocks@))[j]),
        decreases blocks@.len() - i,
    {
        out.push(Resolver::Directory(blocks[i].clone()));
        assert((seq![script_dir@] + views(blocks@))[i + 1] == blocks@[i as int]@);
        i += 1;
    }
    out.push(Resolver::Modules(modules));
    out
}

/// The source of a module that a virtual machine carries.  Of two under one name
/// the later one counts.
pub open spec fn carried_source(modules: Seq<(String, String)>, name: Seq<char>) -> Option<Seq<char>>
    decreases modules.len(),
{
    if modules.len() == 0 {
        None
    } else if modules.last().0@ == name {
        Some(modules.last().1@)
    } else {
        carried_source(modules.drop_last(), name)
    }
}

/// What one place has of a module, where `disk` says what lies in a directory
/// under a name.
pub open spec fn held(
    place: Resolver,
    disk: spec_fn(Seq<char>, Seq<char>) -> Option<Seq<char>>,
    name: Seq<char>,
) -> Option<Seq<char>> {
    match place {
        Resolver::Directory(d) => disk(d@, name),
        Resolver::Modules(m) => carried_source(m@, name),
    }
}

/// What `require` loads for a name: what the first place has that has it.
pub open spec fn required(
    list: Seq<Resolver>,
    disk: spec_fn(Seq<char>, Seq<char>) -> Option<Seq<char>>,
    name: Seq<char>,
) -> Option<Seq<char>>
    decreases list.len(),
{
    if list.len() == 0 {
        None
    } else {
        match held(list[0], disk, name) {
            Some(source) => Some(source),
            None => required(list.skip(1), disk, name),
        }
    }
}

proof fn lemma_required(
    list: Seq<Resolver>,
    disk: spec_fn(Seq<char>, Seq<char>) -> Option<Seq<char>>,
    name: Seq<char>,
    k: int,
)
    requires
        0 <= k < list.len(),
        forall|j: int| 0 <= j < k ==> held(#[trigger] list[j], disk, name) is None,
        held(list[k], disk, name) is Some || k == list.len() - 1,
    ensures
        required(list, disk, name) == held(list[k], disk, name),
    decreases k,
{
    let rest = list.skip(1);
    if k > 0 {
        assert(held(list[0], disk, name) is None);
        assert forall|j: int| 0 <= j < k - 1 implies held(#[trigger] rest[j], disk, name) is None by {
            assert(rest[j] == list[j + 1]);
        }
        assert(rest[k - 1] == list[k]);
        lemma_required(rest, disk, name, k - 1);
    } else if held(list[0], disk, name) is None {
        assert(required(rest, disk, name) is None);
    }
}

/// A copy of a module on disk overrides the one a virtual machine carries: what
/// `require` loads is what the first directory holds that holds it, the script's
/// before the project's.
pub proof fn law_a_copy_on_disk_overrides(
    list: Seq<Resolver>,
    roots: Seq<Seq<char>>,
    modules: Seq<(String, String)>,
    disk: spec_fn(Seq<char>, Seq<char>) -> Option<Seq<char>>,
    name: Seq<char>,
    k: int,
)
    requires
        is_search(list, roots, modules),
        0 <= k < roots.len(),
        disk(roots[k], name) is Some,
        forall|j: int| 0 <= j < k ==> disk(#[trigger] roots[j], name) is None,
    ensures
        required(list, disk, name) == disk(roots[k], name),
{
    assert(list[k] matches Resolver::Directory(d) && d@ == roots[k]);
    assert forall|j: int| 0 <= j < k implies held(#[trigger] list[j], disk, name) is None by {
        assert(disk(roots[j], name) is None);
    }
    lemma_required(list, disk, name, k);
}

proof fn lemma_carried(modules: Seq<(String, String)>, name: Seq<char>, k: int)
    requires
        0 <= k < modules.len(),
        modules[k].0@ == name,
        forall|j: int| k < j < modules.len() ==> (#[trigger] modules[j]).0@ != name,
    ensures
        carried_source(modules, name) == Some(modules[k].1@),
    decreases modules.len(),
{
    if k < modules.len() - 1 {
        assert(modules[modules.len() - 1].0@ != name);
        lemma_carried(modules.drop_last(), name, k);
    }
}

/// A module that lies in no directory is still found where it is embedded: what
/// `require` loads is its embedded source.
pub proof fn law_without_a_copy_the_embedded_module_serves(
    list: Seq<Resolver>,
    roots: Seq<Seq<char>>,
    modules: Seq<(String, String)>,
    embedded: Seq<Entry>,
    declarations: Seq<char>,
    disk: spec_fn(Seq<char>, Seq<char>) -> Option<Seq<char>>,
    k: int,
)
    requires
        is_search(list, roots, modules),
        carries_modules(modules, embedded, declarations),
        0 <= k < embedded.len(),
        embedded[k].name@ != "knl_types"@,
        forall|j: int|
            k < j < embedded.len() ==> (#[trigger] embedded[j]).name@ != embedded[k].name@,
        forall|j: int| 0 <= j < roots.len() ==> disk(#[trigger] roots[j], embedded[k].name@) is None,
    ensures
        required(list, disk, embedded[k].name@) == Some(embedded[k].source@),
{
    let name = embedded[k].name@;
    assert forall|j: int| k < j < modules.len() implies (#[trigger] modules[j]).0@ != name by {
        if j < embedded.len() {
            assert(modules[j].0@ == embedded[j].name@);
        }
    }
    assert(modules[k].0@ == name);
    lemma_carried(modules, name, k);
    assert forall|j: int| 0 <= j < roots.len() implies held(#[trigger] list[j], disk, name) is None by {
        assert(disk(roots[j], name) is None);
    }
    lemma_required(list, disk, name, list.len() - 1);
}

// ── the sources of a run ─────────────────────────────────────────────

/// The script that [`ScriptSource::DefaultAgent`] stands for.
pub open spec fn default_agent_invoker() -> Seq<char> {
    "\nlocal agent = require(\"agent\")\nlocal r = agent.run({\n    prompt = _PROMPT,\n    system = _CONTEXT,\n})\nbus.emit(\"_\", r)\n"@
}

/// What reading the sources gave: a text or the reason there is none for each
/// file, and the value of the variable.  What a configuration does not ask for
/// is not looked at.
pub struct Reads {
    pub script: Result<String, String>,
    pub prompt: Result<String, String>,
    pub context: Result<String, String>,
    pub secret_key: Option<String>,
}

/// The sources of a run, read.
pub struct ResolvedSources {
    pub script_source: String,
    pub script_name: String,
    pub script_dir: String,
    pub prompt: Option<String>,
    pub context: Option<String>,
    pub secret_key: Option<String>,
}

/// Why a script cannot be had.
pub open spec fn script_failure(script: ScriptSource, read: Result<String, String>) -> Option<
    Seq<char>,
> {
    match (script, read) {
        (ScriptSource::Path(p), Err(e)) => Some(p@ + ": "@ + e@),
        _ => None,
    }
}

/// Why a prompt or a context cannot be had.
pub open spec fn payload_failure(
    label: Seq<char>,
    source: Option<PromptSource>,
    read: Result<String, String>,
) -> Option<Seq<char>> {
    match (source, read) {
        (Some(PromptSource::File(p)), Err(e)) => Some(label + " file "@ + p@ + ": "@ + e@),
        _ => None,
    }
}

/// Why the sources cannot be had: the script is asked for first, then the
/// prompt, then the context.
pub open spec fn source_failure<H, T, C, S>(
    config: BlockConfig<H, T, C, S>,
    reads: Reads,
) -> Option<Seq<char>> {
    match script_failure(config.script, reads.script) {
        Some(e) => Some(e),
        None => match payload_failure("prompt"@, config.prompt, reads.prompt) {
            Some(e) => Some(e),
            None => payload_failure("context"@, config.context, reads.context),
        },
    }
}

/// The source, the name and the directory of a script that can be had.
pub open spec fn script_parts(
    script: ScriptSource,
    project_root: Seq<char>,
    read: Result<String, String>,
) -> (Seq<char>, Seq<char>, Seq<char>) {
    match script {
        ScriptSource::Path(p) => (
            read->Ok_0@,
            match file_part(p@) {
                Some(n) => n,
                None => "unknown"@,
            },
            match dir_part(p@) {
                Some(d) => d,
                None => "."@,
            },
        ),
        ScriptSource::Inline { source, name } => (source@, name@, project_root),
        ScriptSource::DefaultAgent => (
            default_agent_invoker(),
            "default_agent_invoker.lua"@,
            project_root,
        ),
    }
}

/// The text of a prompt or a context that can be had.
pub open spec fn payload(source: Option<PromptSource>, read: Result<String, String>) -> Option<
    Seq<char>,
> {
    match source {
        Some(PromptSource::Inline(s)) => Some(s@),
        Some(PromptSource::File(_)) => Some(read->Ok_0@),
        None => None,
    }
}

/// The text of the secret key.
pub open spec fn secret(source: Option<SecretKeySource>, value: Option<String>) -> Option<
    Seq<char>,
> {
    match source {
        Some(SecretKeySource::Inline(s)) => Some(s@),
        Some(SecretKeySource::Env(_)) => opt_text(value),
        None => None,
    }
}

/// A prompt or a context, or why it cannot be had.
fn resolve_payload(label: &str, source: &Option<PromptSource>, read: Result<String, String>) -> (out:
    Result<Option<String>, String>)
    ensures
        match out {
            Ok(p) => payload_failure(label@, *source, read) is None && opt_text(p) == payload(
                *source,
                read,
            ),
            Err(e) => payload_failure(label@, *source, read) == Some(e@),
        },
{
    match source {
        Some(PromptSource::Inline(s)) => Ok(Some(s.clone())),
        Some(PromptSource::File(p)) => match read {
            Ok(t) => Ok(Some(t)),
            Err(e) => {
                let mut m = label.to_owned();
                m.append(" file ");
                m.append(p.as_str());
                m.append(": ");
                m.append(e.as_str());
                Err(m)
            },
        },
        None => Ok(None),
    }
}

/// The source, the name and the directory of a script, or why it cannot be
/// had.
fn resolve_script(script: &ScriptSource, project_root: &str, read: Result<String, String>) -> (out:
    Result<(String, String, String), String>)
    ensures
        match out {
            Ok(r) => script_failure(*script, read) is None && (r.0@, r.1@, r.2@) == script_parts(
                *script,
                project_root@,
                read,
            ),
            Err(e) => script_failure(*script, read) == Some(e@),
        },
{
    match script {
        ScriptSource::Path(p) => match read {
            Ok(source) => {
                let name = match file_name(p.as_str()) {
                    Some(n) => n,
                    None => "unknown".to_owned(),
                };
                let dir = match parent(p.as_str()) {
                    Some(d) => d,
                    None => ".".to_owned(),
                };
                Ok((source, name, dir))
            },
            Err(e) => {
                let mut m = p.clone();
                m.append(": ");
                m.append(e.as_str());
                Err(m)
            },
        },
        ScriptSource::Inline { source, name } => Ok(
            (source.clone(), name.clone(), project_root.to_owned()),
        ),
        ScriptSource::DefaultAgent => Ok(
            (
                "\nlocal agent = require(\"agent\")\nlocal r = agent.run({\n    prompt = _PROMPT,\n    system = _CONTEXT,\n})\nbus.emit(\"_\", r)\n".to_owned(),
                "default_agent_invoker.lua".to_owned(),
                project_root.to_owned(),
            ),
        ),
    }
}

/// The sources of a run, from what reading them gave.
pub fn resolve_sources<H, T, C, S>(config: &BlockConfig<H, T, C, S>, reads: Reads) -> (out: Result<
    ResolvedSources,
    BlockError,
>)
    ensures
        match out {
            Ok(r) => {
                &&& source_failure(*config, reads) is None
                &&& (r.script_source@, r.script_name@, r.script_dir@) == script_parts(
                    config.script,
                    config.project_root@,
                    reads.script,
                )
                &&& opt_text(r.prompt) == payload(config.prompt, reads.prompt)
                &&& opt_text(r.context) == payload(config.context, reads.context)
                &&& opt_text(r.secret_key) == secret(config.secret_key, reads.secret_key)
            },
            Err(e) => e matches BlockError::Script(m) && source_failure(*config, reads) == Some(m@),
        },
{
    let (script_source, script_name, script_dir) = match resolve_script(
        &config.script,
        config.project_root.as_str(),
        reads.script,
    ) {
        Ok(r) => r,
        Err(e) => {
            return Err(BlockError::Script(e));
        },
    };
    let prompt = match resolve_payload("prompt", &config.prompt, reads.prompt) {
        Ok(p) => p,
        Err(e) => {
            return Err(BlockError::Script(e));
        },
    };
    let context = match resolve_payload("context", &config.context, reads.context) {
        Ok(p) => p,
        Err(e) => {
            return Err(BlockError::Script(e));
        },
    };
    let secret_key = match &config.secret_key {
        Some(SecretKeySource::Inline(s)) => Some(s.clone()),
        Some(SecretKeySource::Env(_)) => reads.secret_key,
        None => None,
    };
    Ok(ResolvedSources { script_source, script_name, script_dir, prompt, context, secret_key })
}

/// An inline script is run as it is: whatever reading files and variables
/// gave, its source and its name are those of the configuration and nothing
/// can be missing for its sake.
pub proof fn law_an_inline_script_reads_nothing<H, T, C, S>(
    config: BlockConfig<H, T, C, S>,
    reads: Reads,
)
    requires
        config.script is Inline,
        !(config.prompt matches Some(PromptSource::File(_))),
        !(config.context matches Some(PromptSource::File(_))),
    ensures
        source_failure(config, reads) is None,
        script_parts(config.script, config.project_root@, reads.script) == (
            config.script->Inline_source@,
            config.script->Inline_name@,
            config.project_root@,
        ),
{
}

// ── the event bus of a run ───────────────────────────────────────────

/// The bus of a run before the script starts.
pub struct BusSetup<H> {
    /// The bus, with the host's handlers.
    pub bus: EventBus<H>,
    /// Whether its loop runs beside the script.
    pub auto_serve: bool,
}

/// The bus of a run: the host's handlers by kind, its fallback, and whether
/// the loop runs beside the script, which it does only where there is a
/// handler to run.
pub fn setup_event_bus<H>(host_handlers: Table<H>, host_handler: Option<H>, auto_serve_bus: bool)
    -> (out: BusSetup<H>)
    requires
        host_handlers.well_formed(),
    ensures
        out.bus.well_formed(),
        !out.bus.started(),
        out.bus.by_kind() == host_handlers@,
        out.bus.fallback() == host_handler,
        out.auto_serve == (auto_serve_bus && (host_handlers@.dom() != Set::<Seq<char>>::empty()
            || host_handler is Some)),
{
    let mut bus: EventBus<H> = EventBus::new();
    let mut left = host_handlers;
    let has_kind_handlers = left.len() > 0;
    let has_any_handler = host_handler.is_some();
    proof {
        crate::table::law_names_are_the_keys(left);
        if left.names().len() > 0 {
            assert(left.names().contains(left.names()[0]));
            assert(left@.dom().contains(left.names()[0]));
        } else {
            assert(left@.dom() =~= Set::<Seq<char>>::empty());
        }
    }
    let mut go = true;
    while go
        invariant
            bus.well_formed(),
            !bus.started(),
            bus.fallback() is None,
            left.well_formed(),
            host_handlers@ == left@.union_prefer_right(bus.by_kind()),
            forall|k: Seq<char>| #[trigger]
                bus.by_kind().dom().contains(k) ==> !left@.dom().contains(k),
            !go ==> left@ == Map::<Seq<char>, H>::empty(),
        decreases
                left.names().len(),
                if go {
                    1int
                } else {
                    0int
                },
    {
        let ghost before = left@;
        let ghost had = bus.by_kind();
        match left.pop() {
            Some((kind, handler)) => {
                let _ = bus.on(kind.as_str(), handler);
                assert(left@.union_prefer_right(bus.by_kind()) =~= before.union_prefer_right(had));
            },
            None => {
                go = false;
            },
        }
    }
    assert(bus.by_kind() =~= host_handlers@);
    if let Some(h) = host_handler {
        let _ = bus.on_any(h);
    }
    BusSetup { bus, auto_serve: auto_serve_bus && (has_kind_handlers || has_any_handler) }
}

// ── the mesh ─────────────────────────────────────────────────────────

/// What is done about the mesh.
pub enum MeshPlan {
    /// There is no relay, so nothing.
    Disabled,
    /// Connect to the relay, with this key or a random one.
    Connect { relay_url: String, key: Option<[u8; 32]> },
}

/// What is done about the mesh: without a relay nothing, whatever the key is;
/// with one, the key must be a key.
pub fn plan_mesh(relay_url: Option<&str>, secret_key: Option<&str>) -> (out: Result<
    MeshPlan,
    BlockError,
>)
    requires
        relay_url is Some ==> (secret_key matches Some(k) ==> readable_key(k@)),
    ensures
        match relay_url {
            None => out matches Ok(MeshPlan::Disabled),
            Some(url) => match secret_key {
                None => out matches Ok(MeshPlan::Connect { relay_url: u, key }) && u@ == url@
                    && key is None,
                Some(text) => {
                    let s = trim(text@);
                    match out {
                        Ok(MeshPlan::Connect { relay_url: u, key }) => {
                            &&& u@ == url@
                            &&& key matches Some(bytes)
                            &&& first_not_hex(s, 0) is None
                            &&& writes_key(s, bytes@)
                        },
                        Ok(_) => false,
                        Err(BlockError::Runtime(m)) => if byte_len(s) != 64 {
                            m@ == "secret-key: "@ + ("expected 64 hex chars, got "@ + dec(
                                byte_len(s),
                            ))
                        } else {
                            &&& first_not_hex(s, 0) is Some
                            &&& m@ == "secret-key: "@ + ("invalid hex at position "@ + dec(
                                first_not_hex(s, 0)->0 as nat,
                            ) + ": invalid digit found in string"@)
                        },
                        Err(_) => false,
                    }
                },
            },
        },
{
    match relay_url {
        None => Ok(MeshPlan::Disabled),
        Some(url) => match secret_key {
            None => Ok(MeshPlan::Connect { relay_url: url.to_owned(), key: None }),
            Some(text) => match hex_decode_32(text) {
                Ok(bytes) => Ok(
                    MeshPlan::Connect { relay_url: url.to_owned(), key: Some(bytes) },
                ),
                Err(e) => {
                    let mut m = "secret-key: ".to_owned();
                    m.append(e.as_str());
                    Err(BlockError::Runtime(m))
                },
            },
        },
    }
}

/// What a run fails with when the relay does not take the connection.
pub fn mesh_error(relay_url: &str, reason: &str) -> (out: BlockError)
    ensures
        out matches BlockError::Mesh(m) && m@ == "connect to "@ + relay_url@ + " failed: "@
            + reason@,
{
    let mut m = "connect to ".to_owned();
    m.append(relay_url);
    m.append(" failed: ");
    m.append(reason);
    BlockError::Mesh(m)
}

/// How long a mesh request waits for its answer.
pub const BUS_ACK_TIMEOUT_SECS: u64 = 30;

/// Whether an object says who a request is from and nothing else.
pub open spec fn says_from(meta: Json, from: Seq<char>) -> bool {
    &&& meta matches Json::Object(t)
    &&& t.well_formed()
    &&& t@.dom() == set!["from"@]
    &&& t@["from"@] matches Json::Text(v)
    &&& v@ == from
}

/// A mesh request as an event of kind `mesh`, with an identifier of its own.
pub fn mesh_event(from: &str, payload: Json) -> (out: Event)
    ensures
        out.kind@ == "mesh"@,
        is_uuid(out.id@, '4'),
        out.payload == payload,
        says_from(out.meta, from@),
{
    let mut meta: Table<Json> = Table::new();
    meta.set("from", Json::Text(from.to_owned()));
    assert(meta@.dom() =~= set!["from"@]);
    Event { kind: "mesh".to_owned(), id: random_id(), payload, meta: Json::Object(meta) }
}

/// Whether an object says what went wrong and nothing else.
pub open spec fn says_error(value: Json, words: Seq<char>) -> bool {
    &&& value matches Json::Object(t)
    &&& t.well_formed()
    &&& t@.dom() == set!["error"@]
    &&& t@["error"@] matches Json::Text(v)
    &&& v@ == words
}

/// What a mesh request is answered with: the handler's value, or an object
/// that says why there is none.
pub fn mesh_reply(outcome: AckOutcome) -> (out: Json)
    ensures
        match failure_words(outcome) {
            None => outcome == AckOutcome::Answered(out),
            Some(words) => says_error(out, words),
        },
{
    match ack_value(outcome) {
        Ok(v) => v,
        Err(e) => {
            let mut fields: Table<Json> = Table::new();
            fields.set("error", Json::Text(e));
            assert(fields@.dom() =~= set!["error"@]);
            Json::Object(fields)
        },
    }
}

// ── the databases ────────────────────────────────────────────────────

/// The databases of a run, which are opened in this order.
#[derive(Debug, Clone, Copy, PartialEq, Eq, Structural)]
pub enum Database {
    Sql,
    Kv,
    Ts,
}

impl Database {
    /// The word that names a database in messages.
    pub open spec fn word(self) -> Seq<char> {
        match self {
            Database::Sql => "sql"@,
            Database::Kv => "kv"@,
            Database::Ts => "ts"@,
        }
    }

    /// The file a database has where nothing else is said.
    pub open spec fn file(self) -> Seq<char> {
        match self {
            Database::Sql => "db.sqlite"@,
            Database::Kv => "kv.sqlite"@,
            Database::Ts => "ts.sqlite"@,
        }
    }

    /// The word that names a database in messages.
    pub fn label(self) -> (out: &'static str)
        ensures
            out@ == self.word(),
    {
        match self {
            Database::Sql => "sql",
            Database::Kv => "kv",
            Database::Ts => "ts",
        }
    }
}

/// Where a database of a run lies: where the configuration says, else where
/// the environment says, else under its name in the base directory.
pub open spec fn database_file(
    which: Database,
    configured: Option<&str>,
    setting: Option<&str>,
    env: HomeEnv,
) -> Option<Seq<char>> {
    match configured {
        Some(p) => Some(p@),
        None => database(setting, which.file(), env),
    }
}

/// Where a database of a run lies.
pub fn resolve_database(
    which: Database,
    configured: Option<&str>,
    setting: Option<&str>,
    env: &HomeEnv,
) -> (out: Result<String, BlockError>)
    ensures
        match out {
            Ok(p) => database_file(which, configured, setting, *env) == Some(p@),
            Err(e) => {
                &&& database_file(which, configured, setting, *env) is None
                &&& e matches BlockError::Runtime(m)
                &&& m@ == "HOME env var not set"@
            },
        },
{
    if let Some(p) = configured {
        return Ok(p.to_owned());
    }
    let found = match which {
        Database::Sql => sql_path(setting, env),
        Database::Kv => kv_path(setting, env),
        Database::Ts => ts_path(setting, env),
    };
    match found {
        Ok(p) => Ok(p),
        Err(e) => Err(BlockError::Runtime(e)),
    }
}

/// How a database is opened.
pub struct SqliteSetup {
    /// The directory that has to be there first.
    pub dir: Option<String>,
    /// The pragmas that are set, in this order.
    pub pragmas: Vec<(String, String)>,
}

/// The pragmas a database is opened with: `synchronous` where the connection
/// is shared, and the journal mode where there is a file.
pub open spec fn pragmas(path: Seq<char>, shared: bool, journal: Seq<char>) -> Seq<
    (Seq<char>, Seq<char>),
> {
    let first = if shared {
        seq![("synchronous"@, "NORMAL"@)]
    } else {
        Seq::empty()
    };
    if path == ":memory:"@ {
        first
    } else {
        first.push(("journal_mode"@, journal))
    }
}

/// What a list of pairs of texts reads as.
pub open spec fn pair_views(list: Seq<(String, String)>) -> Seq<(Seq<char>, Seq<char>)> {
    list.map_values(|p: (String, String)| (p.0@, p.1@))
}

/// How a database is opened.  One in memory has neither a directory nor a
/// journal.
pub fn plan_sqlite(path: &str, shared: bool, journal: &str) -> (out: SqliteSetup)
    ensures
        opt_text(out.dir) == if path@ == ":memory:"@ {
            None
        } else {
            dir_part(path@)
        },
        pair_views(out.pragmas@) == pragmas(path@, shared, journal@),
{
    let in_memory = is_memory_sql(path);
    let dir = if in_memory {
        None
    } else {
        parent(path)
    };
    let mut list: Vec<(String, String)> = Vec::new();
    if shared {
        list.push(("synchronous".to_owned(), "NORMAL".to_owned()));
    }
    if !in_memory {
        list.push(("journal_mode".to_owned(), journal.to_owned()));
    }
    assert(pair_views(list@) =~= pragmas(path@, shared, journal@));
    SqliteSetup { dir, pragmas: list }
}

/// What a run fails with when a database's directory cannot be made.
pub fn sqlite_dir_error(which: Database, reason: &str) -> (out: BlockError)
    ensures
        out matches BlockError::Runtime(m) && m@ == which.word() + " dir create: "@ + reason@,
{
    let mut m = which.label().to_owned();
    m.append(" dir create: ");
    m.append(reason);
    BlockError::Runtime(m)
}

/// What a run fails with when a database cannot be opened.
pub fn sqlite_open_error(path: &str, reason: &str) -> (out: BlockError)
    ensures
        out matches BlockError::Runtime(m) && m@ == "sqlite open "@ + path@ + ": "@ + reason@,
{
    let mut m = "sqlite open ".to_owned();
    m.append(path);
    m.append(": ");
    m.append(reason);
    BlockError::Runtime(m)
}

// ── the virtual machines ─────────────────────────────────────────────

/// The globals a virtual machine has for itself.
pub open spec fn is_own_global(
    name: Seq<char>,
    value: Json,
    script_name: Seq<char>,
    prompt: Option<Seq<char>>,
    context: Option<Seq<char>>,
) -> bool {
    &&& value matches Json::Text(v)
    &&& {
        ||| name == "_SCRIPT_NAME"@ && v@ == script_name
        ||| name == "_PROMPT"@ && prompt == Some(v@)
        ||| name == "_CONTEXT"@ && context == Some(v@)
    }
}

/// Which globals a virtual machine has for itself.
pub open spec fn own_names(prompt: Option<Seq<char>>, context: Option<Seq<char>>) -> Set<
    Seq<char>,
> {
    let a = set!["_SCRIPT_NAME"@];
    let b = if prompt is Some {
        a.insert("_PROMPT"@)
    } else {
        a
    };
    if context is Some {
        b.insert("_CONTEXT"@)
    } else {
        b
    }
}

/// The globals a virtual machine has for itself.
fn own_globals(script_name: &str, prompt: &Option<String>, context: &Option<String>) -> (out: Table<
    Json,
>)
    ensures
        out.well_formed(),
        out@.dom() == own_names(opt_text(*prompt), opt_text(*context)),
        forall|k: Seq<char>| #[trigger]
            out@.dom().contains(k) ==> is_own_global(
                k,
                out@[k],
                script_name@,
                opt_text(*prompt),
                opt_text(*context),
            ),
{
    proof {
        reveal_strlit("_SCRIPT_NAME");
        reveal_strlit("_PROMPT");
        reveal_strlit("_CONTEXT");
        assert("_SCRIPT_NAME"@.len() == 12 && "_PROMPT"@.len() == 7 && "_CONTEXT"@.len() == 8);
    }
    let mut out: Table<Json> = Table::new();
    out.set("_SCRIPT_NAME", Json::Text(script_name.to_owned()));
    if let Some(p) = prompt {
        out.set("_PROMPT", Json::Text(p.clone()));
    }
    if let Some(c) = context {
        out.set("_CONTEXT", Json::Text(c.clone()));
    }
    assert(out@.dom() =~= own_names(opt_text(*prompt), opt_text(*context)));
    out
}

/// The globals a virtual machine starts with: its own, and those of the
/// configuration, which win.
pub fn isle_globals(
    script_name: &str,
    prompt: &Option<String>,
    context: &Option<String>,
    extra_globals: Table<Json>,
) -> (out: Table<Json>)
    requires
        extra_globals.well_formed(),
    ensures
        out.well_formed(),
        out@.dom() == own_names(opt_text(*prompt), opt_text(*context)).union(extra_globals@.dom()),
        forall|k: Seq<char>| #[trigger]
            extra_globals@.dom().contains(k) ==> out@[k] == extra_globals@[k],
        forall|k: Seq<char>| #[trigger]
            out@.dom().contains(k) && !extra_globals@.dom().contains(k) ==> is_own_global(
                k,
                out@[k],
                script_name@,
                opt_text(*prompt),
                opt_text(*context),
            ),
{
    let mut out = own_globals(script_name, prompt, context);
    let ghost own = out@;
    let mut left = extra_globals;
    let mut go = true;
    while go
        invariant
            out.well_formed(),
            left.well_formed(),
            out@.union_prefer_right(left@) =~= own.union_prefer_right(extra_globals@),
            !go ==> left@ == Map::<Seq<char>, Json>::empty(),
        decreases
                left.names().len(),
                if go {
                    1int
                } else {
                    0int
                },
    {
        let ghost before = left@;
        let ghost had = out@;
        match left.pop() {
            Some((name, value)) => {
                out.set(name.as_str(), value);
                assert(out@.union_prefer_right(left@) =~= had.union_prefer_right(before));
            },
            None => {
                go = false;
            },
        }
    }
    assert(out@ =~= own.union_prefer_right(extra_globals@));
    assert(out@.dom() =~= own.dom().union(extra_globals@.dom()));
    out
}

/// A tool as the registry of a virtual machine holds it.
pub struct ToolEntry<T> {
    pub name: String,
    /// The description and the schema of the input.
    pub schema: Json,
    pub group: Option<String>,
    pub handler: T,
}

/// Whether a schema object holds the description and the input schema of a
/// tool and nothing else.
pub open spec fn describes_tool(schema: Json, description: Seq<char>, input_schema: Json) -> bool {
    &&& schema matches Json::Object(t)
    &&& t.well_formed()
    &&& t@.dom() == set!["description"@, "input_schema"@]
    &&& t@["description"@] matches Json::Text(d)
    &&& d@ == description
    &&& t@["input_schema"@] == input_schema
}

/// Whether a registry entry stands for a tool of the host.
pub open spec fn stands_for<T>(e: ToolEntry<T>, t: HostToolSpec<T>) -> bool {
    &&& e.name@ == t.name@
    &&& describes_tool(e.schema, t.description@, t.input_schema)
    &&& opt_text(e.group) == opt_text(t.group)
    &&& e.handler == t.handler
}

/// The last tool of that name.
pub open spec fn last_named<T>(tools: Seq<HostToolSpec<T>>, name: Seq<char>) -> Option<
    HostToolSpec<T>,
>
    decreases tools.len(),
{
    if tools.len() == 0 {
        None
    } else if tools.last().name@ == name {
        Some(tools.last())
    } else {
        last_named(tools.drop_last(), name)
    }
}

fn tool_entry<T>(tool: HostToolSpec<T>) -> (out: ToolEntry<T>)
    ensures
        stands_for(out, tool),
{
    let mut fields: Table<Json> = Table::new();
    proof {
        reveal_strlit("description");
        reveal_strlit("input_schema");
        assert("description"@.len() == 11 && "input_schema"@.len() == 12);
    }
    fields.set("description", Json::Text(tool.description));
    fields.set("input_schema", tool.input_schema);
    assert(fields@.dom() =~= set!["description"@, "input_schema"@]);
    ToolEntry {
        name: tool.name,
        schema: Json::Object(fields),
        group: tool.group,
        handler: tool.handler,
    }
}

/// The entries the host's tools make in the registry.  Of two tools with one
/// name the later counts.
pub fn host_tool_entries<T>(host_tools: Vec<HostToolSpec<T>>) -> (out: Table<ToolEntry<T>>)
    ensures
        out.well_formed(),
        forall|name: Seq<char>|
            match last_named(host_tools@, name) {
                Some(t) => #[trigger] out@.dom().contains(name) && stands_for(out@[name], t),
                None => !out@.dom().contains(name),
            },
{
    let mut left = host_tools;
    let mut out: Table<ToolEntry<T>> = Table::new();
    while left.len() > 0
        invariant
            out.well_formed(),
            left@.len() <= host_tools@.len(),
            forall|name: Seq<char>|
                if #[trigger] out@.dom().contains(name) {
                    last_named(host_tools@, name) matches Some(t) && stands_for(out@[name], t)
                } else {
                    last_named(host_tools@, name) == last_named(left@, name)
                },
        decreases left@.len(),
    {
        let ghost before = left@;
        match left.pop() {
            Some(tool) => {
                assert(left@ == before.drop_last() && tool == before.last());
                let name = tool.name.clone();
                if !out.contains(name.as_str()) {
                    assert(last_named(host_tools@, name@) == Some(tool));
                    let e = tool_entry(tool);
                    out.set(name.as_str(), e);
                }
            },
            None => {},
        }
    }
    assert forall|name: Seq<char>|
        match last_named(host_tools@, name) {
            Some(t) => #[trigger] out@.dom().contains(name) && stands_for(out@[name], t),
            None => !out@.dom().contains(name),
        } by {
        assert(left@.len() == 0);
    }
    out
}

/// What a run fails with when the tools cannot be put in.
pub fn host_tools_error(reason: &str) -> (out: BlockError)
    ensures
        out matches BlockError::Runtime(m) && m@ == "host_tools inject: "@ + reason@,
{
    let mut m = "host_tools inject: ".to_owned();
    m.append(reason);
    BlockError::Runtime(m)
}

// ── the course of a run ──────────────────────────────────────────────

/// How executing the script goes on.
pub enum Execution {
    /// The script still runs and nobody cancelled it.
    Wait,
    /// Cancel the script and wait until it has unwound; the run then fails
    /// with this.
    Unwind(BlockError),
    /// The script is over.
    Done(Result<String, BlockError>),
}

/// How executing the script goes on.  The shutdown token is looked at first: a
/// run cancelled while its script ends counts as cancelled.
pub fn execute_script(cancelled: bool, task: Option<Result<String, String>>) -> (out: Execution)
    ensures
        match (cancelled, task) {
            (true, _) => out == Execution::Unwind(BlockError::Cancelled),
            (false, None) => out is Wait,
            (false, Some(Ok(v))) => out == Execution::Done(Ok(v)),
            (false, Some(Err(e))) => out == Execution::Done(Err(BlockError::Script(e))),
        },
{
    if cancelled {
        return Execution::Unwind(BlockError::Cancelled);
    }
    match task {
        None => Execution::Wait,
        Some(Ok(v)) => Execution::Done(Ok(v)),
        Some(Err(e)) => Execution::Done(Err(BlockError::Script(e))),
    }
}

/// The stages of a run, in their order.
#[derive(Debug, Clone, Copy, PartialEq, Eq, Structural)]
pub enum Stage {
    /// Read the script, the prompt, the context and the key.
    Resolve,
    /// Load `.env`; whatever comes of it, the run goes on.
    LoadEnv,
    /// Set up the bus and, where asked for, its loop.
    Bus,
    /// Connect to the mesh.
    Mesh,
    /// Make the MCP manager.
    Mcp,
    /// Make the project root absolute.
    ProjectRoot,
    /// Open the databases.
    Sqlite,
    /// Spawn both virtual machines.
    Isles,
    /// Register the bridges on both.
    Bridges,
    /// Put the host's tools into the registry.
    Tools,
    /// Execute the script.
    Execute,
    /// Let the bus run out.
    Drain,
    /// Tear everything down.
    Shutdown,
    /// Nothing is left to do.
    Over,
}

impl Stage {
    /// Where a stage stands in the order.
    pub open spec fn rank(self) -> int {
        match self {
            Stage::Resolve => 0,
            Stage::LoadEnv => 1,
            Stage::Bus => 2,
            Stage::Mesh => 3,
            Stage::Mcp => 4,
            Stage::ProjectRoot => 5,
            Stage::Sqlite => 6,
            Stage::Isles => 7,
            Stage::Bridges => 8,
            Stage::Tools => 9,
            Stage::Execute => 10,
            Stage::Drain => 11,
            Stage::Shutdown => 12,
            Stage::Over => 13,
        }
    }

    /// The stage that follows.
    pub fn next(self) -> (out: Stage)
        ensures
            out.rank() == if self.rank() < 13 {
                self.rank() + 1
            } else {
                13
            },
    {
        match self {
            Stage::Resolve => Stage::LoadEnv,
            Stage::LoadEnv => Stage::Bus,
            Stage::Bus => Stage::Mesh,
            Stage::Mesh => Stage::Mcp,
            Stage::Mcp => Stage::ProjectRoot,
            Stage::ProjectRoot => Stage::Sqlite,
            Stage::Sqlite => Stage::Isles,
            Stage::Isles => Stage::Bridges,
            Stage::Bridges => Stage::Tools,
            Stage::Tools => Stage::Execute,
            Stage::Execute => Stage::Drain,
            Stage::Drain => Stage::Shutdown,
            Stage::Shutdown => Stage::Over,
            Stage::Over => Stage::Over,
        }
    }
}

/// A run on its way: the stage it is at, and what the script came to.
pub struct Run {
    pub stage: Stage,
    pub result: Result<String, BlockError>,
}

/// Where a run is after a stage ended with `end`.
///
/// Before the script a failure is the end of the run.  What the script came to
/// is kept while the bus runs out and everything is torn down; only a failed
/// teardown takes its place.
pub open spec fn advanced(run: Run, end: Result<String, BlockError>, to: Run) -> bool {
    if run.stage is Over {
        to == run
    } else if run.stage is Execute {
        to.stage is Drain && to.result == end
    } else if run.stage is Drain || run.stage is LoadEnv || end is Ok {
        to.stage.rank() == run.stage.rank() + 1 && to.result == run.result
    } else {
        to.stage is Over && to.result == end
    }
}

impl Run {
    /// A run that has not begun: it is at its first stage, and there is no
    /// failure and no text that a script came to.
    pub fn new() -> (out: Run)
        ensures
            out.stage is Resolve,
            out.result matches Ok(text) && text@ == Seq::<char>::empty(),
    {
        Run { stage: Stage::Resolve, result: Ok(String::new()) }
    }

    /// The run after its stage ended.
    pub fn advance(self, end: Result<String, BlockError>) -> (out: Run)
        ensures
            advanced(self, end, out),
    {
        match self.stage {
            Stage::Over => self,
            Stage::Execute => Run { stage: Stage::Drain, result: end },
            Stage::Drain | Stage::LoadEnv => Run { stage: self.stage.next(), result: self.result },
            _ => match end {
                Ok(_) => Run { stage: self.stage.next(), result: self.result },
                Err(e) => Run { stage: Stage::Over, result: Err(e) },
            },
        }
    }
}

/// A run that follows a list of endings, from one state to the next.
pub open spec fn follows(runs: Seq<Run>, ends: Seq<Result<String, BlockError>>) -> bool {
    &&& runs.len() == ends.len() + 1
    &&& forall|i: int|
        0 <= i < ends.len() ==> advanced(#[trigger] runs[i], ends[i], runs[i + 1])
}

/// Whatever the script came to, the bus runs out and everything is torn down
/// after it; the run then comes to what the script came to, unless the
/// teardown failed.
pub proof fn law_the_teardown_follows_the_script(
    runs: Seq<Run>,
    ends: Seq<Result<String, BlockError>>,
)
    requires
        follows(runs, ends),
        ends.len() == 3,
        runs[0].stage is Execute,
    ensures
        runs[1].stage is Drain,
        runs[2].stage is Shutdown,
        runs[3].stage is Over,
        runs[3].result == if ends[2] is Err {
            ends[2]
        } else {
            ends[0]
        },
{
    assert(advanced(runs[0], ends[0], runs[1]));
    assert(advanced(runs[1], ends[1], runs[2]));
    assert(advanced(runs[2], ends[2], runs[3]));
}

/// The script is executed only where every stage before it that can fail has
/// succeeded.
pub proof fn law_the_script_runs_only_when_all_is_set_up(
    runs: Seq<Run>,
    ends: Seq<Result<String, BlockError>>,
    n: int,
)
    requires
        follows(runs, ends),
        runs[0].stage is Resolve,
        0 <= n < runs.len(),
        runs[n].stage is Execute,
    ensures
        n == 10,
        forall|i: int| 0 <= i < n && i != 1 ==> (#[trigger] ends[i]) is Ok,
{
    lemma_ranks(runs, ends, n);
    assert forall|i: int| 0 <= i < n && i != 1 implies (#[trigger] ends[i]) is Ok by {
        assert(advanced(runs[i], ends[i], runs[i + 1]));
        lemma_ranks(runs, ends, i);
        if ends[i] is Err || runs[i].stage is Over {
            lemma_over_stays(runs, ends, i + 1, n);
        }
    }
}

proof fn lemma_over_stays(
    runs: Seq<Run>,
    ends: Seq<Result<String, BlockError>>,
    i: int,
    n: int,
)
    requires
        follows(runs, ends),
        0 <= i <= n < runs.len(),
        runs[i].stage is Over,
    ensures
        runs[n].stage is Over,
    decreases n - i,
{
    if i < n {
        assert(advanced(runs[i], ends[i], runs[i + 1]));
        lemma_over_stays(runs, ends, i + 1, n);
    }
}

/// Until it is over, a run is at the stage of its step.
proof fn lemma_ranks(runs: Seq<Run>, ends: Seq<Result<String, BlockError>>, n: int)
    requires
        follows(runs, ends),
        runs[0].stage is Resolve,
        0 <= n < runs.len(),
    ensures
        runs[n].stage is Over || runs[n].stage.rank() == n,
    decreases n,
{
    if n > 0 {
        lemma_ranks(runs, ends, n - 1);
        assert(advanced(runs[n - 1], ends[n - 1], runs[n - 1 + 1]));
    }
}

/// What is torn down, in this order.
#[derive(Debug, Clone, Copy, PartialEq, Eq, Structural)]
pub enum Teardown {
    /// Disconnect the MCP servers.
    Mcp,
    /// Stop the virtual machine of the script.
    MainIsle,
    /// Stop the virtual machine of the handlers.
    HandlerIsle,
    /// Stop the kernel's connection threads, which a machine that goes away
    /// may still hand something to.
    KernelThreads,
    /// Stop the connection thread of the time series.
    TimeSeries,
}

impl Teardown {
    /// Where a step stands in the order.
    pub open spec fn rank(self) -> int {
        match self {
            Teardown::Mcp => 0,
            Teardown::MainIsle => 1,
            Teardown::HandlerIsle => 2,
            Teardown::KernelThreads => 3,
            Teardown::TimeSeries => 4,
        }
    }

    /// Whether a failure is the end of the teardown.
    pub open spec fn fatal(self) -> bool {
        self is Mcp || self is MainIsle
    }
}

/// How the teardown goes on.
pub enum TeardownNext {
    /// With this step.
    Step(Teardown),
    /// It is done.
    Done,
    /// It failed.
    Failed(BlockError),
}

/// How the teardown goes on after a step ended with `end`: a failure of the
/// first two is the end of it, any other is only written down.
pub fn shutdown(step: Teardown, end: Result<(), BlockError>) -> (out: TeardownNext)
    ensures
        match end {
            Err(e) if step.fatal() => out == TeardownNext::Failed(e),
            _ => match out {
                TeardownNext::Step(next) => next.rank() == step.rank() + 1,
                TeardownNext::Done => step is TimeSeries,
                TeardownNext::Failed(_) => false,
            },
        },
{
    match step {
        Teardown::Mcp => match end {
            Ok(_) => TeardownNext::Step(Teardown::MainIsle),
            Err(e) => TeardownNext::Failed(e),
        },
        Teardown::MainIsle => match end {
            Ok(_) => TeardownNext::Step(Teardown::HandlerIsle),
            Err(e) => TeardownNext::Failed(e),
        },
        Teardown::HandlerIsle => TeardownNext::Step(Teardown::KernelThreads),
        Teardown::KernelThreads => TeardownNext::Step(Teardown::TimeSeries),
        Teardown::TimeSeries => TeardownNext::Done,
    }
}

/// What a run fails with when the script's virtual machine does not stop.
pub fn isle_shutdown_error(reason: &str) -> (out: BlockError)
    ensures
        out matches BlockError::Runtime(m) && m@ == "AsyncIsle shutdown failed: "@ + reason@,
{
    let mut m = "AsyncIsle shutdown failed: ".to_owned();
    m.append(reason);
    BlockError::Runtime(m)
}

/// What is done to let the bus run out.
#[derive(Debug, Clone, Copy, PartialEq, Eq, Structural)]
pub enum DrainStep {
    /// Wait this many milliseconds.
    Sleep(u64),
    /// Cancel the loop.
    Cancel,
    /// Wait for the loop to end, at most this many milliseconds.
    Join(u64),
}

/// What is done to let the bus run out: where its loop runs beside the script
/// it gets the grace time, is cancelled, and is waited for as long again.
pub fn drain_auto_serve(auto_serve: bool, grace_ms: u64) -> (out: Vec<DrainStep>)
    ensures
        out@ == if auto_serve {
            seq![DrainStep::Sleep(grace_ms), DrainStep::Cancel, DrainStep::Join(grace_ms)]
        } else {
            Seq::empty()
        },
{
    let mut out: Vec<DrainStep> = Vec::new();
    if auto_serve {
        out.push(DrainStep::Sleep(grace_ms));
        out.push(DrainStep::Cancel);
        out.push(DrainStep::Join(grace_ms));
    }
    assert(out@ =~= if auto_serve {
        seq![DrainStep::Sleep(grace_ms), DrainStep::Cancel, DrainStep::Join(grace_ms)]
    } else {
        Seq::empty()
    });
    out
}

/// The absolute project root: what the file system makes of it, else what it
/// is under the working directory, else the reason there is none.
pub fn absolute_root(root: &str, canonical: Option<&str>, cwd: Result<&str, String>) -> (out:
    Result<String, String>)
    ensures
        match (canonical, cwd) {
            (Some(c), _) => out matches Ok(r) && r@ == c@,
            (None, Ok(d)) => out matches Ok(r) && r@ == joined(d@, root@),
            (None, Err(e)) => out == Err::<String, String>(e),
        },
{
    match canonical {
        Some(c) => Ok(c.to_owned()),
        None => match cwd {
            Ok(d) => Ok(join_path(d, root)),
            Err(e) => Err(e),
        },
    }
}

// ── building a configuration ─────────────────────────────────────────

/// A configuration in the making.  What is not set keeps its default.
pub struct BlockConfigBuilder<H, T, C, S> {
    config: BlockConfig<H, T, C, S>,
}

/// Whether a configuration holds these two and nothing else.
pub open spec fn is_default<H, T, C, S>(
    config: BlockConfig<H, T, C, S>,
    script: ScriptSource,
    project_root: Seq<char>,
) -> bool {
    &&& config.script == script
    &&& config.project_root@ == project_root
    &&& config.relay_url is None
    &&& config.secret_key is None
    &&& config.mcp_rpc_timeout is None
    &&& config.prompt is None
    &&& config.context is None
    &&& config.host_handlers.well_formed()
    &&& config.host_handlers@ == Map::<Seq<char>, H>::empty()
    &&& config.host_handler is None
    &&& config.host_tools@ == Seq::<HostToolSpec<T>>::empty()
    &&& config.http_client is None
    &&& config.sql_path is None
    &&& config.kv_path is None
    &&& config.ts_path is None
    &&& config.extra_globals.well_formed()
    &&& config.extra_globals@ == Map::<Seq<char>, Json>::empty()
    &&& !config.auto_serve_bus
    &&& config.shutdown_token is None
}

impl<H, T, C, S> BlockConfig<H, T, C, S> {
    /// Start building a configuration from the two things every run needs.
    pub fn builder(script: ScriptSource, project_root: String) -> (out: BlockConfigBuilder<H, T, C, S>)
        ensures
            is_default(out.built(), script, project_root@),
    {
        BlockConfigBuilder::new(script, project_root)
    }
}

impl<H, T, C, S> BlockConfigBuilder<H, T, C, S> {
    /// The configuration as it stands.
    pub closed spec fn built(&self) -> BlockConfig<H, T, C, S> {
        self.config
    }

    /// A configuration with nothing but the script and the project root.
    pub fn new(script: ScriptSource, project_root: String) -> (out: Self)
        ensures
            is_default(out.built(), script, project_root@),
    {
        BlockConfigBuilder {
            config: BlockConfig {
                script,
                project_root,
                relay_url: None,
                secret_key: None,
                mcp_rpc_timeout: None,
                prompt: None,
                context: None,
                host_handlers: Table::new(),
                host_handler: None,
                host_tools: Vec::new(),
                http_client: None,
                sql_path: None,
                kv_path: None,
                ts_path: None,
                extra_globals: Table::new(),
                auto_serve_bus: false,
                shutdown_token: None,
            },
        }
    }

    /// Override the script.
    pub fn script(self, script: ScriptSource) -> (out: Self)
        ensures
            out.built() == (BlockConfig { script, ..self.built() }),
    {
        BlockConfigBuilder { config: BlockConfig { script, ..self.config } }
    }

    /// Override the project root.
    pub fn project_root(self, project_root: String) -> (out: Self)
        ensures
            out.built() == (BlockConfig { project_root, ..self.built() }),
    {
        BlockConfigBuilder { config: BlockConfig { project_root, ..self.config } }
    }

    /// Set the mesh relay.
    pub fn relay_url(self, relay_url: String) -> (out: Self)
        ensures
            out.built() == (BlockConfig { relay_url: Some(relay_url), ..self.built() }),
    {
        BlockConfigBuilder { config: BlockConfig { relay_url: Some(relay_url), ..self.config } }
    }

    /// Set where the mesh identity comes from.
    pub fn secret_key(self, secret_key: SecretKeySource) -> (out: Self)
        ensures
            out.built() == (BlockConfig { secret_key: Some(secret_key), ..self.built() }),
    {
        BlockConfigBuilder { config: BlockConfig { secret_key: Some(secret_key), ..self.config } }
    }

    /// Set how long one MCP round-trip may take.
    pub fn mcp_rpc_timeout(self, mcp_rpc_timeout: core::time::Duration) -> (out: Self)
        ensures
            out.built() == (BlockConfig { mcp_rpc_timeout: Some(mcp_rpc_timeout), ..self.built() }),
    {
        BlockConfigBuilder { config: BlockConfig { mcp_rpc_timeout: Some(mcp_rpc_timeout), ..self.config } }
    }

    /// Set the prompt.
    pub fn prompt(self, prompt: PromptSource) -> (out: Self)
        ensures
            out.built() == (BlockConfig { prompt: Some(prompt), ..self.built() }),
    {
        BlockConfigBuilder { config: BlockConfig { prompt: Some(prompt), ..self.config } }
    }

    /// Set the context.
    pub fn context(self, context: PromptSource) -> (out: Self)
        ensures
            out.built() == (BlockConfig { context: Some(context), ..self.built() }),
    {
        BlockConfigBuilder { config: BlockConfig { context: Some(context), ..self.config } }
    }

    /// Set the handlers by event kind.
    pub fn host_handlers(self, host_handlers: Table<H>) -> (out: Self)
        ensures
            out.built() == (BlockConfig { host_handlers, ..self.built() }),
    {
        BlockConfigBuilder { config: BlockConfig { host_handlers, ..self.config } }
    }

    /// Set the handler of every kind that has none.
    pub fn host_handler(self, host_handler: H) -> (out: Self)
        ensures
            out.built() == (BlockConfig { host_handler: Some(host_handler), ..self.built() }),
    {
        BlockConfigBuilder { config: BlockConfig { host_handler: Some(host_handler), ..self.config } }
    }

    /// Set the tools the host implements.
    pub fn host_tools(self, host_tools: Vec<HostToolSpec<T>>) -> (out: Self)
        ensures
            out.built() == (BlockConfig { host_tools, ..self.built() }),
    {
        BlockConfigBuilder { config: BlockConfig { host_tools, ..self.config } }
    }

    /// Set the HTTP client of the bridges.
    pub fn http_client(self, http_client: C) -> (out: Self)
        ensures
            out.built() == (BlockConfig { http_client: Some(http_client), ..self.built() }),
    {
        BlockConfigBuilder { config: BlockConfig { http_client: Some(http_client), ..self.config } }
    }

    /// Set the database of `std.sql`.
    pub fn sql_path(self, sql_path: String) -> (out: Self)
        ensures
            out.built() == (BlockConfig { sql_path: Some(sql_path), ..self.built() }),
    {
        BlockConfigBuilder { config: BlockConfig { sql_path: Some(sql_path), ..self.config } }
    }

    /// Set the database of `std.kv`.
    pub fn kv_path(self, kv_path: String) -> (out: Self)
        ensures
            out.built() == (BlockConfig { kv_path: Some(kv_path), ..self.built() }),
    {
        BlockConfigBuilder { config: BlockConfig { kv_path: Some(kv_path), ..self.config } }
    }

    /// Set the database of `std.ts`.
    pub fn ts_path(self, ts_path: String) -> (out: Self)
        ensures
            out.built() == (BlockConfig { ts_path: Some(ts_path), ..self.built() }),
    {
        BlockConfigBuilder { config: BlockConfig { ts_path: Some(ts_path), ..self.config } }
    }

    /// Set the further Lua globals.
    pub fn extra_globals(self, extra_globals: Table<Json>) -> (out: Self)
        ensures
            out.built() == (BlockConfig { extra_globals, ..self.built() }),
    {
        BlockConfigBuilder { config: BlockConfig { extra_globals, ..self.config } }
    }

    /// Say whether the event loop runs beside the script.
    pub fn auto_serve_bus(self, auto_serve_bus: bool) -> (out: Self)
        ensures
            out.built() == (BlockConfig { auto_serve_bus, ..self.built() }),
    {
        BlockConfigBuilder { config: BlockConfig { auto_serve_bus, ..self.config } }
    }

    /// Set what cancels the run.
    pub fn shutdown_token(self, shutdown_token: S) -> (out: Self)
        ensures
            out.built() == (BlockConfig { shutdown_token: Some(shutdown_token), ..self.built() }),
    {
        BlockConfigBuilder { config: BlockConfig { shutdown_token: Some(shutdown_token), ..self.config } }
    }

    /// The finished configuration.
    pub fn build(self) -> (out: BlockConfig<H, T, C, S>)
        ensures
            out == self.built(),
    {
        self.config
    }
}

// ── laws ─────────────────────────────────────────────────────────────

/// A digit of a key counts what it does in base sixteen, in upper case as in
/// lower case, and nothing else is a digit.
pub proof fn law_a_key_is_written_in_either_case(c: char)
    ensures
        '0' <= c <= '9' ==> is_hex_digit(c) && hex_value(c) == c as int - '0' as int,
        'a' <= c <= 'f' ==> is_hex_digit(c) && hex_value(c) == 10 + c as int - 'a' as int,
        'A' <= c <= 'F' ==> is_hex_digit(c) && hex_value(c) == 10 + c as int - 'A' as int,
        is_hex_digit(c) ==> '0' <= c <= '9' || 'a' <= c <= 'f' || 'A' <= c <= 'F',
{
}

/// The first character of a key that is no digit is the one that is told.
pub proof fn law_the_first_bad_digit_is_told(s: Seq<char>, k: int)
    requires
        0 <= k < s.len(),
        forall|j: int|
            0 <= j < k ==> '0' <= #[trigger] s[j] <= '9' || 'a' <= s[j] <= 'f' || 'A' <= s[j]
                <= 'F',
        !('0' <= s[k] <= '9' || 'a' <= s[k] <= 'f' || 'A' <= s[k] <= 'F'),
    ensures
        first_not_hex(s, 0) == Some(k),
{
    lemma_first_not_hex(s, 0);
    match first_not_hex(s, 0) {
        Some(i) => {
            if i > k {
                assert(is_hex_digit(s[k]));
            } else if i < k {
                assert(!is_hex_digit(s[i]));
            }
        },
        None => {
            assert(is_hex_digit(s[k]));
        },
    }
}

/// A listing shows a tool of the host with its name, its description and its
/// group, and an embedded block under its name with the call that loads it.
pub proof fn law_a_listing_shows_what_is_there<T>(
    m: ToolMeta,
    t: HostToolSpec<T>,
    b: ToolMeta,
    name: Seq<char>,
)
    requires
        shows_tool(m, t),
        shows_block(b, name),
    ensures
        m.name@ == t.name@,
        m.description@ == t.description@,
        m.group is Some <==> t.group is Some,
        t.group matches Some(g) ==> m.group->0@ == g@,
        m.source is HostRust,
        b.name@ == name,
        b.description@ == "Embedded StdPkg block (require(\""@ + name + "\"))"@,
        b.group is None,
        b.source is EmbeddedBlock,
{
}

/// The `blocks` directory of a project lies in it, that of a binary beside it,
/// and the project's is searched first.
pub proof fn law_where_blocks_are_looked_for(
    root: Seq<char>,
    exe: &str,
    dir: Seq<char>,
    name: Seq<char>,
)
    requires
        root.len() > 0,
        root.last() != '/',
        exe@ == dir + seq!['/'] + name,
        dir.len() > 0,
        dir.last() != '/' && dir.last() != '.',
        name.len() > 0,
        !name.contains('/'),
        name.last() != '.',
    ensures
        blocks_roots(root, Some(exe), true, true) == seq![root + "/blocks"@, dir + "/blocks"@],
        blocks_roots(root, Some(exe), true, false) == seq![root + "/blocks"@],
        blocks_roots(root, Some(exe), false, true) == seq![dir + "/blocks"@],
        blocks_roots(root, Some(exe), false, false) == Seq::<Seq<char>>::empty(),
        blocks_roots(root, None, true, true) == seq![root + "/blocks"@],
{
    reveal_strlit("blocks");
    reveal_strlit("/blocks");
    crate::paths::law_a_path_is_a_directory_and_a_name(dir, name);
    assert(root + seq!['/'] + "blocks"@ =~= root + "/blocks"@);
    assert(dir + seq!['/'] + "blocks"@ =~= dir + "/blocks"@);
    assert(joined(root, "blocks"@) == root + "/blocks"@);
    assert(joined(dir, "blocks"@) == dir + "/blocks"@);
}

/// In a directory a module is looked for as a file of its name and as a
/// directory of its name with an `init.lua` in it, and the directories are
/// searched one after the other.
pub proof fn law_a_module_is_a_file_or_a_directory(
    root: Seq<char>,
    roots: Seq<Seq<char>>,
    blocks: Seq<char>,
    current: Seq<char>,
)
    ensures
        search_path(seq![root] + roots) == root + "/?.lua;"@ + root + "/?/init.lua;"@
            + search_path(roots),
        search_path(Seq::<Seq<char>>::empty()) == Seq::<char>::empty(),
        package(root, blocks, current) == root + "/?.lua;"@ + root + "/?/init.lua;"@ + blocks
            + current,
{
    lemma_search_path_append(root, roots);
}

/// A script at a path is run from the directory it lies in, under its file's
/// name, with the text that was read.
pub proof fn law_a_script_at_a_path_keeps_its_place(
    path: String,
    text: String,
    project_root: Seq<char>,
    dir: Seq<char>,
    name: Seq<char>,
)
    requires
        path@ == dir + seq!['/'] + name,
        dir.len() > 0,
        dir.last() != '/' && dir.last() != '.',
        name.len() > 0,
        !name.contains('/'),
        name.last() != '.',
    ensures
        script_parts(ScriptSource::Path(path), project_root, Ok(text)) == (text@, name, dir),
{
    crate::paths::law_a_path_is_a_directory_and_a_name(dir, name);
}

/// A file that cannot be read ends the run with the file's path and the reason,
/// a prompt and a context told apart from a script; when everything that is
/// asked for was read, nothing is missing.
pub proof fn law_what_cannot_be_read_is_told<H, T, C, S>(
    config: BlockConfig<H, T, C, S>,
    reads: Reads,
)
    ensures
        config.script matches ScriptSource::Path(p) ==> (reads.script matches Err(e)
            ==> source_failure(config, reads) == Some(p@ + ": "@ + e@)),
        !(config.script is Path) || reads.script is Ok ==> (config.prompt matches Some(
            PromptSource::File(p),
        ) ==> (reads.prompt matches Err(e) ==> source_failure(config, reads) == Some(
            "prompt file "@ + p@ + ": "@ + e@,
        ))),
        (!(config.script is Path) || reads.script is Ok) && (!(config.prompt matches Some(
            PromptSource::File(_),
        )) || reads.prompt is Ok) ==> (config.context matches Some(PromptSource::File(p)) ==> (
        reads.context matches Err(e) ==> source_failure(config, reads) == Some(
            "context file "@ + p@ + ": "@ + e@,
        ))),
        reads.script is Ok && reads.prompt is Ok && reads.context is Ok ==> source_failure(
            config,
            reads,
        ) is None,
{
    reveal_strlit("prompt");
    reveal_strlit("context");
    reveal_strlit(" file ");
    reveal_strlit("prompt file ");
    reveal_strlit("context file ");
    assert("prompt"@ + " file "@ =~= "prompt file "@);
    assert("context"@ + " file "@ =~= "context file "@);
}

/// A prompt, a context and a key are the text they were given as, or what was
/// read for them; what is not asked for is not there.
pub proof fn law_a_payload_is_what_was_given(
    inline: String,
    path: String,
    text: String,
    read: Result<String, String>,
    value: Option<String>,
)
    ensures
        payload(Some(PromptSource::Inline(inline)), read) == Some(inline@),
        payload(Some(PromptSource::File(path)), Ok(text)) == Some(text@),
        payload(None, read) is None,
        secret(Some(SecretKeySource::Inline(inline)), value) == Some(inline@),
        secret(Some(SecretKeySource::Env(path)), Some(text)) == Some(text@),
        secret(Some(SecretKeySource::Env(path)), None) is None,
        secret(None, value) is None,
{
}

/// A mesh request says whom it is from, and a refusal says what went wrong.
pub proof fn law_the_mesh_is_told_plainly(
    meta: Table<Json>,
    from: Seq<char>,
    reply: Table<Json>,
    words: Seq<char>,
)
    requires
        says_from(Json::Object(meta), from),
        says_error(Json::Object(reply), words),
    ensures
        meta@.dom().contains("from"@) && is_text(meta@["from"@], from),
        forall|k: Seq<char>| #[trigger] meta@.dom().contains(k) ==> k == "from"@,
        reply@.dom().contains("error"@) && is_text(reply@["error"@], words),
        forall|k: Seq<char>| #[trigger] reply@.dom().contains(k) ==> k == "error"@,
{
}

/// A database lies where the configuration says, else where the environment
/// says, else in the base directory under a name of its own.
pub proof fn law_the_configuration_decides_where_a_database_lies(
    which: Database,
    configured: &str,
    setting: &str,
    any: Option<&str>,
    env: HomeEnv,
)
    ensures
        database_file(which, Some(configured), any, env) == Some(configured@),
        database_file(which, None, Some(setting), env) == Some(setting@),
        env.agent_block_home matches Some(b) ==> b@.len() > 0 && b@.last() != '/' ==> database_file(
            which,
            None,
            None,
            env,
        ) == Some(
            b@ + match which {
                Database::Sql => "/db.sqlite"@,
                Database::Kv => "/kv.sqlite"@,
                Database::Ts => "/ts.sqlite"@,
            },
        ),
        env.agent_block_home is None && env.home is None ==> database_file(which, None, None, env)
            is None,
{
    reveal_strlit("db.sqlite");
    reveal_strlit("/db.sqlite");
    reveal_strlit("kv.sqlite");
    reveal_strlit("/kv.sqlite");
    reveal_strlit("ts.sqlite");
    reveal_strlit("/ts.sqlite");
    assert("/db.sqlite"@ =~= seq!['/'] + "db.sqlite"@);
    assert("/kv.sqlite"@ =~= seq!['/'] + "kv.sqlite"@);
    assert("/ts.sqlite"@ =~= seq!['/'] + "ts.sqlite"@);
    crate::bridge::config::law_a_setting_decides_where_a_database_lies(
        setting,
        which.file(),
        Seq::<char>::empty(),
        env,
    );
    if let Some(b) = env.agent_block_home {
        assert(b@ + seq!['/'] + which.file() =~= b@ + (seq!['/'] + which.file()));
    }
}

/// A database in a file has its journal set as asked for and one in memory has
/// none; a connection that is shared is set to synchronize normally, before.
pub proof fn law_a_database_is_set_up_for_what_it_is(path: Seq<char>, journal: Seq<char>)
    ensures
        path == ":memory:"@ ==> pragmas(path, true, journal) == seq![("synchronous"@, "NORMAL"@)],
        path == ":memory:"@ ==> pragmas(path, false, journal) == Seq::<
            (Seq<char>, Seq<char>),
        >::empty(),
        path != ":memory:"@ ==> pragmas(path, true, journal) == seq![
            ("synchronous"@, "NORMAL"@),
            ("journal_mode"@, journal),
        ],
        path != ":memory:"@ ==> pragmas(path, false, journal) == seq![("journal_mode"@, journal)],
{
}

/// A machine knows its script's name, and the prompt and the context where there
/// are any, each under its own global.
pub proof fn law_a_machine_knows_its_script(
    globals: Map<Seq<char>, Json>,
    script_name: Seq<char>,
    prompt: Option<Seq<char>>,
    context: Option<Seq<char>>,
    extra: Set<Seq<char>>,
)
    requires
        globals.dom() == own_names(prompt, context).union(extra),
        forall|k: Seq<char>| #[trigger]
            globals.dom().contains(k) && !extra.contains(k) ==> is_own_global(
                k,
                globals[k],
                script_name,
                prompt,
                context,
            ),
    ensures
        !extra.contains("_SCRIPT_NAME"@) ==> globals.dom().contains("_SCRIPT_NAME"@) && is_text(
            globals["_SCRIPT_NAME"@],
            script_name,
        ),
        !extra.contains("_PROMPT"@) ==> (prompt matches Some(p) ==> globals.dom().contains(
            "_PROMPT"@,
        ) && is_text(globals["_PROMPT"@], p)),
        !extra.contains("_CONTEXT"@) ==> (context matches Some(c) ==> globals.dom().contains(
            "_CONTEXT"@,
        ) && is_text(globals["_CONTEXT"@], c)),
        prompt is None && !extra.contains("_PROMPT"@) ==> !globals.dom().contains("_PROMPT"@),
        context is None && !extra.contains("_CONTEXT"@) ==> !globals.dom().contains("_CONTEXT"@),
{
    reveal_strlit("_SCRIPT_NAME");
    reveal_strlit("_PROMPT");
    reveal_strlit("_CONTEXT");
    assert("_SCRIPT_NAME"@.len() == 12 && "_PROMPT"@.len() == 7 && "_CONTEXT"@.len() == 8);
    let a = set!["_SCRIPT_NAME"@];
    assert(a.contains("_SCRIPT_NAME"@));
    assert(own_names(prompt, context).contains("_SCRIPT_NAME"@));
    assert(prompt is Some ==> own_names(prompt, context).contains("_PROMPT"@));
    assert(context is Some ==> own_names(prompt, context).contains("_CONTEXT"@));
    assert(globals.dom().contains("_SCRIPT_NAME"@));
    assert(prompt is Some ==> globals.dom().contains("_PROMPT"@));
    assert(context is Some ==> globals.dom().contains("_CONTEXT"@));
}

/// Of the tools that share a name the last one is registered, and a name no tool
/// has is not there.
pub proof fn law_the_last_tool_of_a_name_counts<T>(
    tools: Seq<HostToolSpec<T>>,
    name: Seq<char>,
    i: int,
)
    requires
        -1 <= i < tools.len(),
        i >= 0 ==> tools[i].name@ == name,
        forall|j: int| i < j < tools.len() ==> (#[trigger] tools[j]).name@ != name,
    ensures
        last_named(tools, name) == if i >= 0 {
            Some(tools[i])
        } else {
            None
        },
    decreases tools.len(),
{
    if tools.len() > 0 && i < tools.len() - 1 {
        assert(tools[tools.len() - 1].name@ != name);
        law_the_last_tool_of_a_name_counts(tools.drop_last(), name, i);
    }
}

/// A registered tool keeps its name, its group and its handler, and its schema
/// holds its description and the schema of its input.
pub proof fn law_a_registered_tool_is_the_hosts<T>(e: ToolEntry<T>, t: HostToolSpec<T>)
    requires
        stands_for(e, t),
    ensures
        e.name@ == t.name@,
        e.handler == t.handler,
        e.group is Some <==> t.group is Some,
        t.group matches Some(g) ==> e.group->0@ == g@,
        e.schema matches Json::Object(s) && s@.dom().contains("description"@) && is_text(
            s@["description"@],
            t.description@,
        ) && s@.dom().contains("input_schema"@) && s@["input_schema"@] == t.input_schema,
{
}

/// The databases are opened when the root is known, the machines are spawned on
/// them, and the script runs when the bridges and the tools are in; the bus runs
/// out before anything is torn down.
pub proof fn law_the_stages_have_their_order()
    ensures
        Stage::Resolve.rank() < Stage::LoadEnv.rank() < Stage::Bus.rank() < Stage::Mesh.rank()
            < Stage::Mcp.rank() < Stage::ProjectRoot.rank() < Stage::Sqlite.rank()
            < Stage::Isles.rank() < Stage::Bridges.rank() < Stage::Tools.rank()
            < Stage::Execute.rank() < Stage::Drain.rank() < Stage::Shutdown.rank()
            < Stage::Over.rank(),
        Stage::Over.rank() == Stage::Resolve.rank() + 13,
{
}

/// A stage that fails before the script ends the run with its failure, the
/// loading of the environment excepted; one that succeeds leaves what the run
/// comes to as it was.
pub proof fn law_a_failure_before_the_script_ends_the_run(
    run: Run,
    end: Result<String, BlockError>,
    to: Run,
)
    requires
        advanced(run, end, to),
        !(run.stage is Execute || run.stage is Drain || run.stage is Shutdown || run.stage is Over),
    ensures
        end is Ok || run.stage is LoadEnv ==> to.stage.rank() == run.stage.rank() + 1 && to.result
            == run.result,
        end is Err && !(run.stage is LoadEnv) ==> to.stage is Over && to.result == end,
{
}

/// The machines stop before the threads they hand work to, and only the servers
/// and the script's machine can end the teardown early.
pub proof fn law_the_teardown_has_its_order(step: Teardown)
    ensures
        Teardown::Mcp.rank() < Teardown::MainIsle.rank() < Teardown::HandlerIsle.rank()
            < Teardown::KernelThreads.rank() < Teardown::TimeSeries.rank(),
        Teardown::TimeSeries.rank() == Teardown::Mcp.rank() + 4,
        step is Mcp || step is MainIsle ==> step.fatal(),
        step is HandlerIsle || step is KernelThreads || step is TimeSeries ==> !step.fatal(),
{
}

/// A script whose path names no file is run as `unknown`.
pub proof fn law_a_script_without_a_name_is_unknown(
    path: String,
    text: String,
    project_root: Seq<char>,
    dir: Seq<char>,
)
    requires
        path@ == dir + seq!['/', '.', '.'],
        dir.len() > 0,
        dir.last() != '/',
    ensures
        script_parts(ScriptSource::Path(path), project_root, Ok(text)).1 == "unknown"@,
{
    crate::paths::law_dots_are_no_file(dir);
}

/// The generated declarations are what `require` finds under their name, where
/// no directory has a copy.
pub proof fn law_the_declarations_are_carried(
    list: Seq<Resolver>,
    roots: Seq<Seq<char>>,
    modules: Seq<(String, String)>,
    embedded: Seq<Entry>,
    declarations: Seq<char>,
    disk: spec_fn(Seq<char>, Seq<char>) -> Option<Seq<char>>,
)
    requires
        is_search(list, roots, modules),
        carries_modules(modules, embedded, declarations),
        forall|j: int| 0 <= j < roots.len() ==> disk(#[trigger] roots[j], "knl_types"@) is None,
    ensures
        required(list, disk, "knl_types"@) == Some(declarations),
{
    let name = "knl_types"@;
    lemma_carried(modules, name, modules.len() - 1);
    assert forall|j: int| 0 <= j < roots.len() implies held(#[trigger] list[j], disk, name) is None by {
        assert(disk(roots[j], name) is None);
    }
    lemma_required(list, disk, name, list.len() - 1);
}

/// A configuration starts with its script and its root alone: no mesh, no
/// payload, no handler, no tool, no path and no global, and the bus is not
/// served beside the script.
pub proof fn law_a_configuration_starts_bare<H, T, C, S>(
    config: BlockConfig<H, T, C, S>,
    script: ScriptSource,
    project_root: Seq<char>,
    name: Seq<char>,
)
    requires
        is_default(config, script, project_root),
    ensures
        config.script == script && config.project_root@ == project_root,
        config.relay_url is None && config.secret_key is None,
        config.mcp_rpc_timeout is None && config.http_client is None,
        config.prompt is None && config.context is None,
        !config.host_handlers@.dom().contains(name) && config.host_handler is None,
        config.host_tools@.len() == 0,
        config.sql_path is None && config.kv_path is None && config.ts_path is None,
        !config.extra_globals@.dom().contains(name),
        !config.auto_serve_bus && config.shutdown_token is None,
{
}

} // verus!
