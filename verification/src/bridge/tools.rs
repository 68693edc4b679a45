//! Which bridges a virtual machine gets and in which order, and how the Lua
//! half of a bridge is found.

use vstd::prelude::*;

verus! {

broadcast use vstd::string::group_string_axioms;

/// A bridge, or what the handlers' virtual machine has in place of one.
#[derive(Debug, Clone, Copy, PartialEq, Eq, Structural)]
pub enum Bridge {
    /// `bus.*`
    Bus,
    /// The globals through which the bus reaches its handlers.
    BusDispatcher,
    /// The globals through which MCP servers reach theirs.
    McpDispatcher,
    /// `mesh.*`
    Mesh,
    /// `sh.*`
    Sh,
    /// `tool.*`
    Tool,
    /// `std.fs.*`
    Fs,
    /// `log.*` and `env.*`
    Log,
    /// `mcp.*`
    Mcp,
    /// `http.*`
    Http,
    /// `llm.*`
    Llm,
    /// `knl.*`
    Knl,
    /// `std.kv.*`
    Kv,
    /// `std.sql.*`
    Sql,
    /// `std.ts.*`
    Ts,
    /// `std.task.*`
    Task,
}

/// The bridges both virtual machines have.
pub open spec fn shared_bridges() -> Seq<Bridge> {
    seq![
        Bridge::Mesh,
        Bridge::Sh,
        Bridge::Tool,
        Bridge::Fs,
        Bridge::Log,
        Bridge::Mcp,
        Bridge::Http,
        Bridge::Llm,
        Bridge::Knl,
        Bridge::Kv,
        Bridge::Sql,
        Bridge::Ts,
        Bridge::Task,
    ]
}

/// The bridges of a virtual machine in the order they are registered: that of
/// the script begins with the bus, that of the handlers with the two
/// dispatchers.
pub open spec fn bridges(handler_side: bool) -> Seq<Bridge> {
    if handler_side {
        seq![Bridge::BusDispatcher, Bridge::McpDispatcher] + shared_bridges()
    } else {
        seq![Bridge::Bus] + shared_bridges()
    }
}

fn register_non_bus_bridges(out: &mut Vec<Bridge>)
    ensures
        final(out)@ == old(out)@ + shared_bridges(),
{
    let ghost start = out@;
    out.push(Bridge::Mesh);
    out.push(Bridge::Sh);
    out.push(Bridge::Tool);
    out.push(Bridge::Fs);
    out.push(Bridge::Log);
    out.push(Bridge::Mcp);
    out.push(Bridge::Http);
    out.push(Bridge::Llm);
    out.push(Bridge::Knl);
    out.push(Bridge::Kv);
    out.push(Bridge::Sql);
    out.push(Bridge::Ts);
    out.push(Bridge::Task);
    assert(out@ =~= start + shared_bridges());
}

/// The bridges of the script's virtual machine, in order.
pub fn register_all() -> (out: Vec<Bridge>)
    ensures
        out@ == bridges(false),
{
    let mut out: Vec<Bridge> = Vec::new();
    out.push(Bridge::Bus);
    assert(out@ =~= seq![Bridge::Bus]);
    register_non_bus_bridges(&mut out);
    out
}

/// The bridges of the handlers' virtual machine, in order.
pub fn register_all_handler_side() -> (out: Vec<Bridge>)
    ensures
        out@ == bridges(true),
{
    let mut out: Vec<Bridge> = Vec::new();
    out.push(Bridge::BusDispatcher);
    out.push(Bridge::McpDispatcher);
    assert(out@ =~= seq![Bridge::BusDispatcher, Bridge::McpDispatcher]);
    register_non_bus_bridges(&mut out);
    out
}

/// A bridge that needs another comes after it, whichever machine it is
/// registered on: the file tools come after the tool registry, and where there
/// is a bus the mesh comes after it.  A handler cannot register handlers: its
/// machine has no bus.
pub proof fn law_a_bridge_comes_after_what_it_needs(handler_side: bool, i: int, j: int)
    requires
        0 <= i < bridges(handler_side).len(),
        0 <= j < bridges(handler_side).len(),
    ensures
        bridges(handler_side)[i] == Bridge::Tool && bridges(handler_side)[j] == Bridge::Fs ==> i
            < j,
        bridges(handler_side)[i] == Bridge::Bus && bridges(handler_side)[j] == Bridge::Mesh ==> i
            < j,
        handler_side ==> bridges(handler_side)[i] != Bridge::Bus,
{
}

// ── the Lua half of a bridge ─────────────────────────────────────────

/// What loading a module answered, as far as it is looked at.
pub enum Answer {
    Nil,
    Boolean(bool),
    Table,
    /// Anything else, by the name of its type.
    Other(String),
}

/// Where the module that is installed comes from.
#[derive(Debug, Clone, Copy, PartialEq, Eq, Structural)]
pub enum ModuleFrom {
    /// `require` found it.
    Require,
    /// It is the source the binary carries.
    Embedded,
}

/// The chunk that asks `require` for a module: it answers the module, or
/// `false` where the name is not found; any other error goes on.
pub open spec fn probe(name: Seq<char>) -> Seq<char> {
    "local ok, mod = pcall(require, \""@ + name
        + "\")\nif ok then return mod end\nif tostring(mod):find(\"module '"@ + name
        + "' not found\", 1, true) then return false end\nerror(mod, 0)"@
}

/// The chunk that asks `require` for a module.
pub fn probe_source(name: &str) -> (out: String)
    ensures
        out@ == probe(name@),
{
    let mut out = "local ok, mod = pcall(require, \"".to_owned();
    out.append(name);
    out.append("\")\nif ok then return mod end\nif tostring(mod):find(\"module '");
    out.append(name);
    out.append("' not found\", 1, true) then return false end\nerror(mod, 0)");
    out
}

/// What a message calls the type of an answer.
pub open spec fn answer_words(a: Answer) -> Seq<char> {
    match a {
        Answer::Nil => "nil"@,
        Answer::Boolean(_) => "a boolean"@,
        Answer::Table => "table"@,
        Answer::Other(t) => t@,
    }
}

/// What a message calls the type of an answer.
pub fn found_type(a: &Answer) -> (out: String)
    ensures
        out@ == answer_words(*a),
{
    match a {
        Answer::Nil => "nil".to_owned(),
        Answer::Boolean(_) => "a boolean".to_owned(),
        Answer::Table => "table".to_owned(),
        Answer::Other(t) => t.clone(),
    }
}

/// What is said of a module that answers no table.
pub open spec fn not_a_library(name: Seq<char>, a: Answer) -> Seq<char> {
    "the `"@ + name + "` module answered "@ + answer_words(a)
        + " — a tool module is a library: it must end with `return M`, the table holding its functions. `agent-block vendor --force "@
        + name + "` rewrites the copy from the current embedded source."@
}

/// Whether the embedded source has to be run, which is where `require` did not
/// find the name.
pub fn needs_embedded(found: &Answer) -> (yes: bool)
    ensures
        yes == (*found == Answer::Boolean(false)),
{
    match found {
        Answer::Boolean(b) => !*b,
        _ => false,
    }
}

/// Which module is installed.  The one `require` found is, and only where it
/// found none the embedded one, whose answer is not looked at otherwise.  A
/// module that answers no table is refused.
pub fn load_tools_module(name: &str, found: Answer, embedded: Answer) -> (out: Result<
    ModuleFrom,
    String,
>)
    ensures
        ({
            let missing = found == Answer::Boolean(false);
            let a = if missing {
                embedded
            } else {
                found
            };
            match out {
                Ok(from) => a is Table && from == if missing {
                    ModuleFrom::Embedded
                } else {
                    ModuleFrom::Require
                },
                Err(e) => !(a is Table) && e@ == not_a_library(name@, a),
            }
        }),
{
    let missing = needs_embedded(&found);
    let (a, from) = if missing {
        (embedded, ModuleFrom::Embedded)
    } else {
        (found, ModuleFrom::Require)
    };
    match a {
        Answer::Table => Ok(from),
        other => {
            let mut e = "the `".to_owned();
            e.append(name);
            e.append("` module answered ");
            e.append(found_type(&other).as_str());
            e.append(
                " — a tool module is a library: it must end with `return M`, the table holding its functions. `agent-block vendor --force ",
            );
            e.append(name);
            e.append("` rewrites the copy from the current embedded source.");
            Err(e)
        },
    }
}

/// Each of the bridges both machines share is registered on each of them, once;
/// the bus itself on the script's alone, and the two dispatchers on the
/// handlers'.
pub proof fn law_every_bridge_is_registered_once(handler_side: bool)
    ensures
        bridges(handler_side).no_duplicates(),
        bridges(handler_side).contains(Bridge::Mesh) && bridges(handler_side).contains(Bridge::Sh)
            && bridges(handler_side).contains(Bridge::Tool) && bridges(handler_side).contains(
            Bridge::Fs,
        ) && bridges(handler_side).contains(Bridge::Log) && bridges(handler_side).contains(
            Bridge::Mcp,
        ) && bridges(handler_side).contains(Bridge::Http) && bridges(handler_side).contains(
            Bridge::Llm,
        ) && bridges(handler_side).contains(Bridge::Knl) && bridges(handler_side).contains(
            Bridge::Kv,
        ) && bridges(handler_side).contains(Bridge::Sql) && bridges(handler_side).contains(
            Bridge::Ts,
        ) && bridges(handler_side).contains(Bridge::Task),
        bridges(handler_side).contains(Bridge::Bus) == !handler_side,
        bridges(handler_side).contains(Bridge::BusDispatcher) == handler_side,
        bridges(handler_side).contains(Bridge::McpDispatcher) == handler_side,
{
    let all = bridges(handler_side);
    let n = if handler_side {
        2int
    } else {
        1int
    };
    assert(all[n] == Bridge::Mesh && all[n + 1] == Bridge::Sh && all[n + 2] == Bridge::Tool && all[n
        + 3] == Bridge::Fs && all[n + 4] == Bridge::Log && all[n + 5] == Bridge::Mcp && all[n + 6]
        == Bridge::Http && all[n + 7] == Bridge::Llm && all[n + 8] == Bridge::Knl && all[n + 9]
        == Bridge::Kv && all[n + 10] == Bridge::Sql && all[n + 11] == Bridge::Ts && all[n + 12]
        == Bridge::Task);
    if handler_side {
        assert(all[0] == Bridge::BusDispatcher && all[1] == Bridge::McpDispatcher);
    } else {
        assert(all[0] == Bridge::Bus);
    }
}

/// What a module answered is told by its name.
pub proof fn law_an_answer_is_told_by_its_name(found: String, b: bool)
    ensures
        answer_words(Answer::Nil) == "nil"@,
        answer_words(Answer::Boolean(b)) == "a boolean"@,
        answer_words(Answer::Table) == "table"@,
        answer_words(Answer::Other(found)) == found@,
{
}

/// A module is asked for by its name, and one that answers with no table is told
/// by its name and what it answered with.
pub proof fn law_a_module_is_asked_for_by_its_name(name: Seq<char>, found: String)
    ensures
        ({
            let call = "local ok, mod = pcall(require, \""@ + name + "\")"@;
            probe(name).len() > call.len() && probe(name).take(call.len() as int) == call
        }),
        ({
            let words = "the `"@ + name + "` module answered "@ + found@;
            not_a_library(name, Answer::Other(found)).len() > words.len() && not_a_library(
                name,
                Answer::Other(found),
            ).take(words.len() as int) == words
        }),
{
    reveal_strlit("\")");
    reveal_strlit("\")\nif ok then return mod end\nif tostring(mod):find(\"module '");
    reveal_strlit(" — a tool module is a library: it must end with `return M`, the table holding its functions. `agent-block vendor --force ");
    let call = "local ok, mod = pcall(require, \""@ + name + "\")"@;
    assert(probe(name).take(call.len() as int) =~= call);
    let words = "the `"@ + name + "` module answered "@ + found@;
    let all = not_a_library(name, Answer::Other(found));
    assert(all.take(words.len() as int) =~= words);
}

} // verus!
