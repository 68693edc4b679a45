//! The settings of the storage backends and of the bus.
//!
//! Every setting comes from the environment.  The functions here take what the
//! environment says and work out the setting:
//!
//! | variable                           | default                             |
//! |------------------------------------|-------------------------------------|
//! | `AGENT_BLOCK_HOME`                 | `$HOME/.agent-block`                |
//! | `AGENT_BLOCK_KV_PATH`              | `{HOME}/kv.sqlite`                  |
//! | `AGENT_BLOCK_SQL_PATH`             | `{HOME}/db.sqlite`                  |
//! | `AGENT_BLOCK_TS_PATH`              | `{HOME}/ts.sqlite`                  |
//! | `AGENT_BLOCK_KNL_PATH`             | `{HOME}/projects/<slug>/knl.sqlite` |
//! | `AGENT_BLOCK_SQL_BUSY_TIMEOUT_MS`  | `5000`                              |
//! | `AGENT_BLOCK_SQL_QUERY_TIMEOUT_MS` | `5000`, and `0` for none            |
//! | `AGENT_BLOCK_SQL_JOURNAL_MODE`     | `WAL`                               |
//! | `AGENT_BLOCK_BUS_CAPACITY`         | `64`                                |
//! | `AGENT_BLOCK_TASK_GRACE_MS`        | `1000`                              |
//! | `AGENT_BLOCK_UNSEAL`               | unset                               |
//!
//! `AGENT_BLOCK_UNSEAL=1` is neither a path nor a bound: it lets a project
//! shadow a sealed module, which otherwise ends the run.  It is for work on the
//! kernel itself.  Any other value, and none, leaves the refusal in place; see
//! [`crate::embedded::check_seal`].
//!
//! The kernel's log is per project: it lies in a directory named after the
//! project's root.

use vstd::prelude::*;

use crate::text::{
    chars_of, dec, law_decimal_reads_back, parse_int, parse_u64, parse_usize, same, scan_digits,
    IntFault,
};

verus! {

broadcast use vstd::string::group_string_axioms;

/// Default of the busy timeout, in milliseconds.
pub const DEFAULT_SQL_BUSY_TIMEOUT_MS: u64 = 5000;

/// Default of the query timeout, in milliseconds.
pub const DEFAULT_SQL_QUERY_TIMEOUT_MS: u64 = 5000;

/// Default capacity of the bus.
pub const DEFAULT_BUS_CAPACITY: usize = 64;

/// Default of the grace window, in milliseconds.
pub const DEFAULT_TASK_GRACE_MS: u64 = 1000;

/// What the environment says about where local state lies.
pub struct HomeEnv {
    /// `AGENT_BLOCK_HOME`
    pub agent_block_home: Option<String>,
    /// `HOME`
    pub home: Option<String>,
}

/// The path of `name` under `base`.
pub open spec fn joined(base: Seq<char>, name: Seq<char>) -> Seq<char> {
    if name.len() > 0 && name[0] == '/' {
        name
    } else if base.len() == 0 || base.last() == '/' {
        base + name
    } else {
        base + seq!['/'] + name
    }
}

/// The path of `name` under `base`.
pub fn join_path(base: &str, name: &str) -> (out: String)
    ensures
        out@ == joined(base@, name@),
{
    let b = chars_of(base);
    let n = chars_of(name);
    if n.len() > 0 && n[0] == '/' {
        return name.to_owned();
    }
    let mut out = base.to_owned();
    if b.len() > 0 && b[b.len() - 1] != '/' {
        out.push('/');
        assert(out@ =~= base@ + seq!['/']);
    }
    out.append(name);
    out
}

/// Where local state lies: `AGENT_BLOCK_HOME`, else `.agent-block` in the home
/// directory.
pub open spec fn base(env: HomeEnv) -> Option<Seq<char>> {
    match (env.agent_block_home, env.home) {
        (Some(b), _) => Some(b@),
        (None, Some(h)) => Some(joined(h@, ".agent-block"@)),
        (None, None) => None,
    }
}

/// Base directory of local state.
pub fn base_dir(env: &HomeEnv) -> (out: Result<String, String>)
    ensures
        match out {
            Ok(b) => base(*env) == Some(b@),
            Err(e) => base(*env) is None && e@ == "HOME env var not set"@,
        },
{
    if let Some(b) = &env.agent_block_home {
        return Ok(b.clone());
    }
    match &env.home {
        Some(h) => Ok(join_path(h.as_str(), ".agent-block")),
        None => Err("HOME env var not set".to_owned()),
    }
}

/// Where a database lies: where the environment says, else under its name in
/// the base directory.
pub open spec fn database(setting: Option<&str>, name: Seq<char>, env: HomeEnv) -> Option<
    Seq<char>,
> {
    match (setting, base(env)) {
        (Some(p), _) => Some(p@),
        (None, Some(b)) => Some(joined(b, name)),
        (None, None) => None,
    }
}

/// Where a database lies.
fn database_path(setting: Option<&str>, name: &str, env: &HomeEnv) -> (out: Result<String, String>)
    ensures
        match out {
            Ok(p) => database(setting, name@, *env) == Some(p@),
            Err(e) => database(setting, name@, *env) is None && e@ == "HOME env var not set"@,
        },
{
    if let Some(p) = setting {
        return Ok(p.to_owned());
    }
    match base_dir(env) {
        Ok(b) => Ok(join_path(b.as_str(), name)),
        Err(e) => Err(e),
    }
}

/// Path of the `std.kv` database.
pub fn kv_path(setting: Option<&str>, env: &HomeEnv) -> (out: Result<String, String>)
    ensures
        match out {
            Ok(p) => database(setting, "kv.sqlite"@, *env) == Some(p@),
            Err(e) => database(setting, "kv.sqlite"@, *env) is None && e@
                == "HOME env var not set"@,
        },
{
    database_path(setting, "kv.sqlite", env)
}

/// Path of the `std.sql` database.
pub fn sql_path(setting: Option<&str>, env: &HomeEnv) -> (out: Result<String, String>)
    ensures
        match out {
            Ok(p) => database(setting, "db.sqlite"@, *env) == Some(p@),
            Err(e) => database(setting, "db.sqlite"@, *env) is None && e@
                == "HOME env var not set"@,
        },
{
    database_path(setting, "db.sqlite", env)
}

/// Path of the `std.ts` database.
pub fn ts_path(setting: Option<&str>, env: &HomeEnv) -> (out: Result<String, String>)
    ensures
        match out {
            Ok(p) => database(setting, "ts.sqlite"@, *env) == Some(p@),
            Err(e) => database(setting, "ts.sqlite"@, *env) is None && e@
                == "HOME env var not set"@,
        },
{
    database_path(setting, "ts.sqlite", env)
}

/// A project root with its separators turned into dashes.
pub open spec fn slug(root: Seq<char>) -> Seq<char> {
    root.map_values(
        |c: char|
            if c == '/' {
                '-'
            } else {
                c
            },
    )
}

/// The directory one project's kernel database lives in, as a single name: the
/// project root with every separator replaced by a dash, readable and not
/// hashed.
pub fn project_slug(project_root: &str) -> (out: String)
    ensures
        out@ == slug(project_root@),
{
    let chars = chars_of(project_root);
    let mut out = String::new();
    let mut i: usize = 0;
    assert(out@ =~= slug(chars@.take(0)));
    while i < chars.len()
        invariant
            0 <= i <= chars@.len(),
            out@ == slug(chars@.take(i as int)),
        decreases chars@.len() - i,
    {
        let c = chars[i];
        out.push(
            if c == '/' {
                '-'
            } else {
                c
            },
        );
        assert(slug(chars@.take(i + 1)) =~= slug(chars@.take(i as int)).push(
            if c == '/' {
                '-'
            } else {
                c
            },
        ));
        i += 1;
    }
    assert(chars@.take(chars@.len() as int) =~= chars@);
    out
}

/// A slug is one directory name, as long as the path it was made from.
pub proof fn law_a_slug_is_one_name(root: Seq<char>)
    ensures
        slug(root).len() == root.len(),
        !slug(root).contains('/'),
{
    if slug(root).contains('/') {
        let i = choose|i: int| 0 <= i < slug(root).len() && slug(root)[i] == '/';
        assert(slug(root)[i] != '/');
    }
}

/// Whether two paths differ in nothing but separators that stand against
/// dashes.
pub open spec fn same_but_for_dashes(a: Seq<char>, b: Seq<char>) -> bool {
    &&& a.len() == b.len()
    &&& forall|i: int|
        0 <= i < a.len() ==> (#[trigger] a[i] == b[i] || a[i] == '/' && b[i] == '-' || a[i] == '-'
            && b[i] == '/')
}

/// Two projects slug apart, unless their paths differ in nothing but
/// separators that stand against dashes; so where neither path holds a dash,
/// two projects always slug apart.
pub proof fn law_two_projects_slug_apart(a: Seq<char>, b: Seq<char>)
    ensures
        slug(a) == slug(b) <==> same_but_for_dashes(a, b),
        !a.contains('-') && !b.contains('-') && a != b ==> slug(a) != slug(b),
{
    assert(a.len() == slug(a).len() && b.len() == slug(b).len());
    if slug(a) == slug(b) {
        assert forall|i: int| 0 <= i < a.len() implies (#[trigger] a[i] == b[i] || a[i] == '/'
            && b[i] == '-' || a[i] == '-' && b[i] == '/') by {
            assert(slug(a)[i] == slug(b)[i]);
        }
        if !a.contains('-') && !b.contains('-') {
            assert forall|i: int| 0 <= i < a.len() implies a[i] == b[i] by {
                assert(a.contains(a[i]) && b.contains(b[i]));
            }
            assert(a =~= b);
        }
    }
    if same_but_for_dashes(a, b) {
        assert(slug(a) =~= slug(b));
    }
}

/// Where the kernel's database of a project lies: where the environment says,
/// taken whole, else in the project's directory under the base directory.
pub open spec fn kernel_database(
    setting: Option<&str>,
    project_root: Seq<char>,
    env: HomeEnv,
) -> Option<Seq<char>> {
    match (setting, base(env)) {
        (Some(p), _) => Some(p@),
        (None, Some(b)) => Some(
            joined(joined(joined(b, "projects"@), slug(project_root)), "knl.sqlite"@),
        ),
        (None, None) => None,
    }
}

/// The rule behind [`knl_path`]: an override wins whole, otherwise the
/// per-project default.
pub fn resolve_knl_path(
    override_path: Option<&str>,
    project_root: &str,
    env: &HomeEnv,
) -> (out: Result<String, String>)
    ensures
        match out {
            Ok(p) => kernel_database(override_path, project_root@, *env) == Some(p@),
            Err(e) => kernel_database(override_path, project_root@, *env) is None && e@
                == "HOME env var not set"@,
        },
{
    if let Some(p) = override_path {
        return Ok(p.to_owned());
    }
    let b = match base_dir(env) {
        Ok(b) => b,
        Err(e) => return Err(e),
    };
    let projects = join_path(b.as_str(), "projects");
    let project = join_path(projects.as_str(), project_slug(project_root).as_str());
    Ok(join_path(project.as_str(), "knl.sqlite"))
}

/// Path of the kernel's database for the project rooted at `project_root`,
/// given what `AGENT_BLOCK_KNL_PATH` says.
pub fn knl_path(setting: Option<&str>, project_root: &str, env: &HomeEnv) -> (out: Result<
    String,
    String,
>)
    ensures
        match out {
            Ok(p) => kernel_database(setting, project_root@, *env) == Some(p@),
            Err(e) => kernel_database(setting, project_root@, *env) is None && e@
                == "HOME env var not set"@,
        },
{
    resolve_knl_path(setting, project_root, env)
}

/// True when the path is SQLite's in-memory sentinel.
pub fn is_memory_sql(path: &str) -> (yes: bool)
    ensures
        yes == (path@ == ":memory:"@),
{
    same(path, ":memory:")
}

/// The number a setting holds, else a default.
pub open spec fn number_or(setting: Option<&str>, max: int, default: int) -> int {
    match setting {
        Some(s) => match parse_int(s@, 0, max) {
            Ok(n) => n,
            Err(_) => default,
        },
        None => default,
    }
}

/// The number a setting holds, else a default.
fn u64_or(setting: Option<&str>, default: u64) -> (n: u64)
    ensures
        n == number_or(setting, u64::MAX as int, default as int),
{
    match setting {
        Some(s) => match parse_u64(s) {
            Ok(n) => n,
            Err(_) => default,
        },
        None => default,
    }
}

/// How long a statement waits for a locked database, in milliseconds.
pub fn sql_busy_timeout(setting: Option<&str>) -> (ms: u64)
    ensures
        ms == number_or(setting, u64::MAX as int, 5000),
{
    u64_or(setting, DEFAULT_SQL_BUSY_TIMEOUT_MS)
}

/// The journal mode of the databases.
pub fn sql_journal_mode(setting: Option<&str>) -> (mode: String)
    ensures
        mode@ == match setting {
            Some(m) => m@,
            None => "WAL"@,
        },
{
    match setting {
        Some(m) => m.to_owned(),
        None => "WAL".to_owned(),
    }
}

/// How long a query may take, in milliseconds; `0` means without limit.
pub fn sql_query_timeout(setting: Option<&str>) -> (ms: Option<u64>)
    ensures
        ({
            let n = number_or(setting, u64::MAX as int, 5000);
            match ms {
                Some(m) => m == n && n != 0,
                None => n == 0,
            }
        }),
{
    let ms: u64 = u64_or(setting, DEFAULT_SQL_QUERY_TIMEOUT_MS);
    if ms == 0 {
        None
    } else {
        Some(ms)
    }
}

/// How many events the bus holds.  A setting that is no number counts as none.
pub fn bus_capacity(setting: Option<&str>) -> (n: usize)
    ensures
        n == number_or(setting, usize::MAX as int, 64),
{
    match setting {
        Some(s) => match parse_usize(s) {
            Ok(n) => n,
            Err(_) => DEFAULT_BUS_CAPACITY,
        },
        None => DEFAULT_BUS_CAPACITY,
    }
}

/// The grace window of a shutdown, in milliseconds.  A setting that is no
/// number counts as none.
pub fn task_grace_ms(setting: Option<&str>) -> (ms: u64)
    ensures
        ms == number_or(setting, u64::MAX as int, 1000),
{
    u64_or(setting, DEFAULT_TASK_GRACE_MS)
}

// ── laws ─────────────────────────────────────────────────────────────

/// Local state lies where the environment says, and without a word from it in a
/// directory of the user's home.
pub proof fn law_where_local_state_lies(env: HomeEnv)
    ensures
        env.agent_block_home matches Some(b) ==> base(env) == Some(b@),
        env.agent_block_home is None ==> (env.home matches Some(h) ==> h@.len() > 0 && h@.last()
            != '/' ==> base(env) == Some(h@ + "/.agent-block"@)),
        env.agent_block_home is None && env.home is None ==> base(env) is None,
{
    reveal_strlit(".agent-block");
    reveal_strlit("/.agent-block");
    assert("/.agent-block"@ =~= seq!['/'] + ".agent-block"@);
    if let Some(h) = env.home {
        assert(h@ + seq!['/'] + ".agent-block"@ =~= h@ + "/.agent-block"@);
    }
}

/// A database lies where its setting says, whatever else is set, and without one
/// under its name in the base directory; the kernel's lies there in a directory
/// of its project.
pub proof fn law_a_setting_decides_where_a_database_lies(
    setting: &str,
    name: Seq<char>,
    root: Seq<char>,
    env: HomeEnv,
)
    ensures
        database(Some(setting), name, env) == Some(setting@),
        kernel_database(Some(setting), root, env) == Some(setting@),
        base(env) is None ==> database(None, name, env) is None && kernel_database(
            None,
            root,
            env,
        ) is None,
        name.len() > 0 && name[0] != '/' ==> (base(env) matches Some(b) ==> b.len() > 0 && b.last()
            != '/' ==> database(None, name, env) == Some(b + seq!['/'] + name)),
        root.len() > 0 ==> (base(env) matches Some(b) ==> b.len() > 0 && b.last() != '/'
            ==> kernel_database(None, root, env) == Some(
            b + "/projects/"@ + slug(root) + "/knl.sqlite"@,
        )),
{
    reveal_strlit("projects");
    reveal_strlit("/projects/");
    reveal_strlit("knl.sqlite");
    reveal_strlit("/knl.sqlite");
    law_a_slug_is_one_name(root);
    if root.len() > 0 {
        if let Some(b) = base(env) {
            if b.len() > 0 && b.last() != '/' {
                let name = slug(root);
                let under = b + seq!['/'] + "projects"@;
                assert(under.last() == 's');
                assert(name[0] != '/') by {
                    assert(name.contains(name[0]));
                }
                let project = under + seq!['/'] + name;
                assert(project.last() == name.last());
                assert(name.last() != '/') by {
                    assert(name.contains(name[name.len() - 1]));
                }
                assert(project + seq!['/'] + "knl.sqlite"@ =~= b + "/projects/"@ + name
                    + "/knl.sqlite"@);
            }
        }
    }
}

/// The directory of a project is its root with a dash for every separator and
/// every other character as it is.
pub proof fn law_a_slug_reads_like_its_root(root: Seq<char>, i: int)
    requires
        0 <= i < root.len(),
    ensures
        root[i] == '/' ==> slug(root)[i] == '-',
        root[i] != '/' ==> slug(root)[i] == root[i],
{
}

/// A setting that is a number is that number; one that is none, and one that is
/// not there, leave the default.
pub proof fn law_a_number_that_is_set_counts(setting: &str, n: nat, max: int, default: int)
    requires
        n <= max,
    ensures
        setting@ == dec(n) ==> number_or(Some(setting), max, default) == n,
        setting@.len() == 0 ==> number_or(Some(setting), max, default) == default,
        setting@.len() == 1 && !('0' <= setting@[0] <= '9') ==> number_or(
            Some(setting),
            max,
            default,
        ) == default,
        number_or(None, max, default) == default,
{
    law_decimal_reads_back(n, 0, max);
    if setting@.len() == 1 {
        assert(setting@.drop_last() =~= Seq::<char>::empty());
        assert(scan_digits(setting@.drop_last(), false, 0, max) == Ok::<int, IntFault>(0));
    }
}

/// A name that starts at the root stands by itself, and any other is put behind
/// the directory with one separator between them.
pub proof fn law_a_name_is_joined_with_one_separator(dir: Seq<char>, name: Seq<char>)
    requires
        name.len() > 0,
    ensures
        name[0] == '/' ==> joined(dir, name) == name,
        name[0] != '/' && dir.len() > 0 && dir.last() != '/' ==> joined(dir, name) == dir + seq![
            '/',
        ] + name && joined(dir + seq!['/'], name) == dir + seq!['/'] + name,
        name[0] != '/' ==> joined(Seq::<char>::empty(), name) == name,
{
    assert(Seq::<char>::empty() + name =~= name);
}

} // verus!
