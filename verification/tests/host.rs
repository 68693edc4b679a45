use agent_block_core::bridge::config::HomeEnv;
use agent_block_core::bus::event::AckOutcome;
use agent_block_core::embedded::entries;
use agent_block_core::host::{
    absolute_root, build_blocks_path, build_blocks_roots, drain_auto_serve, execute_script,
    hex_decode_32, host_tool_entries, host_tools_error, inspect_tools, isle_globals,
    isle_shutdown_error, key_is_readable, memory_modules, mesh_error, mesh_event, mesh_reply,
    package_path, plan_mesh, plan_sqlite, resolve_database, resolve_sources, resolvers,
    setup_event_bus, shutdown, sqlite_dir_error, sqlite_open_error, BlockConfig, BlockError,
    Database, DrainStep, Execution, HostToolSpec, MeshPlan, PromptSource, Reads, Resolver, Run,
    ScriptSource, SecretKeySource, Stage, Teardown, TeardownNext, ToolSource,
};
use agent_block_core::json::{Json, Number};
use agent_block_core::paths::{file_name, parent};
use agent_block_core::table::Table;

type Config = BlockConfig<&'static str, u32, (), ()>;

fn inline(source: &str) -> ScriptSource {
    ScriptSource::Inline { source: source.to_string(), name: "inline.lua".to_string() }
}

fn no_reads() -> Reads {
    Reads {
        script: Err("not read".to_string()),
        prompt: Err("not read".to_string()),
        context: Err("not read".to_string()),
        secret_key: None,
    }
}

fn said(e: BlockError) -> String {
    match e {
        BlockError::Script(m) => format!("script: {m}"),
        BlockError::Runtime(m) => format!("runtime: {m}"),
        BlockError::Bus(m) => format!("bus: {m}"),
        BlockError::Mesh(m) => format!("mesh: {m}"),
        BlockError::Cancelled => "cancelled".to_string(),
    }
}

fn tool(name: &str, description: &str, group: Option<&str>, handler: u32) -> HostToolSpec<u32> {
    HostToolSpec {
        name: name.to_string(),
        description: description.to_string(),
        input_schema: Json::empty_object(),
        group: group.map(|g| g.to_string()),
        handler,
    }
}

// ── the key ──────────────────────────────────────────────────────────

#[test]
fn a_key_is_read_from_its_digits() {
    let text = format!("  {}0F\n", "a1".repeat(31));
    let mut expected = [0xa1u8; 32];
    expected[31] = 0x0f;
    assert_eq!(hex_decode_32(&text).ok(), Some(expected));
}

#[test]
fn a_key_that_is_none_says_where() {
    assert_eq!(hex_decode_32("abc").err().unwrap(), "expected 64 hex chars, got 3");
    assert_eq!(hex_decode_32("ééé").err().unwrap(), "expected 64 hex chars, got 6");
    let text = format!("{}g{}", "0".repeat(10), "0".repeat(53));
    assert_eq!(
        hex_decode_32(&text).err().unwrap(),
        "invalid hex at position 10: invalid digit found in string"
    );
    let plus = format!("+{}", "0".repeat(63));
    assert_eq!(
        hex_decode_32(&plus).err().unwrap(),
        "invalid hex at position 0: invalid digit found in string"
    );
}

#[test]
fn a_key_with_a_wide_character_cannot_be_looked_at() {
    assert!(!key_is_readable(&format!("{}é{}", "0".repeat(10), "0".repeat(52))));
    assert!(key_is_readable(&format!("g{}é{}", "0".repeat(9), "0".repeat(52))));
    assert!(key_is_readable("é"));
    assert!(key_is_readable(&"0".repeat(64)));
}

#[test]
fn without_a_relay_there_is_no_mesh() {
    assert!(matches!(plan_mesh(None, Some("not a key")).ok(), Some(MeshPlan::Disabled)));
    match plan_mesh(Some("wss://r"), None).ok() {
        Some(MeshPlan::Connect { relay_url, key }) => {
            assert_eq!(relay_url, "wss://r");
            assert!(key.is_none());
        }
        _ => panic!("no plan"),
    }
    match plan_mesh(Some("wss://r"), Some(&"00".repeat(32))).ok() {
        Some(MeshPlan::Connect { key, .. }) => assert_eq!(key, Some([0u8; 32])),
        _ => panic!("no plan"),
    }
    assert_eq!(
        said(plan_mesh(Some("wss://r"), Some("ab")).err().unwrap()),
        "runtime: secret-key: expected 64 hex chars, got 2"
    );
    assert_eq!(said(mesh_error("wss://r", "refused")), "mesh: connect to wss://r failed: refused");
}

#[test]
fn a_mesh_request_becomes_an_event_and_its_answer_a_reply() {
    let e = mesh_event("agent-1", Json::Bool(true));
    assert_eq!(e.kind, "mesh");
    assert!(matches!(e.payload, Json::Bool(true)));
    assert_eq!(e.meta.get("from").and_then(|v| v.as_text()), Some("agent-1"));
    assert_eq!((e.id.len(), e.id.as_bytes()[14]), (36, b'4'));

    assert!(matches!(mesh_reply(AckOutcome::Answered(Json::Null)), Json::Null));
    for (outcome, words) in [
        (AckOutcome::ChannelClosed, "bus channel closed"),
        (AckOutcome::Dropped, "ack dropped"),
        (AckOutcome::TimedOut, "handler timeout"),
        (AckOutcome::Failed("bad".to_string()), "bad"),
    ] {
        let r = mesh_reply(outcome);
        assert_eq!(r.get("error").and_then(|v| v.as_text()), Some(words));
    }
}

// ── the configuration ────────────────────────────────────────────────

#[test]
fn a_configuration_starts_from_its_defaults() {
    let c: Config = BlockConfig::builder(inline("x"), "/p".to_string()).build();
    assert_eq!(c.project_root, "/p");
    assert!(matches!(&c.script, ScriptSource::Inline { source, .. } if source == "x"));
    assert!(c.relay_url.is_none() && c.secret_key.is_none() && c.mcp_rpc_timeout.is_none());
    assert!(c.prompt.is_none() && c.context.is_none());
    assert_eq!(c.host_handlers.len(), 0);
    assert!(c.host_handler.is_none() && c.host_tools.is_empty() && c.http_client.is_none());
    assert!(c.sql_path.is_none() && c.kv_path.is_none() && c.ts_path.is_none());
    assert_eq!(c.extra_globals.len(), 0);
    assert!(!c.auto_serve_bus && c.shutdown_token.is_none());
}

#[test]
fn every_setter_sets_its_field() {
    let mut handlers: Table<&'static str> = Table::new();
    handlers.set("mesh", "h");
    let mut globals: Table<Json> = Table::new();
    globals.set("_USER", Json::Text("u".to_string()));
    let c: Config = BlockConfig::builder(inline("x"), "/p".to_string())
        .script(ScriptSource::DefaultAgent)
        .project_root("/q".to_string())
        .relay_url("wss://r".to_string())
        .secret_key(SecretKeySource::Env("KEY".to_string()))
        .mcp_rpc_timeout(core::time::Duration::from_secs(9))
        .prompt(PromptSource::Inline("p".to_string()))
        .context(PromptSource::File("/c".to_string()))
        .host_handlers(handlers)
        .host_handler("any")
        .host_tools(vec![tool("t", "d", None, 1)])
        .http_client(())
        .sql_path(":memory:".to_string())
        .kv_path("/kv".to_string())
        .ts_path("/ts".to_string())
        .extra_globals(globals)
        .auto_serve_bus(true)
        .shutdown_token(())
        .build();
    assert!(matches!(c.script, ScriptSource::DefaultAgent));
    assert_eq!(c.project_root, "/q");
    assert_eq!(c.relay_url.as_deref(), Some("wss://r"));
    assert!(matches!(&c.secret_key, Some(SecretKeySource::Env(v)) if v == "KEY"));
    assert_eq!(c.mcp_rpc_timeout, Some(core::time::Duration::from_secs(9)));
    assert!(matches!(&c.prompt, Some(PromptSource::Inline(p)) if p == "p"));
    assert!(matches!(&c.context, Some(PromptSource::File(p)) if p == "/c"));
    assert_eq!(c.host_handlers.get("mesh"), Some(&"h"));
    assert_eq!(c.host_handler, Some("any"));
    assert_eq!(c.host_tools.len(), 1);
    assert!(c.http_client.is_some() && c.shutdown_token.is_some() && c.auto_serve_bus);
    assert_eq!(c.sql_path.as_deref(), Some(":memory:"));
    assert_eq!(c.kv_path.as_deref(), Some("/kv"));
    assert_eq!(c.ts_path.as_deref(), Some("/ts"));
    assert!(c.extra_globals.contains("_USER"));
}

#[test]
fn the_tools_are_those_of_the_host_then_the_blocks() {
    let c: Config = BlockConfig::builder(inline("x"), "/p".to_string())
        .host_tools(vec![tool("lookup", "look it up", Some("db"), 1)])
        .build();
    let list = inspect_tools(&c);
    assert_eq!(list.len(), 5);
    assert_eq!((list[0].name.as_str(), list[0].description.as_str()), ("lookup", "look it up"));
    assert_eq!(list[0].group.as_deref(), Some("db"));
    assert_eq!(list[0].source, ToolSource::HostRust);
    assert_eq!(list[1].name, "agent");
    assert_eq!(list[1].description, "Embedded StdPkg block (require(\"agent\"))");
    assert_eq!(list[1].group, None);
    assert_eq!(list[1].source, ToolSource::EmbeddedBlock);
    assert_eq!(list[4].name, "coding_agent");
}

// ── modules ──────────────────────────────────────────────────────────

#[test]
fn modules_are_looked_for_in_the_project_first() {
    let exe = Some("/opt/bin/agent-block");
    assert_eq!(
        build_blocks_roots("/p", exe, true, true),
        vec!["/p/blocks", "/opt/bin/blocks"]
    );
    assert_eq!(build_blocks_roots("/p", exe, false, true), vec!["/opt/bin/blocks"]);
    assert_eq!(build_blocks_roots("/p", None, true, true), vec!["/p/blocks"]);
    assert!(build_blocks_roots("/p", exe, false, false).is_empty());
    assert_eq!(
        build_blocks_path("/p", exe, true, true),
        "/p/blocks/?.lua;/p/blocks/?/init.lua;/opt/bin/blocks/?.lua;/opt/bin/blocks/?/init.lua;"
    );
    assert_eq!(build_blocks_path("/p", exe, false, false), "");
    assert_eq!(package_path("/s", "B;", "D"), "/s/?.lua;/s/?/init.lua;B;D");
}

#[test]
fn what_lies_in_a_directory_comes_before_what_is_embedded() {
    let modules = vec![("agent".to_string(), "return 1".to_string())];
    let blocks = build_blocks_roots("/p", Some("/opt/bin/agent-block"), true, true);
    assert_eq!(
        resolvers("/s", blocks, modules.clone()),
        vec![
            Resolver::Directory("/s".to_string()),
            Resolver::Directory("/p/blocks".to_string()),
            Resolver::Directory("/opt/bin/blocks".to_string()),
            Resolver::Modules(modules.clone()),
        ]
    );
    assert_eq!(
        resolvers("/s", Vec::new(), modules.clone()),
        vec![Resolver::Directory("/s".to_string()), Resolver::Modules(modules)]
    );
}

#[test]
fn the_embedded_modules_come_with_the_declarations() {
    let embedded = entries(&[("agent", "return 1")], &[("session", "return 2"), ("knl", "return 3")]);
    let list = memory_modules(&embedded, "-- types".to_string());
    assert_eq!(list.len(), 4);
    assert_eq!((list[0].0.as_str(), list[0].1.as_str()), ("agent", "return 1"));
    assert_eq!((list[2].0.as_str(), list[2].1.as_str()), ("knl", "return 3"));
    let last = &list[3];
    assert_eq!((last.0.as_str(), last.1.as_str()), ("knl_types", "-- types"));
}

#[test]
fn a_path_has_a_name_and_a_directory() {
    assert_eq!(file_name("/a/b.lua").as_deref(), Some("b.lua"));
    assert_eq!(file_name("b.lua").as_deref(), Some("b.lua"));
    assert_eq!(file_name("/"), None);
    assert_eq!(file_name("a/..").as_deref(), None);
    assert_eq!(file_name("a/.").as_deref(), Some("a"));
    assert_eq!(parent("/a/b.lua").as_deref(), Some("/a"));
    assert_eq!(parent("b.lua").as_deref(), Some(""));
    assert_eq!(parent("/"), None);
    for p in ["/a/b", "a//b/", "x", "", "/", "./a", "a/./b", "..", "/a/..", "a/b/."] {
        let path = std::path::Path::new(p);
        assert_eq!(file_name(p), path.file_name().map(|n| n.to_string_lossy().into_owned()), "{p}");
        assert_eq!(parent(p), path.parent().map(|d| d.to_string_lossy().into_owned()), "{p}");
    }
}

// ── sources ──────────────────────────────────────────────────────────

#[test]
fn a_script_from_a_file_knows_its_name_and_directory() {
    let c: Config =
        BlockConfig::builder(ScriptSource::Path("/s/run.lua".to_string()), "/p".to_string())
            .prompt(PromptSource::File("/prompt.md".to_string()))
            .context(PromptSource::Inline("sys".to_string()))
            .secret_key(SecretKeySource::Env("KEY".to_string()))
            .build();
    let r = resolve_sources(
        &c,
        Reads {
            script: Ok("return 1".to_string()),
            prompt: Ok("do it".to_string()),
            context: Err("not read".to_string()),
            secret_key: Some("00".to_string()),
        },
    )
    .ok()
    .expect("resolved");
    assert_eq!(r.script_source, "return 1");
    assert_eq!((r.script_name.as_str(), r.script_dir.as_str()), ("run.lua", "/s"));
    assert_eq!(r.prompt.as_deref(), Some("do it"));
    assert_eq!(r.context.as_deref(), Some("sys"));
    assert_eq!(r.secret_key.as_deref(), Some("00"));
}

#[test]
fn what_cannot_be_read_is_told_in_order() {
    let c: Config =
        BlockConfig::builder(ScriptSource::Path("/s/run.lua".to_string()), "/p".to_string())
            .prompt(PromptSource::File("/prompt.md".to_string()))
            .context(PromptSource::File("/context.md".to_string()))
            .build();
    let failed = || Err("gone".to_string());
    let read = || Ok("t".to_string());
    let reads = |script, prompt, context| Reads { script, prompt, context, secret_key: None };
    assert_eq!(
        said(resolve_sources(&c, reads(failed(), failed(), failed())).err().unwrap()),
        "script: /s/run.lua: gone"
    );
    assert_eq!(
        said(resolve_sources(&c, reads(read(), failed(), failed())).err().unwrap()),
        "script: prompt file /prompt.md: gone"
    );
    assert_eq!(
        said(resolve_sources(&c, reads(read(), read(), failed())).err().unwrap()),
        "script: context file /context.md: gone"
    );
    assert!(resolve_sources(&c, reads(read(), read(), read())).is_ok());
}

#[test]
fn an_inline_script_reads_nothing() {
    let c: Config = BlockConfig::builder(inline("return 2"), "/p".to_string()).build();
    let r = resolve_sources(&c, no_reads()).ok().expect("resolved");
    assert_eq!(r.script_source, "return 2");
    assert_eq!((r.script_name.as_str(), r.script_dir.as_str()), ("inline.lua", "/p"));
    assert!(r.prompt.is_none() && r.context.is_none() && r.secret_key.is_none());
    let d: Config = BlockConfig::builder(ScriptSource::DefaultAgent, "/p".to_string()).build();
    let r = resolve_sources(&d, no_reads()).ok().expect("resolved");
    assert_eq!(r.script_name, "default_agent_invoker.lua");
    assert_eq!(
        r.script_source,
        "\nlocal agent = require(\"agent\")\nlocal r = agent.run({\n    prompt = _PROMPT,\n    \
         system = _CONTEXT,\n})\nbus.emit(\"_\", r)\n"
    );
}

// ── setting up ───────────────────────────────────────────────────────

#[test]
fn the_loop_runs_beside_the_script_only_with_a_handler() {
    let none: Table<&'static str> = Table::new();
    let setup = setup_event_bus(none, None, true);
    assert!(!setup.auto_serve && !setup.bus.has_handlers());

    let mut handlers: Table<&'static str> = Table::new();
    handlers.set("mesh", "m");
    handlers.set("http", "h");
    let setup = setup_event_bus(handlers, Some("any"), true);
    assert!(setup.auto_serve);
    assert_eq!(setup.bus.handler_count(), 2);
    assert_eq!(setup.bus.route("mesh").ok(), Some(&"m"));
    assert_eq!(setup.bus.route("http").ok(), Some(&"h"));
    assert_eq!(setup.bus.route("other").ok(), Some(&"any"));

    let empty: Table<&'static str> = Table::new();
    assert!(setup_event_bus(empty, Some("any"), true).auto_serve);
    let empty: Table<&'static str> = Table::new();
    assert!(!setup_event_bus(empty, Some("any"), false).auto_serve);
}

#[test]
fn a_database_lies_where_the_configuration_says() {
    let env = HomeEnv { agent_block_home: None, home: Some("/home/u".to_string()) };
    assert_eq!(
        resolve_database(Database::Sql, Some("/x"), Some("/y"), &env).ok().unwrap(),
        "/x"
    );
    assert_eq!(resolve_database(Database::Kv, None, Some("/y"), &env).ok().unwrap(), "/y");
    assert_eq!(
        resolve_database(Database::Ts, None, None, &env).ok().unwrap(),
        "/home/u/.agent-block/ts.sqlite"
    );
    let nowhere = HomeEnv { agent_block_home: None, home: None };
    assert_eq!(
        said(resolve_database(Database::Sql, None, None, &nowhere).err().unwrap()),
        "runtime: HOME env var not set"
    );
}

#[test]
fn a_database_in_memory_has_no_directory_and_no_journal() {
    let p = plan_sqlite("/d/db.sqlite", true, "WAL");
    assert_eq!(p.dir.as_deref(), Some("/d"));
    let shown: Vec<(&str, &str)> =
        p.pragmas.iter().map(|(n, v)| (n.as_str(), v.as_str())).collect();
    assert_eq!(shown, vec![("synchronous", "NORMAL"), ("journal_mode", "WAL")]);
    let p = plan_sqlite(":memory:", true, "WAL");
    assert_eq!((p.dir, p.pragmas.len()), (None, 1));
    let p = plan_sqlite(":memory:", false, "WAL");
    assert!(p.pragmas.is_empty());
    assert_eq!(said(sqlite_dir_error(Database::Kv, "no")), "runtime: kv dir create: no");
    assert_eq!(said(sqlite_open_error("/d", "no")), "runtime: sqlite open /d: no");
}

#[test]
fn the_configurations_globals_win() {
    let mut extra: Table<Json> = Table::new();
    extra.set("_PROMPT", Json::Number(Number::Unsigned(1)));
    extra.set("_TENANT", Json::Text("t".to_string()));
    let g = isle_globals("s.lua", &Some("p".to_string()), &Some("c".to_string()), extra);
    assert_eq!(g.len(), 4);
    assert_eq!(g.get("_SCRIPT_NAME").and_then(|v| v.as_text()), Some("s.lua"));
    assert_eq!(g.get("_PROMPT").and_then(|v| v.as_u64()), Some(1));
    assert_eq!(g.get("_CONTEXT").and_then(|v| v.as_text()), Some("c"));
    assert_eq!(g.get("_TENANT").and_then(|v| v.as_text()), Some("t"));
    let bare = isle_globals("s.lua", &None, &None, Table::new());
    assert_eq!(bare.len(), 1);
}

#[test]
fn of_two_tools_with_one_name_the_later_counts() {
    let t = host_tool_entries(vec![
        tool("a", "first", None, 1),
        tool("b", "other", Some("g"), 2),
        tool("a", "second", Some("x"), 3),
    ]);
    assert_eq!(t.len(), 2);
    let a = t.get("a").expect("an entry");
    assert_eq!((a.name.as_str(), a.handler, a.group.as_deref()), ("a", 3, Some("x")));
    assert_eq!(a.schema.get("description").and_then(|v| v.as_text()), Some("second"));
    assert!(a.schema.get("input_schema").expect("a schema").is_object());
    assert_eq!(t.get("b").expect("an entry").handler, 2);
    assert!(host_tool_entries(Vec::<HostToolSpec<u32>>::new()).get("a").is_none());
    assert_eq!(said(host_tools_error("x")), "runtime: host_tools inject: x");
}

// ── the course of a run ──────────────────────────────────────────────

#[test]
fn a_cancelled_run_counts_as_cancelled() {
    assert!(matches!(execute_script(true, Some(Ok("v".to_string()))), Execution::Unwind(BlockError::Cancelled)));
    assert!(matches!(execute_script(false, None), Execution::Wait));
    match execute_script(false, Some(Ok("v".to_string()))) {
        Execution::Done(Ok(v)) => assert_eq!(v, "v"),
        _ => panic!("not done"),
    }
    match execute_script(false, Some(Err("bad".to_string()))) {
        Execution::Done(Err(e)) => assert_eq!(said(e), "script: bad"),
        _ => panic!("not done"),
    }
}

fn ok() -> Result<String, BlockError> {
    Ok(String::new())
}

#[test]
fn a_run_goes_through_its_stages() {
    let mut run = Run::new();
    let mut seen: Vec<Stage> = Vec::new();
    while run.stage != Stage::Over {
        seen.push(run.stage);
        let end = if run.stage == Stage::Execute { Ok("value".to_string()) } else { ok() };
        run = run.advance(end);
    }
    assert_eq!(
        seen,
        vec![
            Stage::Resolve,
            Stage::LoadEnv,
            Stage::Bus,
            Stage::Mesh,
            Stage::Mcp,
            Stage::ProjectRoot,
            Stage::Sqlite,
            Stage::Isles,
            Stage::Bridges,
            Stage::Tools,
            Stage::Execute,
            Stage::Drain,
            Stage::Shutdown,
        ]
    );
    assert_eq!(run.result.ok().as_deref(), Some("value"));
}

#[test]
fn a_failure_before_the_script_ends_the_run() {
    let run = Run::new().advance(Err(BlockError::Script("gone".to_string())));
    assert_eq!(run.stage, Stage::Over);
    assert_eq!(said(run.result.err().unwrap()), "script: gone");
}

#[test]
fn the_teardown_follows_a_failed_script() {
    let mut run = Run { stage: Stage::Execute, result: ok() };
    run = run.advance(Err(BlockError::Cancelled));
    assert_eq!(run.stage, Stage::Drain);
    run = run.advance(Err(BlockError::Bus("ignored".to_string())));
    assert_eq!(run.stage, Stage::Shutdown);
    let torn = run.advance(ok());
    assert_eq!(said(torn.result.err().unwrap()), "cancelled");

    let run = Run { stage: Stage::Shutdown, result: Ok("value".to_string()) };
    let run = run.advance(Err(BlockError::Runtime("stuck".to_string())));
    assert_eq!(said(run.result.err().unwrap()), "runtime: stuck");
}

#[test]
fn the_kernel_threads_stop_after_both_machines() {
    let steps = [
        Teardown::Mcp,
        Teardown::MainIsle,
        Teardown::HandlerIsle,
        Teardown::KernelThreads,
        Teardown::TimeSeries,
    ];
    for pair in steps.windows(2) {
        match shutdown(pair[0], Ok(())) {
            TeardownNext::Step(next) => assert_eq!(next, pair[1]),
            _ => panic!("no step"),
        }
    }
    assert!(matches!(shutdown(Teardown::TimeSeries, Ok(())), TeardownNext::Done));
    let failed = || Err(isle_shutdown_error("panic"));
    match shutdown(Teardown::MainIsle, failed()) {
        TeardownNext::Failed(e) => assert_eq!(said(e), "runtime: AsyncIsle shutdown failed: panic"),
        _ => panic!("not failed"),
    }
    assert!(matches!(shutdown(Teardown::Mcp, failed()), TeardownNext::Failed(_)));
    assert!(matches!(
        shutdown(Teardown::HandlerIsle, failed()),
        TeardownNext::Step(Teardown::KernelThreads)
    ));
    assert!(matches!(shutdown(Teardown::TimeSeries, failed()), TeardownNext::Done));
}

#[test]
fn the_bus_runs_out_in_its_grace() {
    assert_eq!(
        drain_auto_serve(true, 50),
        vec![DrainStep::Sleep(50), DrainStep::Cancel, DrainStep::Join(50)]
    );
    assert!(drain_auto_serve(false, 50).is_empty());
}

#[test]
fn a_root_is_made_absolute() {
    assert_eq!(absolute_root("p", Some("/w/p"), Err("x".to_string())).unwrap(), "/w/p");
    assert_eq!(absolute_root("p", None, Ok("/w")).unwrap(), "/w/p");
    assert_eq!(absolute_root("/p", None, Ok("/w")).unwrap(), "/p");
    assert_eq!(absolute_root("p", None, Err("x".to_string())).unwrap_err(), "x");
}
