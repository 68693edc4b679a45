use agent_block_core::bridge::tools::{
    found_type, load_tools_module, needs_embedded, probe_source, register_all,
    register_all_handler_side, Answer, Bridge, ModuleFrom,
};

#[test]
fn a_bridge_comes_after_what_it_needs() {
    let main = register_all();
    let at = |b: Bridge| main.iter().position(|x| *x == b).expect("registered");
    assert_eq!(main.len(), 14);
    assert!(at(Bridge::Bus) < at(Bridge::Mesh));
    assert!(at(Bridge::Tool) < at(Bridge::Fs));
    let handler = register_all_handler_side();
    assert_eq!(handler.len(), 15);
    assert!(!handler.contains(&Bridge::Bus));
    assert_eq!(&handler[..2], [Bridge::BusDispatcher, Bridge::McpDispatcher]);
    assert_eq!(&handler[2..], &main[1..]);
}

#[test]
fn a_module_is_asked_for_by_its_name() {
    assert_eq!(
        probe_source("fs_tools"),
        "local ok, mod = pcall(require, \"fs_tools\")\nif ok then return mod end\n\
         if tostring(mod):find(\"module 'fs_tools' not found\", 1, true) then return false end\n\
         error(mod, 0)"
    );
}

#[test]
fn the_module_that_was_found_is_installed() {
    let from = load_tools_module("fs_tools", Answer::Table, Answer::Nil);
    assert_eq!(from.ok(), Some(ModuleFrom::Require));
    assert!(needs_embedded(&Answer::Boolean(false)));
    assert!(!needs_embedded(&Answer::Boolean(true)));
    let from = load_tools_module("fs_tools", Answer::Boolean(false), Answer::Table);
    assert_eq!(from.ok(), Some(ModuleFrom::Embedded));
}

#[test]
fn a_module_that_answers_no_table_is_refused() {
    let e = load_tools_module("fs_tools", Answer::Boolean(true), Answer::Table);
    assert_eq!(
        e.err().expect("refused"),
        "the `fs_tools` module answered a boolean — a tool module is a library: it must end with \
         `return M`, the table holding its functions. `agent-block vendor --force fs_tools` \
         rewrites the copy from the current embedded source."
    );
    let e = load_tools_module("x", Answer::Boolean(false), Answer::Nil).err().expect("refused");
    assert!(e.starts_with("the `x` module answered nil "), "{e}");
    assert_eq!(found_type(&Answer::Other("function".to_string())), "function");
}
