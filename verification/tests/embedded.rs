use agent_block_core::embedded::{
    check_seal, embedded_blocks, embedded_libs, entries, find, is_sealed, Entry, Kind,
};

fn with_source(names: Vec<&'static str>, source: &'static str) -> Vec<(&'static str, &'static str)> {
    names.into_iter().map(|name| (name, source)).collect()
}

fn listed() -> Vec<Entry> {
    entries(
        &with_source(embedded_blocks(), "-- a block\nlocal M = {}\nreturn M\n"),
        &with_source(embedded_libs(), "-- a module\nlocal M = {}\nreturn M\n"),
    )
}

#[test]
fn the_entries_are_the_blocks_then_the_modules() {
    let all = listed();
    let names: Vec<&str> = all.iter().map(|e| e.name).collect();
    assert_eq!(&names[..2], ["agent", "coding"]);
    assert!(names.contains(&"lshape.t"), "{names:?}");
    assert!(names.contains(&"coding_agent"), "{names:?}");

    let blocks = all.iter().filter(|e| e.kind == Kind::Block).count();
    assert_eq!(blocks, embedded_blocks().len());
    assert_eq!(all.len(), embedded_blocks().len() + embedded_libs().len());
}

#[test]
fn an_entry_carries_its_source() {
    let all = listed();
    let session = find(&all, "session").expect("session is embedded");
    assert_eq!(session.kind, Kind::Lib);
    assert!(session.source.contains("return M"), "{}", session.source);
    assert!(session.source.starts_with("-- a module"), "{}", session.source);
    assert!(find(&all, "no_such_module").is_none());
    let agent = find(&all, "agent").expect("agent is embedded");
    assert_eq!(agent.kind, Kind::Block);
    assert!(agent.source.starts_with("-- a block"), "{}", agent.source);
}

#[test]
fn the_first_entry_of_a_name_is_found() {
    let list = entries(&[("a", "1"), ("b", "2")], &[("a", "3"), ("c", "4")]);
    let sources: Vec<&str> = list.iter().map(|e| e.source).collect();
    assert_eq!(sources, ["1", "2", "3", "4"]);
    assert_eq!(find(&list, "a").map(|e| (e.source, e.kind)), Some(("1", Kind::Block)));
    assert_eq!(find(&list, "c").map(|e| (e.source, e.kind)), Some(("4", Kind::Lib)));
}

#[test]
fn a_sealed_module_is_not_shadowed() {
    let names = |list: &[&str]| -> Vec<String> { list.iter().map(|s| s.to_string()).collect() };
    assert_eq!(check_seal(&names(&["agent", "mine"]), None), Ok(()));
    assert_eq!(check_seal(&[], Some("0")), Ok(()));
    let refused = Err(
        "module `knl` is sealed: a project may not shadow it (AGENT_BLOCK_UNSEAL=1 lifts the seal)"
            .to_string(),
    );
    let shadowed = names(&["agent", "knl", "lshape"]);
    assert_eq!(check_seal(&shadowed, None), refused);
    for value in ["", "0", "true", "yes", "11", " 1"] {
        assert_eq!(check_seal(&shadowed, Some(value)), refused, "{value:?}");
    }
    assert_eq!(check_seal(&shadowed, Some("1")), Ok(()));
    assert!(check_seal(&names(&["lshape.t"]), None).is_err());
}

#[test]
fn the_seal_covers_a_root_and_its_parts() {
    assert!(is_sealed("knl"));
    assert!(is_sealed("knl_types"));
    assert!(is_sealed("lshape"));
    assert!(is_sealed("lshape.t"));
    assert!(is_sealed("lshape.whatever_comes_next"));
    assert!(!is_sealed("agent"));
    assert!(!is_sealed("llm_proto.openai"));
}

#[test]
fn a_kind_prints_as_its_word() {
    assert_eq!(Kind::Block.as_str(), "block");
    assert_eq!(Kind::Lib.as_str(), "lib");
}
