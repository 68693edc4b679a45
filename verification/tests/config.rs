use agent_block_core::bridge::config::{
    base_dir, bus_capacity, is_memory_sql, knl_path, kv_path, project_slug, resolve_knl_path,
    sql_busy_timeout, sql_journal_mode, sql_path, sql_query_timeout, task_grace_ms, ts_path,
    HomeEnv,
};

fn at_home() -> HomeEnv {
    HomeEnv { agent_block_home: None, home: Some("/home/u".to_string()) }
}

#[test]
fn a_slug_is_the_project_path_with_dashes() {
    assert_eq!(project_slug("/home/u/projects/x"), "-home-u-projects-x");
    assert_eq!(project_slug("/"), "-");
}

#[test]
fn two_projects_slug_apart() {
    assert_ne!(project_slug("/home/u/a"), project_slug("/home/u/b"));
}

#[test]
fn the_default_is_per_project() {
    let path = resolve_knl_path(None, "/home/u/projects/x", &at_home()).expect("resolved");
    assert!(path.ends_with("projects/-home-u-projects-x/knl.sqlite"), "{path}");
}

#[test]
fn an_override_wins() {
    let path = resolve_knl_path(
        Some("/tmp/elsewhere/knl.sqlite"),
        "/home/u/projects/x",
        &at_home(),
    )
    .expect("resolved");
    assert_eq!(path, "/tmp/elsewhere/knl.sqlite");
}

#[test]
fn the_base_directory_is_named_or_lies_at_home() {
    assert_eq!(base_dir(&at_home()).unwrap(), "/home/u/.agent-block");
    let named = HomeEnv { agent_block_home: Some("/srv/ab".to_string()), home: None };
    assert_eq!(base_dir(&named).unwrap(), "/srv/ab");
    let nowhere = HomeEnv { agent_block_home: None, home: None };
    assert_eq!(base_dir(&nowhere).unwrap_err(), "HOME env var not set");
}

#[test]
fn each_database_has_a_file_of_its_own() {
    let env = at_home();
    assert_eq!(sql_path(None, &env).unwrap(), "/home/u/.agent-block/db.sqlite");
    assert_eq!(kv_path(None, &env).unwrap(), "/home/u/.agent-block/kv.sqlite");
    assert_eq!(ts_path(None, &env).unwrap(), "/home/u/.agent-block/ts.sqlite");
    assert_eq!(sql_path(Some(":memory:"), &env).unwrap(), ":memory:");
    assert_eq!(knl_path(Some("/k"), "/p", &env).unwrap(), "/k");
    let nowhere = HomeEnv { agent_block_home: None, home: None };
    assert_eq!(kv_path(None, &nowhere).unwrap_err(), "HOME env var not set");
    assert_eq!(ts_path(Some("/t"), &nowhere).unwrap(), "/t");
}

#[test]
fn only_the_sentinel_is_in_memory() {
    assert!(is_memory_sql(":memory:"));
    assert!(!is_memory_sql("/tmp/:memory:"));
    assert!(!is_memory_sql(""));
}

#[test]
fn settings_fall_back_to_their_defaults() {
    assert_eq!(sql_busy_timeout(None), 5000);
    assert_eq!(sql_busy_timeout(Some("250")), 250);
    assert_eq!(sql_busy_timeout(Some("soon")), 5000);
    assert_eq!(sql_journal_mode(None), "WAL");
    assert_eq!(sql_journal_mode(Some("DELETE")), "DELETE");
    assert_eq!(sql_query_timeout(Some("0")), None);
    assert_eq!(sql_query_timeout(Some("1200")), Some(1200));
    assert_eq!(task_grace_ms(None), 1000);
    assert_eq!(task_grace_ms(Some("50")), 50);
    assert_eq!(bus_capacity(Some("7")), 7);
    assert_eq!(bus_capacity(Some("many")), bus_capacity(None));
}
