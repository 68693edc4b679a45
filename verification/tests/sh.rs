use agent_block_core::bridge::sh::{
    exec_result, next_kill_step, plan_exec, settle_group, signalled_exit, CommandEnd, ExecOpts,
    KillStep, LiveGroups, PROBE_INTERVAL_MS, SIGNALLED_EXIT_CODE,
};

#[test]
fn a_command_runs_where_and_as_long_as_it_says() {
    let plan = plan_exec(ExecOpts { timeout: None, cwd: None, label: None }, "/project");
    assert_eq!((plan.timeout_secs, plan.cwd.as_str(), plan.label), (30, "/project", None));
    let plan = plan_exec(
        ExecOpts {
            timeout: Some(5),
            cwd: Some("/tmp".to_string()),
            label: Some("build".to_string()),
        },
        "/project",
    );
    assert_eq!((plan.timeout_secs, plan.cwd.as_str()), (5, "/tmp"));
    assert_eq!(plan.label.as_deref(), Some("build"));
}

#[test]
fn every_end_of_a_command_is_told() {
    let e = exec_result(CommandEnd::NotStarted("no such file".to_string()), 5, false);
    let e = e.err().expect("a failure");
    assert_eq!((e.message.as_str(), e.timed_out), ("exec error: no such file", false));
    let e = exec_result(CommandEnd::TimedOut, 5, false).err().expect("a failure");
    assert_eq!((e.message.as_str(), e.timed_out), ("timeout after 5s", true));
    let e = exec_result(CommandEnd::WaitFailed("x".to_string()), 5, false).err().expect("a failure");
    assert_eq!((e.message.as_str(), e.timed_out), ("wait error: x", false));
    let o = exec_result(
        CommandEnd::Exited { code: Some(3), stdout: b"out".to_vec(), stderr: vec![0xff] },
        5,
        true,
    )
    .ok()
    .expect("an answer");
    assert_eq!((o.code, o.stdout.as_str(), o.stderr.as_str(), o.killed), (3, "out", "\u{fffd}", true));
    let o = exec_result(
        CommandEnd::Exited { code: None, stdout: Vec::new(), stderr: Vec::new() },
        5,
        false,
    );
    assert_eq!(o.ok().expect("an answer").code, -1);
}

#[test]
fn the_grace_is_given_twice_over() {
    assert!(next_kill_step(true, 0, 100) == KillStep::WaitMs(PROBE_INTERVAL_MS));
    assert!(next_kill_step(true, 199, 100) == KillStep::WaitMs(PROBE_INTERVAL_MS));
    assert!(next_kill_step(true, 200, 100) == KillStep::Kill);
    assert!(next_kill_step(false, 500, 100) == KillStep::Done);
    assert!(next_kill_step(true, u64::MAX, u64::MAX) == KillStep::WaitMs(PROBE_INTERVAL_MS));
}

#[test]
fn a_signalled_host_leaves_unless_it_serves() {
    assert_eq!(signalled_exit(true), None);
    assert_eq!(signalled_exit(false), Some(SIGNALLED_EXIT_CODE));
}

#[test]
fn live_groups_are_listed_ascending() {
    let mut g = LiveGroups::new();
    g.remember(30, None);
    g.remember(10, Some("a".to_string()));
    g.remember(20, Some("b".to_string()));
    assert_eq!(g.live(), vec![10, 20, 30]);
    assert!(!g.forget(20));
    assert_eq!(g.live(), vec![10, 30]);
    assert_eq!(g.drain(), vec![10, 30]);
    assert!(g.live().is_empty());
}

#[test]
fn a_kill_by_label_is_reported_when_the_command_ends() {
    let mut g = LiveGroups::new();
    g.remember(7, Some("job".to_string()));
    g.remember(5, Some("job".to_string()));
    assert_eq!(g.take_labelled("other"), None);
    assert_eq!(g.take_labelled("job"), Some(5));
    assert_eq!(settle_group(&mut g, Some(5), false), (None, true));
    assert_eq!(settle_group(&mut g, Some(7), true), (Some(7), false));
    assert_eq!(settle_group(&mut g, None, true), (None, false));
    assert!(g.live().is_empty());
}
