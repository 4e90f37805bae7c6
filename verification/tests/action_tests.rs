use clevert::action::pipe_mode;
use clevert::plan::build_plan;
use clevert::ActionCore;
use clevert::Config;
use clevert::ErrorKind;
use clevert::PipeMode;

fn cfg(program: &str, template: &str, repeat: usize) -> Config {
    Config {
        parent: None,
        threads_count: Some(2),
        ignore_panic: Some(false),
        repeat_count: Some(repeat),
        pipe: None,
        program: Some(program.to_string()),
        args_template: Some(template.to_string()),
        current_dir: None,
        input_list: None,
        input_absolute: None,
        output_dir: None,
        output_absolute: None,
        output_extension: None,
        output_recursive: None,
        output_force: None,
        output_prefix: None,
        output_suffix: None,
        output_serial: None,
    }
}

fn owned(v: &[&str]) -> Vec<String> {
    v.iter().map(|s| s.to_string()).collect()
}

/// Drive a single worker to completion: spawn, succeed or fail per
/// `passes`, reap. Returns how many invocations ran.
fn run_worker(core: &mut ActionCore, passes: impl Fn(&[String]) -> bool) -> usize {
    let mut ran = 0;
    let mut token = 1u64;
    while let Some(inv) = core.take_next() {
        core.record_spawned(0, token);
        let ok = passes(&inv.args);
        core.record_reaped(0);
        let kills = core.on_child_result(ok, format!("process exit with non-zero")) ;
        assert!(kills.is_empty(), "no live children in a serial run");
        ran += 1;
        token += 1;
    }
    ran
}

#[test]
fn happy_path_six_invocations() {
    // Two inputs, three repetitions, every child exits zero: success and
    // progress (6, 6).
    let plan = build_plan(&cfg("/bin/true", "", 3), &owned(&["/tmp/a", "/tmp/b"]), "/").unwrap();
    let mut core = ActionCore::new(plan.invocations, 2, false);
    let ran = run_worker(&mut core, |_| true);
    assert_eq!(ran, 6);
    assert!(core.outcome().is_ok());
    let running = vec![false, false];
    assert_eq!(core.progress(&running), (6, 6));
}

#[test]
fn failure_aborts_run() {
    // The child fails on even repetition numbers; failures not ignored:
    // the first failure ends the run with ExecutePanic.
    let plan = build_plan(&cfg("p", "{repeat_num}", 4), &owned(&["/tmp/a"]), "/").unwrap();
    let mut core = ActionCore::new(plan.invocations, 2, false);
    let ran = run_worker(&mut core, |args| args[0].parse::<u64>().unwrap() % 2 == 1);
    // Repetition 1 passes, repetition 2 fails, nothing more is taken.
    assert_eq!(ran, 2);
    let e = core.outcome().unwrap_err();
    assert_eq!(e.kind, ErrorKind::ExecutePanic);
    let running = vec![false, false];
    let (finished, total) = core.progress(&running);
    assert_eq!(total, 4);
    assert!(finished >= 1);
}

#[test]
fn ignore_panic_runs_everything() {
    // Same failing child, failures ignored: all four run, outcome success.
    let plan = build_plan(&cfg("p", "{repeat_num}", 4), &owned(&["/tmp/a"]), "/").unwrap();
    let mut core = ActionCore::new(plan.invocations, 2, true);
    let ran = run_worker(&mut core, |args| args[0].parse::<u64>().unwrap() % 2 == 1);
    assert_eq!(ran, 4);
    assert!(core.outcome().is_ok());
    let running = vec![false, false];
    assert_eq!(core.progress(&running), (4, 4));
}

#[test]
fn serial_worker_preserves_emission_order() {
    let plan = build_plan(
        &cfg("p", "{input_file} {repeat_num}", 2),
        &owned(&["/a", "/b"]),
        "/",
    )
    .unwrap();
    let expected: Vec<Vec<String>> = plan.invocations.iter().map(|i| i.args.clone()).collect();
    let mut core = ActionCore::new(plan.invocations, 1, false);
    let mut seen: Vec<Vec<String>> = Vec::new();
    while let Some(inv) = core.take_next() {
        seen.push(inv.args.clone());
        core.on_child_result(true, String::new());
    }
    assert_eq!(seen, expected);
}

#[test]
fn extra_workers_see_empty_queue() {
    // One invocation, three workers: the first take gets it, the others
    // observe an empty queue and exit.
    let plan = build_plan(&cfg("p", "", 1), &owned(&["/tmp/a"]), "/").unwrap();
    let mut core = ActionCore::new(plan.invocations, 3, false);
    assert!(core.take_next().is_some());
    assert!(core.take_next().is_none());
    assert!(core.take_next().is_none());
}

#[test]
fn stop_names_live_children_in_slot_order() {
    let plan = build_plan(&cfg("p", "", 4), &owned(&["/tmp/a"]), "/").unwrap();
    let mut core = ActionCore::new(plan.invocations, 3, false);
    core.take_next();
    core.record_spawned(0, 11);
    core.take_next();
    core.record_spawned(2, 13);
    let kills = core.stop();
    assert_eq!(kills, vec![11, 13]);
    // The queue is drained: nothing more is taken.
    assert!(core.take_next().is_none());
    let running = vec![true, false, true];
    assert_eq!(core.progress(&running), (2, 4));
}

#[test]
fn stop_twice_is_harmless() {
    let plan = build_plan(&cfg("p", "", 2), &owned(&["/tmp/a"]), "/").unwrap();
    let mut core = ActionCore::new(plan.invocations, 2, false);
    core.take_next();
    core.record_spawned(1, 7);
    let first = core.stop();
    let second = core.stop();
    assert_eq!(first, vec![7]);
    assert_eq!(second, first);
    assert!(core.outcome().is_ok());
}

#[test]
fn outcome_keeps_first_failure() {
    let plan = build_plan(&cfg("p", "", 3), &owned(&["/tmp/a"]), "/").unwrap();
    let mut core = ActionCore::new(plan.invocations, 1, false);
    core.take_next();
    core.on_child_result(false, "first".to_string());
    core.on_child_result(false, "second".to_string());
    let e = core.outcome().unwrap_err();
    assert_eq!(e.kind, ErrorKind::ExecutePanic);
    assert_eq!(e.message, "first");
}

#[test]
fn progress_counts_running_children_as_unfinished() {
    let plan = build_plan(&cfg("p", "", 4), &owned(&["/tmp/a"]), "/").unwrap();
    let mut core = ActionCore::new(plan.invocations, 2, false);
    core.take_next();
    core.record_spawned(0, 1);
    core.take_next();
    core.record_spawned(1, 2);
    // Both children still running: nothing finished yet.
    assert_eq!(core.progress(&vec![true, true]), (0, 4));
    // One child exited but is not yet reaped: not finished, not running.
    assert_eq!(core.progress(&vec![true, false]), (1, 4));
    // Reaping does not change the count while the slot reads as stopped.
    core.record_reaped(1);
    assert_eq!(core.progress(&vec![true, false]), (1, 4));
}

#[test]
fn progress_is_monotone_across_a_run() {
    let plan = build_plan(&cfg("p", "{repeat_num}", 5), &owned(&["/tmp/a"]), "/").unwrap();
    let mut core = ActionCore::new(plan.invocations, 1, false);
    let mut last = 0;
    while let Some(_inv) = core.take_next() {
        core.record_spawned(0, 9);
        let (f1, t1) = core.progress(&vec![true]);
        assert!(f1 >= last && f1 <= t1);
        last = f1;
        core.record_reaped(0);
        let (f2, t2) = core.progress(&vec![false]);
        assert!(f2 >= last && f2 <= t2);
        last = f2;
        core.on_child_result(true, String::new());
    }
    assert_eq!(last, 5);
}

#[test]
fn pipe_mode_selects_sink() {
    assert!(matches!(pipe_mode(&None), PipeMode::Null));
    assert!(matches!(
        pipe_mode(&Some("<inherit>".to_string())),
        PipeMode::Inherit
    ));
    match pipe_mode(&Some("/tmp/pipe.txt".to_string())) {
        PipeMode::File(p) => assert_eq!(p, "/tmp/pipe.txt"),
        _ => panic!("expected a file sink"),
    }
}
