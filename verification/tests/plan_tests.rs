use clevert::plan::build_plan;
use clevert::Config;
use clevert::ErrorKind;

fn base() -> Config {
    Config {
        parent: None,
        threads_count: None,
        ignore_panic: None,
        repeat_count: None,
        pipe: None,
        program: None,
        args_template: None,
        current_dir: None,
        input_list: None,
        input_absolute: None,
        output_dir: None,
        output_absolute: None,
        output_extension: None,
        output_recursive: None,
        output_force: None,
        output_prefix: None,
        output_suffix: None,
        output_serial: None,
    }
}

fn owned(v: &[&str]) -> Vec<String> {
    v.iter().map(|s| s.to_string()).collect()
}

#[test]
fn happy_path_counts_invocations() {
    // Two inputs, three repetitions: six invocations.
    let mut cfg = base();
    cfg.program = Some("/bin/true".to_string());
    cfg.args_template = Some(String::new());
    cfg.threads_count = Some(2);
    cfg.repeat_count = Some(3);
    let inputs = owned(&["/tmp/a", "/tmp/b"]);
    let plan = build_plan(&cfg, &inputs, "/cwd").unwrap();
    assert_eq!(plan.invocations.len(), 6);
    for inv in &plan.invocations {
        assert_eq!(inv.program, "/bin/true");
        assert_eq!(inv.args, Vec::<String>::new());
        assert!(inv.current_dir.is_none());
    }
}

#[test]
fn placeholder_substitution_argv() {
    // One input, one repetition: argv is exactly x /tmp/a y.
    let mut cfg = base();
    cfg.program = Some("/bin/echo".to_string());
    cfg.args_template = Some("x {input_file} y".to_string());
    cfg.repeat_count = Some(1);
    let inputs = owned(&["/tmp/a"]);
    let plan = build_plan(&cfg, &inputs, "/cwd").unwrap();
    assert_eq!(plan.invocations.len(), 1);
    assert_eq!(plan.invocations[0].args, owned(&["x", "/tmp/a", "y"]));
}

#[test]
fn repeat_numbers_run_from_one() {
    let mut cfg = base();
    cfg.program = Some("p".to_string());
    cfg.args_template = Some("{repeat_num}".to_string());
    cfg.repeat_count = Some(4);
    let inputs = owned(&["/tmp/a"]);
    let plan = build_plan(&cfg, &inputs, "/cwd").unwrap();
    let nums: Vec<String> = plan
        .invocations
        .iter()
        .map(|i| i.args[0].clone())
        .collect();
    assert_eq!(nums, owned(&["1", "2", "3", "4"]));
}

#[test]
fn emission_order_is_inputs_then_repeats() {
    let mut cfg = base();
    cfg.program = Some("p".to_string());
    cfg.args_template = Some("{input_file} {repeat_num}".to_string());
    cfg.repeat_count = Some(2);
    let inputs = owned(&["/a", "/b"]);
    let plan = build_plan(&cfg, &inputs, "/cwd").unwrap();
    let pairs: Vec<(String, String)> = plan
        .invocations
        .iter()
        .map(|i| (i.args[0].clone(), i.args[1].clone()))
        .collect();
    assert_eq!(
        pairs,
        vec![
            ("/a".to_string(), "1".to_string()),
            ("/a".to_string(), "2".to_string()),
            ("/b".to_string(), "1".to_string()),
            ("/b".to_string(), "2".to_string()),
        ]
    );
}

#[test]
fn output_file_defaults_to_input_dir_and_extension() {
    let mut cfg = base();
    cfg.program = Some("p".to_string());
    cfg.args_template = Some("{output_file}".to_string());
    let inputs = owned(&["/data/x.txt"]);
    let plan = build_plan(&cfg, &inputs, "/cwd").unwrap();
    assert_eq!(plan.invocations[0].args, owned(&["/data/x.txt"]));
}

#[test]
fn output_naming_controls_apply() {
    let mut cfg = base();
    cfg.program = Some("p".to_string());
    cfg.args_template = Some("{output_file}".to_string());
    cfg.output_dir = Some("/out".to_string());
    cfg.output_prefix = Some("pre_".to_string());
    cfg.output_suffix = Some("_suf".to_string());
    cfg.output_extension = Some("png".to_string());
    let inputs = owned(&["/data/x.txt"]);
    let plan = build_plan(&cfg, &inputs, "/cwd").unwrap();
    assert_eq!(plan.invocations[0].args, owned(&["/out/pre_x_suf.png"]));
}

#[test]
fn recursive_output_preserves_substructure() {
    // Input /tmp/in/sub/x.txt under the single entry /tmp/in goes to
    // /tmp/out/sub/x.out, and /tmp/out/sub is created first.
    let mut cfg = base();
    cfg.program = Some("p".to_string());
    cfg.args_template = Some("{output_file}".to_string());
    cfg.output_dir = Some("/tmp/out".to_string());
    cfg.output_recursive = Some(true);
    cfg.output_extension = Some("out".to_string());
    cfg.input_list = Some(owned(&["/tmp/in"]));
    let inputs = owned(&["/tmp/in/sub/x.txt"]);
    let plan = build_plan(&cfg, &inputs, "/cwd").unwrap();
    assert_eq!(plan.invocations[0].args, owned(&["/tmp/out/sub/x.out"]));
    assert_eq!(plan.dirs_to_create, owned(&["/tmp/out/sub"]));
}

#[test]
fn recursive_needs_single_input_entry() {
    let mut cfg = base();
    cfg.program = Some("p".to_string());
    cfg.args_template = Some(String::new());
    cfg.output_recursive = Some(true);
    cfg.input_list = Some(owned(&["/tmp/in", "/tmp/other"]));
    let inputs = owned(&["/tmp/in/x"]);
    let e = build_plan(&cfg, &inputs, "/cwd").unwrap_err();
    assert_eq!(e.kind, ErrorKind::Config);
}

#[test]
fn recursive_rejects_stray_input() {
    let mut cfg = base();
    cfg.program = Some("p".to_string());
    cfg.args_template = Some(String::new());
    cfg.output_recursive = Some(true);
    cfg.input_list = Some(owned(&["/tmp/in"]));
    let inputs = owned(&["/elsewhere/x"]);
    let e = build_plan(&cfg, &inputs, "/cwd").unwrap_err();
    assert_eq!(e.kind, ErrorKind::Config);
}

#[test]
fn empty_input_list_is_config_error() {
    let mut cfg = base();
    cfg.program = Some("p".to_string());
    cfg.args_template = Some(String::new());
    let inputs: Vec<String> = Vec::new();
    let e = build_plan(&cfg, &inputs, "/cwd").unwrap_err();
    assert_eq!(e.kind, ErrorKind::Config);
}

#[test]
fn missing_program_is_config_error() {
    let mut cfg = base();
    cfg.args_template = Some(String::new());
    let inputs = owned(&["/tmp/a"]);
    let e = build_plan(&cfg, &inputs, "/cwd").unwrap_err();
    assert_eq!(e.kind, ErrorKind::Config);
}

#[test]
fn missing_args_template_is_config_error() {
    let mut cfg = base();
    cfg.program = Some("p".to_string());
    let inputs = owned(&["/tmp/a"]);
    let e = build_plan(&cfg, &inputs, "/cwd").unwrap_err();
    assert_eq!(e.kind, ErrorKind::Config);
}

#[test]
fn unclosed_quote_is_config_error() {
    let mut cfg = base();
    cfg.program = Some("p".to_string());
    cfg.args_template = Some("a \"b".to_string());
    let inputs = owned(&["/tmp/a"]);
    let e = build_plan(&cfg, &inputs, "/cwd").unwrap_err();
    assert_eq!(e.kind, ErrorKind::Config);
}

#[test]
fn output_force_lists_deletions() {
    let mut cfg = base();
    cfg.program = Some("p".to_string());
    cfg.args_template = Some(String::new());
    cfg.output_force = Some(true);
    cfg.output_dir = Some("/out".to_string());
    let inputs = owned(&["/data/x.txt", "/data/y.txt"]);
    let plan = build_plan(&cfg, &inputs, "/cwd").unwrap();
    assert_eq!(plan.files_to_delete, owned(&["/out/x.txt", "/out/y.txt"]));
    assert!(plan.dirs_to_create.is_empty());
}

#[test]
fn absolute_paths_resolve_against_cwd() {
    let mut cfg = base();
    cfg.program = Some("p".to_string());
    cfg.args_template = Some("{input_file} {output_file}".to_string());
    cfg.input_absolute = Some(true);
    cfg.output_absolute = Some(true);
    let inputs = owned(&["rel/x.txt"]);
    let plan = build_plan(&cfg, &inputs, "/cwd").unwrap();
    assert_eq!(
        plan.invocations[0].args,
        owned(&["/cwd/rel/x.txt", "/cwd/rel/x.txt"])
    );
}

#[test]
fn current_dir_applies_to_every_invocation() {
    let mut cfg = base();
    cfg.program = Some("p".to_string());
    cfg.args_template = Some(String::new());
    cfg.current_dir = Some("/work".to_string());
    cfg.repeat_count = Some(2);
    let inputs = owned(&["/tmp/a"]);
    let plan = build_plan(&cfg, &inputs, "/cwd").unwrap();
    for inv in &plan.invocations {
        assert_eq!(inv.current_dir.as_deref(), Some("/work"));
    }
}

#[test]
fn serial_outputs_differ_per_repetition() {
    let mut cfg = base();
    cfg.program = Some("p".to_string());
    cfg.args_template = Some("{output_file}".to_string());
    cfg.output_serial = Some(true);
    cfg.repeat_count = Some(2);
    cfg.output_dir = Some("/out".to_string());
    let inputs = owned(&["/data/x.txt"]);
    let plan = build_plan(&cfg, &inputs, "/cwd").unwrap();
    assert_eq!(plan.invocations[0].args, owned(&["/out/x_1.txt"]));
    assert_eq!(plan.invocations[1].args, owned(&["/out/x_2.txt"]));
}
