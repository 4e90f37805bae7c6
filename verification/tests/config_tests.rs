use clevert::Config;
use clevert::ErrorKind;
use clevert::Profile;

fn named(program: &str) -> Config {
    let mut c = empty();
    c.program = Some(program.to_string());
    c
}

fn empty() -> Config {
    Config {
        parent: None,
        threads_count: None,
        ignore_panic: None,
        repeat_count: None,
        pipe: None,
        program: None,
        args_template: None,
        current_dir: None,
        input_list: None,
        input_absolute: None,
        output_dir: None,
        output_absolute: None,
        output_extension: None,
        output_recursive: None,
        output_force: None,
        output_prefix: None,
        output_suffix: None,
        output_serial: None,
    }
}

fn profile(presets: Vec<(&str, Config)>, current: Option<&str>) -> Profile {
    Profile {
        presets: presets
            .into_iter()
            .map(|(n, c)| (n.to_string(), c))
            .collect(),
        current: current.map(|s| s.to_string()),
        export: None,
        log_level: None,
        gui: None,
    }
}

#[test]
fn defaults_are_documented_values() {
    let d = Config::default();
    assert!(d.threads_count.unwrap() >= 1);
    assert_eq!(d.ignore_panic, Some(false));
    assert_eq!(d.repeat_count, Some(1));
    assert_eq!(d.args_template.as_deref(), Some(""));
    assert_eq!(d.input_list, Some(Vec::new()));
    assert_eq!(d.output_recursive, Some(false));
    assert_eq!(d.output_force, Some(false));
    assert_eq!(d.output_serial, Some(false));
    assert!(d.program.is_none());
    assert!(d.pipe.is_none());
    assert!(d.output_dir.is_none());
}

#[test]
fn merge_fills_only_unset_fields() {
    let mut child = empty();
    child.program = Some("child-prog".to_string());
    let mut parent = empty();
    parent.program = Some("parent-prog".to_string());
    parent.repeat_count = Some(7);
    child.merge(&parent);
    assert_eq!(child.program.as_deref(), Some("child-prog"));
    assert_eq!(child.repeat_count, Some(7));
    assert!(child.pipe.is_none());
}

#[test]
fn get_resolves_parent_chain() {
    let mut base = named("prog");
    base.repeat_count = Some(5);
    let mut mid = empty();
    mid.parent = Some("base".to_string());
    mid.pipe = Some("/tmp/pipe".to_string());
    let mut leaf = empty();
    leaf.parent = Some("mid".to_string());
    leaf.threads_count = Some(3);
    let p = profile(vec![("base", base), ("mid", mid), ("leaf", leaf)], None);
    let c = p.get("leaf").unwrap();
    assert_eq!(c.program.as_deref(), Some("prog"));
    assert_eq!(c.repeat_count, Some(5));
    assert_eq!(c.pipe.as_deref(), Some("/tmp/pipe"));
    assert_eq!(c.threads_count, Some(3));
    // Defaults filled where the chain left fields unset.
    assert_eq!(c.ignore_panic, Some(false));
}

#[test]
fn get_folds_global_preset_in() {
    let mut global = empty();
    global.threads_count = Some(9);
    let p = profile(vec![("global", global), ("t", named("x"))], None);
    let c = p.get("t").unwrap();
    assert_eq!(c.threads_count, Some(9));
}

#[test]
fn child_fields_win_over_parents_and_global() {
    let mut global = empty();
    global.repeat_count = Some(9);
    let mut t = named("x");
    t.repeat_count = Some(2);
    let p = profile(vec![("global", global), ("t", t)], None);
    let c = p.get("t").unwrap();
    assert_eq!(c.repeat_count, Some(2));
}

#[test]
fn unknown_preset_is_config_error() {
    let p = profile(vec![("a", named("x"))], None);
    let e = p.get("missing").unwrap_err();
    assert_eq!(e.kind, ErrorKind::Config);
}

#[test]
fn unknown_parent_is_config_error() {
    let mut c = empty();
    c.parent = Some("ghost".to_string());
    let p = profile(vec![("a", c)], None);
    let e = p.get("a").unwrap_err();
    assert_eq!(e.kind, ErrorKind::Config);
}

#[test]
fn inheritance_cycle_is_config_error() {
    // Two presets naming each other never resolve; the depth cap reports
    // a Config error instead of looping.
    let mut a = empty();
    a.parent = Some("b".to_string());
    let mut b = empty();
    b.parent = Some("a".to_string());
    let p = profile(vec![("a", a), ("b", b)], None);
    let e = p.get("a").unwrap_err();
    assert_eq!(e.kind, ErrorKind::Config);
}

#[test]
fn get_current_requires_selection() {
    let p = profile(vec![("a", named("x"))], None);
    let e = p.get_current().unwrap_err();
    assert_eq!(e.kind, ErrorKind::Config);
    let p = profile(vec![("a", named("x"))], Some("a"));
    let c = p.get_current().unwrap();
    assert_eq!(c.program.as_deref(), Some("x"));
}

#[test]
fn keys_follow_export_list_in_preset_order() {
    let mut p = profile(
        vec![("a", named("1")), ("b", named("2")), ("c", named("3"))],
        None,
    );
    p.export = Some(vec!["c".to_string(), "a".to_string()]);
    assert_eq!(p.keys(), vec!["a".to_string(), "c".to_string()]);
    p.export = None;
    assert_eq!(p.keys(), Vec::<String>::new());
}

#[test]
fn fit_fills_front_end_defaults() {
    let p = profile(vec![], None).fit();
    assert_eq!(p.export, Some(Vec::new()));
    assert_eq!(p.log_level, Some(2));
    let mut q = profile(vec![], None);
    q.log_level = Some(4);
    let q = q.fit();
    assert_eq!(q.log_level, Some(4));
}
