use clevert::args::split_args;
use clevert::args::substitute_args;
use clevert::ErrorKind;

fn toks(template: &str) -> Vec<String> {
    split_args(template).expect("template should tokenize")
}

#[test]
fn empty_template_has_no_tokens() {
    assert_eq!(toks(""), Vec::<String>::new());
}

#[test]
fn whitespace_split_outside_quotes() {
    assert_eq!(toks("x {input_file} y"), vec!["x", "{input_file}", "y"]);
    assert_eq!(toks("  a\tb \n c  "), vec!["a", "b", "c"]);
}

#[test]
fn quoted_segment_is_one_token() {
    // Interior whitespace preserved, quotes stripped.
    assert_eq!(toks(" a \"b c\" d"), vec!["a", "b c", "d"]);
}

#[test]
fn quoted_empty_token_survives() {
    assert_eq!(toks("a \"\" b"), vec!["a", "", "b"]);
}

#[test]
fn adjacent_quoted_tokens() {
    assert_eq!(toks("\"a b\"\"c d\""), vec!["a b", "c d"]);
}

#[test]
fn unclosed_quotation_is_config_error() {
    let e = split_args("a \"b c").unwrap_err();
    assert_eq!(e.kind, ErrorKind::Config);
}

#[test]
fn three_quotes_are_unclosed() {
    let e = split_args("\"a\" \"b").unwrap_err();
    assert_eq!(e.kind, ErrorKind::Config);
}

#[test]
fn substitution_fills_placeholders() {
    let tokens = toks("x {input_file} {output_file} {output_dir} {repeat_num} y");
    let args = substitute_args(&tokens, "/tmp/a.txt", "/tmp/out/a.png", false, 3);
    assert_eq!(
        args,
        vec!["x", "/tmp/a.txt", "/tmp/out/a.png", "/tmp/out", "3", "y"]
    );
}

#[test]
fn substitution_leaves_other_tokens() {
    let tokens = toks("{unknown} -v {input_file!}");
    let args = substitute_args(&tokens, "/tmp/a", "/tmp/b", false, 1);
    assert_eq!(args, vec!["{unknown}", "-v", "{input_file!}"]);
}

#[test]
fn serial_output_gets_repeat_suffix() {
    let tokens = toks("{output_file}");
    let args = substitute_args(&tokens, "/tmp/a.txt", "/tmp/out/a.png", true, 2);
    assert_eq!(args, vec!["/tmp/out/a_2.png"]);
    let args = substitute_args(&tokens, "/tmp/a.txt", "/tmp/out/a", true, 11);
    assert_eq!(args, vec!["/tmp/out/a_11"]);
}

#[test]
fn quoted_placeholder_free_token_reaches_argv() {
    // The quoted token passes through tokenization and substitution
    // unchanged, whatever surrounds it.
    let tokens = toks("a \"b {x} c\" {input_file}");
    let args = substitute_args(&tokens, "/in", "/out", false, 1);
    assert_eq!(args, vec!["a", "b {x} c", "/in"]);
}
