use docopt_mini::parse;
use docopt_mini::compile::compile;
use docopt_mini::value::Value;

fn args(items: &[&str]) -> Vec<String> {
    items.iter().map(|s| s.to_string()).collect()
}

#[test]
fn switch_true_when_given_false_when_omitted() {
    let usage = "Usage: prog [-x]";
    let with = parse(usage, &args(&["-x"])).unwrap();
    assert_eq!(with.get("-x"), Some(&Value::Switch(true)));
    let without = parse(usage, &args(&[])).unwrap();
    assert_eq!(without.get("-x"), Some(&Value::Switch(false)));
}

#[test]
fn equals_form_and_space_form_bind_the_same_value() {
    let usage = "Usage: prog [options]

Options:
    --foo ARG   Foo.";
    let a = parse(usage, &args(&["--foo=VAL"])).unwrap();
    let b = parse(usage, &args(&["--foo", "VAL"])).unwrap();
    assert_eq!(a.get("--foo"), b.get("--foo"));
    assert_eq!(a.get("--foo"), Some(&Value::Plain(Some("VAL".to_string()))));
}

#[test]
fn repeated_bare_flag_counts_occurrences() {
    let usage = "Usage: prog [-v]...";
    let vals = parse(usage, &args(&["-v", "-v", "-v"])).unwrap();
    assert_eq!(vals.get("-v"), Some(&Value::Counted(3)));
    let none = parse(usage, &args(&[])).unwrap();
    assert_eq!(none.get("-v"), Some(&Value::Counted(0)));
}

#[test]
fn repeated_positional_accumulates_in_order() {
    let usage = "Usage: prog <x>...";
    let vals = parse(usage, &args(&["a", "b", "c"])).unwrap();
    assert_eq!(
        vals.get("<x>"),
        Some(&Value::List(vec![
            "a".to_string(),
            "b".to_string(),
            "c".to_string()
        ]))
    );
}

#[test]
fn required_group_alternation_picks_the_matching_branch() {
    let usage = "Usage: prog (go | stop)";
    let vals = parse(usage, &args(&["stop"])).unwrap();
    assert_eq!(vals.get("go"), Some(&Value::Switch(false)));
    assert_eq!(vals.get("stop"), Some(&Value::Switch(true)));
    assert!(parse(usage, &args(&[])).is_err());
}

#[test]
fn usage_lines_are_tried_first_to_last() {
    let usage = "
    Usage:
        prog add <x>
        prog <x>
    ";
    let vals = parse(usage, &args(&["add", "7"])).unwrap();
    assert_eq!(vals.get("add"), Some(&Value::Switch(true)));
    assert_eq!(vals.get("<x>"), Some(&Value::Plain(Some("7".to_string()))));
    let fallback = parse(usage, &args(&["9"])).unwrap();
    assert_eq!(fallback.get("add"), Some(&Value::Switch(false)));
    assert_eq!(
        fallback.get("<x>"),
        Some(&Value::Plain(Some("9".to_string())))
    );
}

#[test]
fn compiling_twice_yields_equal_trees() {
    let usage = "
    Usage:
        cat rows [options] [<input>...]
        cat --help

    Options:
        -o, --output <file>   Where to write.
    ";
    let g1 = compile(usage).unwrap();
    let g2 = compile(usage).unwrap();
    assert_eq!(g1.pattern, g2.pattern);
}
