use docopt_mini::value::Value;
use docopt_mini::{get_args, map_from_alist, same_args};

fn args(items: &[&str]) -> Vec<String> {
    items.iter().map(|s| s.to_string()).collect()
}

#[test]
fn get_args_and_same_args_on_commands() {
    let vals = get_args("Usage: prog file <file>", &args(&["file", "file"]));
    let expected = map_from_alist(vec![
        ("file".to_string(), Value::Switch(true)),
        ("<file>".to_string(), Value::Plain(Some("file".to_string()))),
    ]);
    assert!(same_args(&expected, &vals));
}

#[test]
fn get_args_and_same_args_on_options() {
    let usage = "Usage: prog [options]

Options:
    --foo ARG   Foo foo.";
    let vals = get_args(usage, &args(&["--foo=a b"]));
    let expected = map_from_alist(vec![(
        "--foo".to_string(),
        Value::Plain(Some("a b".to_string())),
    )]);
    assert!(same_args(&expected, &vals));
}

#[test]
fn same_args_detects_a_difference() {
    let vals = get_args("Usage: prog [-x]", &args(&["-x"]));
    let wrong = map_from_alist(vec![("-x".to_string(), Value::Switch(false))]);
    assert!(!same_args(&wrong, &vals));
    let missing = map_from_alist(vec![]);
    assert!(!same_args(&missing, &vals));
}
