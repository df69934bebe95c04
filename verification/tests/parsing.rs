use docopt_mini::parse;
use docopt_mini::value::Value;

fn args(items: &[&str]) -> Vec<String> {
    items.iter().map(|s| s.to_string()).collect()
}

#[test]
fn test_issue_13() {
    let vals = parse("Usage: prog file <file>", &args(&["file", "file"])).unwrap();
    assert_eq!(vals.get("file"), Some(&Value::Switch(true)));
    assert_eq!(
        vals.get("<file>"),
        Some(&Value::Plain(Some("file".to_string())))
    );
}

#[test]
fn test_issue_129() {
    let usage = "Usage: prog [options]

Options:
    --foo ARG   Foo foo.";
    let vals = parse(usage, &args(&["--foo=a b"])).unwrap();
    assert_eq!(
        vals.get("--foo"),
        Some(&Value::Plain(Some("a b".to_string())))
    );
}

#[test]
fn regression_issue_12() {
    let usage = "
    Usage:
        whisper rows <file>
        whisper update <file> <timestamp> <value>
        whisper mark <file> <value>
    ";
    let vals = parse(usage, &args(&["mark", "./p/blah", "100"])).unwrap();
    assert_eq!(
        vals.get("<file>"),
        Some(&Value::Plain(Some("./p/blah".to_string())))
    );
    assert_eq!(vals.get("mark"), Some(&Value::Switch(true)));
    assert_eq!(vals.get("rows"), Some(&Value::Switch(false)));
    assert_eq!(vals.get("update"), Some(&Value::Switch(false)));
    assert_eq!(
        vals.get("<value>"),
        Some(&Value::Plain(Some("100".to_string())))
    );
    assert_eq!(vals.get("<timestamp>"), Some(&Value::Plain(None)));
}

#[test]
fn regression_issue_195() {
    let usage = "
    Usage:
        slow [-abcdefghijklmnopqrs...]
    ";
    let vals = parse(usage, &args(&["-abcdefghijklmnopqrs"])).unwrap();
    for letter in "abcdefghijklmnopqrs".chars() {
        let name = format!("-{}", letter);
        assert_eq!(vals.get(&name), Some(&Value::Counted(1)), "flag {}", name);
    }
}

#[test]
fn regression_issue_xsv() {
    let usage = "
    Concatenates CSV data by column or by row.

When concatenating by column, the columns will be written in the same order as
the inputs given. The number of rows in the result is always equivalent to to
the minimum number of rows across all given CSV data. (This behavior can be
reversed with the '--pad' flag.)

When concatenating by row, all CSV data must have the same number of columns.
If you need to rearrange the columns or fix the lengths of records, use the
'select' or 'fixlengths' commands. Also, only the headers of the *first* CSV
data given are used. Headers in subsequent inputs are ignored. (This behavior
can be disabled with --no-headers.)

Usage:
    cat rows    [options] [<input>...]
    cat columns [options] [<input>...]
    cat --help

cat options:
    -p, --pad              When concatenating columns, this flag will cause
                           all records to appear. It will pad each row if
                           other CSV data isn't long enough.

Common options:
    -h, --help             Display this message
    -o, --output <file>    Write output to <file> instead of stdout.
    -n, --no-headers       When set, the first row will NOT be interpreted
                           as column names. Note that this has no effect when
                           concatenating columns.
    -d, --delimiter <arg>  The field delimiter for reading CSV data.
                           Must be a single character. (default: ,)
    ";
    assert!(docopt_mini::compile::compile(usage).is_ok());
    let vals = parse(
        usage,
        &args(&["rows", "test.csv", "test1.csv", "-o", "out.csv"]),
    )
    .unwrap();
    assert_eq!(vals.get("rows"), Some(&Value::Switch(true)));
    assert_eq!(
        vals.get("--output"),
        Some(&Value::Plain(Some("out.csv".to_string())))
    );
    assert_eq!(
        vals.get("<input>"),
        Some(&Value::List(vec![
            "test.csv".to_string(),
            "test1.csv".to_string()
        ]))
    );
    assert_eq!(
        vals.get("--delimiter"),
        Some(&Value::Plain(Some(",".to_string())))
    );
}

#[test]
fn regression_issue_219() {
    let usage = "
    Usage:
        encode [-v <type> <param>]...
    ";
    let vals = parse(
        usage,
        &args(&["-v", "bool", "true", "string", "foo"]),
    )
    .unwrap();
    assert_eq!(
        vals.get("<type>"),
        Some(&Value::List(vec!["bool".to_string(), "string".to_string()]))
    );
    assert_eq!(
        vals.get("<param>"),
        Some(&Value::List(vec!["true".to_string(), "foo".to_string()]))
    );
}

#[test]
fn test_unit_struct() {
    let usage = "
    Usage:
        cargo version [options]

    Options:
        -h, --help               Print this message
    ";
    let vals = parse(usage, &args(&["version"])).unwrap();
    assert_eq!(vals.get("version"), Some(&Value::Switch(true)));
    assert_eq!(vals.get("--help"), Some(&Value::Switch(false)));
}

#[test]
fn double_dash_forces_positionals() {
    let vals = parse("Usage: prog <x>", &args(&["--", "-weird"])).unwrap();
    assert_eq!(
        vals.get("<x>"),
        Some(&Value::Plain(Some("-weird".to_string())))
    );
}

#[test]
fn short_flag_value_from_cluster_remainder() {
    let usage = "Usage: prog [options]

Options:
    -o FILE   Output file.";
    let vals = parse(usage, &args(&["-oout.txt"])).unwrap();
    assert_eq!(
        vals.get("-o"),
        Some(&Value::Plain(Some("out.txt".to_string())))
    );
}

#[test]
fn declared_default_applies_when_unmatched() {
    let usage = "Usage: prog [options]

Options:
    --delim <arg>   Field delimiter. (default: ,)";
    let vals = parse(usage, &args(&[])).unwrap();
    assert_eq!(vals.get("--delim"), Some(&Value::Plain(Some(",".to_string()))));
}
