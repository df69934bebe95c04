use docopt_mini::grammar::{MatchError, UsageError};
use docopt_mini::{parse, ParseError};

fn args(items: &[&str]) -> Vec<String> {
    items.iter().map(|s| s.to_string()).collect()
}

#[test]
fn unbalanced_group_fails_compilation() {
    let r = parse("Usage: prog [<x>", &args(&[]));
    assert_eq!(r.unwrap_err(), ParseError::Usage(UsageError::UnbalancedGroup));
}

#[test]
fn stray_closer_fails_compilation() {
    let r = parse("Usage: prog <x>]", &args(&[]));
    assert_eq!(r.unwrap_err(), ParseError::Usage(UsageError::UnbalancedGroup));
}

#[test]
fn no_usage_section_fails_compilation() {
    let r = parse("just some text", &args(&[]));
    assert_eq!(r.unwrap_err(), ParseError::Usage(UsageError::NoUsageSection));
}

#[test]
fn arity_mismatch_fails_compilation() {
    let usage = "Usage: prog --foo=<x>

Options:
    --foo   A plain switch.";
    let r = parse(usage, &args(&["--foo=1"]));
    assert_eq!(r.unwrap_err(), ParseError::Usage(UsageError::ArityMismatch));
}

#[test]
fn duplicate_flag_fails_compilation() {
    let usage = "Usage: prog [options]

Options:
    --foo       One.
    --foo       Twice.";
    let r = parse(usage, &args(&[]));
    assert_eq!(r.unwrap_err(), ParseError::Usage(UsageError::DuplicateFlag));
}

#[test]
fn argument_taking_letter_mid_cluster_fails_compilation() {
    let usage = "Usage: prog -ox

Options:
    -o FILE   Output file.";
    let r = parse(usage, &args(&[]));
    assert_eq!(
        r.unwrap_err(),
        ParseError::Usage(UsageError::AmbiguousCluster)
    );
}

#[test]
fn option_entry_without_flag_fails_compilation() {
    let usage = "Usage: prog [options]

Options:
    - not a flag.";
    let r = parse(usage, &args(&[]));
    assert_eq!(r.unwrap_err(), ParseError::Usage(UsageError::BadOptionLine));
}

#[test]
fn unknown_flag_fails_matching() {
    let r = parse("Usage: prog", &args(&["--bogus"]));
    assert_eq!(r.unwrap_err(), ParseError::Match(MatchError::UnknownFlag));
}

#[test]
fn missing_value_fails_matching() {
    let usage = "Usage: prog [options]

Options:
    --foo ARG   Takes a value.";
    let r = parse(usage, &args(&["--foo"]));
    assert_eq!(r.unwrap_err(), ParseError::Match(MatchError::MissingValue));
}

#[test]
fn unexpected_value_fails_matching() {
    let usage = "Usage: prog [options]

Options:
    --bar       A switch.";
    let r = parse(usage, &args(&["--bar=1"]));
    assert_eq!(r.unwrap_err(), ParseError::Match(MatchError::UnexpectedValue));
}

#[test]
fn leftover_token_fails_matching() {
    let r = parse("Usage: prog <x>", &args(&["a", "b"]));
    assert_eq!(r.unwrap_err(), ParseError::Match(MatchError::Unmatched));
}

#[test]
fn missing_required_positional_fails_matching() {
    let r = parse("Usage: prog <x>", &args(&[]));
    assert_eq!(r.unwrap_err(), ParseError::Match(MatchError::Unmatched));
}
