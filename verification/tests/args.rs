use repo_status::args::{Args, ScanArgs};

fn words(line: &[&str]) -> Vec<String> {
    line.iter().map(|word| word.to_string()).collect()
}

#[test]
fn is_published_test_args_parsing() {
    let args = Args::try_parse_from(&words(&["is-published"])).unwrap();
    assert_eq!(args.path, ".");
    assert_eq!(args.registry, "crates-io");
    assert!(!args.quiet);
    assert!(!args.strict);

    let args = Args::try_parse_from(&words(&[
        "is-published",
        "/some/path",
        "-q",
        "--strict",
        "-r",
        "custom",
    ]))
    .unwrap();
    assert_eq!(args.path, "/some/path");
    assert_eq!(args.registry, "custom");
    assert!(args.quiet);
    assert!(args.strict);
}

#[test]
fn gitscan_test_args_parsing() {
    let args = ScanArgs::try_parse_from(&words(&["gitscan"])).unwrap();
    assert_eq!(args.path, ".");
    assert!(!args.newest);

    let args = ScanArgs::try_parse_from(&words(&["gitscan", "-n"])).unwrap();
    assert_eq!(args.path, ".");
    assert!(args.newest);

    let args = ScanArgs::try_parse_from(&words(&["gitscan", "--newest", "/some/path"])).unwrap();
    assert_eq!(args.path, "/some/path");
    assert!(args.newest);

    let args = ScanArgs::try_parse_from(&words(&["gitscan", "/some/path", "-n"])).unwrap();
    assert_eq!(args.path, "/some/path");
    assert!(args.newest);
}

#[test]
fn long_names_are_read() {
    let args =
        Args::try_parse_from(&words(&["is-published", "--registry", "mine", "--quiet"])).unwrap();
    assert_eq!(args.path, ".");
    assert_eq!(args.registry, "mine");
    assert!(args.quiet);
    assert!(!args.strict);
}

#[test]
fn no_words_at_all_give_the_defaults() {
    let args = Args::try_parse_from(&words(&[])).unwrap();
    assert_eq!(args.path, ".");
    assert_eq!(args.registry, "crates-io");
}

#[test]
fn unknown_option_is_refused() {
    let error = Args::try_parse_from(&words(&["is-published", "--loud"])).unwrap_err();
    assert!(error.to_stderr);
    assert_eq!(error.exit_code, 2);
    assert!(error.message.contains("--loud"));
}

#[test]
fn empty_path_is_refused() {
    assert!(Args::try_parse_from(&words(&["is-published", ""])).is_err());
    assert!(ScanArgs::try_parse_from(&words(&["gitscan", ""])).is_err());
}

#[test]
fn second_path_is_refused() {
    assert!(ScanArgs::try_parse_from(&words(&["gitscan", "a", "b"])).is_err());
}

#[test]
fn help_and_version_go_to_the_output() {
    let help = Args::try_parse_from(&words(&["is-published", "--help"])).unwrap_err();
    assert!(!help.to_stderr);
    assert_eq!(help.exit_code, 0);
    assert!(help.message.contains("Cargo registry to check against"));

    let version = ScanArgs::try_parse_from(&words(&["gitscan", "-V"])).unwrap_err();
    assert!(!version.to_stderr);
    assert_eq!(version.exit_code, 0);
    assert_eq!(version.message, "gitscan 0.1.0\n");
}

#[test]
fn help_of_the_check_names_its_values() {
    let help = Args::try_parse_from(&words(&["is-published", "--help"])).unwrap_err();
    assert_eq!(
        help.message,
        "Determine if the current folder is a published crate, and if so, whether it is up to date

Usage: is-published [OPTIONS] [PATH]

Arguments:
  [PATH]  Path to the crate or workspace directory [default: .]

Options:
  -r, --registry <REGISTRY>  Cargo registry to check against [default: crates-io]
  -q, --quiet                Do not print output, only exit with status code
      --strict               Fail if there are uncommitted git changes in the working tree
  -h, --help                 Print help
  -V, --version              Print version
"
    );
}

#[test]
fn help_of_the_search_says_nothing_of_its_path() {
    let help = ScanArgs::try_parse_from(&words(&["/usr/bin/gitscan", "-h"])).unwrap_err();
    assert!(help.message.ends_with(
        "
Usage: gitscan [OPTIONS] [PATH]

Arguments:
  [PATH]  [default: .]

Options:
  -n, --newest   Sort folders in most recently modified order
  -h, --help     Print help
  -V, --version  Print version
"
    ));
}

#[test]
fn missing_value_is_refused_by_its_name() {
    let error = Args::try_parse_from(&words(&["is-published", "-r"])).unwrap_err();
    assert!(error.to_stderr);
    assert_eq!(error.exit_code, 2);
    assert_eq!(
        error.message,
        "error: a value is required for '--registry <REGISTRY>' but none was supplied

For more information, try '--help'.
"
    );
}

#[test]
fn refusals_are_answered_the_same_each_time() {
    let line = words(&["gitscan", "--newest", "--newest"]);
    let first = ScanArgs::try_parse_from(&line).unwrap_err();
    let second = ScanArgs::try_parse_from(&line).unwrap_err();
    assert_eq!(first.message, second.message);
    assert!(first.message.contains("Usage: gitscan [OPTIONS] [PATH]"));
}
