use repo_status::command::CommandOutcome;
use repo_status::git::{check_git_uncommitted, git_stdout, remote_args, status_args};
use repo_status::package::{
    check_package, is_publishable, package_dir, Metadata, PackageMetadata,
};
use repo_status::path::RawPath;
use repo_status::registry::{
    parse_published_version_from_output, query_args, query_registry_published_version, read_answer,
};
use repo_status::run::{Action, Event, Run};
use repo_status::selection::packages_to_check;
use repo_status::status::PublishStatus;

fn exited(success: bool, stdout: &str, stderr: &str) -> CommandOutcome {
    CommandOutcome::Exited {
        success,
        stdout: stdout.as_bytes().to_vec(),
        stderr: stderr.as_bytes().to_vec(),
    }
}

fn not_run(error: &str) -> CommandOutcome {
    CommandOutcome::NotRun {
        error: error.to_string(),
    }
}

fn package(name: &str, version: &str, publish: Option<&[&str]>) -> PackageMetadata {
    PackageMetadata {
        name: name.to_string(),
        version: version.to_string(),
        manifest_path: format!("/work/{}/Cargo.toml", name),
        publish: publish.map(|list| list.iter().map(|r| r.to_string()).collect()),
    }
}

/// Drives a run; gives its result, its lines, and what it asked for.
fn drive(
    mut run: Run,
    mut registry: impl FnMut(&str) -> CommandOutcome,
    mut git: impl FnMut(&str) -> CommandOutcome,
) -> (Result<bool, String>, Vec<Option<String>>, Vec<String>) {
    let mut lines = Vec::new();
    let mut asked = Vec::new();
    let mut event = Event::Go;
    loop {
        event = match run.step(event) {
            Action::QueryRegistry { args } => {
                asked.push(args.join(" "));
                Event::Registry(registry(&args[4]))
            }
            Action::GitStatus { manifest_path } => {
                asked.push(manifest_path.clone());
                Event::Git(git(&manifest_path))
            }
            Action::Report { line } => {
                lines.push(line);
                Event::Go
            }
            Action::Finish { result } => return (result, lines, asked),
        };
    }
}

#[test]
fn run_reports_every_package_in_order() {
    let packages = vec![
        package("one", "1.0.0", None),
        package("skipped", "9.9.9", None),
        package("two", "0.1.0", Some(&[])),
        package("three", "2.0.0", Some(&["crates.io"])),
        package("four", "1.0.0", None),
        package("five", "0.3.0", None),
    ];
    let run = Run::new(
        packages,
        vec![0, 2, 3, 4, 5],
        "crates-io".to_string(),
        false,
        false,
    );
    let (result, lines, asked) = drive(
        run,
        |name| match name {
            "one" => exited(true, "one\nversion: 1.0.0\n", ""),
            "three" => exited(true, "version: 1.9.0", ""),
            "four" => exited(true, "version: 1.0.1 (latest 1.0.1)", ""),
            "five" => exited(false, "", "error: could not find `five` in registry"),
            other => panic!("{}", other),
        },
        |_| exited(true, " M src/lib.rs\n", ""),
    );
    assert_eq!(result, Ok(false));
    let lines: Vec<String> = lines.into_iter().map(|line| line.unwrap()).collect();
    assert_eq!(
        lines,
        [
            "one 1.0.0 is published and up to date (uncommitted changes)",
            "two 0.1.0 is not published (private crate: publish = false)",
            "three 2.0.0 is published, but local version is ahead (latest published is 1.9.0)",
            "four 1.0.0 is published, but outdated (latest published is 1.0.1)",
            "five 0.3.0 is not published",
        ]
    );
    assert_eq!(
        asked,
        [
            "info -q --registry crates-io one",
            "/work/one/Cargo.toml",
            "info -q --registry crates-io three",
            "/work/three/Cargo.toml",
            "info -q --registry crates-io four",
            "/work/four/Cargo.toml",
            "info -q --registry crates-io five",
        ]
    );
}

fn one_package(strict: bool, quiet: bool, git: CommandOutcome) -> (Result<bool, String>, usize) {
    let run = Run::new(
        vec![package("one", "1.0.0", None)],
        vec![0],
        "crates-io".to_string(),
        strict,
        quiet,
    );
    let mut git = Some(git);
    let (result, lines, _) = drive(
        run,
        |_| exited(true, "version: 1.0.0", ""),
        |_| git.take().unwrap(),
    );
    (result, lines.iter().filter(|line| line.is_some()).count())
}

#[test]
fn strict_run_wants_a_clean_directory() {
    let dirty = || exited(true, "?? new\n", "");
    let clean = || exited(true, "\n", "");
    assert_eq!(one_package(false, false, dirty()), (Ok(true), 1));
    assert_eq!(one_package(true, false, dirty()), (Ok(false), 1));
    assert_eq!(one_package(true, false, clean()), (Ok(true), 1));
    // a directory that git knows nothing of counts as clean
    assert_eq!(
        one_package(true, false, exited(false, "x", "fatal")),
        (Ok(true), 1)
    );
    assert_eq!(one_package(true, false, not_run("no git")), (Ok(true), 1));
}

#[test]
fn quiet_run_reports_nothing() {
    assert_eq!(one_package(false, true, exited(true, "", "")), (Ok(true), 0));
}

#[test]
fn failed_query_ends_the_run() {
    let run = Run::new(
        vec![
            package("one", "1.0.0", None),
            package("two", "1.0.0", None),
            package("three", "1.0.0", None),
        ],
        vec![0, 1, 2],
        "mine".to_string(),
        false,
        false,
    );
    let (result, lines, asked) = drive(
        run,
        |name| match name {
            "one" => exited(true, "version: 1.0.0", ""),
            _ => exited(false, "", "  error: network down\n"),
        },
        |_| exited(true, "", ""),
    );
    assert_eq!(result, Err("error: network down".to_string()));
    assert_eq!(lines.len(), 1);
    assert_eq!(asked.len(), 3);
    assert_eq!(asked[2], "info -q --registry mine two");
}

#[test]
fn empty_run_succeeds() {
    let run = Run::new(vec![], vec![], String::new(), true, false);
    let (result, lines, asked) = drive(run, |_| not_run(""), |_| not_run(""));
    assert_eq!(result, Ok(true));
    assert!(lines.is_empty() && asked.is_empty());
}

#[test]
fn publish_list_names_the_registry() {
    let open = package("p", "1.0.0", None);
    let closed = package("p", "1.0.0", Some(&[]));
    let dotted = package("p", "1.0.0", Some(&["crates.io"]));
    let dashed = package("p", "1.0.0", Some(&["mine", "crates-io"]));
    let mine = package("p", "1.0.0", Some(&["mine"]));
    assert!(is_publishable(&open, "anywhere"));
    assert!(!is_publishable(&closed, "crates-io"));
    assert!(is_publishable(&dotted, "crates-io"));
    assert!(is_publishable(&dotted, "crates.io"));
    assert!(!is_publishable(&dotted, "mine"));
    assert!(is_publishable(&dashed, "crates-io"));
    assert!(!is_publishable(&dashed, "crates.io"));
    assert!(is_publishable(&mine, "mine"));
    assert!(!is_publishable(&mine, "crates-io"));
}

#[test]
fn check_of_a_package() {
    let p = package("p", "1.0.0", None);
    let published = |v: &str| Ok(Some(v.to_string()));
    assert_eq!(
        check_package(&p, "crates-io", published("1.0.0"), true),
        Ok(PublishStatus::UpToDate {
            version: "1.0.0".to_string(),
            has_uncommitted_changes: true,
        })
    );
    assert_eq!(
        check_package(&p, "crates-io", published("1.0.1"), true),
        Ok(PublishStatus::Outdated {
            local_version: "1.0.0".to_string(),
            published_version: "1.0.1".to_string(),
        })
    );
    assert_eq!(
        check_package(&p, "crates-io", published("1.0.0-rc.1"), false),
        Ok(PublishStatus::Ahead {
            local_version: "1.0.0".to_string(),
            published_version: "1.0.0-rc.1".to_string(),
        })
    );
    assert_eq!(
        check_package(&p, "crates-io", Ok(None), false),
        Ok(PublishStatus::NotPublished)
    );
    assert_eq!(
        check_package(&p, "crates-io", Err("down".to_string()), false),
        Err("down".to_string())
    );
    let private = package("p", "1.0.0", Some(&[]));
    assert_eq!(
        check_package(&private, "crates-io", Err("down".to_string()), true),
        Ok(PublishStatus::Private)
    );
}

#[test]
fn answers_of_the_registry() {
    assert_eq!(
        read_answer(true, "version: 1.2.3\n", "not found"),
        Ok(Some("1.2.3".to_string()))
    );
    assert_eq!(read_answer(true, "", ""), Ok(None));
    assert_eq!(read_answer(false, "version: 1.2.3", "error: could not find x"), Ok(None));
    assert_eq!(read_answer(false, "", "crate not found"), Ok(None));
    assert_eq!(
        read_answer(false, "", "\n timed out \n"),
        Err("timed out".to_string())
    );
    assert_eq!(
        query_registry_published_version(&not_run("no such file")),
        Err("Failed to execute `cargo info`: no such file".to_string())
    );
    assert_eq!(
        query_registry_published_version(&exited(true, "version: 7.0.0", "")),
        Ok(Some("7.0.0".to_string()))
    );
}

#[test]
fn invalid_bytes_are_replaced() {
    let outcome = CommandOutcome::Exited {
        success: true,
        stdout: b"version: 1.\xff0\n".to_vec(),
        stderr: vec![],
    };
    assert_eq!(
        query_registry_published_version(&outcome),
        Ok(Some("1.\u{fffd}0".to_string()))
    );
    let text = "naïve \u{1f980}";
    assert_eq!(
        git_stdout(&exited(true, text, "")),
        Some(text.to_string())
    );
}

#[test]
fn version_line_is_found_wherever_it_stands() {
    let parse = parse_published_version_from_output;
    assert_eq!(parse("a\r\n  version:\t2.0.0\r\nb"), Some("2.0.0".to_string()));
    assert_eq!(parse("version:1.0.0"), Some("1.0.0".to_string()));
    // an empty version is passed over
    assert_eq!(parse("version:  \nversion: 3.0.0"), Some("3.0.0".to_string()));
    // the first one counts
    assert_eq!(parse("version: 1.0.0\nversion: 2.0.0"), Some("1.0.0".to_string()));
    assert_eq!(parse("rust-version: 1.70\nVersion: 1"), None);
    assert_eq!(parse(""), None);
}

#[test]
fn uncommitted_changes_are_what_git_lists() {
    assert!(check_git_uncommitted(&exited(true, " M a\n", "")));
    assert!(!check_git_uncommitted(&exited(true, " \n", "")));
    assert!(!check_git_uncommitted(&exited(false, " M a\n", "")));
    assert!(!check_git_uncommitted(&not_run("")));
}

#[test]
fn commands_are_asked_in_these_words() {
    assert_eq!(status_args(), ["status", "--porcelain"]);
    assert_eq!(remote_args(), ["remote"]);
    assert_eq!(
        query_args("serde", "mine"),
        ["info", "-q", "--registry", "mine", "serde"]
    );
}

fn raw(names: &[&str]) -> RawPath {
    RawPath {
        anchor: b"/".to_vec(),
        names: names.iter().map(|n| n.as_bytes().to_vec()).collect(),
    }
}

#[test]
fn package_of_the_manifest_is_chosen() {
    let metadata = Metadata {
        packages: vec![
            package("a", "1.0.0", None),
            package("b", "1.0.0", None),
            package("c", "1.0.0", None),
        ],
        workspace_members: vec![
            "path+file:///work/a#1.0.0".to_string(),
            "registry#c".to_string(),
        ],
    };
    let b = raw(&["work", "b", "Cargo.toml"]);
    let resolved = vec![
        Some(raw(&["work", "a", "Cargo.toml"])),
        Some(raw(&["work", "b", "Cargo.toml"])),
        Some(raw(&["work", "b", "Cargo.toml"])),
    ];
    assert_eq!(packages_to_check(&metadata, &resolved, &b), Ok(vec![1]));
}

#[test]
fn members_are_chosen_for_a_workspace() {
    let metadata = Metadata {
        packages: vec![
            package("alpha", "1.0.0", None),
            package("beta", "1.0.0", None),
            package("gamma", "1.0.0", None),
        ],
        workspace_members: vec![
            "gamma 1.0.0 (path+file:///elsewhere)".to_string(),
            "x /work/alpha/Cargo.toml y".to_string(),
        ],
    };
    let root = raw(&["work", "Cargo.toml"]);
    let resolved = vec![None, None, Some(raw(&["work", "gamma", "Cargo.toml"]))];
    assert_eq!(
        packages_to_check(&metadata, &resolved, &root),
        Ok(vec![0, 2])
    );
}

#[test]
fn nothing_to_check_is_an_error() {
    let metadata = Metadata {
        packages: vec![package("alpha", "1.0.0", None)],
        workspace_members: vec![],
    };
    assert_eq!(
        packages_to_check(&metadata, &vec![None], &raw(&[])),
        Err("No package found to check in manifest".to_string())
    );
}

#[test]
fn strict_success_is_success() {
    for has_uncommitted_changes in [false, true] {
        let status = PublishStatus::UpToDate {
            version: "1.0.0".to_string(),
            has_uncommitted_changes,
        };
        assert!(status.is_success(false));
        assert_eq!(status.is_success(true), !has_uncommitted_changes);
    }
}

#[test]
fn package_lies_in_the_directory_of_its_manifest() {
    let manifest = |anchor: &str, names: &[&str]| RawPath {
        anchor: anchor.as_bytes().to_vec(),
        names: names.iter().map(|name| name.as_bytes().to_vec()).collect(),
    };
    let dir = package_dir(&manifest("/", &["work", "one", "Cargo.toml"]));
    assert_eq!(dir.anchor, b"/");
    assert_eq!(dir.names, [b"work".to_vec(), b"one".to_vec()]);

    let dir = package_dir(&manifest("", &["Cargo.toml"]));
    assert!(dir.anchor.is_empty());
    assert!(dir.names.is_empty());

    for anchor in ["", "/"] {
        let dir = package_dir(&manifest(anchor, &[]));
        assert!(dir.anchor.is_empty());
        assert_eq!(dir.names, [b".".to_vec()]);
    }
}

#[test]
fn published_version_is_a_word_of_the_output() {
    let output = "tool\nversion:\nversion:  2.1.0-rc.1 (from registry)\nversion: 9.9.9\n";
    let version = parse_published_version_from_output(output).unwrap();
    assert_eq!(version, "2.1.0-rc.1");
    assert!(output.contains(&version));
}
