use repo_status::command::CommandOutcome;
use repo_status::order::Order;
use repo_status::repos::{
    compare_repos, find_statuses, heading, join, report_line, report_repo, sort_repos, Repo,
};
use repo_status::scan::{is_entered, Entry, FileKind, Scan};

const DIR: FileKind = FileKind {
    is_dir: true,
    is_symlink: false,
};
const FILE: FileKind = FileKind {
    is_dir: false,
    is_symlink: false,
};
const LINK: FileKind = FileKind {
    is_dir: true,
    is_symlink: true,
};

fn entry(name: &str, kind: Option<FileKind>) -> Entry {
    Entry {
        name: name.as_bytes().to_vec(),
        kind,
    }
}

fn names(path: &str) -> Vec<Vec<u8>> {
    path.split('/')
        .filter(|name| !name.is_empty())
        .map(|name| name.as_bytes().to_vec())
        .collect()
}

fn shown(path: &[Vec<u8>]) -> String {
    let parts: Vec<String> = path
        .iter()
        .map(|name| String::from_utf8(name.clone()).unwrap())
        .collect();
    parts.join("/")
}

fn repo(path: &str, modified: Option<i128>) -> Repo {
    Repo {
        names: names(path),
        modified,
    }
}

fn order(repos: &[Repo]) -> Vec<String> {
    repos.iter().map(|repo| shown(&repo.names)).collect()
}

#[test]
fn test_sort_repos() {
    let mut repos = vec![
        repo("repo_a", Some(2000)),
        repo("repo_b", Some(1000)),
        repo("repo_c", Some(3000)),
    ];

    // Default sort (alphabetical)
    sort_repos(&mut repos, false);
    assert_eq!(order(&repos), ["repo_a", "repo_b", "repo_c"]);

    // Newest sort (mtime descending: c -> a -> b)
    sort_repos(&mut repos, true);
    assert_eq!(order(&repos), ["repo_c", "repo_a", "repo_b"]);
}

#[test]
fn newest_first_breaks_ties_by_path_and_puts_unknown_times_last() {
    let mut repos = vec![
        repo("z", None),
        repo("b", Some(5)),
        repo("y", None),
        repo("a", Some(5)),
        repo("c", Some(-1)),
    ];
    sort_repos(&mut repos, true);
    assert_eq!(order(&repos), ["a", "b", "c", "y", "z"]);
}

#[test]
fn paths_are_ordered_name_by_name() {
    let mut repos = vec![
        repo("a-b", None),
        repo("a/b", None),
        repo("", None),
        repo("a", None),
        repo("ab", None),
        repo("B", None),
    ];
    sort_repos(&mut repos, false);
    assert_eq!(order(&repos), ["", "B", "a", "a/b", "a-b", "ab"]);
    let reference: Vec<std::path::PathBuf> = {
        let mut paths: Vec<std::path::PathBuf> = ["a-b", "a/b", "", "a", "ab", "B"]
            .iter()
            .map(std::path::PathBuf::from)
            .collect();
        paths.sort();
        paths
    };
    let sorted: Vec<std::path::PathBuf> = order(&repos)
        .iter()
        .map(std::path::PathBuf::from)
        .collect();
    assert_eq!(sorted, reference);
}

#[test]
fn order_of_repos_is_reversed_by_exchange() {
    let a = repo("a", Some(1));
    let b = repo("b", Some(2));
    assert_eq!(compare_repos(&a, &b, false), Order::Less);
    assert_eq!(compare_repos(&b, &a, false), Order::Greater);
    assert_eq!(compare_repos(&a, &b, true), Order::Greater);
    assert_eq!(compare_repos(&b, &a, true), Order::Less);
    assert_eq!(compare_repos(&a, &a, true), Order::Equal);
}

#[test]
fn only_real_directories_are_entered() {
    assert!(is_entered(&entry("src", Some(DIR))));
    assert!(is_entered(&entry(".github", Some(DIR))));
    assert!(!is_entered(&entry(".git", Some(DIR))));
    assert!(!is_entered(&entry("src", Some(FILE))));
    assert!(!is_entered(&entry("src", Some(LINK))));
    assert!(!is_entered(&entry("src", None)));
}

#[test]
fn walk_is_depth_first_in_listing_order() {
    let mut scan = Scan::new();
    let mut visited = Vec::new();
    while let Some(dir) = scan.next_dir() {
        let path = shown(&dir);
        visited.push(path.clone());
        let (has_git, listing) = match path.as_str() {
            "" => (
                true,
                Some(vec![
                    entry("one", Some(DIR)),
                    entry(".git", Some(DIR)),
                    entry("notes", Some(FILE)),
                    entry("link", Some(LINK)),
                    entry("odd", None),
                    entry("two", Some(DIR)),
                ]),
            ),
            "one" => (false, Some(vec![entry("deep", Some(DIR))])),
            "one/deep" => (true, Some(vec![])),
            "two" => (true, None),
            other => panic!("{}", other),
        };
        scan.visit(has_git, listing);
    }
    assert_eq!(visited, ["", "one", "one/deep", "two"]);
    let repos: Vec<String> = scan.into_repos().iter().map(|path| shown(path)).collect();
    assert_eq!(repos, ["", "one/deep", "two"]);
}

#[test]
fn walk_over_nothing_finds_nothing() {
    let mut scan = Scan::new();
    scan.visit(false, None);
    assert_eq!(scan.next_dir(), None);
    assert!(scan.into_repos().is_empty());
}

#[test]
fn heading_counts_the_repos() {
    assert_eq!(heading(0, "."), "Scanned 0 git repo(s) under .\n");
    assert_eq!(heading(1207, "/src"), "Scanned 1207 git repo(s) under /src\n");
}

#[test]
fn report_names_what_is_found() {
    assert_eq!(report_line("a", "origin\n", ""), None);
    assert_eq!(report_line("a", "origin\n", "\n \n"), None);
    assert_eq!(report_line("a", "", ""), Some("a: no remote".to_string()));
    assert_eq!(
        report_line("a", "origin\n", " M x\n"),
        Some("a: uncommitted changes".to_string())
    );
    assert_eq!(
        report_line("a", " \n", "?? x\n"),
        Some("a: no remote, uncommitted changes".to_string())
    );
    assert_eq!(find_statuses("", "x"), ["no remote", "uncommitted changes"]);
}

#[test]
fn failed_git_counts_as_silent() {
    let ok = |text: &str| CommandOutcome::Exited {
        success: true,
        stdout: text.as_bytes().to_vec(),
        stderr: vec![],
    };
    let failed = CommandOutcome::Exited {
        success: false,
        stdout: b"origin".to_vec(),
        stderr: vec![],
    };
    let missing = CommandOutcome::NotRun {
        error: "no git".to_string(),
    };
    assert_eq!(
        report_repo("r", &failed, &missing),
        Some("r: no remote".to_string())
    );
    assert_eq!(report_repo("r", &ok("origin"), &failed), None);
    assert_eq!(
        report_repo("r", &missing, &ok(" M a")),
        Some("r: no remote, uncommitted changes".to_string())
    );
}

#[test]
fn join_puts_the_separator_between() {
    let parts = |texts: &[&str]| -> Vec<String> { texts.iter().map(|t| t.to_string()).collect() };
    assert_eq!(join(&parts(&[]), ", "), "");
    assert_eq!(join(&parts(&["a"]), ", "), "a");
    assert_eq!(join(&parts(&["a", "b", "c"]), ", "), "a, b, c");
}
