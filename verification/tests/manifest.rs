use repo_status::manifest::{ManifestSearch, SearchAction, SearchEvent};
use repo_status::path::RawPath;

fn path(text: &str) -> RawPath {
    RawPath {
        anchor: b"/".to_vec(),
        names: text
            .split('/')
            .filter(|name| !name.is_empty())
            .map(|name| name.as_bytes().to_vec())
            .collect(),
    }
}

fn shown(path: &RawPath) -> String {
    let names: Vec<String> = path
        .names
        .iter()
        .map(|name| String::from_utf8(name.clone()).unwrap())
        .collect();
    format!("/{}", names.join("/"))
}

/// Runs a search over the given files; also gives the paths asked about.
fn search(
    given: &str,
    relative: bool,
    resolved: Option<&str>,
    joined: Option<&str>,
    files: &[&str],
) -> (Option<String>, Vec<String>) {
    let mut search = ManifestSearch::new(path(given), relative);
    let mut event = SearchEvent::Path(resolved.map(path));
    let mut asked = Vec::new();
    loop {
        let (next, action) = search.step(event);
        search = next;
        event = match action {
            SearchAction::JoinCurrentDir => SearchEvent::Path(joined.map(path)),
            SearchAction::Probe { path } => {
                let text = shown(&path);
                let is_file = files.contains(&text.as_str());
                asked.push(text);
                SearchEvent::IsFile(is_file)
            }
            SearchAction::Finish { manifest } => {
                return (manifest.map(|found| shown(&found)), asked)
            }
        };
    }
}

fn found(given: &str, files: &[&str]) -> Option<String> {
    search(given, false, Some(given), None, files).0
}

#[test]
fn test_find_manifest() {
    let cargo_toml = "/tmp/test/Cargo.toml";
    let files = [cargo_toml];

    // Direct directory
    assert_eq!(found("/tmp/test", &files), Some(cargo_toml.to_string()));
    // Direct file
    assert_eq!(found(cargo_toml, &files), Some(cargo_toml.to_string()));
    // Subdirectory walk-up
    assert_eq!(
        found("/tmp/test/sub/deep", &files),
        Some(cargo_toml.to_string())
    );
}

#[test]
fn nearest_manifest_wins() {
    let files = ["/a/Cargo.toml", "/a/b/Cargo.toml"];
    assert_eq!(found("/a/b/c", &files), Some("/a/b/Cargo.toml".to_string()));
    assert_eq!(found("/a", &files), Some("/a/Cargo.toml".to_string()));
}

#[test]
fn another_file_leads_to_its_directory() {
    let files = ["/a/src/lib.rs", "/a/Cargo.toml"];
    let (manifest, asked) = search("/a/src/lib.rs", false, Some("/a/src/lib.rs"), None, &files);
    assert_eq!(manifest, Some("/a/Cargo.toml".to_string()));
    assert_eq!(
        asked,
        ["/a/src/lib.rs", "/a/src/Cargo.toml", "/a/Cargo.toml"]
    );
}

#[test]
fn no_manifest_up_to_the_root() {
    let (manifest, asked) = search("/a/b", false, Some("/a/b"), None, &[]);
    assert_eq!(manifest, None);
    assert_eq!(
        asked,
        ["/a/b", "/a/b/Cargo.toml", "/a/Cargo.toml", "/Cargo.toml"]
    );
}

#[test]
fn root_that_is_a_file_leads_nowhere() {
    assert_eq!(found("/", &["/"]), None);
}

#[test]
fn unresolved_paths_start_as_given() {
    let files = ["/gone/Cargo.toml", "/here/Cargo.toml"];
    // absolute: as it stands
    assert_eq!(
        search("/gone/x", false, None, Some("/here/x"), &files).0,
        Some("/gone/Cargo.toml".to_string())
    );
    // relative: below the current directory
    assert_eq!(
        search("x", true, None, Some("/here/x"), &files).0,
        Some("/here/Cargo.toml".to_string())
    );
    // relative, without a current directory
    assert_eq!(search("x", true, None, None, &files), (None, vec![]));
}

#[test]
fn resolved_path_goes_before_the_given_one() {
    let files = ["/real/Cargo.toml", "/link/Cargo.toml"];
    assert_eq!(
        search("/link/x", false, Some("/real/x"), None, &files).0,
        Some("/real/Cargo.toml".to_string())
    );
}
