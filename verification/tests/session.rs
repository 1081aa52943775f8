use repo_status::args::Args;
use repo_status::command::CommandOutcome;
use repo_status::package::{Metadata, PackageMetadata};
use repo_status::path::RawPath;
use repo_status::run::{Action, Event};
use repo_status::session::{
    manifest_missing, manifest_unresolved, metadata_args, metadata_output, metadata_unreadable,
    verdict, Session, SessionAction, SessionEvent,
};

fn exited(success: bool, stdout: &str, stderr: &str) -> CommandOutcome {
    CommandOutcome::Exited {
        success,
        stdout: stdout.as_bytes().to_vec(),
        stderr: stderr.as_bytes().to_vec(),
    }
}

fn not_run(error: &str) -> CommandOutcome {
    CommandOutcome::NotRun {
        error: error.to_string(),
    }
}

#[test]
fn errors_are_worded() {
    assert_eq!(
        manifest_missing("/x"),
        "Could not find `Cargo.toml` in `/x` or any parent directory"
    );
    assert_eq!(
        manifest_unresolved("/x/Cargo.toml", "denied"),
        "Failed to canonicalize `/x/Cargo.toml`: denied"
    );
    assert_eq!(
        metadata_unreadable("EOF"),
        "Failed to parse metadata JSON: EOF"
    );
    assert_eq!(
        metadata_args(),
        ["metadata", "--no-deps", "--format-version", "1", "--manifest-path"]
    );
    assert_eq!(
        metadata_output(not_run("no cargo")),
        Err("Failed to run `cargo metadata`: no cargo".to_string())
    );
    assert_eq!(
        metadata_output(exited(false, "{}", " error: bad manifest\n")),
        Err("`cargo metadata` failed: error: bad manifest".to_string())
    );
    assert_eq!(
        metadata_output(exited(true, "{}", "warning")),
        Ok(b"{}".to_vec())
    );
}

#[test]
fn verdict_of_a_run() {
    assert_eq!(verdict(&Ok(true), false), (true, None));
    assert_eq!(verdict(&Ok(false), false), (false, None));
    assert_eq!(
        verdict(&Err("down".to_string()), false),
        (false, Some("Error: down".to_string()))
    );
    assert_eq!(verdict(&Err("down".to_string()), true), (false, None));
}

fn manifest(name: &str) -> RawPath {
    RawPath {
        anchor: b"/".to_vec(),
        names: vec![name.as_bytes().to_vec(), b"Cargo.toml".to_vec()],
    }
}

struct World {
    located: Option<&'static str>,
    resolved: Result<&'static str, &'static str>,
    described: CommandOutcome,
    read: Result<Vec<&'static str>, &'static str>,
    matched: Vec<Option<&'static str>>,
}

/// Everything is found, and the manifest in question is that of `one`.
fn world() -> World {
    World {
        located: Some("./Cargo.toml"),
        resolved: Ok("one"),
        described: exited(true, "{json}", ""),
        read: Ok(vec!["zero", "one"]),
        matched: vec![Some("zero"), Some("one")],
    }
}

fn check(world: World) -> (Result<bool, String>, Vec<String>) {
    check_with(world, false)
}

fn check_with(world: World, quiet: bool) -> (Result<bool, String>, Vec<String>) {
    let args = Args {
        path: "some/dir".to_string(),
        registry: "crates-io".to_string(),
        quiet,
        strict: true,
    };
    let mut lines = Vec::new();
    let mut read = Some(world.read);
    let mut described = Some(world.described);
    let mut session = Session::new(args);
    let mut event = SessionEvent::Located(world.located.map(|shown| shown.to_string()));
    loop {
        let (next, action) = session.step(event);
        session = next;
        event = match action {
            SessionAction::Resolve => SessionEvent::Resolved(
                world
                    .resolved
                    .map(manifest)
                    .map_err(|error| error.to_string()),
            ),
            SessionAction::Describe { args } => {
                assert_eq!(args, metadata_args());
                SessionEvent::Described(described.take().unwrap())
            }
            SessionAction::Read { json } => {
                assert_eq!(json, b"{json}");
                SessionEvent::Read(match read.take().unwrap() {
                    Ok(names) => Ok(Metadata {
                        packages: names
                            .iter()
                            .map(|name| PackageMetadata {
                                name: name.to_string(),
                                version: "1.0.0".to_string(),
                                manifest_path: format!("/{}/Cargo.toml", name),
                                publish: None,
                            })
                            .collect(),
                        workspace_members: names
                            .iter()
                            .map(|name| format!("path+file:///{}#1.0.0", name))
                            .collect(),
                    }),
                    Err(error) => Err(error.to_string()),
                })
            }
            SessionAction::Match { manifests } => {
                assert_eq!(manifests.len(), world.matched.len());
                SessionEvent::Matched(
                    world
                        .matched
                        .iter()
                        .map(|name| name.map(manifest))
                        .collect(),
                )
            }
            SessionAction::Check { action } => SessionEvent::Checked(match action {
                Action::QueryRegistry { args } => Event::Registry(match args[4].as_str() {
                    "zero" => exited(true, "version: 0.9.0", ""),
                    _ => exited(true, "version: 1.0.0", ""),
                }),
                Action::GitStatus { .. } => Event::Git(exited(true, "", "")),
                Action::Report { line } => {
                    lines.extend(line);
                    Event::Go
                }
                Action::Finish { .. } => unreachable!(),
            }),
            SessionAction::Finish { result } => return (result, lines),
        };
    }
}

#[test]
fn session_checks_the_package_of_its_manifest() {
    assert_eq!(
        check(world()),
        (
            Ok(true),
            vec!["one 1.0.0 is published and up to date".to_string()]
        )
    );
}

#[test]
fn session_checks_the_members_of_a_workspace() {
    let workspace = World {
        resolved: Ok("root"),
        ..world()
    };
    assert_eq!(
        check(workspace),
        (
            Ok(false),
            vec![
                "zero 1.0.0 is published, but local version is ahead (latest published is 0.9.0)"
                    .to_string(),
                "one 1.0.0 is published and up to date".to_string(),
            ]
        )
    );
}

#[test]
fn quiet_session_reports_nothing() {
    assert_eq!(check_with(world(), true), (Ok(true), vec![]));
    let workspace = World {
        resolved: Ok("root"),
        ..world()
    };
    assert_eq!(check_with(workspace, true), (Ok(false), vec![]));
}

#[test]
fn session_ends_with_the_first_failure() {
    let failure = |world: World| {
        let (result, lines) = check(world);
        assert!(lines.is_empty());
        result.unwrap_err()
    };
    assert_eq!(
        failure(World {
            located: None,
            resolved: Err("late"),
            ..world()
        }),
        "Could not find `Cargo.toml` in `some/dir` or any parent directory"
    );
    assert_eq!(
        failure(World {
            resolved: Err("denied"),
            described: not_run("late"),
            ..world()
        }),
        "Failed to canonicalize `./Cargo.toml`: denied"
    );
    assert_eq!(
        failure(World {
            described: exited(false, "{json}", "broken\n"),
            read: Err("late"),
            ..world()
        }),
        "`cargo metadata` failed: broken"
    );
    assert_eq!(
        failure(World {
            read: Err("EOF"),
            ..world()
        }),
        "Failed to parse metadata JSON: EOF"
    );
    assert_eq!(
        failure(World {
            read: Ok(vec![]),
            matched: vec![],
            ..world()
        }),
        "No package found to check in manifest"
    );
}
