//! The whole of a publication check, from the path it is called with to the
//! status it exits with.
use crate::args::Args;
use crate::command::{decode, lossy_text, texts, CommandOutcome};
use crate::package::{Metadata, PackageMetadata};
use crate::path::{PathModel, RawPath};
use crate::run::{
    chosen_packages, law_quiet_run, Action, ActionModel, Answers, Event, Run, RunModel, StageModel,
};
use crate::selection::{member_flags, packages_to_check, selection, target_flags};
use crate::text::{trim, trimmed};
use crate::version::holdable;
use vstd::prelude::*;

verus! {

/// The error of a check that finds no manifest at or above `path`.
pub open spec fn missing_text(path: Seq<char>) -> Seq<char> {
    "Could not find `Cargo.toml` in `"@ + path + "` or any parent directory"@
}

/// The error of a check that cannot resolve the path of its manifest.
pub open spec fn unresolved_text(manifest: Seq<char>, error: Seq<char>) -> Seq<char> {
    "Failed to canonicalize `"@ + manifest + "`: "@ + error
}

/// The error of a check that cannot read what `cargo metadata` printed.
pub open spec fn unreadable_text(error: Seq<char>) -> Seq<char> {
    "Failed to parse metadata JSON: "@ + error
}

/// The error of a check whose `cargo metadata` printed `stderr` and failed.
pub open spec fn failed_text(stderr: Seq<char>) -> Seq<char> {
    "`cargo metadata` failed: "@ + trimmed(stderr)
}

/// What `cargo metadata` printed, if it ran and succeeded.
pub open spec fn metadata_in(outcome: CommandOutcome) -> Result<Seq<u8>, Seq<char>> {
    match outcome {
        CommandOutcome::NotRun { error } => Err("Failed to run `cargo metadata`: "@ + error@),
        CommandOutcome::Exited { success: true, stdout, .. } => Ok(stdout@),
        CommandOutcome::Exited { success: false, stderr, .. } => Err(
            failed_text(lossy_text(stderr@)),
        ),
    }
}

/// The arguments by which `cargo` is asked to describe a workspace; the path
/// of the manifest comes after them.
pub open spec fn metadata_words() -> Seq<Seq<char>> {
    seq!["metadata"@, "--no-deps"@, "--format-version"@, "1"@, "--manifest-path"@]
}

/// The error of a check that finds no manifest at or above `path`.
pub fn manifest_missing(path: &str) -> (r: String)
    ensures
        r@ == missing_text(path@),
{
    "Could not find `Cargo.toml` in `".to_owned().concat(path).concat(
        "` or any parent directory",
    )
}

/// The error of a check that cannot resolve the path of its manifest.
pub fn manifest_unresolved(manifest: &str, error: &str) -> (r: String)
    ensures
        r@ == unresolved_text(manifest@, error@),
{
    "Failed to canonicalize `".to_owned().concat(manifest).concat("`: ").concat(error)
}

/// The error of a check that cannot read what `cargo metadata` printed.
pub fn metadata_unreadable(error: &str) -> (r: String)
    ensures
        r@ == unreadable_text(error@),
{
    "Failed to parse metadata JSON: ".to_owned().concat(error)
}

/// The error of a check whose `cargo metadata` printed `stderr` and failed.
pub fn metadata_failed(stderr: &str) -> (r: String)
    ensures
        r@ == failed_text(stderr@),
{
    let reason = trim(stderr);
    "`cargo metadata` failed: ".to_owned().concat(reason.as_str())
}

/// The arguments by which `cargo` is asked to describe a workspace; the path
/// of the manifest comes after them.
pub fn metadata_args() -> (r: Vec<String>)
    ensures
        texts(r@) == metadata_words(),
{
    let r = vec![
        "metadata".to_owned(),
        "--no-deps".to_owned(),
        "--format-version".to_owned(),
        "1".to_owned(),
        "--manifest-path".to_owned(),
    ];
    assert(texts(r@) =~= metadata_words());
    r
}

/// What `cargo metadata` printed, if it ran and succeeded.
pub fn metadata_output(outcome: CommandOutcome) -> (r: Result<Vec<u8>, String>)
    ensures
        match r {
            Ok(json) => metadata_in(outcome) == Ok::<Seq<u8>, Seq<char>>(json@),
            Err(error) => metadata_in(outcome) == Err::<Seq<u8>, Seq<char>>(error@),
        },
{
    match outcome {
        CommandOutcome::NotRun { error } => Err(
            "Failed to run `cargo metadata`: ".to_owned().concat(error.as_str()),
        ),
        CommandOutcome::Exited { success, stdout, stderr } => {
            if success {
                Ok(stdout)
            } else {
                let text = decode(&stderr);
                Err(metadata_failed(text.as_str()))
            }
        },
    }
}

/// What a session waits for.
#[derive(Debug)]
pub enum SessionStage {
    /// The manifest that governs the path.
    Locating,
    /// The path of the manifest with symbolic links resolved.
    Resolving { shown: String },
    /// The end of `cargo metadata`.
    Describing { manifest: RawPath },
    /// What `cargo metadata` printed, as metadata.
    Reading { manifest: RawPath },
    /// The paths of the packages' manifests with symbolic links resolved.
    Matching { manifest: RawPath, metadata: Metadata },
    /// What the run over the packages waits for.
    Checking { run: Run },
    /// Nothing any more.
    Done,
}

/// What came of the last action.
#[derive(Debug)]
pub enum SessionEvent {
    /// The path of the manifest that was found, as it is shown.
    Located(Option<String>),
    /// The resolved path of the manifest, or why it could not be resolved.
    Resolved(Result<RawPath, String>),
    /// `cargo metadata` ended.
    Described(CommandOutcome),
    /// The metadata, or why it could not be read.
    Read(Result<Metadata, String>),
    /// For each package, the resolved path of its manifest, where there is
    /// one.
    Matched(Vec<Option<RawPath>>),
    /// What happened to the run over the packages.
    Checked(Event),
}

/// What is to be done next.
#[derive(Debug)]
pub enum SessionAction {
    /// Resolve the path of the manifest.
    Resolve,
    /// Run `cargo` with these arguments and the path of the manifest.
    Describe { args: Vec<String> },
    /// Read this text as metadata.
    Read { json: Vec<u8> },
    /// Resolve these paths of manifests.
    Match { manifests: Vec<String> },
    /// Do what the run over the packages asks for.
    Check { action: Action },
    /// End with this result.
    Finish { result: Result<bool, String> },
}

/// A publication check.
#[derive(Debug)]
pub struct Session {
    args: Args,
    stage: SessionStage,
}

/// What a `SessionStage` stands for.
pub enum SessionStageModel {
    Locating,
    Resolving { shown: Seq<char> },
    Describing { manifest: PathModel },
    Reading { manifest: PathModel },
    Matching { manifest: PathModel, metadata: Metadata },
    Checking { run: RunModel },
    Done,
}

/// What a `SessionAction` stands for.
pub enum SessionActionModel {
    Resolve,
    Describe { args: Seq<Seq<char>> },
    Read { json: Seq<u8> },
    Match { manifests: Seq<Seq<char>> },
    Check { action: ActionModel },
    Finish { result: Result<bool, Seq<char>> },
}

/// What a `Session` stands for.
pub struct SessionModel {
    pub args: Args,
    pub stage: SessionStageModel,
}

impl View for SessionStage {
    type V = SessionStageModel;

    open spec fn view(&self) -> SessionStageModel {
        match self {
            SessionStage::Locating => SessionStageModel::Locating,
            SessionStage::Resolving { shown } => SessionStageModel::Resolving { shown: shown@ },
            SessionStage::Describing { manifest } => SessionStageModel::Describing {
                manifest: manifest@,
            },
            SessionStage::Reading { manifest } => SessionStageModel::Reading {
                manifest: manifest@,
            },
            SessionStage::Matching { manifest, metadata } => SessionStageModel::Matching {
                manifest: manifest@,
                metadata: *metadata,
            },
            SessionStage::Checking { run } => SessionStageModel::Checking { run: run@ },
            SessionStage::Done => SessionStageModel::Done,
        }
    }
}

impl View for SessionAction {
    type V = SessionActionModel;

    open spec fn view(&self) -> SessionActionModel {
        match self {
            SessionAction::Resolve => SessionActionModel::Resolve,
            SessionAction::Describe { args } => SessionActionModel::Describe { args: texts(args@) },
            SessionAction::Read { json } => SessionActionModel::Read { json: json@ },
            SessionAction::Match { manifests } => SessionActionModel::Match {
                manifests: texts(manifests@),
            },
            SessionAction::Check { action } => SessionActionModel::Check { action: action@ },
            SessionAction::Finish { result } => SessionActionModel::Finish {
                result: match result {
                    Ok(b) => Ok(*b),
                    Err(e) => Err(e@),
                },
            },
        }
    }
}

impl View for Session {
    type V = SessionModel;

    closed spec fn view(&self) -> SessionModel {
        SessionModel { args: self.args, stage: self.stage@ }
    }
}

/// Whether the versions of all packages can be compared.
pub open spec fn comparable(metadata: Metadata) -> bool {
    forall|k: int|
        0 <= k < metadata.packages@.len() ==> holdable((#[trigger] metadata.packages@[k]).version@)
}

/// The packages that a check with this metadata chooses.
pub open spec fn choice(
    metadata: Metadata,
    resolved: Seq<Option<RawPath>>,
    manifest: PathModel,
) -> Seq<int> {
    selection(
        target_flags(resolved, manifest),
        member_flags(metadata.packages@, metadata.workspace_members@),
    )
}

/// The paths of the packages' manifests.
pub open spec fn manifest_paths(packages: Seq<PackageMetadata>) -> Seq<Seq<char>> {
    packages.map_values(|p: PackageMetadata| p.manifest_path@)
}

impl SessionModel {
    /// Whether `event` is what the session waits for.
    pub open spec fn expects(self, event: SessionEvent) -> bool {
        match (self.stage, event) {
            (SessionStageModel::Locating, SessionEvent::Located(_)) => true,
            (SessionStageModel::Resolving { .. }, SessionEvent::Resolved(_)) => true,
            (SessionStageModel::Describing { .. }, SessionEvent::Described(_)) => true,
            (SessionStageModel::Reading { .. }, SessionEvent::Read(read)) => (read matches Ok(
                metadata,
            ) ==> comparable(metadata)),
            (SessionStageModel::Matching { metadata, .. }, SessionEvent::Matched(resolved)) => {
                resolved@.len() == metadata.packages@.len()
            },
            (SessionStageModel::Checking { run }, SessionEvent::Checked(event)) => run.expects(
                event,
            ),
            _ => false,
        }
    }

    /// The session in another stage.
    pub open spec fn at(self, stage: SessionStageModel) -> SessionModel {
        SessionModel { stage, ..self }
    }

    /// The session at its end.
    pub open spec fn ended(self, result: Result<bool, Seq<char>>) -> (
        SessionModel,
        SessionActionModel,
    ) {
        (self.at(SessionStageModel::Done), SessionActionModel::Finish { result })
    }

    /// The run over the chosen packages, before it begins.
    pub open spec fn run_over(self, packages: Seq<PackageMetadata>, chosen: Seq<int>) -> RunModel {
        RunModel {
            packages: chosen_packages(packages, chosen),
            registry: self.args.registry@,
            strict: self.args.strict,
            quiet: self.args.quiet,
            next: 0,
            all_success: true,
            stage: StageModel::Ready,
        }
    }

    /// The session after `event` happened to its run.
    pub open spec fn checked(self, run: RunModel, event: Event) -> (
        SessionModel,
        SessionActionModel,
    ) {
        let (after, action) = run.stepped(event);
        match action {
            ActionModel::Finish { result } => self.ended(result),
            _ => (
                self.at(SessionStageModel::Checking { run: after }),
                SessionActionModel::Check { action },
            ),
        }
    }

    /// The session after `event`, and what is to be done next.
    pub open spec fn stepped(self, event: SessionEvent) -> (SessionModel, SessionActionModel) {
        match (self.stage, event) {
            (SessionStageModel::Locating, SessionEvent::Located(found)) => match found {
                None => self.ended(Err(missing_text(self.args.path@))),
                Some(shown) => (
                    self.at(SessionStageModel::Resolving { shown: shown@ }),
                    SessionActionModel::Resolve,
                ),
            },
            (SessionStageModel::Resolving { shown }, SessionEvent::Resolved(resolved)) => {
                match resolved {
                    Err(error) => self.ended(Err(unresolved_text(shown, error@))),
                    Ok(path) => (
                        self.at(SessionStageModel::Describing { manifest: path@ }),
                        SessionActionModel::Describe { args: metadata_words() },
                    ),
                }
            },
            (SessionStageModel::Describing { manifest }, SessionEvent::Described(outcome)) => {
                match metadata_in(outcome) {
                    Err(error) => self.ended(Err(error)),
                    Ok(json) => (
                        self.at(SessionStageModel::Reading { manifest }),
                        SessionActionModel::Read { json },
                    ),
                }
            },
            (SessionStageModel::Reading { manifest }, SessionEvent::Read(read)) => match read {
                Err(error) => self.ended(Err(unreadable_text(error@))),
                Ok(metadata) => (
                    self.at(SessionStageModel::Matching { manifest, metadata }),
                    SessionActionModel::Match {
                        manifests: manifest_paths(metadata.packages@),
                    },
                ),
            },
            (
                SessionStageModel::Matching { manifest, metadata },
                SessionEvent::Matched(resolved),
            ) => {
                let chosen = choice(metadata, resolved@, manifest);
                if chosen.len() == 0 {
                    self.ended(Err("No package found to check in manifest"@))
                } else {
                    self.checked(self.run_over(metadata.packages@, chosen), Event::Go)
                }
            },
            (SessionStageModel::Checking { run }, SessionEvent::Checked(event)) => self.checked(
                run,
                event,
            ),
            _ => self.ended(Ok(false)),
        }
    }
}

/// The paths of the packages' manifests.
fn list_manifests(packages: &Vec<PackageMetadata>) -> (r: Vec<String>)
    ensures
        texts(r@) == manifest_paths(packages@),
{
    let mut r: Vec<String> = Vec::new();
    let mut i: usize = 0;
    while i < packages.len()
        invariant
            i <= packages@.len(),
            texts(r@) == manifest_paths(packages@).take(i as int),
        decreases packages@.len() - i,
    {
        let ghost before = r@;
        r.push(packages[i].manifest_path.clone());
        proof {
            assert(texts(r@) =~= texts(before).push(packages@[i as int].manifest_path@));
            assert(texts(r@) =~= manifest_paths(packages@).take(i + 1));
        }
        i = i + 1;
    }
    assert(manifest_paths(packages@).take(i as int) =~= manifest_paths(packages@));
    r
}

impl Session {
    /// What holds of every session: its run, if it has begun, keeps what runs
    /// keep, and every version in its metadata can be compared.
    pub closed spec fn inv(self) -> bool {
        match self.stage {
            SessionStage::Matching { metadata, .. } => comparable(metadata),
            SessionStage::Checking { run } => run.inv(),
            _ => true,
        }
    }

    /// The check that `args` call for. The manifest is first to be found.
    pub fn new(args: Args) -> (r: Session)
        ensures
            r.inv(),
            r@ == (SessionModel { args, stage: SessionStageModel::Locating }),
    {
        Session { args, stage: SessionStage::Locating }
    }

    fn check(args: Args, run: Run, event: Event) -> (r: (Session, SessionAction))
        requires
            run.inv(),
            run@.expects(event),
        ensures
            r.0.inv(),
            (r.0@, r.1@) == (SessionModel { args, stage: SessionStageModel::Done }).checked(
                run@,
                event,
            ),
    {
        let mut run = run;
        match run.step(event) {
            Action::Finish { result } => (
                Session { args, stage: SessionStage::Done },
                SessionAction::Finish { result },
            ),
            action => (
                Session { args, stage: SessionStage::Checking { run } },
                SessionAction::Check { action },
            ),
        }
    }

    fn end(args: Args, error: String) -> (r: (Session, SessionAction))
        ensures
            r.0.inv(),
            (r.0@, r.1@) == (SessionModel { args, stage: SessionStageModel::Done }).ended(
                Err(error@),
            ),
    {
        (
            Session { args, stage: SessionStage::Done },
            SessionAction::Finish { result: Err(error) },
        )
    }

    /// Takes up what came of the last action, and says what is to be done
    /// next.
    pub fn step(self, event: SessionEvent) -> (r: (Session, SessionAction))
        requires
            self.inv(),
            self@.expects(event),
        ensures
            r.0.inv(),
            (r.0@, r.1@) == self@.stepped(event),
    {
        let Session { args, stage } = self;
        match (stage, event) {
            (SessionStage::Locating, SessionEvent::Located(found)) => {
                match found {
                    None => {
                        let error = manifest_missing(args.path.as_str());
                        Session::end(args, error)
                    },
                    Some(shown) => (
                        Session { args, stage: SessionStage::Resolving { shown } },
                        SessionAction::Resolve,
                    ),
                }
            },
            (SessionStage::Resolving { shown }, SessionEvent::Resolved(resolved)) => {
                match resolved {
                    Err(error) => {
                        let error = manifest_unresolved(shown.as_str(), error.as_str());
                        Session::end(args, error)
                    },
                    Ok(resolved) => (
                        Session { args, stage: SessionStage::Describing { manifest: resolved } },
                        SessionAction::Describe { args: metadata_args() },
                    ),
                }
            },
            (SessionStage::Describing { manifest }, SessionEvent::Described(outcome)) => {
                match metadata_output(outcome) {
                    Err(error) => Session::end(args, error),
                    Ok(json) => (
                        Session { args, stage: SessionStage::Reading { manifest } },
                        SessionAction::Read { json },
                    ),
                }
            },
            (SessionStage::Reading { manifest }, SessionEvent::Read(read)) => {
                match read {
                    Err(error) => {
                        let error = metadata_unreadable(error.as_str());
                        Session::end(args, error)
                    },
                    Ok(metadata) => {
                        let manifests = list_manifests(&metadata.packages);
                        (
                            Session { args, stage: SessionStage::Matching { manifest, metadata } },
                            SessionAction::Match { manifests },
                        )
                    },
                }
            },
            (SessionStage::Matching { manifest, metadata }, SessionEvent::Matched(resolved)) => {
                match packages_to_check(&metadata, &resolved, &manifest) {
                    Err(error) => Session::end(args, error),
                    Ok(chosen) => {
                        let run = Run::new(
                            metadata.packages,
                            chosen,
                            args.registry.clone(),
                            args.strict,
                            args.quiet,
                        );
                        Session::check(args, run, Event::Go)
                    },
                }
            },
            (SessionStage::Checking { run }, SessionEvent::Checked(event)) => Session::check(
                args,
                run,
                event,
            ),
            _ => (
                Session { args, stage: SessionStage::Done },
                SessionAction::Finish { result: Ok(false) },
            ),
        }
    }
}

/// How a program ends whose run came to `result`: whether it succeeds, and
/// the line that it prints as an error.
pub fn verdict(result: &Result<bool, String>, quiet: bool) -> (r: (bool, Option<String>))
    ensures
        r.0 == (*result matches Ok(true)),
        match (*result, quiet) {
            (Err(error), false) => r.1 matches Some(line) && line@ == "Error: "@ + error@,
            _ => r.1 is None,
        },
{
    match result {
        Ok(all_success) => (*all_success, None),
        Err(error) => {
            if quiet {
                (false, None)
            } else {
                (false, Some("Error: ".to_owned().concat(error.as_str())))
            }
        },
    }
}

/// What the outside answers to a session.
pub struct SessionAnswers {
    /// The manifest that is found, as it is shown.
    pub located: Option<String>,
    /// The resolved path of the manifest, or why it cannot be resolved.
    pub resolved: Result<RawPath, String>,
    /// The end of `cargo metadata`.
    pub described: CommandOutcome,
    /// The metadata that is read, or why it cannot be.
    pub read: Result<Metadata, String>,
    /// The resolved paths of the packages' manifests.
    pub matched: Vec<Option<RawPath>>,
    /// What the outside answers about each package that is checked.
    pub packages: Answers,
}

impl SessionModel {
    /// What comes of the last action.
    pub open spec fn next_event(self, answers: SessionAnswers) -> SessionEvent {
        match self.stage {
            SessionStageModel::Locating => SessionEvent::Located(answers.located),
            SessionStageModel::Resolving { .. } => SessionEvent::Resolved(answers.resolved),
            SessionStageModel::Describing { .. } => SessionEvent::Described(answers.described),
            SessionStageModel::Reading { .. } => SessionEvent::Read(answers.read),
            SessionStageModel::Matching { .. } => SessionEvent::Matched(answers.matched),
            SessionStageModel::Checking { run } => SessionEvent::Checked(
                run.next_event(answers.packages),
            ),
            SessionStageModel::Done => SessionEvent::Located(None),
        }
    }

    /// How many stages are left.
    pub open spec fn stages_left(self) -> int {
        match self.stage {
            SessionStageModel::Locating => 6,
            SessionStageModel::Resolving { .. } => 5,
            SessionStageModel::Describing { .. } => 4,
            SessionStageModel::Reading { .. } => 3,
            SessionStageModel::Matching { .. } => 2,
            SessionStageModel::Checking { .. } => 1,
            SessionStageModel::Done => 0,
        }
    }

    /// How many steps the run over the packages has left at most.
    pub open spec fn run_left(self) -> int {
        match self.stage {
            SessionStageModel::Checking { run } => run.steps_left(),
            _ => 0,
        }
    }

    /// Whether a run that the session is at can go on.
    pub open spec fn running(self) -> bool {
        self.stage matches SessionStageModel::Checking { run } ==> run.going()
    }

    /// The result of the session and the lines it reports, where every action
    /// is performed and answered by `answers`.
    #[verifier::opaque]
    pub open spec fn driven(self, answers: SessionAnswers) -> (Result<bool, Seq<char>>, Seq<
        Option<Seq<char>>,
    >)
        decreases self.stages_left(), self.run_left(),
        when self.running()
    {
        let (after, action) = self.stepped(self.next_event(answers));
        match action {
            SessionActionModel::Finish { result } => (result, Seq::empty()),
            SessionActionModel::Check { action: ActionModel::Report { line } } => {
                let (result, lines) = after.driven(answers);
                (result, seq![line] + lines)
            },
            _ => after.driven(answers),
        }
    }

    /// What the check comes to under `answers`: the first step that fails
    /// ends it with its error; else it comes to what the run over the chosen
    /// packages comes to.
    pub open spec fn outcome(self, answers: SessionAnswers) -> (Result<bool, Seq<char>>, Seq<
        Option<Seq<char>>,
    >) {
        let failed = |error: Seq<char>|
            (Err::<bool, Seq<char>>(error), Seq::<Option<Seq<char>>>::empty());
        match (answers.located, answers.resolved, metadata_in(answers.described), answers.read) {
            (None, _, _, _) => failed(missing_text(self.args.path@)),
            (Some(shown), Err(error), _, _) => failed(unresolved_text(shown@, error@)),
            (_, _, Err(error), _) => failed(error),
            (_, _, _, Err(error)) => failed(unreadable_text(error@)),
            (_, Ok(manifest), _, Ok(metadata)) => {
                let chosen = choice(metadata, answers.matched@, manifest@);
                if chosen.len() == 0 {
                    failed("No package found to check in manifest"@)
                } else {
                    self.run_over(metadata.packages@, chosen).driven(answers.packages)
                }
            },
        }
    }
}

proof fn lemma_run_driven(session: SessionModel, run: RunModel, answers: SessionAnswers)
    requires
        run.going(),
    ensures
        ({
            let (after, action) = session.checked(run, run.next_event(answers.packages));
            let rest = after.driven(answers);
            run.driven(answers.packages) == match action {
                SessionActionModel::Finish { result } => (result, Seq::empty()),
                SessionActionModel::Check { action: ActionModel::Report { line } } => (
                    rest.0,
                    seq![line] + rest.1,
                ),
                _ => rest,
            }
        }),
    decreases run.steps_left(),
{
    reveal_with_fuel(RunModel::driven, 1);
    reveal_with_fuel(SessionModel::driven, 1);
    let (after, action) = run.stepped(run.next_event(answers.packages));
    if !(action is Finish) {
        lemma_run_driven(
            session.at(SessionStageModel::Checking { run: after }),
            after,
            answers,
        );
    }
}

/// A session that starts at its beginning comes to what its outcome says.
pub proof fn law_session(session: SessionModel, answers: SessionAnswers)
    requires
        session.stage is Locating,
    ensures
        session.driven(answers) == session.outcome(answers),
{
    reveal_with_fuel(SessionModel::driven, 1);
    if let Some(shown) = answers.located {
        let resolving = session.at(SessionStageModel::Resolving { shown: shown@ });
        assert(session.driven(answers) == resolving.driven(answers));
        if let Ok(path) = answers.resolved {
            let describing = session.at(SessionStageModel::Describing { manifest: path@ });
            assert(resolving.driven(answers) == describing.driven(answers));
            if metadata_in(answers.described) is Ok {
                let reading = session.at(SessionStageModel::Reading { manifest: path@ });
                assert(describing.driven(answers) == reading.driven(answers));
                if let Ok(metadata) = answers.read {
                    let matching = session.at(
                        SessionStageModel::Matching { manifest: path@, metadata },
                    );
                    assert(reading.driven(answers) == matching.driven(answers));
                    let chosen = choice(metadata, answers.matched@, path@);
                    if chosen.len() > 0 {
                        let run = session.run_over(metadata.packages@, chosen);
                        lemma_run_driven(matching, run, answers);
                    }
                }
            }
        }
    }
}

impl SessionModel {
    /// The session with its reports turned off or on.
    pub open spec fn with_quiet(self, quiet: bool) -> SessionModel {
        SessionModel { args: Args { quiet, ..self.args }, ..self }
    }
}

/// A quiet session prints nothing, and comes to the same result as one that
/// is not.
pub proof fn law_quiet(session: SessionModel, answers: SessionAnswers)
    requires
        session.stage is Locating,
    ensures
        ({
            let (result, lines) = session.with_quiet(true).driven(answers);
            &&& result == session.with_quiet(false).driven(answers).0
            &&& forall|i: int| 0 <= i < lines.len() ==> #[trigger] lines[i] is None
        }),
{
    let quiet = session.with_quiet(true);
    let loud = session.with_quiet(false);
    law_session(quiet, answers);
    law_session(loud, answers);
    if let (Ok(manifest), Ok(metadata)) = (answers.resolved, answers.read) {
        let chosen = choice(metadata, answers.matched@, manifest@);
        let run = quiet.run_over(metadata.packages@, chosen);
        assert(run == run.with_quiet(true));
        assert(loud.run_over(metadata.packages@, chosen) == run.with_quiet(false));
        law_quiet_run(run, answers.packages);
    }
}

/// What a session asks. Of a manifest that was found it wants the path
/// resolved, then the description of its workspace, then the description read
/// just as it was printed, then the paths of all packages' manifests resolved,
/// each in its place.
pub proof fn law_session_asks(
    session: SessionModel,
    shown: String,
    path: RawPath,
    manifest: PathModel,
    stdout: Vec<u8>,
    stderr: Vec<u8>,
    metadata: Metadata,
)
    ensures
        session.at(SessionStageModel::Locating).stepped(SessionEvent::Located(Some(shown))) == (
            session.at(SessionStageModel::Resolving { shown: shown@ }),
            SessionActionModel::Resolve,
        ),
        session.at(SessionStageModel::Resolving { shown: shown@ }).stepped(
            SessionEvent::Resolved(Ok(path)),
        ) == (
            session.at(SessionStageModel::Describing { manifest: path@ }),
            SessionActionModel::Describe {
                args: seq![
                    "metadata"@,
                    "--no-deps"@,
                    "--format-version"@,
                    "1"@,
                    "--manifest-path"@,
                ],
            },
        ),
        session.at(SessionStageModel::Describing { manifest }).stepped(
            SessionEvent::Described(CommandOutcome::Exited { success: true, stdout, stderr }),
        ) == (
            session.at(SessionStageModel::Reading { manifest }),
            SessionActionModel::Read { json: stdout@ },
        ),
        ({
            let (after, action) = session.at(SessionStageModel::Reading { manifest }).stepped(
                SessionEvent::Read(Ok(metadata)),
            );
            &&& after == session.at(SessionStageModel::Matching { manifest, metadata })
            &&& action matches SessionActionModel::Match { manifests } && {
                &&& manifests.len() == metadata.packages@.len()
                &&& forall|i: int|
                    0 <= i < manifests.len() ==> #[trigger] manifests[i]
                        == metadata.packages@[i].manifest_path@
            }
        }),
{
}

/// While packages are checked, a session asks what its run asks, and ends as
/// the run ends.
pub proof fn law_session_runs(session: SessionModel, run: RunModel, event: Event)
    ensures
        ({
            let (after, action) = session.at(SessionStageModel::Checking { run }).stepped(
                SessionEvent::Checked(event),
            );
            let (run_after, run_action) = run.stepped(event);
            match run_action {
                ActionModel::Finish { result } => action == (SessionActionModel::Finish { result })
                    && after == session.at(SessionStageModel::Done),
                _ => action == (SessionActionModel::Check { action: run_action }) && after
                    == session.at(SessionStageModel::Checking { run: run_after }),
            }
        }),
{
}

/// What a whole session comes to. Each step that fails ends it with an error
/// that tells the step, and nothing is reported: no manifest, a manifest that
/// cannot be resolved, a description that cannot be run, that fails or that
/// cannot be read, no package to check. Else it comes to what a run over the
/// chosen packages comes to, against the registry that it is called with.
pub proof fn law_session_in_full(session: SessionModel, answers: SessionAnswers)
    requires
        session.stage is Locating,
    ensures
        ({
            let (result, lines) = session.driven(answers);
            match (answers.located, answers.resolved, answers.described, answers.read) {
                (None, _, _, _) => {
                    &&& lines.len() == 0
                    &&& result == Err::<bool, Seq<char>>(
                        "Could not find `Cargo.toml` in `"@ + session.args.path@
                            + "` or any parent directory"@,
                    )
                },
                (Some(shown), Err(error), _, _) => {
                    &&& lines.len() == 0
                    &&& result == Err::<bool, Seq<char>>(
                        "Failed to canonicalize `"@ + shown@ + "`: "@ + error@,
                    )
                },
                (_, _, CommandOutcome::NotRun { error }, _) => {
                    &&& lines.len() == 0
                    &&& result == Err::<bool, Seq<char>>(
                        "Failed to run `cargo metadata`: "@ + error@,
                    )
                },
                (_, _, CommandOutcome::Exited { success: false, stderr, .. }, _) => {
                    &&& lines.len() == 0
                    &&& result == Err::<bool, Seq<char>>(
                        "`cargo metadata` failed: "@ + trimmed(lossy_text(stderr@)),
                    )
                },
                (_, _, _, Err(error)) => {
                    &&& lines.len() == 0
                    &&& result == Err::<bool, Seq<char>>(
                        "Failed to parse metadata JSON: "@ + error@,
                    )
                },
                (_, Ok(manifest), _, Ok(metadata)) => {
                    let chosen = selection(
                        target_flags(answers.matched@, manifest@),
                        member_flags(metadata.packages@, metadata.workspace_members@),
                    );
                    &&& chosen.len() == 0 ==> lines.len() == 0 && result == Err::<bool, Seq<char>>(
                        "No package found to check in manifest"@,
                    )
                    &&& chosen.len() > 0 ==> (result, lines) == (RunModel {
                        packages: Seq::new(chosen.len(), |k: int| metadata.packages@[chosen[k]]@),
                        registry: session.args.registry@,
                        strict: session.args.strict,
                        quiet: session.args.quiet,
                        next: 0,
                        all_success: true,
                        stage: StageModel::Ready,
                    }).driven(answers.packages)
                },
            }
        }),
{
    law_session(session, answers);
    if let (Ok(manifest), Ok(metadata)) = (answers.resolved, answers.read) {
        let chosen = choice(metadata, answers.matched@, manifest@);
        assert(chosen_packages(metadata.packages@, chosen) =~= Seq::new(
            chosen.len(),
            |k: int| metadata.packages@[chosen[k]]@,
        ));
    }
}

/// An action of a session stands for itself, with its texts.
pub proof fn law_session_action_view(action: SessionAction)
    ensures
        match action {
            SessionAction::Resolve => action@ is Resolve,
            SessionAction::Describe { args } => action@ matches SessionActionModel::Describe {
                args: asked,
            } && asked.len() == args@.len() && forall|i: int|
                0 <= i < asked.len() ==> #[trigger] asked[i] == args@[i]@,
            SessionAction::Read { json } => action@ == (SessionActionModel::Read { json: json@ }),
            SessionAction::Match { manifests } => action@ matches SessionActionModel::Match {
                manifests: asked,
            } && asked.len() == manifests@.len() && forall|i: int|
                0 <= i < asked.len() ==> #[trigger] asked[i] == manifests@[i]@,
            SessionAction::Check { action: inner } => action@ == (SessionActionModel::Check {
                action: inner@,
            }),
            SessionAction::Finish { result: Ok(success) } => action@ == (
            SessionActionModel::Finish { result: Ok(success) }),
            SessionAction::Finish { result: Err(error) } => action@ == (
            SessionActionModel::Finish { result: Err(error@) }),
        },
{
}

} // verus!
