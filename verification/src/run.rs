//! A run over the packages to check: what is asked of the registry and `git`,
//! what is printed, and how the run ends.
use crate::command::{texts, CommandOutcome};
use crate::git::{check_git_uncommitted, printed};
use crate::package::{is_publishable, law_up_to_date, settle, PackageMetadata, PackageModel};
use crate::registry::{query_args, query_registry_published_version, reply_in};
use crate::selection::positions;
use crate::status::{PublishStatus, StatusModel};
use crate::text::blank;
use crate::version::holdable;
use vstd::prelude::*;

verus! {

/// What a run waits for.
#[derive(Debug)]
pub enum Stage {
    /// Nothing: it goes on with the next package.
    Ready,
    /// The end of the query about the current package.
    Registry,
    /// The end of `git status` in the current package's directory.
    Git { published: String },
    /// Nothing any more.
    Finished,
}

/// What happened since the last action.
#[derive(Debug)]
pub enum Event {
    /// The run began, or the report was taken.
    Go,
    /// The registry query ended.
    Registry(CommandOutcome),
    /// `git status` ended.
    Git(CommandOutcome),
}

/// What is to be done next.
#[derive(Debug)]
pub enum Action {
    /// Run `cargo` with these arguments.
    QueryRegistry { args: Vec<String> },
    /// Run `git status` in the directory of this manifest.
    GitStatus { manifest_path: String },
    /// Print the line, if there is one.
    Report { line: Option<String> },
    /// End the run.
    Finish { result: Result<bool, String> },
}

/// A run over the packages to check.
#[derive(Debug)]
pub struct Run {
    packages: Vec<PackageMetadata>,
    chosen: Vec<usize>,
    registry: String,
    strict: bool,
    quiet: bool,
    next: usize,
    all_success: bool,
    stage: Stage,
}

/// What a `Stage` stands for.
pub enum StageModel {
    Ready,
    Registry,
    Git { published: Seq<char> },
    Finished,
}

impl View for Stage {
    type V = StageModel;

    open spec fn view(&self) -> StageModel {
        match self {
            Stage::Ready => StageModel::Ready,
            Stage::Registry => StageModel::Registry,
            Stage::Git { published } => StageModel::Git { published: published@ },
            Stage::Finished => StageModel::Finished,
        }
    }
}

/// What an `Action` stands for.
pub enum ActionModel {
    QueryRegistry { args: Seq<Seq<char>> },
    GitStatus { manifest_path: Seq<char> },
    Report { line: Option<Seq<char>> },
    Finish { result: Result<bool, Seq<char>> },
}

impl View for Action {
    type V = ActionModel;

    open spec fn view(&self) -> ActionModel {
        match self {
            Action::QueryRegistry { args } => ActionModel::QueryRegistry { args: texts(args@) },
            Action::GitStatus { manifest_path } => ActionModel::GitStatus {
                manifest_path: manifest_path@,
            },
            Action::Report { line } => ActionModel::Report {
                line: match line {
                    Some(l) => Some(l@),
                    None => None,
                },
            },
            Action::Finish { result } => ActionModel::Finish {
                result: match result {
                    Ok(b) => Ok(*b),
                    Err(e) => Err(e@),
                },
            },
        }
    }
}

/// What a `Run` stands for.
pub struct RunModel {
    /// The packages to check, in order.
    pub packages: Seq<PackageModel>,
    pub registry: Seq<char>,
    pub strict: bool,
    pub quiet: bool,
    /// How many of the packages are done.
    pub next: int,
    /// Whether all of those succeeded.
    pub all_success: bool,
    pub stage: StageModel,
}

/// The packages at `chosen`.
pub open spec fn chosen_packages(packages: Seq<PackageMetadata>, chosen: Seq<int>) -> Seq<
    PackageModel,
> {
    chosen.map_values(|i: int| packages[i]@)
}

impl View for Run {
    type V = RunModel;

    closed spec fn view(&self) -> RunModel {
        RunModel {
            packages: chosen_packages(self.packages@, positions(self.chosen@)),
            registry: self.registry@,
            strict: self.strict,
            quiet: self.quiet,
            next: self.next as int,
            all_success: self.all_success,
            stage: self.stage@,
        }
    }
}

/// Whether the output of a command is short enough for any version in it to
/// be compared.
pub open spec fn readable(outcome: CommandOutcome) -> bool {
    outcome matches CommandOutcome::Exited { stdout, .. } ==> stdout@.len()
        < crate::version::VERSION_LIMIT && stdout@.len() + 16 <= isize::MAX
}

impl RunModel {
    /// Whether `event` is what the run waits for.
    pub open spec fn expects(self, event: Event) -> bool {
        match event {
            Event::Go => self.stage is Ready,
            Event::Registry(outcome) => self.stage is Registry && readable(outcome),
            Event::Git(_) => self.stage is Git,
        }
    }

    /// The run with the current package found to have `status`, and its
    /// report.
    pub open spec fn recorded(self, status: StatusModel) -> (RunModel, ActionModel) {
        let package = self.packages[self.next];
        (
            RunModel {
                next: self.next + 1,
                all_success: self.all_success && status.success(self.strict),
                stage: StageModel::Ready,
                ..self
            },
            ActionModel::Report {
                line: if self.quiet {
                    None
                } else {
                    Some(status.message(package.name, package.version))
                },
            },
        )
    }

    /// The run with a result, and its end.
    pub open spec fn finished(self, result: Result<bool, Seq<char>>) -> (RunModel, ActionModel) {
        (
            RunModel { stage: StageModel::Finished, ..self },
            ActionModel::Finish { result },
        )
    }

    /// The run after `event`, and what is to be done next. The registry is
    /// asked only of a package that may be published to it, and `git` only of
    /// one that is published.
    pub open spec fn stepped(self, event: Event) -> (RunModel, ActionModel) {
        let package = self.packages[self.next];
        match event {
            Event::Go => if self.next >= self.packages.len() {
                self.finished(Ok(self.all_success))
            } else if !package.publishable(self.registry) {
                self.recorded(StatusModel::Private)
            } else {
                (
                    RunModel { stage: StageModel::Registry, ..self },
                    ActionModel::QueryRegistry {
                        args: seq!["info"@, "-q"@, "--registry"@, self.registry, package.name],
                    },
                )
            },
            Event::Registry(outcome) => match reply_in(outcome) {
                Err(error) => self.finished(Err(error)),
                Ok(None) => self.recorded(StatusModel::NotPublished),
                Ok(Some(published)) => (
                    RunModel { stage: StageModel::Git { published }, ..self },
                    ActionModel::GitStatus { manifest_path: package.manifest_path },
                ),
            },
            Event::Git(outcome) => self.recorded(
                package.settled(
                    self.stage->published,
                    printed(outcome) matches Some(status) && !blank(status),
                ),
            ),
        }
    }
}

impl Run {
    /// What holds of every run: it is at one of its packages while it waits
    /// for an answer about one, and every version can be compared.
    pub closed spec fn inv(self) -> bool {
        &&& forall|k: int|
            0 <= k < self.chosen@.len() ==> #[trigger] self.chosen@[k] < self.packages@.len()
        &&& forall|k: int|
            0 <= k < self.packages@.len() ==> holdable((#[trigger] self.packages@[k]).version@)
        &&& self.next <= self.chosen@.len()
        &&& (self.stage is Registry || self.stage is Git) ==> self.next < self.chosen@.len()
        &&& self.stage matches Stage::Git { published } ==> holdable(published@)
    }

    /// A run over the packages at `chosen`, in that order, against `registry`.
    pub fn new(
        packages: Vec<PackageMetadata>,
        chosen: Vec<usize>,
        registry: String,
        strict: bool,
        quiet: bool,
    ) -> (r: Run)
        requires
            forall|k: int| 0 <= k < chosen@.len() ==> #[trigger] chosen@[k] < packages@.len(),
            forall|k: int|
                0 <= k < packages@.len() ==> holdable((#[trigger] packages@[k]).version@),
        ensures
            r.inv(),
            r@ == (RunModel {
                packages: chosen_packages(packages@, positions(chosen@)),
                registry: registry@,
                strict,
                quiet,
                next: 0,
                all_success: true,
                stage: StageModel::Ready,
            }),
    {
        Run { packages, chosen, registry, strict, quiet, next: 0, all_success: true, stage: Stage::Ready }
    }

    /// Takes up what happened, and says what is to be done next.
    pub fn step(&mut self, event: Event) -> (action: Action)
        requires
            old(self).inv(),
            old(self)@.expects(event),
        ensures
            final(self).inv(),
            (final(self)@, action@) == old(self)@.stepped(event),
    {
        match event {
            Event::Go => self.begin_package(),
            Event::Registry(outcome) => self.take_reply(&outcome),
            Event::Git(outcome) => self.take_git_status(&outcome),
        }
    }

    /// Records what the current package was found to be.
    fn record(&mut self, status: PublishStatus) -> (action: Action)
        requires
            old(self).inv(),
            old(self)@.next < old(self)@.packages.len(),
        ensures
            final(self).inv(),
            (final(self)@, action@) == old(self)@.recorded(status@),
    {
        let package = &self.packages[self.chosen[self.next]];
        let line = if self.quiet {
            None
        } else {
            Some(status.format_message(package.name.as_str(), package.version.as_str()))
        };
        self.all_success = self.all_success && status.is_success(self.strict);
        assert(self.next < self.chosen.len());
        self.next = self.next + 1;
        self.stage = Stage::Ready;
        Action::Report { line }
    }

    fn begin_package(&mut self) -> (action: Action)
        requires
            old(self).inv(),
            old(self)@.stage is Ready,
        ensures
            final(self).inv(),
            (final(self)@, action@) == old(self)@.stepped(Event::Go),
    {
        if self.next >= self.chosen.len() {
            self.stage = Stage::Finished;
            return Action::Finish { result: Ok(self.all_success) };
        }
        let package = &self.packages[self.chosen[self.next]];
        if !is_publishable(package, self.registry.as_str()) {
            return self.record(PublishStatus::Private);
        }
        let args = query_args(package.name.as_str(), self.registry.as_str());
        self.stage = Stage::Registry;
        Action::QueryRegistry { args }
    }

    fn take_reply(&mut self, outcome: &CommandOutcome) -> (action: Action)
        requires
            old(self).inv(),
            old(self)@.stage is Registry,
            readable(*outcome),
        ensures
            final(self).inv(),
            (final(self)@, action@) == old(self)@.stepped(Event::Registry(*outcome)),
    {
        match query_registry_published_version(outcome) {
            Err(error) => {
                self.stage = Stage::Finished;
                Action::Finish { result: Err(error) }
            },
            Ok(None) => self.record(PublishStatus::NotPublished),
            Ok(Some(published)) => {
                let manifest_path = self.packages[self.chosen[self.next]].manifest_path.clone();
                self.stage = Stage::Git { published };
                Action::GitStatus { manifest_path }
            },
        }
    }

    fn take_git_status(&mut self, outcome: &CommandOutcome) -> (action: Action)
        requires
            old(self).inv(),
            old(self)@.stage is Git,
        ensures
            final(self).inv(),
            (final(self)@, action@) == old(self)@.stepped(Event::Git(*outcome)),
    {
        let dirty = check_git_uncommitted(outcome);
        let published = match &self.stage {
            Stage::Git { published } => published.clone(),
            _ => String::new(),
        };
        let status = settle(&self.packages[self.chosen[self.next]], published, dirty);
        self.record(status)
    }
}

/// What the outside answers about each package of a run: the end of the
/// registry query and the end of `git status`.
pub struct Answers {
    pub replies: Seq<CommandOutcome>,
    pub statuses: Seq<CommandOutcome>,
}

impl RunModel {
    /// What the check of the package at `i` comes to under `answers`.
    pub open spec fn found(self, answers: Answers, i: int) -> Result<StatusModel, Seq<char>> {
        self.packages[i].checked(
            self.registry,
            reply_in(answers.replies[i]),
            printed(answers.statuses[i]) matches Some(status) && !blank(status),
        )
    }

    /// Whether the package at `i` is found to be in order.
    pub open spec fn succeeds(self, answers: Answers, i: int) -> bool {
        self.found(answers, i) matches Ok(status) && status.success(self.strict)
    }

    /// The report on the package at `i`.
    pub open spec fn line(self, answers: Answers, i: int) -> Option<Seq<char>> {
        match self.found(answers, i) {
            Ok(status) if !self.quiet => Some(
                status.message(self.packages[i].name, self.packages[i].version),
            ),
            _ => None,
        }
    }

    /// The first package, from `from` on, whose check fails; the number of
    /// packages where none does.
    pub open spec fn first_failure(self, answers: Answers, from: int) -> int
        decreases self.packages.len() - from,
    {
        if from >= self.packages.len() {
            self.packages.len() as int
        } else if self.found(answers, from) is Err {
            from
        } else {
            self.first_failure(answers, from + 1)
        }
    }

    /// What happens next under `answers`.
    pub open spec fn next_event(self, answers: Answers) -> Event {
        match self.stage {
            StageModel::Registry => Event::Registry(answers.replies[self.next]),
            StageModel::Git { .. } => Event::Git(answers.statuses[self.next]),
            _ => Event::Go,
        }
    }

    /// How many steps are left at most.
    pub open spec fn steps_left(self) -> int {
        3 * (self.packages.len() - self.next) + match self.stage {
            StageModel::Ready => 2int,
            StageModel::Registry => 1,
            _ => 0,
        }
    }

    /// Whether the run can go on: it has not ended, and waits for answers only
    /// about a package of its own.
    pub open spec fn going(self) -> bool {
        &&& 0 <= self.next <= self.packages.len()
        &&& !(self.stage is Finished)
        &&& self.next == self.packages.len() ==> self.stage is Ready
    }

    /// The result of the run and the lines it reports, where every action is
    /// performed and answered by `answers`.
    #[verifier::opaque]
    pub open spec fn driven(self, answers: Answers) -> (Result<bool, Seq<char>>, Seq<
        Option<Seq<char>>,
    >)
        decreases self.steps_left(),
        when self.going()
    {
        let (after, action) = self.stepped(self.next_event(answers));
        match action {
            ActionModel::Finish { result } => (result, Seq::empty()),
            ActionModel::Report { line } => {
                let (result, lines) = after.driven(answers);
                (result, seq![line] + lines)
            },
            _ => after.driven(answers),
        }
    }
}

proof fn lemma_first_failure(run: RunModel, answers: Answers, from: int)
    requires
        0 <= from <= run.packages.len(),
    ensures
        from <= run.first_failure(answers, from) <= run.packages.len(),
        forall|i: int|
            from <= i < run.first_failure(answers, from) ==> #[trigger] run.found(answers, i) is Ok,
        run.first_failure(answers, from) < run.packages.len() ==> run.found(
            answers,
            run.first_failure(answers, from),
        ) is Err,
    decreases run.packages.len() - from,
{
    if from < run.packages.len() && run.found(answers, from) is Ok {
        lemma_first_failure(run, answers, from + 1);
    }
}

/// The run with its first `n` packages done.
spec fn at_package(run: RunModel, n: int, all_success: bool) -> RunModel {
    RunModel { next: n, all_success, stage: StageModel::Ready, ..run }
}

/// A run that comes to a package checks it and goes on, or ends with the
/// failure of the check.
proof fn lemma_driven_package(run: RunModel, answers: Answers, n: int, so_far: bool)
    requires
        0 <= n < run.packages.len(),
    ensures
        match run.found(answers, n) {
            Err(error) => at_package(run, n, so_far).driven(answers) == (
                Err::<bool, Seq<char>>(error),
                Seq::<Option<Seq<char>>>::empty(),
            ),
            Ok(status) => {
                let rest = at_package(run, n + 1, so_far && status.success(run.strict)).driven(
                    answers,
                );
                at_package(run, n, so_far).driven(answers) == (
                    rest.0,
                    seq![run.line(answers, n)] + rest.1,
                )
            },
        },
{
    reveal_with_fuel(RunModel::driven, 1);
    let here = at_package(run, n, so_far);
    let package = run.packages[n];
    if package.publishable(run.registry) {
        let asked = RunModel { stage: StageModel::Registry, ..here };
        assert(here.stepped(here.next_event(answers)).0 == asked);
        assert(here.driven(answers) == asked.driven(answers));
        if let Ok(Some(published)) = reply_in(answers.replies[n]) {
            let known = RunModel { stage: StageModel::Git { published }, ..here };
            assert(asked.stepped(asked.next_event(answers)).0 == known);
            assert(asked.driven(answers) == known.driven(answers));
        }
    }
}

/// A run that has no package left ends.
proof fn lemma_driven_end(run: RunModel, answers: Answers, so_far: bool)
    ensures
        at_package(run, run.packages.len() as int, so_far).driven(answers) == (
            Ok::<bool, Seq<char>>(so_far),
            Seq::<Option<Seq<char>>>::empty(),
        ),
{
    reveal_with_fuel(RunModel::driven, 1);
}

/// Whether the run with its first `n` packages done reports the others up to
/// the first failure, and ends with that failure or, where there is none, with
/// whether all succeed.
#[verifier::opaque]
spec fn ends_well(run: RunModel, answers: Answers, n: int, so_far: bool) -> bool {
    let end = run.first_failure(answers, n);
    let (result, lines) = at_package(run, n, so_far).driven(answers);
    &&& lines == Seq::new((end - n) as nat, |j: int| run.line(answers, n + j))
    &&& end < run.packages.len() ==> result == Err::<bool, Seq<char>>(
        run.found(answers, end)->Err_0,
    )
    &&& end == run.packages.len() ==> result == Ok::<bool, Seq<char>>(
        so_far && all_succeed(run, answers, n),
    )
}

/// Whether all packages from `n` on succeed.
#[verifier::opaque]
spec fn all_succeed(run: RunModel, answers: Answers, n: int) -> bool {
    forall|i: int| n <= i < run.packages.len() ==> #[trigger] run.succeeds(answers, i)
}

proof fn lemma_ends_with_none(run: RunModel, answers: Answers, so_far: bool)
    ensures
        ends_well(run, answers, run.packages.len() as int, so_far),
{
    reveal(ends_well);
    reveal(all_succeed);
    let n = run.packages.len() as int;
    lemma_driven_end(run, answers, so_far);
    assert(at_package(run, n, so_far).driven(answers).1 =~= Seq::new(
        0,
        |j: int| run.line(answers, n + j),
    ));
}

proof fn lemma_ends_with_failure(run: RunModel, answers: Answers, n: int, so_far: bool)
    requires
        0 <= n < run.packages.len(),
        run.found(answers, n) is Err,
    ensures
        ends_well(run, answers, n, so_far),
{
    reveal(ends_well);
    lemma_driven_package(run, answers, n, so_far);
    assert(at_package(run, n, so_far).driven(answers).1 =~= Seq::new(
        0,
        |j: int| run.line(answers, n + j),
    ));
}

/// The lines from the next package on, after the line of this one.
proof fn lemma_lines(run: RunModel, answers: Answers, n: int, end: int)
    requires
        n < end,
    ensures
        seq![run.line(answers, n)] + Seq::new(
            (end - (n + 1)) as nat,
            |j: int| run.line(answers, n + 1 + j),
        ) == Seq::new((end - n) as nat, |j: int| run.line(answers, n + j)),
{
    let left = seq![run.line(answers, n)] + Seq::new(
        (end - (n + 1)) as nat,
        |j: int| run.line(answers, n + 1 + j),
    );
    let right = Seq::new((end - n) as nat, |j: int| run.line(answers, n + j));
    assert forall|k: int| 0 <= k < right.len() implies left[k] == right[k] by {
        if k > 0 {
            assert(n + 1 + (k - 1) == n + k);
        }
    }
    assert(left =~= right);
}

/// All packages from `n` on succeed where the one at `n` does and those after
/// it do.
proof fn lemma_all_succeed(run: RunModel, answers: Answers, n: int)
    requires
        n < run.packages.len(),
    ensures
        all_succeed(run, answers, n) == (run.succeeds(answers, n) && all_succeed(
            run,
            answers,
            n + 1,
        )),
{
    reveal(all_succeed);
}

proof fn lemma_ends_after_package(
    run: RunModel,
    answers: Answers,
    n: int,
    so_far: bool,
    status: StatusModel,
)
    requires
        0 <= n < run.packages.len(),
        run.found(answers, n) == Ok::<StatusModel, Seq<char>>(status),
        ends_well(run, answers, n + 1, so_far && status.success(run.strict)),
    ensures
        ends_well(run, answers, n, so_far),
{
    reveal(ends_well);
    let now = so_far && status.success(run.strict);
    let end = run.first_failure(answers, n);
    let rest = at_package(run, n + 1, now).driven(answers);
    lemma_first_failure(run, answers, n + 1);
    lemma_driven_package(run, answers, n, so_far);
    lemma_lines(run, answers, n, end);
    lemma_all_succeed(run, answers, n);
    assert(end == run.first_failure(answers, n + 1));
    assert(at_package(run, n, so_far).driven(answers) == (
        rest.0,
        seq![run.line(answers, n)] + rest.1,
    ));
    assert(run.succeeds(answers, n) == status.success(run.strict));
}

proof fn lemma_driven_from(run: RunModel, answers: Answers, n: int, so_far: bool)
    requires
        0 <= n <= run.packages.len(),
    ensures
        ends_well(run, answers, n, so_far),
    decreases run.packages.len() - n,
{
    if n == run.packages.len() {
        lemma_ends_with_none(run, answers, so_far);
    } else {
        match run.found(answers, n) {
            Err(_) => lemma_ends_with_failure(run, answers, n, so_far),
            Ok(status) => {
                lemma_driven_from(run, answers, n + 1, so_far && status.success(run.strict));
                lemma_ends_after_package(run, answers, n, so_far, status);
            },
        }
    }
}

/// A run that starts at its first package checks the packages in order and
/// reports each as its check finds it. It ends at the first check that fails,
/// with that failure and no further report; where none fails, it ends with
/// whether every package is in order.
pub proof fn law_run(run: RunModel, answers: Answers)
    requires
        run.next == 0,
        run.all_success,
        run.stage is Ready,
    ensures
        ({
            let end = run.first_failure(answers, 0);
            let (result, lines) = run.driven(answers);
            &&& 0 <= end <= run.packages.len()
            &&& forall|i: int| 0 <= i < end ==> #[trigger] run.found(answers, i) is Ok
            &&& lines == Seq::new(end as nat, |i: int| run.line(answers, i))
            &&& end < run.packages.len() ==> run.found(answers, end) is Err && result == Err::<
                bool,
                Seq<char>,
            >(run.found(answers, end)->Err_0)
            &&& end == run.packages.len() ==> result == Ok::<bool, Seq<char>>(
                forall|i: int|
                    0 <= i < run.packages.len() ==> #[trigger] run.succeeds(answers, i),
            )
        }),
{
    lemma_first_failure(run, answers, 0);
    lemma_driven_from(run, answers, 0, true);
    reveal(ends_well);
    reveal(all_succeed);
    assert(run == at_package(run, 0, true));
    assert(Seq::new(
        (run.first_failure(answers, 0) - 0) as nat,
        |j: int| run.line(answers, 0 + j),
    ) =~= Seq::new(run.first_failure(answers, 0) as nat, |i: int| run.line(answers, i)));
}

impl RunModel {
    /// Whether the package at `i` may be published to the registry, the
    /// registry holds its very version and, in a strict run, its directory
    /// has no uncommitted changes.
    pub open spec fn published_as_is(self, answers: Answers, i: int) -> bool {
        &&& self.packages[i].publishable(self.registry)
        &&& reply_in(answers.replies[i]) == Ok::<Option<Seq<char>>, Seq<char>>(
            Some(self.packages[i].version),
        )
        &&& self.strict ==> (printed(answers.statuses[i]) matches Some(status) ==> blank(status))
    }
}

/// A run succeeds exactly where each of its packages is published as it is.
pub proof fn law_run_succeeds(run: RunModel, answers: Answers)
    requires
        run.next == 0,
        run.all_success,
        run.stage is Ready,
    ensures
        run.driven(answers).0 == Ok::<bool, Seq<char>>(true) <==> forall|i: int|
            0 <= i < run.packages.len() ==> #[trigger] run.published_as_is(answers, i),
{
    law_run(run, answers);
    assert forall|i: int| 0 <= i < run.packages.len() implies #[trigger] run.succeeds(answers, i)
        == run.published_as_is(answers, i) by {
        law_up_to_date(
            run.packages[i],
            run.registry,
            reply_in(answers.replies[i]),
            printed(answers.statuses[i]) matches Some(status) && !blank(status),
        );
    }
    assert forall|i: int|
        0 <= i < run.packages.len() implies #[trigger] run.published_as_is(answers, i)
        == run.succeeds(answers, i) by {}
    let end = run.first_failure(answers, 0);
    if end < run.packages.len() {
        assert(!run.succeeds(answers, end));
    }
}

impl RunModel {
    /// The run with its reports turned off or on.
    pub open spec fn with_quiet(self, quiet: bool) -> RunModel {
        RunModel { quiet, ..self }
    }
}

proof fn lemma_quiet_failure(run: RunModel, answers: Answers, from: int)
    requires
        0 <= from <= run.packages.len(),
    ensures
        run.with_quiet(true).first_failure(answers, from) == run.with_quiet(false).first_failure(
            answers,
            from,
        ),
    decreases run.packages.len() - from,
{
    if from < run.packages.len() {
        lemma_quiet_failure(run, answers, from + 1);
    }
}

/// A quiet run reports nothing and comes to the same result as one that is
/// not; that one reports a line on each package whose check does not fail.
pub proof fn law_quiet_run(run: RunModel, answers: Answers)
    requires
        run.next == 0,
        run.all_success,
        run.stage is Ready,
    ensures
        ({
            let (quiet_result, quiet_lines) = run.with_quiet(true).driven(answers);
            let (result, lines) = run.with_quiet(false).driven(answers);
            &&& quiet_result == result
            &&& forall|i: int| 0 <= i < quiet_lines.len() ==> #[trigger] quiet_lines[i] is None
            &&& forall|i: int| 0 <= i < lines.len() ==> #[trigger] lines[i] is Some
        }),
{
    let quiet = run.with_quiet(true);
    let loud = run.with_quiet(false);
    law_run(quiet, answers);
    law_run(loud, answers);
    lemma_quiet_failure(run, answers, 0);
    assert forall|i: int| 0 <= i < run.packages.len() implies #[trigger] quiet.succeeds(answers, i)
        == loud.succeeds(answers, i) by {}
    assert forall|i: int| 0 <= i < run.packages.len() implies #[trigger] loud.succeeds(answers, i)
        == quiet.succeeds(answers, i) by {}
    let lines = loud.driven(answers).1;
    assert forall|i: int| 0 <= i < lines.len() implies #[trigger] lines[i] is Some by {
        assert(loud.found(answers, i) is Ok);
    }
}

/// What a run asks and says. It ends with whether all packages succeeded where
/// none is left. Of a package that may not be published to its registry it
/// asks nothing; of any other it asks the registry by its name, and only where
/// the registry holds it, `git` in the directory of its manifest. It reports
/// each package once, by its own name and version, unless it is quiet, and
/// only one that succeeds leaves the run successful. A failed reply ends it.
pub proof fn law_run_asks(run: RunModel, event: Event)
    requires
        run.expects(event),
        0 <= run.next < run.packages.len(),
    ensures
        ({
            let package = run.packages[run.next];
            let (after, action) = run.stepped(event);
            let found = |status: StatusModel|
                {
                    &&& action == (ActionModel::Report {
                        line: if run.quiet {
                            None
                        } else {
                            Some(status.message(package.name, package.version))
                        },
                    })
                    &&& after == (RunModel {
                        next: run.next + 1,
                        all_success: run.all_success && status.success(run.strict),
                        stage: StageModel::Ready,
                        ..run
                    })
                };
            match event {
                Event::Go => if package.publishable(run.registry) {
                    &&& action == (ActionModel::QueryRegistry {
                        args: seq!["info"@, "-q"@, "--registry"@, run.registry, package.name],
                    })
                    &&& after == (RunModel { stage: StageModel::Registry, ..run })
                } else {
                    found(StatusModel::Private)
                },
                Event::Registry(outcome) => match reply_in(outcome) {
                    Err(error) => action == (ActionModel::Finish { result: Err(error) }),
                    Ok(None) => found(StatusModel::NotPublished),
                    Ok(Some(published)) => {
                        &&& action == (ActionModel::GitStatus {
                            manifest_path: package.manifest_path,
                        })
                        &&& after == (RunModel { stage: StageModel::Git { published }, ..run })
                    },
                },
                Event::Git(outcome) => {
                    let dirty = printed(outcome) matches Some(status) && !blank(status);
                    let published = run.stage->published;
                    forall|status: StatusModel|
                        package.publishable(run.registry) && package.checked(
                            run.registry,
                            Ok(Some(published)),
                            dirty,
                        ) == Ok::<StatusModel, Seq<char>>(status) ==> #[trigger] found(status)
                },
            }
        }),
        (RunModel { next: run.packages.len() as int, stage: StageModel::Ready, ..run }).stepped(
            Event::Go,
        ).1 == (ActionModel::Finish { result: Ok(run.all_success) }),
{
}

/// What a whole run comes to, package by package: each is reported, in order,
/// by what its registry's reply and `git` say of it, up to the first whose
/// reply is a failure, which ends the run; else the run succeeds exactly where
/// every package does.
pub proof fn law_run_in_full(run: RunModel, answers: Answers)
    requires
        run.next == 0,
        run.all_success,
        run.stage is Ready,
    ensures
        ({
            let (result, lines) = run.driven(answers);
            let status = |i: int|
                run.packages[i].checked(
                    run.registry,
                    reply_in(answers.replies[i]),
                    printed(answers.statuses[i]) matches Some(s) && !blank(s),
                );
            &&& lines.len() <= run.packages.len()
            &&& forall|i: int|
                0 <= i < lines.len() ==> {
                    &&& status(i) is Ok
                    &&& run.quiet ==> #[trigger] lines[i] is None
                    &&& !run.quiet ==> lines[i] == Some(
                        status(i)->Ok_0.message(run.packages[i].name, run.packages[i].version),
                    )
                }
            &&& lines.len() < run.packages.len() ==> status(lines.len() as int) is Err && result
                == Err::<bool, Seq<char>>(status(lines.len() as int)->Err_0)
            &&& lines.len() == run.packages.len() ==> result == Ok::<bool, Seq<char>>(
                forall|i: int|
                    0 <= i < run.packages.len() ==> (#[trigger] status(i) matches Ok(s)
                        && s.success(run.strict)),
            )
        }),
{
    law_run(run, answers);
    let (result, lines) = run.driven(answers);
    let status = |i: int|
        run.packages[i].checked(
            run.registry,
            reply_in(answers.replies[i]),
            printed(answers.statuses[i]) matches Some(s) && !blank(s),
        );
    assert forall|i: int| #[trigger] status(i) == run.found(answers, i) by {}
    assert forall|i: int| #[trigger] run.found(answers, i) == status(i) by {}
    assert forall|i: int| #[trigger] run.succeeds(answers, i) == (status(i) matches Ok(s)
        && s.success(run.strict)) by {}
    assert forall|i: int|
        (#[trigger] status(i) matches Ok(s) && s.success(run.strict)) == run.succeeds(
        answers,
        i,
    ) by {}
    assert forall|i: int| 0 <= i < lines.len() implies {
        &&& status(i) is Ok
        &&& run.quiet ==> #[trigger] lines[i] is None
        &&& !run.quiet ==> lines[i] == Some(
            status(i)->Ok_0.message(run.packages[i].name, run.packages[i].version),
        )
    } by {
        assert(run.found(answers, i) is Ok);
        assert(lines[i] == run.line(answers, i));
    }
}

/// An action stands for itself, with its texts.
pub proof fn law_action_view(action: Action)
    ensures
        match action {
            Action::QueryRegistry { args } => action@ matches ActionModel::QueryRegistry {
                args: asked,
            } && asked.len() == args@.len() && forall|i: int|
                0 <= i < asked.len() ==> #[trigger] asked[i] == args@[i]@,
            Action::GitStatus { manifest_path } => action@ == (ActionModel::GitStatus {
                manifest_path: manifest_path@,
            }),
            Action::Report { line: Some(line) } => action@ == (ActionModel::Report {
                line: Some(line@),
            }),
            Action::Report { line: None } => action@ == (ActionModel::Report { line: None }),
            Action::Finish { result: Ok(success) } => action@ == (ActionModel::Finish {
                result: Ok(success),
            }),
            Action::Finish { result: Err(error) } => action@ == (ActionModel::Finish {
                result: Err(error@),
            }),
        },
{
}

} // verus!
