//! The repositories that a walk found: their order, and the report on them.
use crate::command::{lossy_text, texts, CommandOutcome};
use crate::git::{git_stdout, printed};
use crate::order::{number_order, Order};
use crate::path::{
    byte_strings, compare_names, law_directory_before_contents, law_names_order,
    law_names_order_first_difference, law_names_order_transitive, names_order,
};
use crate::text::{blank, decimal, decimal_text, is_blank};
use vstd::multiset::Multiset;
use vstd::prelude::*;
use vstd::relations::{sorted_by, total_ordering};

verus! {

/// A repository: its path as names below the root of the walk, and when it
/// was last modified, in nanoseconds since the epoch, where that is known.
#[derive(Debug)]
pub struct Repo {
    pub names: Vec<Vec<u8>>,
    pub modified: Option<i128>,
}

/// What a `Repo` stands for.
#[verifier::ext_equal]
pub struct RepoModel {
    pub names: Seq<Seq<u8>>,
    pub modified: Option<i128>,
}

impl View for Repo {
    type V = RepoModel;

    open spec fn view(&self) -> RepoModel {
        RepoModel { names: byte_strings(self.names@), modified: self.modified }
    }
}

/// The later modification first; an unknown one last.
pub open spec fn recency_order(a: Option<i128>, b: Option<i128>) -> Order {
    match (a, b) {
        (Some(x), Some(y)) => number_order(y as int, x as int),
        (Some(_), None) => Order::Less,
        (None, Some(_)) => Order::Greater,
        (None, None) => Order::Equal,
    }
}

/// The order of two repositories: by path, or under `newest` by recency and
/// among equals by path. Where the paths are the same, so as a rule are the
/// times; else the more recent comes first.
pub open spec fn repo_order(a: RepoModel, b: RepoModel, newest: bool) -> Order {
    if newest {
        recency_order(a.modified, b.modified).or(names_order(a.names, b.names))
    } else {
        names_order(a.names, b.names).or(recency_order(a.modified, b.modified))
    }
}

/// Whether every repository in `s` stands before those that come after it in
/// the order.
pub open spec fn in_order(s: Seq<RepoModel>, newest: bool) -> bool {
    forall|i: int, j: int|
        0 <= i < j < s.len() ==> repo_order(#[trigger] s[i], #[trigger] s[j], newest)
            != Order::Greater
}

/// The repositories in a list.
pub open spec fn repo_models(repos: Seq<Repo>) -> Seq<RepoModel> {
    repos.map_values(|r: Repo| r@)
}

fn compare_recency(a: Option<i128>, b: Option<i128>) -> (r: Order)
    ensures
        r == recency_order(a, b),
{
    match (a, b) {
        (Some(x), Some(y)) => {
            if y < x {
                Order::Less
            } else if y > x {
                Order::Greater
            } else {
                Order::Equal
            }
        },
        (Some(_), None) => Order::Less,
        (None, Some(_)) => Order::Greater,
        (None, None) => Order::Equal,
    }
}

/// The order of two repositories.
pub fn compare_repos(a: &Repo, b: &Repo, newest: bool) -> (r: Order)
    ensures
        r == repo_order(a@, b@, newest),
{
    let by_path = compare_names(&a.names, &b.names);
    let by_recency = compare_recency(a.modified, b.modified);
    let (first, second) = if newest {
        (by_recency, by_path)
    } else {
        (by_path, by_recency)
    };
    if first == Order::Equal {
        second
    } else {
        first
    }
}

/// Two repositories are equal in the order exactly where they are the same,
/// and exchanging them reverses it.
pub proof fn law_repo_order(a: RepoModel, b: RepoModel, newest: bool)
    ensures
        repo_order(a, b, newest) == Order::Equal <==> a == b,
        repo_order(b, a, newest) == repo_order(a, b, newest).reversed(),
{
    law_names_order(a.names, b.names);
    if repo_order(a, b, newest) == Order::Equal {
        assert(a =~= b);
    }
}

/// The order of repositories is transitive.
pub proof fn law_repo_order_transitive(a: RepoModel, b: RepoModel, c: RepoModel, newest: bool)
    requires
        repo_order(a, b, newest) != Order::Greater,
        repo_order(b, c, newest) != Order::Greater,
    ensures
        repo_order(a, c, newest) != Order::Greater,
{
    law_names_order(a.names, b.names);
    law_names_order(b.names, c.names);
    law_names_order(a.names, c.names);
    if names_order(a.names, b.names) == Order::Less && names_order(b.names, c.names)
        == Order::Less {
        law_names_order_transitive(a.names, b.names, c.names);
    }
}

/// Where `repo` belongs in the list: after all that it does not come before.
fn place(sorted: &Vec<Repo>, repo: &Repo, newest: bool) -> (r: usize)
    requires
        in_order(repo_models(sorted@), newest),
    ensures
        r <= sorted@.len(),
        forall|k: int|
            0 <= k < r ==> repo_order((#[trigger] sorted@[k])@, repo@, newest) != Order::Greater,
        forall|k: int|
            r <= k < sorted@.len() ==> repo_order(repo@, (#[trigger] sorted@[k])@, newest)
                != Order::Greater,
{
    let mut i: usize = 0;
    while i < sorted.len()
        invariant
            i <= sorted@.len(),
            in_order(repo_models(sorted@), newest),
            forall|k: int|
                0 <= k < i ==> repo_order((#[trigger] sorted@[k])@, repo@, newest)
                    != Order::Greater,
        decreases sorted@.len() - i,
    {
        if compare_repos(&sorted[i], repo, newest) == Order::Greater {
            proof {
                let models = repo_models(sorted@);
                law_repo_order(sorted@[i as int]@, repo@, newest);
                assert forall|k: int| i <= k < sorted@.len() implies repo_order(
                    repo@,
                    (#[trigger] sorted@[k])@,
                    newest,
                ) != Order::Greater by {
                    if k > i {
                        assert(models[i as int] == sorted@[i as int]@);
                        assert(models[k] == sorted@[k]@);
                        law_repo_order_transitive(repo@, models[i as int], models[k], newest);
                    }
                }
            }
            return i;
        }
        i = i + 1;
    }
    i
}

/// Puts the repositories in order: by path, or under `newest` the most
/// recently modified first.
pub fn sort_repos(repos: &mut Vec<Repo>, newest: bool)
    ensures
        in_order(repo_models(final(repos)@), newest),
        repo_models(final(repos)@).to_multiset() == repo_models(old(repos)@).to_multiset(),
{
    let mut sorted: Vec<Repo> = Vec::new();
    let ghost all = repo_models(repos@).to_multiset();
    proof {
        broadcast use vstd::seq_lib::group_to_multiset_ensures;
        assert(repo_models(sorted@) =~= Seq::empty());
        assert(repo_models(sorted@).to_multiset() =~= Multiset::empty());
        assert(all =~= repo_models(repos@).to_multiset().add(repo_models(sorted@).to_multiset()));
    }
    while repos.len() > 0
        invariant
            in_order(repo_models(sorted@), newest),
            all == repo_models(repos@).to_multiset().add(repo_models(sorted@).to_multiset()),
        decreases repos@.len(),
    {
        let ghost left = repo_models(repos@);
        let ghost done = repo_models(sorted@);
        if let Some(repo) = repos.pop() {
            let at: usize = place(&sorted, &repo, newest);
            let ghost model = repo@;
            let ghost before = sorted@;
            sorted.insert(at, repo);
            proof {
                broadcast use vstd::seq_lib::group_to_multiset_ensures;
                let models = repo_models(sorted@);
                assert(models =~= done.insert(at as int, model));
                assert(left =~= repo_models(repos@).push(model));
                assert(forall|k: int| 0 <= k < done.len() ==> #[trigger] done[k] == before[k]@);
                assert forall|i: int, j: int| 0 <= i < j < models.len() implies repo_order(
                    #[trigger] models[i],
                    #[trigger] models[j],
                    newest,
                ) != Order::Greater by {
                    let x = if i < at { i } else { i - 1 };
                    let y = if j < at { j } else { j - 1 };
                    if i != at {
                        assert(models[i] == done[x]);
                        assert(done[x] == before[x]@);
                    }
                    if j != at {
                        assert(models[j] == done[y]);
                        assert(done[y] == before[y]@);
                    }
                }
                assert(models.to_multiset() =~= done.to_multiset().insert(model));
                assert(left.to_multiset() =~= repo_models(repos@).to_multiset().insert(model));
                assert(all =~= repo_models(repos@).to_multiset().add(models.to_multiset()));
            }
        }
    }
    proof {
        broadcast use vstd::seq_lib::group_to_multiset_ensures;
        assert(repo_models(repos@) =~= Seq::empty());
        assert(all =~= repo_models(sorted@).to_multiset());
    }
    *repos = sorted;
}

/// There is one way to put repositories in order.
pub proof fn law_one_order(a: Seq<RepoModel>, b: Seq<RepoModel>, newest: bool)
    requires
        a.to_multiset() == b.to_multiset(),
        in_order(a, newest),
        in_order(b, newest),
    ensures
        a == b,
{
    let leq = |x: RepoModel, y: RepoModel| repo_order(x, y, newest) != Order::Greater;
    assert forall|x: RepoModel, y: RepoModel| #[trigger] leq(x, y) && #[trigger] leq(
        y,
        x,
    ) implies x == y by {
        law_repo_order(x, y, newest);
    }
    assert forall|x: RepoModel, y: RepoModel| #[trigger] leq(x, y) || #[trigger] leq(
        y,
        x,
    ) by {
        law_repo_order(x, y, newest);
    }
    assert forall|x: RepoModel, y: RepoModel, z: RepoModel|
        #[trigger] leq(x, y) && #[trigger] leq(y, z) implies leq(x, z) by {
        law_repo_order_transitive(x, y, z, newest);
    }
    assert forall|i: int, j: int| 0 <= i < j < a.len() implies #[trigger] leq(a[i], a[j]) by {}
    assert forall|i: int, j: int| 0 <= i < j < b.len() implies #[trigger] leq(b[i], b[j]) by {}
    assert(total_ordering(leq));
    assert(sorted_by(a, leq));
    assert(sorted_by(b, leq));
    vstd::seq_lib::lemma_sorted_unique(a, b, leq);
}

/// Newest first puts a repository that was modified later, or whose time is
/// known, before one that was modified earlier or whose time is not.
pub proof fn law_newest_first(s: Seq<RepoModel>, i: int, j: int)
    requires
        in_order(s, true),
        0 <= i < s.len(),
        0 <= j < s.len(),
        s[i].modified matches Some(x) && (s[j].modified matches Some(y) ==> y < x),
    ensures
        i < j,
{
    if j < i {
        assert(repo_order(s[j], s[i], true) != Order::Greater);
    }
}

/// The texts of `parts`, with `separator` between them.
pub open spec fn joined(parts: Seq<Seq<char>>, separator: Seq<char>) -> Seq<char>
    decreases parts.len(),
{
    if parts.len() == 0 {
        Seq::empty()
    } else if parts.len() == 1 {
        parts[0]
    } else {
        joined(parts.drop_last(), separator) + separator + parts.last()
    }
}

/// The texts of `parts`, with `separator` between them.
pub fn join(parts: &Vec<String>, separator: &str) -> (r: String)
    ensures
        r@ == joined(texts(parts@), separator@),
{
    let mut r = String::new();
    let mut i: usize = 0;
    assert(r@ =~= joined(texts(parts@).take(0), separator@));
    while i < parts.len()
        invariant
            i <= parts@.len(),
            r@ == joined(texts(parts@).take(i as int), separator@),
        decreases parts@.len() - i,
    {
        if i > 0 {
            r.append(separator);
        }
        r.append(parts[i].as_str());
        proof {
            let now = texts(parts@).take(i + 1);
            assert(now.drop_last() =~= texts(parts@).take(i as int));
            assert(now.last() == parts@[i as int]@);
            assert(r@ =~= joined(now, separator@));
        }
        i = i + 1;
    }
    assert(texts(parts@).take(i as int) =~= texts(parts@));
    r
}

/// What is worth reporting of a repository, given the texts in which `git`
/// lists its remotes and its uncommitted changes.
pub open spec fn findings(remotes: Seq<char>, status: Seq<char>) -> Seq<Seq<char>> {
    (if blank(remotes) {
        seq!["no remote"@]
    } else {
        Seq::empty()
    }) + (if blank(status) {
        Seq::empty()
    } else {
        seq!["uncommitted changes"@]
    })
}

/// The report on the repository at `path`, if there is anything to report.
pub open spec fn report(path: Seq<char>, remotes: Seq<char>, status: Seq<char>) -> Option<
    Seq<char>,
> {
    if findings(remotes, status).len() == 0 {
        None
    } else {
        Some(path + ": "@ + joined(findings(remotes, status), ", "@))
    }
}

/// The text that a command printed; empty where it could not be run or failed.
pub open spec fn printed_or_empty(outcome: CommandOutcome) -> Seq<char> {
    match printed(outcome) {
        Some(text) => text,
        None => Seq::empty(),
    }
}

/// A line, where there is one.
pub open spec fn optional_line(line: Option<String>) -> Option<Seq<char>> {
    match line {
        Some(l) => Some(l@),
        None => None,
    }
}

/// The line that introduces the report on `count` repositories under `root`.
pub fn heading(count: usize, root: &str) -> (r: String)
    ensures
        r@ == "Scanned "@ + decimal(count as nat) + " git repo(s) under "@ + root@ + "\n"@,
{
    let number = decimal_text(count as u64);
    "Scanned ".to_owned().concat(number.as_str()).concat(" git repo(s) under ").concat(root).concat(
        "\n",
    )
}

/// What is worth reporting of a repository, given the texts in which `git`
/// lists its remotes and its uncommitted changes.
pub fn find_statuses(remotes: &str, status: &str) -> (r: Vec<String>)
    ensures
        texts(r@) == findings(remotes@, status@),
{
    let mut r: Vec<String> = Vec::new();
    if is_blank(remotes) {
        r.push("no remote".to_owned());
    }
    if !is_blank(status) {
        r.push("uncommitted changes".to_owned());
    }
    assert(texts(r@) =~= findings(remotes@, status@));
    r
}

/// The report on the repository at `path`, if there is anything to report,
/// given the texts in which `git` lists its remotes and uncommitted changes.
pub fn report_line(path: &str, remotes: &str, status: &str) -> (r: Option<String>)
    ensures
        optional_line(r) == report(path@, remotes@, status@),
        match r {
            Some(line) => report(path@, remotes@, status@) == Some(line@),
            None => report(path@, remotes@, status@) is None,
        },
{
    let statuses = find_statuses(remotes, status);
    assert(texts(statuses@).len() == statuses@.len());
    if statuses.len() == 0 {
        None
    } else {
        let list = join(&statuses, ", ");
        Some(path.to_owned().concat(": ").concat(list.as_str()))
    }
}

/// The report on the repository at `path`, if there is anything to report,
/// given the ends of `git remote` and `git status --porcelain`. One that
/// could not be run or failed counts as having printed nothing.
pub fn report_repo(path: &str, remotes: &CommandOutcome, status: &CommandOutcome) -> (r: Option<
    String,
>)
    ensures
        optional_line(r) == report(path@, printed_or_empty(*remotes), printed_or_empty(*status)),
        match r {
            Some(line) => report(path@, printed_or_empty(*remotes), printed_or_empty(*status))
                == Some(line@),
            None => report(path@, printed_or_empty(*remotes), printed_or_empty(*status)) is None,
        },
{
    let listed = git_stdout(remotes).unwrap_or(String::new());
    let changes = git_stdout(status).unwrap_or(String::new());
    report_line(path, listed.as_str(), changes.as_str())
}

/// Nothing is reported exactly of a repository with a remote and without
/// uncommitted changes.
pub proof fn law_silent_when_clean(path: Seq<char>, remotes: Seq<char>, status: Seq<char>)
    ensures
        report(path, remotes, status) is None <==> !blank(remotes) && blank(status),
{
}

/// A repository stands for its own names and time.
pub proof fn law_repo_view(repos: Seq<Repo>, i: int, k: int)
    ensures
        repo_models(repos).len() == repos.len(),
        0 <= i < repos.len() ==> {
            &&& repo_models(repos)[i].modified == repos[i].modified
            &&& repo_models(repos)[i].names.len() == repos[i].names@.len()
            &&& 0 <= k < repos[i].names@.len() ==> repo_models(repos)[i].names[k]
                == repos[i].names@[k]@
        },
{
}

/// Repositories in order, unless newest first, stand by their paths: the first
/// name in which two paths differ decides, and in it the first byte; a
/// directory comes before everything below it. Newest first puts them so where
/// their times are the same.
pub proof fn law_sorted_by_path(s: Seq<RepoModel>, newest: bool, i: int, j: int, k: int, m: int)
    requires
        in_order(s, newest),
        0 <= i < s.len(),
        0 <= j < s.len(),
        newest ==> s[i].modified == s[j].modified,
        0 <= k <= s[i].names.len(),
        k < s[j].names.len(),
        forall|l: int| 0 <= l < k ==> s[i].names[l] == s[j].names[l],
        k < s[i].names.len() ==> {
            &&& 0 <= m <= s[i].names[k].len() && m < s[j].names[k].len()
            &&& forall|l: int| 0 <= l < m ==> s[i].names[k][l] == s[j].names[k][l]
            &&& m < s[i].names[k].len() ==> s[i].names[k][m] < s[j].names[k][m]
        },
    ensures
        i < j,
{
    let (a, b) = (s[i].names, s[j].names);
    if k < a.len() {
        law_names_order_first_difference(a, b, k, m);
    } else {
        let below = b.skip(k);
        assert(b =~= a + below);
        law_directory_before_contents(a, below);
    }
    law_names_order(a, b);
    law_names_order(a, a);
    if j < i {
        assert(repo_order(s[j], s[i], newest) != Order::Greater);
    }
}

/// Joined texts stand one after the other, with the separator before each but
/// the first.
pub proof fn law_joined(parts: Seq<Seq<char>>, part: Seq<char>, separator: Seq<char>)
    ensures
        joined(Seq::empty(), separator) == Seq::<char>::empty(),
        joined(seq![part], separator) == part,
        parts.len() > 0 ==> joined(parts.push(part), separator) == joined(parts, separator)
            + separator + part,
{
    assert(parts.push(part).drop_last() =~= parts);
}

/// A repository is reported by its path and what is missing: a remote, where
/// `git` lists none, and a commit, where it lists changes. One with a remote
/// and without changes is not reported.
pub proof fn law_report(path: Seq<char>, remotes: Seq<char>, status: Seq<char>)
    ensures
        blank(remotes) && blank(status) ==> report(path, remotes, status) == Some(
            path + ": "@ + "no remote"@,
        ),
        !blank(remotes) && !blank(status) ==> report(path, remotes, status) == Some(
            path + ": "@ + "uncommitted changes"@,
        ),
        blank(remotes) && !blank(status) ==> report(path, remotes, status) == Some(
            path + ": "@ + ("no remote"@ + ", "@ + "uncommitted changes"@),
        ),
        !blank(remotes) && blank(status) ==> report(path, remotes, status) is None,
{
    let none = Seq::<Seq<char>>::empty();
    let (x, y) = ("no remote"@, "uncommitted changes"@);
    assert(seq![x] + none =~= seq![x]);
    assert(none + seq![y] =~= seq![y]);
    assert(seq![x] + seq![y] =~= seq![x].push(y));
    law_joined(seq![x], y, ", "@);
    law_joined(none, x, ", "@);
    law_joined(none, y, ", "@);
}

/// A command that could not be run or failed counts as having printed nothing.
pub proof fn law_printed_or_empty(
    error: String,
    success: bool,
    stdout: Vec<u8>,
    stderr: Vec<u8>,
)
    ensures
        printed_or_empty(CommandOutcome::NotRun { error }) == Seq::<char>::empty(),
        printed_or_empty(CommandOutcome::Exited { success: false, stdout, stderr }) == Seq::<
            char,
        >::empty(),
        printed_or_empty(CommandOutcome::Exited { success: true, stdout, stderr }) == lossy_text(
            stdout@,
        ),
{
}

} // verus!
