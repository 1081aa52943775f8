//! The search for the manifest that governs a file or directory.
use crate::path::{PathModel, RawPath};
use vstd::prelude::*;
use vstd::utf8::encode_utf8;

verus! {

/// The name of a manifest, as bytes.
pub open spec fn manifest_name() -> Seq<u8> {
    encode_utf8("Cargo.toml"@)
}

/// What a search waits for.
#[derive(Debug)]
pub enum SearchStage {
    /// The given path with symbolic links resolved.
    Resolving { given: RawPath, relative: bool },
    /// The given path below the current directory.
    Joining,
    /// Whether the path to start from is a file.
    Starting { path: RawPath },
    /// Whether the manifest in this directory is a file.
    Climbing { dir: RawPath },
    /// Nothing any more.
    Done,
}

/// What was found out since the last action.
#[derive(Debug)]
pub enum SearchEvent {
    /// A path was worked out, or could not be.
    Path(Option<RawPath>),
    /// Whether the path asked about is a file.
    IsFile(bool),
}

/// What is to be done next.
#[derive(Debug)]
pub enum SearchAction {
    /// Work out the given path below the current directory.
    JoinCurrentDir,
    /// Find out whether this path is a file.
    Probe { path: RawPath },
    /// End the search with what it found.
    Finish { manifest: Option<RawPath> },
}

/// A search for the manifest that governs a path.
#[derive(Debug)]
pub struct ManifestSearch {
    stage: SearchStage,
}

/// What a `SearchStage` stands for.
pub enum SearchModel {
    Resolving { given: PathModel, relative: bool },
    Joining,
    Starting { path: PathModel },
    Climbing { dir: PathModel },
    Done,
}

/// What a `SearchAction` stands for.
pub enum SearchActionModel {
    JoinCurrentDir,
    Probe { path: PathModel },
    Finish { manifest: Option<PathModel> },
}

/// A path where there is one.
pub open spec fn optional_path(path: Option<RawPath>) -> Option<PathModel> {
    match path {
        Some(p) => Some(p@),
        None => None,
    }
}

impl View for ManifestSearch {
    type V = SearchModel;

    closed spec fn view(&self) -> SearchModel {
        match self.stage {
            SearchStage::Resolving { given, relative } => SearchModel::Resolving {
                given: given@,
                relative,
            },
            SearchStage::Joining => SearchModel::Joining,
            SearchStage::Starting { path } => SearchModel::Starting { path: path@ },
            SearchStage::Climbing { dir } => SearchModel::Climbing { dir: dir@ },
            SearchStage::Done => SearchModel::Done,
        }
    }
}

impl View for SearchAction {
    type V = SearchActionModel;

    open spec fn view(&self) -> SearchActionModel {
        match self {
            SearchAction::JoinCurrentDir => SearchActionModel::JoinCurrentDir,
            SearchAction::Probe { path } => SearchActionModel::Probe { path: path@ },
            SearchAction::Finish { manifest } => SearchActionModel::Finish {
                manifest: optional_path(*manifest),
            },
        }
    }
}

impl SearchModel {
    /// Whether `event` is what the search waits for.
    pub open spec fn expects(self, event: SearchEvent) -> bool {
        match self {
            SearchModel::Resolving { .. } | SearchModel::Joining => event is Path,
            SearchModel::Starting { .. } | SearchModel::Climbing { .. } => event is IsFile,
            SearchModel::Done => false,
        }
    }

    /// The search ended with `manifest`.
    pub open spec fn ended(manifest: Option<PathModel>) -> (SearchModel, SearchActionModel) {
        (SearchModel::Done, SearchActionModel::Finish { manifest })
    }

    /// The search about to ask whether `path`, to start from, is a file.
    pub open spec fn starting(path: PathModel) -> (SearchModel, SearchActionModel) {
        (SearchModel::Starting { path }, SearchActionModel::Probe { path })
    }

    /// The search about to ask for the manifest in `dir`.
    pub open spec fn climbing(dir: Option<PathModel>) -> (SearchModel, SearchActionModel) {
        match dir {
            Some(dir) => (
                SearchModel::Climbing { dir },
                SearchActionModel::Probe { path: dir.join(manifest_name()) },
            ),
            None => SearchModel::ended(None),
        }
    }

    /// The search after `event`, and what is to be done next.
    pub open spec fn stepped(self, event: SearchEvent) -> (SearchModel, SearchActionModel) {
        match (self, event) {
            (SearchModel::Resolving { given, relative }, SearchEvent::Path(resolved)) => {
                match resolved {
                    Some(path) => SearchModel::starting(path@),
                    None => if relative {
                        (SearchModel::Joining, SearchActionModel::JoinCurrentDir)
                    } else {
                        SearchModel::starting(given)
                    },
                }
            },
            (SearchModel::Joining, SearchEvent::Path(joined)) => match joined {
                Some(path) => SearchModel::starting(path@),
                None => SearchModel::ended(None),
            },
            (SearchModel::Starting { path }, SearchEvent::IsFile(is_file)) => if !is_file {
                SearchModel::climbing(Some(path))
            } else if path.ends_with_name(manifest_name()) {
                SearchModel::ended(Some(path))
            } else {
                SearchModel::climbing(path.parent())
            },
            (SearchModel::Climbing { dir }, SearchEvent::IsFile(is_file)) => if is_file {
                SearchModel::ended(Some(dir.join(manifest_name())))
            } else {
                SearchModel::climbing(dir.parent())
            },
            _ => SearchModel::ended(None),
        }
    }
}

impl ManifestSearch {
    /// A search from the path `given`, which is first to be resolved.
    pub fn new(given: RawPath, relative: bool) -> (r: ManifestSearch)
        ensures
            r@ == (SearchModel::Resolving { given: given@, relative }),
    {
        ManifestSearch { stage: SearchStage::Resolving { given, relative } }
    }

    fn end(manifest: Option<RawPath>) -> (r: (ManifestSearch, SearchAction))
        ensures
            (r.0@, r.1@) == SearchModel::ended(optional_path(manifest)),
    {
        (ManifestSearch { stage: SearchStage::Done }, SearchAction::Finish { manifest })
    }

    fn start(path: RawPath) -> (r: (ManifestSearch, SearchAction))
        ensures
            (r.0@, r.1@) == SearchModel::starting(path@),
    {
        let probed = path.copied();
        (
            ManifestSearch { stage: SearchStage::Starting { path } },
            SearchAction::Probe { path: probed },
        )
    }

    fn climb(dir: RawPath) -> (r: (ManifestSearch, SearchAction))
        ensures
            (r.0@, r.1@) == SearchModel::climbing(Some(dir@)),
    {
        let probed = dir.join("Cargo.toml");
        (
            ManifestSearch { stage: SearchStage::Climbing { dir } },
            SearchAction::Probe { path: probed },
        )
    }

    fn climb_above(dir: RawPath) -> (r: (ManifestSearch, SearchAction))
        ensures
            (r.0@, r.1@) == SearchModel::climbing(dir@.parent()),
    {
        let mut above = dir;
        if above.pop() {
            ManifestSearch::climb(above)
        } else {
            ManifestSearch::end(None)
        }
    }

    /// Takes up what was found out, and says what is to be done next.
    pub fn step(self, event: SearchEvent) -> (r: (ManifestSearch, SearchAction))
        requires
            self@.expects(event),
        ensures
            (r.0@, r.1@) == self@.stepped(event),
    {
        match (self.stage, event) {
            (SearchStage::Resolving { given, relative }, SearchEvent::Path(resolved)) => {
                match resolved {
                    Some(path) => ManifestSearch::start(path),
                    None => {
                        if relative {
                            (
                                ManifestSearch { stage: SearchStage::Joining },
                                SearchAction::JoinCurrentDir,
                            )
                        } else {
                            ManifestSearch::start(given)
                        }
                    },
                }
            },
            (SearchStage::Joining, SearchEvent::Path(joined)) => match joined {
                Some(path) => ManifestSearch::start(path),
                None => ManifestSearch::end(None),
            },
            (SearchStage::Starting { path }, SearchEvent::IsFile(is_file)) => {
                if !is_file {
                    ManifestSearch::climb(path)
                } else if path.ends_with_name("Cargo.toml") {
                    ManifestSearch::end(Some(path))
                } else {
                    ManifestSearch::climb_above(path)
                }
            },
            (SearchStage::Climbing { dir }, SearchEvent::IsFile(is_file)) => {
                if is_file {
                    let manifest = dir.join("Cargo.toml");
                    ManifestSearch::end(Some(manifest))
                } else {
                    ManifestSearch::climb_above(dir)
                }
            },
            _ => ManifestSearch::end(None),
        }
    }
}

/// What a search finds out from the file system.
pub struct Disk {
    /// The given path with symbolic links resolved.
    pub resolved: Option<RawPath>,
    /// The given path below the current directory.
    pub joined: Option<RawPath>,
    /// Which paths are files.
    pub files: spec_fn(PathModel) -> bool,
}

impl SearchModel {
    /// What the file system answers to the last action.
    pub open spec fn next_event(self, disk: Disk) -> SearchEvent {
        match self {
            SearchModel::Resolving { .. } => SearchEvent::Path(disk.resolved),
            SearchModel::Joining => SearchEvent::Path(disk.joined),
            SearchModel::Starting { path } => SearchEvent::IsFile((disk.files)(path)),
            SearchModel::Climbing { dir } => SearchEvent::IsFile(
                (disk.files)(dir.join(manifest_name())),
            ),
            SearchModel::Done => SearchEvent::IsFile(false),
        }
    }

    /// How many kinds of steps are left.
    pub open spec fn kinds_left(self) -> int {
        match self {
            SearchModel::Resolving { .. } => 4,
            SearchModel::Joining => 3,
            SearchModel::Starting { .. } => 2,
            SearchModel::Climbing { .. } => 1,
            SearchModel::Done => 0,
        }
    }

    /// How many directories are left to climb out of.
    pub open spec fn height(self) -> nat {
        match self {
            SearchModel::Climbing { dir } => dir.names.len(),
            _ => 0,
        }
    }

    /// What the search finds, where every action is performed on `disk`.
    pub open spec fn driven(self, disk: Disk) -> Option<PathModel>
        decreases self.kinds_left(), self.height(),
    {
        let (after, action) = self.stepped(self.next_event(disk));
        match action {
            SearchActionModel::Finish { manifest } => manifest,
            _ => after.driven(disk),
        }
    }
}

/// Where a search starts: at the given path with symbolic links resolved, or,
/// where that fails, at the given path as it stands, below the current
/// directory if it is relative.
pub open spec fn starting_point(given: PathModel, relative: bool, disk: Disk) -> Option<PathModel> {
    match disk.resolved {
        Some(path) => Some(path@),
        None => if relative {
            optional_path(disk.joined)
        } else {
            Some(given)
        },
    }
}

/// The manifest `k` levels above `dir`.
pub open spec fn manifest_above(dir: PathModel, k: int) -> PathModel {
    dir.ancestor(k).join(manifest_name())
}

/// Whether `found` is the manifest in `dir` or the nearest directory above it
/// that has one, and nothing exactly where none of them has.
pub open spec fn is_nearest(found: Option<PathModel>, dir: PathModel, disk: Disk) -> bool {
    match found {
        Some(manifest) => exists|k: int|
            0 <= k <= dir.names.len() && manifest == #[trigger] manifest_above(dir, k)
                && (disk.files)(manifest) && forall|j: int|
                0 <= j < k ==> !(disk.files)(#[trigger] manifest_above(dir, j)),
        None => forall|k: int|
            0 <= k <= dir.names.len() ==> !(disk.files)(#[trigger] manifest_above(dir, k)),
    }
}

proof fn lemma_climb(dir: PathModel, disk: Disk)
    ensures
        is_nearest((SearchModel::Climbing { dir }).driven(disk), dir, disk),
    decreases dir.names.len(),
{
    let here = SearchModel::Climbing { dir };
    let found = here.driven(disk);
    assert(dir.ancestor(0) =~= dir);
    assert(manifest_above(dir, 0) == dir.join(manifest_name()));
    if (disk.files)(manifest_above(dir, 0)) {
        assert(found == Some(manifest_above(dir, 0)));
    } else if dir.names.len() == 0 {
        assert(found is None);
    } else {
        let above = dir.parent()->0;
        lemma_climb(above, disk);
        assert(found == (SearchModel::Climbing { dir: above }).driven(disk));
        assert forall|k: int| 0 <= k <= above.names.len() implies #[trigger] manifest_above(
            above,
            k,
        ) == manifest_above(dir, k + 1) by {
            assert(above.names.take(above.names.len() - k) =~= dir.names.take(
                dir.names.len() - (k + 1),
            ));
        }
        match found {
            Some(manifest) => {
                let k = choose|k: int|
                    0 <= k <= above.names.len() && manifest == #[trigger] manifest_above(above, k)
                        && (disk.files)(manifest) && forall|j: int|
                        0 <= j < k ==> !(disk.files)(#[trigger] manifest_above(above, j));
                assert(manifest == manifest_above(dir, k + 1));
                assert forall|j: int| 0 <= j < k + 1 implies !(disk.files)(
                    #[trigger] manifest_above(dir, j),
                ) by {
                    if j > 0 {
                        assert(manifest_above(above, j - 1) == manifest_above(dir, j));
                    }
                }
            },
            None => {
                assert forall|k: int| 0 <= k <= dir.names.len() implies !(disk.files)(
                    #[trigger] manifest_above(dir, k),
                ) by {
                    if k > 0 {
                        assert(manifest_above(above, k - 1) == manifest_above(dir, k));
                    }
                }
            },
        }
    }
}

/// A search that starts at a manifest finds it. One that starts at another
/// file or at a directory finds the manifest in the nearest directory upwards
/// that has one, and finds nothing exactly where no directory upwards has one
/// or there is nowhere to start.
pub proof fn law_search(given: PathModel, relative: bool, disk: Disk)
    ensures
        ({
            let found = (SearchModel::Resolving { given, relative }).driven(disk);
            match starting_point(given, relative, disk) {
                None => found is None,
                Some(path) => if !(disk.files)(path) {
                    is_nearest(found, path, disk)
                } else if path.ends_with_name(manifest_name()) {
                    found == Some(path)
                } else {
                    match path.parent() {
                        Some(dir) => is_nearest(found, dir, disk),
                        None => found is None,
                    }
                },
            }
        }),
{
    let search = SearchModel::Resolving { given, relative };
    if let Some(path) = starting_point(given, relative, disk) {
        let start = SearchModel::Starting { path };
        if disk.resolved is None && relative {
            assert(search.driven(disk) == SearchModel::Joining.driven(disk));
        }
        assert(search.driven(disk) == start.driven(disk));
        if !(disk.files)(path) {
            lemma_climb(path, disk);
        } else if !path.ends_with_name(manifest_name()) && path.names.len() > 0 {
            lemma_climb(path.parent()->0, disk);
        }
    } else {
        assert(search.driven(disk) == SearchModel::Joining.driven(disk));
    }
}

/// A search that asks about a path asks about the one it starts from, or about
/// the `Cargo.toml` in the directory it is at; it ends where it asks nothing.
pub proof fn law_search_asks(search: SearchModel, event: SearchEvent)
    ensures
        ({
            let (after, action) = search.stepped(event);
            match action {
                SearchActionModel::Probe { path } => after == (SearchModel::Starting { path }) || (
                after matches SearchModel::Climbing { dir } && path.anchor == dir.anchor
                    && path.names == dir.names.push(encode_utf8("Cargo.toml"@))),
                SearchActionModel::JoinCurrentDir => after is Joining,
                SearchActionModel::Finish { .. } => after is Done,
            }
        }),
{
}

/// A search that has nowhere to start finds nothing: the given path is
/// relative and can neither be resolved nor joined to the current directory.
pub proof fn law_search_nowhere(given: PathModel, disk: Disk)
    requires
        disk.resolved is None,
        disk.joined is None,
    ensures
        (SearchModel::Resolving { given, relative: true }).driven(disk) is None,
{
    law_search(given, true, disk);
}

/// A search starts at the resolved path; where there is none, at the given
/// path if it is absolute, else at that path below the current directory. A
/// start that is a file named `Cargo.toml` is what it finds. Else it looks for
/// a file `Cargo.toml` in the start, or in its directory where the start is a
/// file, and then level by level above, and finds the first; where there is
/// none up to the root it finds nothing.
pub proof fn law_search_from(
    given: PathModel,
    relative: bool,
    disk: Disk,
    start: PathModel,
    level: int,
)
    requires
        match disk.resolved {
            Some(path) => path@ == start,
            None => if relative {
                disk.joined matches Some(path) && path@ == start
            } else {
                given == start
            },
        },
    ensures
        ({
            let found = (SearchModel::Resolving { given, relative }).driven(disk);
            let name = encode_utf8("Cargo.toml"@);
            let is_file = (disk.files)(start);
            let own = is_file && start.names.len() > 0 && start.names[start.names.len() - 1]
                == name;
            let top = if is_file {
                start.names.len() - 1
            } else {
                start.names.len() as int
            };
            let at = |m: int|
                PathModel { anchor: start.anchor, names: start.names.take(m).push(name) };
            &&& own ==> found == Some(start)
            &&& !own && 0 <= level <= top && (disk.files)(at(level)) && (forall|m: int|
                level < m <= top ==> !(disk.files)(#[trigger] at(m))) ==> found == Some(at(level))
            &&& !own && (forall|m: int| 0 <= m <= top ==> !(disk.files)(#[trigger] at(m)))
                ==> found is None
        }),
{
    law_search(given, relative, disk);
    let found = (SearchModel::Resolving { given, relative }).driven(disk);
    let name = encode_utf8("Cargo.toml"@);
    let is_file = (disk.files)(start);
    let own = is_file && start.ends_with_name(name);
    let top = if is_file {
        start.names.len() - 1
    } else {
        start.names.len() as int
    };
    let at = |m: int| PathModel { anchor: start.anchor, names: start.names.take(m).push(name) };
    if !own && top >= 0 {
        let dir = if is_file {
            start.parent()->0
        } else {
            start
        };
        assert(is_nearest(found, dir, disk));
        assert(dir.names.len() == top);
        assert forall|k: int| 0 <= k <= top implies #[trigger] manifest_above(dir, k) == at(
            top - k,
        ) by {
            assert(dir.names.take(top - k) =~= start.names.take(top - k));
        }
        assert forall|m: int| 0 <= m <= top implies #[trigger] at(m) == manifest_above(
            dir,
            top - m,
        ) by {
            assert(manifest_above(dir, top - m) == at(top - (top - m)));
        }
        if let Some(manifest) = found {
            let k = choose|k: int|
                0 <= k <= dir.names.len() && manifest == #[trigger] manifest_above(dir, k) && (
                disk.files)(manifest) && forall|j: int|
                    0 <= j < k ==> !(disk.files)(#[trigger] manifest_above(dir, j));
            assert(manifest == at(top - k));
            if 0 <= level <= top {
                assert(at(level) == manifest_above(dir, top - level));
            }
        } else if 0 <= level <= top {
            assert(at(level) == manifest_above(dir, top - level));
        }
    }
}

/// An action of a search stands for itself, with its path.
pub proof fn law_search_action_view(action: SearchAction)
    ensures
        match action {
            SearchAction::JoinCurrentDir => action@ is JoinCurrentDir,
            SearchAction::Probe { path } => action@ == (SearchActionModel::Probe { path: path@ }),
            SearchAction::Finish { manifest: Some(path) } => action@ == (
            SearchActionModel::Finish { manifest: Some(path@) }),
            SearchAction::Finish { manifest: None } => action@ == (SearchActionModel::Finish {
                manifest: None,
            }),
        },
{
}

} // verus!
