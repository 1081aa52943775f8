//! The walk through a directory tree in search of git repositories.
use crate::path::{byte_strings, copy_names, same_bytes};
use vstd::prelude::*;
use vstd::utf8::encode_utf8;

verus! {

/// What kind of thing a directory entry is.
#[derive(Clone, Copy, Debug, PartialEq, Eq, Structural)]
pub struct FileKind {
    pub is_dir: bool,
    pub is_symlink: bool,
}

/// An entry of a directory; its kind is absent where it could not be found
/// out.
#[derive(Debug)]
pub struct Entry {
    pub name: Vec<u8>,
    pub kind: Option<FileKind>,
}

/// What an `Entry` stands for.
pub struct EntryModel {
    pub name: Seq<u8>,
    pub kind: Option<FileKind>,
}

impl View for Entry {
    type V = EntryModel;

    open spec fn view(&self) -> EntryModel {
        EntryModel { name: self.name@, kind: self.kind }
    }
}

/// A path as the names below the root of the walk.
pub type Names = Seq<Seq<u8>>;

/// The name of git's own directory, as bytes.
pub open spec fn git_dir_name() -> Seq<u8> {
    encode_utf8(".git"@)
}

impl EntryModel {
    /// Whether the walk goes into the entry: it is a directory, no symbolic
    /// link and not git's own.
    pub open spec fn entered(self) -> bool {
        self.kind matches Some(kind) && kind.is_dir && !kind.is_symlink && self.name
            != git_dir_name()
    }
}

/// The entries of a listing.
pub open spec fn entry_models(entries: Seq<Entry>) -> Seq<EntryModel> {
    entries.map_values(|e: Entry| e@)
}

/// The paths of the entries of `dir` that the walk goes into, in order.
pub open spec fn children(dir: Names, entries: Seq<EntryModel>) -> Seq<Names>
    decreases entries.len(),
{
    if entries.len() == 0 {
        Seq::empty()
    } else if entries[0].entered() {
        seq![dir.push(entries[0].name)] + children(dir, entries.drop_first())
    } else {
        children(dir, entries.drop_first())
    }
}

/// A walk through a directory tree.
#[derive(Debug)]
pub struct Scan {
    pending: Vec<Vec<Vec<u8>>>,
    repos: Vec<Vec<Vec<u8>>>,
}

/// What a `Scan` stands for.
#[verifier::ext_equal]
pub struct ScanModel {
    /// The directories still to visit, the next one last.
    pub pending: Seq<Names>,
    /// The repositories found, in the order in which they were found.
    pub repos: Seq<Names>,
}

/// The paths in a list.
pub open spec fn paths(list: Seq<Vec<Vec<u8>>>) -> Seq<Names> {
    list.map_values(|p: Vec<Vec<u8>>| byte_strings(p@))
}

impl View for Scan {
    type V = ScanModel;

    closed spec fn view(&self) -> ScanModel {
        ScanModel { pending: paths(self.pending@), repos: paths(self.repos@) }
    }
}

impl ScanModel {
    /// The walk with its next directory visited: the directory is recorded
    /// where it holds a repository, and its subdirectories come next, in the
    /// order of the listing. Of one that cannot be listed nothing comes.
    pub open spec fn visited(self, has_git: bool, listing: Option<Seq<EntryModel>>) -> ScanModel {
        let dir = self.pending.last();
        ScanModel {
            pending: self.pending.drop_last() + match listing {
                Some(entries) => children(dir, entries).reverse(),
                None => Seq::empty(),
            },
            repos: if has_git {
                self.repos.push(dir)
            } else {
                self.repos
            },
        }
    }
}

/// A listing, where there is one.
pub open spec fn listing_model(listing: Option<Vec<Entry>>) -> Option<Seq<EntryModel>> {
    match listing {
        Some(entries) => Some(entry_models(entries@)),
        None => None,
    }
}

/// Whether the walk goes into `entry`.
pub fn is_entered(entry: &Entry) -> (r: bool)
    ensures
        r == entry@.entered(),
        r <==> (entry.kind matches Some(kind) && kind.is_dir && !kind.is_symlink)
            && entry.name@ != encode_utf8(".git"@),
{
    match entry.kind {
        Some(kind) => kind.is_dir && !kind.is_symlink && !same_bytes(
            &entry.name,
            &".git".as_bytes_vec(),
        ),
        None => false,
    }
}

impl Scan {
    /// A walk that has still to visit its root.
    pub fn new() -> (r: Scan)
        ensures
            r@ == (ScanModel { pending: seq![Seq::empty()], repos: Seq::empty() }),
    {
        let root: Vec<Vec<u8>> = Vec::new();
        let r = Scan { pending: vec![root], repos: Vec::new() };
        assert(byte_strings(root@) =~= Seq::empty());
        assert(r@ =~= (ScanModel { pending: seq![Seq::empty()], repos: Seq::empty() }));
        r
    }

    /// The directory to visit next, as names below the root; nothing where
    /// the walk is done.
    pub fn next_dir(&self) -> (r: Option<Vec<Vec<u8>>>)
        ensures
            match r {
                Some(dir) => self@.pending.len() > 0 && byte_strings(dir@) == self@.pending.last(),
                None => self@.pending.len() == 0,
            },
    {
        let n: usize = self.pending.len();
        if n == 0 {
            None
        } else {
            Some(copy_names(&self.pending[n - 1]))
        }
    }

    /// Takes up what the next directory holds: whether there is a `.git` in
    /// it, and its entries, where they could be listed.
    pub fn visit(&mut self, has_git: bool, listing: Option<Vec<Entry>>)
        requires
            old(self)@.pending.len() > 0,
        ensures
            final(self)@ == old(self)@.visited(has_git, listing_model(listing)),
    {
        let ghost before = self@;
        if let Some(dir) = self.pending.pop() {
            let ghost base = paths(self.pending@);
            assert(base =~= before.pending.drop_last());
            assert(byte_strings(dir@) == before.pending.last());
            if let Some(entries) = listing {
                let ghost models = entry_models(entries@);
                let mut i: usize = entries.len();
                assert(models.skip(i as int) =~= Seq::empty());
                assert(base + children(byte_strings(dir@), Seq::empty()).reverse() =~= base);
                while i > 0
                    invariant
                        i <= entries@.len(),
                        models == entry_models(entries@),
                        self.repos@ == old(self).repos@,
                        paths(self.pending@) == base + children(
                            byte_strings(dir@),
                            models.skip(i as int),
                        ).reverse(),
                    decreases i,
                {
                    i = i - 1;
                    let ghost rest = models.skip(i as int);
                    proof {
                        assert(rest.drop_first() =~= models.skip(i + 1));
                        assert(rest[0] == entries@[i as int]@);
                    }
                    if is_entered(&entries[i]) {
                        let mut child = copy_names(&dir);
                        let ghost old_names = child@;
                        let ghost old_pending = self.pending@;
                        let name = entries[i].name.clone();
                        assert(name@ =~= entries@[i as int].name@);
                        child.push(name);
                        assert(byte_strings(child@) =~= byte_strings(old_names).push(name@));
                        self.pending.push(child);
                        proof {
                            let c = byte_strings(child@);
                            let later = children(byte_strings(dir@), models.skip(i + 1));
                            assert(paths(self.pending@) =~= paths(old_pending).push(c));
                            assert((seq![c] + later).reverse() =~= later.reverse().push(c));
                            assert(paths(self.pending@) =~= base + (seq![c] + later).reverse());
                        }
                    }
                }
                assert(models.skip(0) =~= models);
            } else {
                assert(base + Seq::<Names>::empty() =~= base);
            }
            if has_git {
                let ghost old_repos = self.repos@;
                self.repos.push(dir);
                assert(paths(self.repos@) =~= paths(old_repos).push(byte_strings(dir@)));
            }
        }
        assert(self@ =~= before.visited(has_git, listing_model(listing)));
    }

    /// The repositories found, as names below the root, in the order in which
    /// they were found.
    pub fn into_repos(self) -> (r: Vec<Vec<Vec<u8>>>)
        ensures
            paths(r@) == self@.repos,
    {
        self.repos
    }
}

/// A directory as the walk finds it: whether there is a `.git` in it, and its
/// entries, where it can be listed.
pub struct Tree {
    pub has_git: bool,
    pub nodes: Option<Seq<Node>>,
}

/// An entry of a directory, with what is below it where it is one itself.
pub struct Node {
    pub entry: EntryModel,
    pub tree: Tree,
}

/// The entries of the nodes.
pub open spec fn node_entries(nodes: Seq<Node>) -> Seq<EntryModel> {
    nodes.map_values(|n: Node| n.entry)
}

/// The directories among the nodes that the walk goes into, in order.
pub open spec fn node_trees(nodes: Seq<Node>) -> Seq<Tree>
    decreases nodes.len(),
{
    if nodes.len() == 0 {
        Seq::empty()
    } else if nodes[0].entry.entered() {
        seq![nodes[0].tree] + node_trees(nodes.drop_first())
    } else {
        node_trees(nodes.drop_first())
    }
}

impl Tree {
    /// The listing of the directory.
    pub open spec fn listing(self) -> Option<Seq<EntryModel>> {
        match self.nodes {
            Some(nodes) => Some(node_entries(nodes)),
            None => None,
        }
    }

    /// The subdirectories that the walk goes into, in order.
    pub open spec fn subtrees(self) -> Seq<Tree> {
        match self.nodes {
            Some(nodes) => node_trees(nodes),
            None => Seq::empty(),
        }
    }

    /// The repositories in the directory `path` of this content: the
    /// directory itself where there is a `.git` in it, then those in its
    /// subdirectories, in order.
    pub open spec fn repos(self, path: Names) -> Seq<Names>
        decreases self,
    {
        (if self.has_git {
            seq![path]
        } else {
            Seq::empty()
        }) + match self.nodes {
            Some(nodes) => repos_in(path, nodes),
            None => Seq::empty(),
        }
    }

    /// How many directories there are in the tree, at least.
    pub open spec fn size(self) -> nat
        decreases self,
    {
        1 + match self.nodes {
            Some(nodes) => nodes_size(nodes),
            None => 0,
        }
    }
}

/// The repositories in the subdirectories of `path`.
pub open spec fn repos_in(path: Names, nodes: Seq<Node>) -> Seq<Names>
    decreases nodes,
{
    if nodes.len() == 0 {
        Seq::empty()
    } else {
        (if nodes[0].entry.entered() {
            nodes[0].tree.repos(path.push(nodes[0].entry.name))
        } else {
            Seq::empty()
        }) + repos_in(path, nodes.drop_first())
    }
}

/// The sizes of the trees below the nodes.
pub open spec fn nodes_size(nodes: Seq<Node>) -> nat
    decreases nodes,
{
    if nodes.len() == 0 {
        0
    } else {
        nodes[0].tree.size() + nodes_size(nodes.drop_first())
    }
}

/// The sizes of the trees.
pub open spec fn forest_size(trees: Seq<Tree>) -> nat
    decreases trees.len(),
{
    if trees.len() == 0 {
        0
    } else {
        trees.last().size() + forest_size(trees.drop_last())
    }
}

proof fn lemma_forest_size_push(trees: Seq<Tree>, tree: Tree)
    ensures
        forest_size(trees.push(tree)) == forest_size(trees) + tree.size(),
{
    assert(trees.push(tree).drop_last() =~= trees);
}

proof fn lemma_forest_size_nodes(base: Seq<Tree>, nodes: Seq<Node>)
    ensures
        forest_size(base + node_trees(nodes).reverse()) <= forest_size(base) + nodes_size(nodes),
    decreases nodes.len(),
{
    if nodes.len() == 0 {
        assert(base + node_trees(nodes).reverse() =~= base);
    } else {
        let rest = nodes.drop_first();
        lemma_forest_size_nodes(base, rest);
        if nodes[0].entry.entered() {
            let later = node_trees(rest).reverse();
            assert((seq![nodes[0].tree] + node_trees(rest)).reverse() =~= later.push(
                nodes[0].tree,
            ));
            assert(base + later.push(nodes[0].tree) =~= (base + later).push(nodes[0].tree));
            lemma_forest_size_push(base + later, nodes[0].tree);
        }
    }
}

/// A visit leaves less to visit.
pub proof fn lemma_visit_shrinks(trees: Seq<Tree>)
    requires
        trees.len() > 0,
    ensures
        forest_size(trees.drop_last() + trees.last().subtrees().reverse()) < forest_size(trees),
{
    let base = trees.drop_last();
    match trees.last().nodes {
        Some(nodes) => lemma_forest_size_nodes(base, nodes),
        None => {
            assert(base + trees.last().subtrees().reverse() =~= base);
        },
    }
}

impl ScanModel {
    /// The repositories that the walk ends with, where `trees` are what the
    /// pending directories hold.
    pub open spec fn driven(self, trees: Seq<Tree>) -> Seq<Names>
        decreases forest_size(trees),
    {
        if trees.len() == 0 {
            self.repos
        } else {
            proof {
                lemma_visit_shrinks(trees);
            }
            let tree = trees.last();
            self.visited(tree.has_git, tree.listing()).driven(
                trees.drop_last() + tree.subtrees().reverse(),
            )
        }
    }
}

/// The repositories in the pending directories, in the order of the walk.
spec fn collected(pending: Seq<Names>, trees: Seq<Tree>) -> Seq<Names>
    decreases trees.len(),
{
    if trees.len() == 0 {
        Seq::empty()
    } else {
        trees.last().repos(pending.last()) + collected(pending.drop_last(), trees.drop_last())
    }
}

proof fn lemma_collected_nodes(pending: Seq<Names>, trees: Seq<Tree>, path: Names, nodes: Seq<Node>)
    requires
        pending.len() == trees.len(),
    ensures
        children(path, node_entries(nodes)).len() == node_trees(nodes).len(),
        collected(
            pending + children(path, node_entries(nodes)).reverse(),
            trees + node_trees(nodes).reverse(),
        ) == repos_in(path, nodes) + collected(pending, trees),
    decreases nodes.len(),
{
    let kids = children(path, node_entries(nodes));
    let subs = node_trees(nodes);
    if nodes.len() == 0 {
        assert(pending + kids.reverse() =~= pending);
        assert(trees + subs.reverse() =~= trees);
        assert(repos_in(path, nodes) + collected(pending, trees) =~= collected(pending, trees));
    } else {
        let rest = nodes.drop_first();
        lemma_collected_nodes(pending, trees, path, rest);
        assert(node_entries(nodes).drop_first() =~= node_entries(rest));
        let later_kids = children(path, node_entries(rest));
        let later_subs = node_trees(rest);
        let after = repos_in(path, rest) + collected(pending, trees);
        if nodes[0].entry.entered() {
            let child = path.push(nodes[0].entry.name);
            let p = pending + kids.reverse();
            let t = trees + subs.reverse();
            assert(kids =~= seq![child] + later_kids);
            assert(p.drop_last() =~= pending + later_kids.reverse());
            assert(t.drop_last() =~= trees + later_subs.reverse());
            assert(p.last() == child);
            assert(t.last() == nodes[0].tree);
            assert(collected(p, t) == nodes[0].tree.repos(child) + after);
            assert(nodes[0].tree.repos(child) + after =~= repos_in(path, nodes) + collected(
                pending,
                trees,
            ));
        } else {
            assert(after =~= repos_in(path, nodes) + collected(pending, trees));
        }
    }
}

proof fn lemma_driven(scan: ScanModel, trees: Seq<Tree>)
    requires
        scan.pending.len() == trees.len(),
    ensures
        scan.driven(trees) == scan.repos + collected(scan.pending, trees),
    decreases forest_size(trees),
{
    if trees.len() == 0 {
        assert(scan.repos + collected(scan.pending, trees) =~= scan.repos);
    } else {
        lemma_visit_shrinks(trees);
        let tree = trees.last();
        let path = scan.pending.last();
        let below = scan.pending.drop_last();
        let after = scan.visited(tree.has_git, tree.listing());
        let next = trees.drop_last() + tree.subtrees().reverse();
        let rest = collected(below, trees.drop_last());
        match tree.nodes {
            Some(nodes) => {
                lemma_collected_nodes(below, trees.drop_last(), path, nodes);
                lemma_driven(after, next);
                assert(scan.driven(trees) == after.repos + (repos_in(path, nodes) + rest));
            },
            None => {
                assert(after.pending =~= below);
                assert(next =~= trees.drop_last());
                lemma_driven(after, next);
                assert(scan.driven(trees) == after.repos + rest);
            },
        }
        assert(scan.driven(trees) =~= scan.repos + (tree.repos(path) + rest));
    }
}

/// A walk through a tree ends with the repositories of the tree: every
/// directory that can be reached without going through a symbolic link or
/// git's own directory and has a `.git` in it.
pub proof fn law_scan(tree: Tree)
    ensures
        (ScanModel { pending: seq![Seq::empty()], repos: Seq::empty() }).driven(seq![tree])
            == tree.repos(Seq::empty()),
{
    let scan = ScanModel { pending: seq![Seq::empty()], repos: Seq::empty() };
    lemma_driven(scan, seq![tree]);
    assert(collected(scan.pending, seq![tree]) == tree.repos(Seq::empty()) + collected(
        scan.pending.drop_last(),
        seq![tree].drop_last(),
    ));
    assert(scan.driven(seq![tree]) =~= tree.repos(Seq::empty()));
}

impl Tree {
    /// Whether the walk reaches a directory at `below`, and there is a `.git`
    /// in it.
    pub open spec fn holds_repo(self, below: Names) -> bool
        decreases below.len(), 1nat,
    {
        if below.len() == 0 {
            self.has_git
        } else {
            self.nodes matches Some(nodes) && exists|i: int|
                0 <= i < nodes.len() && (#[trigger] nodes[i]).leads_to_repo(below)
        }
    }
}

impl Node {
    /// Whether the walk reaches a directory at `below` by way of this entry,
    /// and there is a `.git` in it.
    pub open spec fn leads_to_repo(self, below: Names) -> bool
        decreases below.len(), 0nat,
        when below.len() > 0
    {
        self.entry.entered() && self.entry.name == below[0] && self.tree.holds_repo(
            below.drop_first(),
        )
    }
}

proof fn lemma_repos_in(path: Names, nodes: Seq<Node>, q: Names)
    ensures
        repos_in(path, nodes).contains(q) <==> exists|i: int|
            0 <= i < nodes.len() && (#[trigger] nodes[i]).entry.entered() && nodes[i].tree.repos(
                path.push(nodes[i].entry.name),
            ).contains(q),
    decreases nodes.len(),
{
    if nodes.len() > 0 {
        let rest = nodes.drop_first();
        lemma_repos_in(path, rest, q);
        let first = if nodes[0].entry.entered() {
            nodes[0].tree.repos(path.push(nodes[0].entry.name))
        } else {
            Seq::empty()
        };
        lemma_contains_concat(first, repos_in(path, rest), q);
        assert(forall|i: int| 0 <= i < rest.len() ==> #[trigger] rest[i] == nodes[i + 1]);
        assert(forall|i: int| 1 <= i < nodes.len() ==> #[trigger] nodes[i] == rest[i - 1]);
    }
}

proof fn lemma_contains_concat(a: Seq<Names>, b: Seq<Names>, q: Names)
    ensures
        (a + b).contains(q) <==> a.contains(q) || b.contains(q),
{
    if a.contains(q) {
        let i = choose|i: int| 0 <= i < a.len() && a[i] == q;
        assert((a + b)[i] == q);
    }
    if b.contains(q) {
        let i = choose|i: int| 0 <= i < b.len() && b[i] == q;
        assert((a + b)[a.len() + i] == q);
    }
}

/// The repositories of a tree are exactly the directories in it that the walk
/// reaches and that have a `.git` in them.
pub proof fn law_repos_are_reached(tree: Tree, path: Names, q: Names)
    ensures
        tree.repos(path).contains(q) <==> path.is_prefix_of(q) && tree.holds_repo(
            q.skip(path.len() as int),
        ),
    decreases tree,
{
    let below = q.skip(path.len() as int);
    let own = if tree.has_git {
        seq![path]
    } else {
        Seq::empty()
    };
    let inner = match tree.nodes {
        Some(nodes) => repos_in(path, nodes),
        None => Seq::empty(),
    };
    lemma_contains_concat(own, inner, q);
    assert(own.contains(q) <==> tree.has_git && q == path) by {
        if tree.has_git {
            assert(own[0] == path);
        }
    }
    if path.is_prefix_of(q) && below.len() == 0 {
        assert(q =~= path);
    }
    if let Some(nodes) = tree.nodes {
        lemma_repos_in(path, nodes, q);
        assert forall|i: int| 0 <= i < nodes.len() && (#[trigger] nodes[i]).entry.entered() implies (
        nodes[i].tree.repos(path.push(nodes[i].entry.name)).contains(q) <==> path.is_prefix_of(q)
            && below.len() > 0 && nodes[i].leads_to_repo(below)) by {
            let child = path.push(nodes[i].entry.name);
            law_repos_are_reached(nodes[i].tree, child, q);
            if child.is_prefix_of(q) {
                assert(child[path.len() as int] == q[path.len() as int]);
                assert(forall|k: int| 0 <= k < path.len() ==> child[k] == path[k]);
                assert(path =~= q.subrange(0, path.len() as int));
            }
            if path.is_prefix_of(q) && below.len() > 0 {
                assert(q.skip(child.len() as int) =~= below.drop_first());
                if below[0] == nodes[i].entry.name {
                    assert(child =~= q.subrange(0, child.len() as int));
                }
            }
        }
    }
}

impl Tree {
    /// Whether no listing in the tree holds a name twice.
    pub open spec fn distinct(self) -> bool
        decreases self,
    {
        match self.nodes {
            Some(nodes) => nodes_distinct(nodes),
            None => true,
        }
    }
}

/// Whether the nodes have different names, and no listing below them holds a
/// name twice.
pub open spec fn nodes_distinct(nodes: Seq<Node>) -> bool
    decreases nodes,
{
    nodes.len() > 0 ==> {
        &&& forall|i: int|
            0 < i < nodes.len() ==> (#[trigger] nodes[i]).entry.name != nodes[0].entry.name
        &&& nodes[0].tree.distinct()
        &&& nodes_distinct(nodes.drop_first())
    }
}

/// Whether every path in `list` comes once, and before all paths below it.
pub open spec fn parents_first(list: Seq<Names>) -> bool {
    forall|i: int, j: int|
        0 <= i < list.len() && 0 <= j < list.len() && (#[trigger] list[i]).is_prefix_of(
            #[trigger] list[j],
        ) ==> i <= j
}

proof fn lemma_parents_first_concat(a: Seq<Names>, b: Seq<Names>)
    requires
        parents_first(a),
        parents_first(b),
        forall|x: Names, y: Names| #[trigger]
            b.contains(x) && #[trigger] a.contains(y) ==> !x.is_prefix_of(y),
    ensures
        parents_first(a + b),
{
    let list = a + b;
    assert forall|i: int, j: int|
        0 <= i < list.len() && 0 <= j < list.len() && (#[trigger] list[i]).is_prefix_of(
            #[trigger] list[j],
        ) implies i <= j by {
        if i < a.len() && j < a.len() {
            assert(list[i] == a[i] && list[j] == a[j]);
        } else if i >= a.len() && j >= a.len() {
            assert(list[i] == b[i - a.len()] && list[j] == b[j - a.len()]);
        } else if i >= a.len() {
            assert(b.contains(b[i - a.len()]));
            assert(a.contains(a[j]));
        }
    }
}

/// What is found by way of an entry lies below the entry.
proof fn lemma_found_below(path: Names, nodes: Seq<Node>, q: Names) -> (i: int)
    requires
        repos_in(path, nodes).contains(q),
    ensures
        0 <= i < nodes.len(),
        q.len() > path.len(),
        q[path.len() as int] == nodes[i].entry.name,
{
    lemma_repos_in(path, nodes, q);
    let i = choose|i: int|
        0 <= i < nodes.len() && (#[trigger] nodes[i]).entry.entered() && nodes[i].tree.repos(
            path.push(nodes[i].entry.name),
        ).contains(q);
    let child = path.push(nodes[i].entry.name);
    law_repos_are_reached(nodes[i].tree, child, q);
    assert(child[path.len() as int] == q[path.len() as int]);
    i
}

proof fn lemma_repos_in_parents_first(path: Names, nodes: Seq<Node>)
    requires
        nodes_distinct(nodes),
    ensures
        parents_first(repos_in(path, nodes)),
    decreases nodes,
{
    if nodes.len() > 0 {
        let rest = nodes.drop_first();
        let child = path.push(nodes[0].entry.name);
        let first = if nodes[0].entry.entered() {
            nodes[0].tree.repos(child)
        } else {
            Seq::empty()
        };
        lemma_repos_in_parents_first(path, rest);
        lemma_repos_parents_first(nodes[0].tree, child);
        assert forall|x: Names, y: Names| #[trigger]
            repos_in(path, rest).contains(x) && #[trigger] first.contains(y) implies !x.is_prefix_of(
            y,
        ) by {
            let i = lemma_found_below(path, rest, x);
            assert(rest[i] == nodes[i + 1]);
            law_repos_are_reached(nodes[0].tree, child, y);
            assert(child[path.len() as int] == y[path.len() as int]);
            if x.is_prefix_of(y) {
                assert(x[path.len() as int] == y[path.len() as int]);
            }
        }
        lemma_parents_first_concat(first, repos_in(path, rest));
    }
}

proof fn lemma_repos_parents_first(tree: Tree, path: Names)
    requires
        tree.distinct(),
    ensures
        parents_first(tree.repos(path)),
    decreases tree,
{
    let own = if tree.has_git {
        seq![path]
    } else {
        Seq::empty()
    };
    match tree.nodes {
        Some(nodes) => {
            lemma_repos_in_parents_first(path, nodes);
            assert forall|x: Names, y: Names| #[trigger]
                repos_in(path, nodes).contains(x) && #[trigger] own.contains(
                y,
            ) implies !x.is_prefix_of(y) by {
                let i = lemma_found_below(path, nodes, x);
                assert(y == path);
            }
            lemma_parents_first_concat(own, repos_in(path, nodes));
        },
        None => {
            assert(tree.repos(path) =~= own);
        },
    }
}

/// Where no listing holds a name twice, a walk finds every repository once,
/// and before all repositories below it.
pub proof fn law_walk_order(tree: Tree)
    requires
        tree.distinct(),
    ensures
        ({
            let found = (ScanModel { pending: seq![Seq::empty()], repos: Seq::empty() }).driven(
                seq![tree],
            );
            &&& found.no_duplicates()
            &&& forall|i: int, j: int|
                0 <= i < found.len() && 0 <= j < found.len() && (#[trigger] found[i]).is_prefix_of(
                    #[trigger] found[j],
                ) ==> i <= j
        }),
{
    law_scan(tree);
    lemma_repos_parents_first(tree, Seq::empty());
    let found = tree.repos(Seq::empty());
    assert forall|i: int, j: int| 0 <= i < found.len() && 0 <= j < found.len() && i != j implies found[i]
        != found[j] by {
        if found[i] == found[j] {
            assert(found[i].is_prefix_of(found[j]));
            assert(found[j].is_prefix_of(found[i]));
        }
    }
}

/// Every directory that is no symbolic link is entered, whatever its name,
/// unless it is `.git`; nothing else is.
pub proof fn law_entered(name: Seq<u8>, is_dir: bool, is_symlink: bool)
    ensures
        (EntryModel { name, kind: Some(FileKind { is_dir, is_symlink }) }).entered() <==> is_dir
            && !is_symlink && name != encode_utf8(".git"@),
        !(EntryModel { name, kind: None }).entered(),
{
}

/// The entries of a directory that are entered come next, one by one in the
/// order of the listing, each by its name below the directory.
pub proof fn law_children(dir: Names, entry: EntryModel, rest: Seq<EntryModel>)
    ensures
        children(dir, Seq::empty()) == Seq::<Names>::empty(),
        entry.entered() ==> children(dir, seq![entry] + rest) == seq![dir.push(entry.name)]
            + children(dir, rest),
        !entry.entered() ==> children(dir, seq![entry] + rest) == children(dir, rest),
{
    assert((seq![entry] + rest).drop_first() =~= rest);
}

/// A visit takes the next directory off, records it exactly where there is a
/// `.git` in it, and leaves its children to be visited next, the first one
/// first.
pub proof fn law_visit(
    below: Seq<Names>,
    repos: Seq<Names>,
    dir: Names,
    has_git: bool,
    listing: Option<Seq<EntryModel>>,
)
    ensures
        ({
            let after = (ScanModel { pending: below.push(dir), repos }).visited(has_git, listing);
            &&& has_git ==> after.repos == repos.push(dir)
            &&& !has_git ==> after.repos == repos
            &&& listing is None ==> after.pending == below
            &&& listing matches Some(entries) ==> {
                let found = children(dir, entries);
                &&& after.pending.len() == below.len() + found.len()
                &&& forall|i: int| 0 <= i < below.len() ==> after.pending[i] == below[i]
                &&& forall|i: int|
                    0 <= i < found.len() ==> after.pending[after.pending.len() - 1 - i]
                        == #[trigger] found[i]
            }
        }),
{
    assert(below.push(dir).drop_last() =~= below);
    assert(below + Seq::<Names>::empty() =~= below);
}

/// A walk finds its root exactly where there is a `.git` in it, and a path
/// below exactly where the root has an entry of the first name that is a
/// directory, no symbolic link and not `.git`, and a walk from there finds the
/// rest of the path.
pub proof fn law_walk(tree: Tree, path: Names)
    ensures
        ({
            let start = ScanModel { pending: seq![Seq::empty()], repos: Seq::empty() };
            let found = start.driven(seq![tree]);
            &&& path.len() == 0 ==> (found.contains(path) <==> tree.has_git)
            &&& path.len() > 0 ==> (found.contains(path) <==> (tree.nodes matches Some(nodes)
                && exists|i: int|
                0 <= i < nodes.len() && (#[trigger] nodes[i]).entry.name == path[0] && (
                nodes[i].entry.kind matches Some(kind) && kind.is_dir && !kind.is_symlink)
                    && nodes[i].entry.name != encode_utf8(".git"@) && start.driven(
                    seq![nodes[i].tree],
                ).contains(path.drop_first())))
        }),
{
    let start = ScanModel { pending: seq![Seq::empty()], repos: Seq::empty() };
    let root = Seq::<Seq<u8>>::empty();
    law_scan(tree);
    law_repos_are_reached(tree, root, path);
    assert(path.skip(0) =~= path);
    assert(root.is_prefix_of(path)) by {
        assert(path.subrange(0, 0) =~= root);
    }
    if path.len() > 0 {
        if let Some(nodes) = tree.nodes {
            let rest = path.drop_first();
            assert(rest.skip(0) =~= rest);
            assert(root.is_prefix_of(rest)) by {
                assert(rest.subrange(0, 0) =~= root);
            }
            assert forall|i: int| 0 <= i < nodes.len() implies (#[trigger] nodes[i]).leads_to_repo(
                path,
            ) == (nodes[i].entry.name == path[0] && (nodes[i].entry.kind matches Some(kind)
                && kind.is_dir && !kind.is_symlink) && nodes[i].entry.name != encode_utf8(".git"@)
                && start.driven(seq![nodes[i].tree]).contains(rest)) by {
                law_scan(nodes[i].tree);
                law_repos_are_reached(nodes[i].tree, root, rest);
            }
        }
    }
}

/// The paths in a list are those of its members, one for each, in order.
pub proof fn law_paths(list: Seq<Vec<Vec<u8>>>, i: int, k: int)
    ensures
        paths(list).len() == list.len(),
        0 <= i < list.len() ==> paths(list)[i].len() == list[i]@.len(),
        0 <= i < list.len() && 0 <= k < list[i]@.len() ==> paths(list)[i][k] == list[i]@[k]@,
{
}

/// A listing stands for its entries, one for each, in order.
pub proof fn law_listing(entries: Vec<Entry>, i: int)
    ensures
        listing_model(None) is None,
        listing_model(Some(entries)) matches Some(models) && models.len() == entries@.len() && (0
            <= i < entries@.len() ==> models[i].name == entries@[i].name@ && models[i].kind
            == entries@[i].kind),
{
}

} // verus!
