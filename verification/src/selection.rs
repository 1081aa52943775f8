//! Which packages of a workspace a run checks.
use crate::command::texts;
use crate::package::{Metadata, PackageMetadata, PackageModel};
use crate::path::{PathModel, RawPath};
use crate::text::{contains, law_occurs, occurs};
use vstd::prelude::*;

verus! {

/// The positions at which `flags` is true, in increasing order.
pub open spec fn true_positions(flags: Seq<bool>) -> Seq<int>
    decreases flags.len(),
{
    if flags.len() == 0 {
        Seq::empty()
    } else if flags.last() {
        true_positions(flags.drop_last()).push(flags.len() - 1)
    } else {
        true_positions(flags.drop_last())
    }
}

/// Whether a workspace member's identifier holds the package's name or the
/// path of its manifest.
pub open spec fn member_names(member: Seq<char>, package: PackageModel) -> bool {
    occurs(package.name, member) || occurs(package.manifest_path, member)
}

/// Whether any workspace member's identifier names the package.
pub open spec fn is_member(package: PackageModel, members: Seq<Seq<char>>) -> bool {
    exists|k: int| 0 <= k < members.len() && member_names(#[trigger] members[k], package)
}

/// For each package, whether the workspace lists it as a member.
pub open spec fn member_flags(packages: Seq<PackageMetadata>, members: Seq<String>) -> Seq<bool> {
    packages.map_values(|p: PackageMetadata| is_member(p@, texts(members)))
}

/// Whether a manifest's path, where it could be resolved, is `manifest`.
pub open spec fn resolves_to(path: Option<RawPath>, manifest: PathModel) -> bool {
    path matches Some(p) && p@ == manifest
}

/// For each package, whether its manifest is `manifest`.
pub open spec fn target_flags(resolved: Seq<Option<RawPath>>, manifest: PathModel) -> Seq<bool> {
    resolved.map_values(|p: Option<RawPath>| resolves_to(p, manifest))
}

/// The packages to check: the first whose manifest is the one in question; in
/// its absence, all members of the workspace.
pub open spec fn selection(targets: Seq<bool>, members: Seq<bool>) -> Seq<int> {
    if true_positions(targets).len() > 0 {
        seq![true_positions(targets)[0]]
    } else {
        true_positions(members)
    }
}

/// A list of indices as numbers.
pub open spec fn positions(indices: Seq<usize>) -> Seq<int> {
    indices.map_values(|i: usize| i as int)
}

/// Whether any of `members` names `package`.
pub fn names_member(package: &PackageMetadata, members: &Vec<String>) -> (r: bool)
    ensures
        r == is_member(package@, texts(members@)),
{
    let mut i: usize = 0;
    while i < members.len()
        invariant
            i <= members@.len(),
            forall|k: int| 0 <= k < i ==> !member_names(#[trigger] texts(members@)[k], package@),
        decreases members@.len() - i,
    {
        let member = members[i].as_str();
        if contains(member, package.name.as_str()) || contains(
            member,
            package.manifest_path.as_str(),
        ) {
            assert(member_names(texts(members@)[i as int], package@));
            return true;
        }
        i = i + 1;
    }
    false
}

/// The first of `resolved` that is `manifest`.
fn first_target(resolved: &Vec<Option<RawPath>>, manifest: &RawPath) -> (r: Option<usize>)
    ensures
        match r {
            Some(i) => true_positions(target_flags(resolved@, manifest@)).len() > 0
                && true_positions(target_flags(resolved@, manifest@))[0] == i,
            None => true_positions(target_flags(resolved@, manifest@)).len() == 0,
        },
{
    let ghost flags = target_flags(resolved@, manifest@);
    let mut i: usize = 0;
    while i < resolved.len()
        invariant
            i <= resolved@.len(),
            flags == target_flags(resolved@, manifest@),
            true_positions(flags.take(i as int)).len() == 0,
        decreases resolved@.len() - i,
    {
        let hit = match &resolved[i] {
            Some(p) => p.same(manifest),
            None => false,
        };
        proof {
            assert(flags.take(i + 1).drop_last() =~= flags.take(i as int));
            assert(flags[i as int] == hit);
            assert(hit ==> true_positions(flags.take(i + 1))[0] == i);
        }
        if hit {
            proof {
                lemma_positions_prefix(flags, i + 1);
            }
            return Some(i);
        }
        i = i + 1;
    }
    assert(flags.take(i as int) =~= flags);
    None
}

/// The positions in a prefix come first among the positions.
proof fn lemma_positions_prefix(flags: Seq<bool>, n: int)
    requires
        0 <= n <= flags.len(),
    ensures
        true_positions(flags.take(n)).is_prefix_of(true_positions(flags)),
    decreases flags.len(),
{
    if n < flags.len() {
        lemma_positions_prefix(flags.drop_last(), n);
        assert(flags.drop_last().take(n) =~= flags.take(n));
    } else {
        assert(flags.take(n) =~= flags);
    }
}

/// The indices of the packages to check: of the package whose manifest is
/// `manifest`, else of all members of the workspace. `resolved` holds, for
/// each package, the path of its manifest with symbolic links resolved, where
/// that could be done. It is an error where there is nothing to check.
pub fn packages_to_check(
    metadata: &Metadata,
    resolved: &Vec<Option<RawPath>>,
    manifest: &RawPath,
) -> (r: Result<Vec<usize>, String>)
    requires
        resolved@.len() == metadata.packages@.len(),
    ensures
        ({
            let chosen = selection(
                target_flags(resolved@, manifest@),
                member_flags(metadata.packages@, metadata.workspace_members@),
            );
            match r {
                Ok(indices) => chosen.len() > 0 && positions(indices@) == chosen,
                Err(error) => chosen.len() == 0 && error@
                    == "No package found to check in manifest"@,
            }
        }),
        r matches Ok(indices) ==> forall|k: int|
            0 <= k < indices@.len() ==> #[trigger] indices@[k] < metadata.packages@.len(),
{
    let ghost targets = target_flags(resolved@, manifest@);
    let ghost flags = member_flags(metadata.packages@, metadata.workspace_members@);
    match first_target(resolved, manifest) {
        Some(i) => {
            let r = vec![i];
            proof {
                law_selection(targets, flags);
                assert(positions(r@) =~= selection(targets, flags));
                assert(selection(targets, flags)[0] == i);
            }
            return Ok(r);
        },
        None => {},
    }
    let mut r: Vec<usize> = Vec::new();
    let mut i: usize = 0;
    assert(positions(r@) =~= true_positions(flags.take(0)));
    while i < metadata.packages.len()
        invariant
            i <= metadata.packages@.len(),
            flags == member_flags(metadata.packages@, metadata.workspace_members@),
            positions(r@) == true_positions(flags.take(i as int)),
            forall|k: int| 0 <= k < r@.len() ==> #[trigger] r@[k] < metadata.packages@.len(),
        decreases metadata.packages@.len() - i,
    {
        let listed = names_member(&metadata.packages[i], &metadata.workspace_members);
        proof {
            assert(flags.take(i + 1).drop_last() =~= flags.take(i as int));
            assert(flags[i as int] == listed);
        }
        let ghost before = r@;
        if listed {
            r.push(i);
            assert(positions(r@) =~= positions(before).push(i as int));
        }
        i = i + 1;
    }
    assert(flags.take(i as int) =~= flags);
    assert(positions(r@).len() == r@.len());
    if r.len() == 0 {
        Err("No package found to check in manifest".to_owned())
    } else {
        Ok(r)
    }
}

/// The positions are exactly those of true flags, each once, in increasing
/// order.
pub proof fn law_true_positions(flags: Seq<bool>)
    ensures
        forall|k: int|
            0 <= k < true_positions(flags).len() ==> {
                &&& 0 <= #[trigger] true_positions(flags)[k] < flags.len()
                &&& flags[true_positions(flags)[k]]
            },
        forall|j: int, k: int|
            0 <= j < k < true_positions(flags).len() ==> #[trigger] true_positions(flags)[j]
                < #[trigger] true_positions(flags)[k],
        forall|i: int|
            0 <= i < flags.len() && #[trigger] flags[i] ==> true_positions(flags).contains(i),
    decreases flags.len(),
{
    if flags.len() > 0 {
        let rest = flags.drop_last();
        law_true_positions(rest);
        let all = true_positions(flags);
        let old = true_positions(rest);
        assert forall|i: int| 0 <= i < flags.len() && #[trigger] flags[i] implies all.contains(
            i,
        ) by {
            if i < rest.len() {
                assert(rest[i]);
                let k = choose|k: int| 0 <= k < old.len() && old[k] == i;
                assert(all[k] == i);
            } else {
                assert(all[all.len() - 1] == i);
            }
        }
        assert forall|k: int| 0 <= k < all.len() implies {
            &&& 0 <= #[trigger] all[k] < flags.len()
            &&& flags[all[k]]
        } by {
            if k < old.len() {
                assert(all[k] == old[k]);
                assert(rest[old[k]]);
            }
        }
    }
}

/// Every package chosen is the one in question or, in its absence, a member;
/// the choice is made in order and chooses none twice, and it is empty only
/// where there is neither. Where the one in question is absent, no member is
/// left out.
pub proof fn law_selection(targets: Seq<bool>, members: Seq<bool>)
    requires
        targets.len() == members.len(),
    ensures
        ({
            let chosen = selection(targets, members);
            &&& forall|k: int|
                0 <= k < chosen.len() ==> {
                    &&& 0 <= #[trigger] chosen[k] < targets.len()
                    &&& targets[chosen[k]] || (members[chosen[k]] && !targets.contains(true))
                }
            &&& forall|j: int, k: int|
                0 <= j < k < chosen.len() ==> #[trigger] chosen[j] < #[trigger] chosen[k]
            &&& chosen.len() == 0 <==> !targets.contains(true) && !members.contains(true)
            &&& !targets.contains(true) ==> forall|i: int|
                0 <= i < members.len() && #[trigger] members[i] ==> chosen.contains(i)
        }),
{
    law_true_positions(targets);
    law_true_positions(members);
    let hits = true_positions(targets);
    let listed = true_positions(members);
    if hits.len() > 0 {
        assert(targets[hits[0]]);
    }
    if targets.contains(true) {
        let i = choose|i: int| 0 <= i < targets.len() && targets[i];
        assert(hits.contains(i));
    }
    if members.contains(true) {
        let i = choose|i: int| 0 <= i < members.len() && members[i];
        assert(listed.contains(i));
    }
    if listed.len() > 0 {
        assert(members[listed[0]]);
    }
}

/// A list of indices stands for the same numbers, in order.
pub proof fn law_positions(indices: Seq<usize>, i: int)
    ensures
        positions(indices).len() == indices.len(),
        0 <= i < indices.len() ==> positions(indices)[i] == indices[i],
{
}

/// Where some package's manifest is the one in question, the first such
/// package is chosen and no other; else every package whose name or manifest
/// path stands anywhere in the identifier of some workspace member is chosen,
/// and no other.
pub proof fn law_choice(
    packages: Seq<PackageMetadata>,
    members: Seq<String>,
    resolved: Seq<Option<RawPath>>,
    manifest: PathModel,
    i: int,
)
    requires
        packages.len() == resolved.len(),
        0 <= i < packages.len(),
    ensures
        ({
            let chosen = selection(
                target_flags(resolved, manifest),
                member_flags(packages, members),
            );
            let matched = exists|k: int|
                0 <= k < resolved.len() && (#[trigger] resolved[k] matches Some(p) && p@
                    == manifest);
            &&& matched ==> chosen.len() == 1 && (chosen.contains(i) <==> (resolved[i] matches Some(
                p,
            ) && p@ == manifest) && forall|k: int|
                0 <= k < i ==> !(#[trigger] resolved[k] matches Some(p) && p@ == manifest))
            &&& !matched ==> (chosen.contains(i) <==> exists|k: int, a: Seq<char>, b: Seq<char>|
                0 <= k < members.len() && (#[trigger] members[k])@ == #[trigger] (a
                    + packages[i].name@ + b) || 0 <= k < members.len() && members[k]@ == a
                    + packages[i].manifest_path@ + b)
        }),
{
    let targets = target_flags(resolved, manifest);
    let flags = member_flags(packages, members);
    let chosen = selection(targets, flags);
    let hits = true_positions(targets);
    let matched = exists|k: int|
        0 <= k < resolved.len() && (#[trigger] resolved[k] matches Some(p) && p@ == manifest);
    law_true_positions(targets);
    law_true_positions(flags);
    assert(forall|k: int|
        0 <= k < resolved.len() ==> #[trigger] targets[k] == (resolved[k] matches Some(p) && p@
            == manifest));
    if matched {
        let k = choose|k: int|
            0 <= k < resolved.len() && (#[trigger] resolved[k] matches Some(p) && p@ == manifest);
        assert(targets[k]);
        assert(hits.contains(k));
        assert(chosen =~= seq![hits[0]]);
        assert(targets[hits[0]]);
        assert(chosen[0] == hits[0]);
        if i == hits[0] {
            assert forall|k: int| 0 <= k < i implies !(#[trigger] resolved[k] matches Some(p) && p@
                == manifest) by {
                if targets[k] {
                    let j = choose|j: int| 0 <= j < hits.len() && hits[j] == k;
                    assert(hits[0] <= hits[j]);
                }
            }
        } else if targets[i] {
            let j = choose|j: int| 0 <= j < hits.len() && hits[j] == i;
            assert(hits[0] < hits[j]);
            assert(resolved[hits[0]] matches Some(p) && p@ == manifest);
        }
    } else {
        if hits.len() > 0 {
            assert(targets[hits[0]]);
        }
        assert(chosen == true_positions(flags));
        assert(chosen.contains(i) <==> flags[i]) by {
            if chosen.contains(i) {
                let j = choose|j: int| 0 <= j < chosen.len() && chosen[j] == i;
                assert(flags[chosen[j]]);
            }
        }
        lemma_is_member(packages[i], members);
    }
}

proof fn lemma_is_member(package: PackageMetadata, members: Seq<String>)
    ensures
        is_member(package@, texts(members)) <==> exists|k: int, a: Seq<char>, b: Seq<char>|
            0 <= k < members.len() && (#[trigger] members[k])@ == #[trigger] (a + package.name@
                + b) || 0 <= k < members.len() && members[k]@ == a + package.manifest_path@ + b,
{
    let (name, path) = (package.name@, package.manifest_path@);
    let none = Seq::<char>::empty();
    if is_member(package@, texts(members)) {
        let k = choose|k: int|
            0 <= k < texts(members).len() && member_names(#[trigger] texts(members)[k], package@);
        let member = members[k]@;
        assert(texts(members)[k] == member);
        law_occurs(none, name, none, member);
        law_occurs(none, path, none, member);
        if occurs(name, member) {
            let (a, b) = choose|a: Seq<char>, b: Seq<char>| member == #[trigger] (a + name + b);
            assert(members[k]@ == a + name + b);
        } else {
            let (a, b) = choose|a: Seq<char>, b: Seq<char>| member == #[trigger] (a + path + b);
            let other = a + name + b;
            assert(members[k]@ == a + path + b);
        }
    }
    if exists|k: int, a: Seq<char>, b: Seq<char>|
        0 <= k < members.len() && (#[trigger] members[k])@ == #[trigger] (a + name + b) || 0 <= k
            < members.len() && members[k]@ == a + path + b {
        let (k, a, b) = choose|k: int, a: Seq<char>, b: Seq<char>|
            0 <= k < members.len() && (#[trigger] members[k])@ == #[trigger] (a + name + b) || 0
                <= k < members.len() && members[k]@ == a + path + b;
        law_occurs(a, name, b, none);
        law_occurs(a, path, b, none);
        assert(member_names(texts(members)[k], package@));
    }
}

} // verus!
