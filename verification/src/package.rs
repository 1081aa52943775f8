//! The packages of a workspace, and what the answers about one of them come
//! to.
use crate::command::texts;
use crate::order::Order;
use crate::path::{byte_strings, PathModel, RawPath};
use crate::registry::{reply_texts, Reply};
use crate::status::{PublishStatus, StatusModel};
use crate::text::same_text;
use crate::version::{
    compare_versions, holdable, law_versions_order, std_order, versions_order,
};
use std::cmp::Ordering;
use vstd::prelude::*;
use vstd::utf8::encode_utf8;

verus! {

/// What `cargo metadata` says of one package.
#[derive(Debug)]
pub struct PackageMetadata {
    pub name: String,
    pub version: String,
    pub manifest_path: String,
    /// The registries that the package may be published to; absent where any
    /// may hold it.
    pub publish: Option<Vec<String>>,
}

/// What `cargo metadata` says of a workspace.
#[derive(Debug)]
pub struct Metadata {
    pub packages: Vec<PackageMetadata>,
    pub workspace_members: Vec<String>,
}

/// What a `PackageMetadata` stands for.
pub struct PackageModel {
    pub name: Seq<char>,
    pub version: Seq<char>,
    pub manifest_path: Seq<char>,
    pub publish: Option<Seq<Seq<char>>>,
}

impl View for PackageMetadata {
    type V = PackageModel;

    open spec fn view(&self) -> PackageModel {
        PackageModel {
            name: self.name@,
            version: self.version@,
            manifest_path: self.manifest_path@,
            publish: match self.publish {
                Some(registries) => Some(texts(registries@)),
                None => None,
            },
        }
    }
}

/// Whether an entry of `publish` means `registry`; the default registry goes
/// by two names.
pub open spec fn names_registry(entry: Seq<char>, registry: Seq<char>) -> bool {
    entry == registry || (registry == "crates-io"@ && (entry == "crates.io"@ || entry
        == "crates-io"@))
}

/// Whether any entry of `publish` means `registry`.
pub open spec fn any_names(entries: Seq<Seq<char>>, registry: Seq<char>) -> bool {
    exists|k: int| 0 <= k < entries.len() && names_registry(#[trigger] entries[k], registry)
}

impl PackageModel {
    /// Whether the package may be published to `registry`.
    pub open spec fn publishable(self, registry: Seq<char>) -> bool {
        match self.publish {
            None => true,
            Some(entries) => any_names(entries, registry),
        }
    }

    /// The status of the package whose published version is `published`.
    pub open spec fn settled(self, published: Seq<char>, dirty: bool) -> StatusModel {
        match versions_order(self.version, published) {
            Order::Equal => StatusModel::UpToDate {
                version: self.version,
                has_uncommitted_changes: dirty,
            },
            Order::Less => StatusModel::Outdated {
                local_version: self.version,
                published_version: published,
            },
            Order::Greater => StatusModel::Ahead {
                local_version: self.version,
                published_version: published,
            },
        }
    }

    /// What the check of the package comes to, given the reply of the
    /// registry and whether its directory has uncommitted changes.
    pub open spec fn checked(
        self,
        registry: Seq<char>,
        reply: Result<Option<Seq<char>>, Seq<char>>,
        dirty: bool,
    ) -> Result<StatusModel, Seq<char>> {
        if !self.publishable(registry) {
            Ok(StatusModel::Private)
        } else {
            match reply {
                Err(error) => Err(error),
                Ok(None) => Ok(StatusModel::NotPublished),
                Ok(Some(published)) => Ok(self.settled(published, dirty)),
            }
        }
    }
}

/// The directory of the package with this manifest, the current one where the
/// path of the manifest names none.
pub fn package_dir(manifest: &RawPath) -> (r: RawPath)
    ensures
        match manifest@.parent() {
            Some(dir) => r@ == dir,
            None => r@ == (PathModel { anchor: Seq::empty(), names: seq![encode_utf8("."@)] }),
        },
{
    let mut dir = manifest.copied();
    if dir.pop() {
        dir
    } else {
        let r = RawPath { anchor: Vec::new(), names: vec![".".as_bytes_vec()] };
        assert(byte_strings(r.names@) =~= seq![encode_utf8("."@)]);
        assert(r@.anchor =~= Seq::empty());
        r
    }
}

/// Whether an entry of `publish` means `registry`.
fn entry_names(entry: &str, registry: &str) -> (r: bool)
    ensures
        r == names_registry(entry@, registry@),
{
    same_text(entry, registry) || (same_text(registry, "crates-io") && (same_text(
        entry,
        "crates.io",
    ) || same_text(entry, "crates-io")))
}

/// Whether any entry of `publish` means `registry`.
fn any_entry_names(entries: &Vec<String>, registry: &str) -> (r: bool)
    ensures
        r == any_names(texts(entries@), registry@),
{
    let mut i: usize = 0;
    while i < entries.len()
        invariant
            i <= entries@.len(),
            forall|k: int| 0 <= k < i ==> !names_registry(#[trigger] texts(entries@)[k], registry@),
        decreases entries@.len() - i,
    {
        if entry_names(entries[i].as_str(), registry) {
            assert(names_registry(texts(entries@)[i as int], registry@));
            return true;
        }
        i = i + 1;
    }
    false
}

/// Whether `package` may be published to `registry`.
pub fn is_publishable(package: &PackageMetadata, registry: &str) -> (r: bool)
    ensures
        r == package@.publishable(registry@),
{
    match &package.publish {
        None => true,
        Some(entries) => any_entry_names(entries, registry),
    }
}

/// The status of `package` whose published version is `published`.
pub fn settle(package: &PackageMetadata, published: String, dirty: bool) -> (r: PublishStatus)
    requires
        holdable(package.version@),
        holdable(published@),
    ensures
        r@ == package@.settled(published@, dirty),
        match r {
            PublishStatus::UpToDate { version, has_uncommitted_changes } => {
                &&& std_order(versions_order(package.version@, published@)) == Ordering::Equal
                &&& version@ == package.version@ && has_uncommitted_changes == dirty
            },
            PublishStatus::Outdated { local_version, published_version } => {
                &&& std_order(versions_order(package.version@, published@)) == Ordering::Less
                &&& local_version@ == package.version@ && published_version@ == published@
            },
            PublishStatus::Ahead { local_version, published_version } => {
                &&& std_order(versions_order(package.version@, published@)) == Ordering::Greater
                &&& local_version@ == package.version@ && published_version@ == published@
            },
            _ => false,
        },
{
    match compare_versions(package.version.as_str(), published.as_str()) {
        Ordering::Equal => PublishStatus::UpToDate {
            version: package.version.clone(),
            has_uncommitted_changes: dirty,
        },
        Ordering::Less => PublishStatus::Outdated {
            local_version: package.version.clone(),
            published_version: published,
        },
        Ordering::Greater => PublishStatus::Ahead {
            local_version: package.version.clone(),
            published_version: published,
        },
    }
}

/// What the check of a package came to, as texts.
pub open spec fn check_texts(r: Result<PublishStatus, String>) -> Result<StatusModel, Seq<char>> {
    match r {
        Ok(status) => Ok(status@),
        Err(error) => Err(error@),
    }
}

/// What the check of `package` comes to, given the reply of the registry and
/// whether the package's directory has uncommitted changes. A package that
/// may not be published is private whatever they are.
pub fn check_package(
    package: &PackageMetadata,
    registry: &str,
    reply: Reply,
    has_uncommitted_changes: bool,
) -> (r: Result<PublishStatus, String>)
    requires
        holdable(package.version@),
        reply matches Ok(Some(published)) ==> holdable(published@),
    ensures
        check_texts(r) == package@.checked(
            registry@,
            reply_texts(reply),
            has_uncommitted_changes,
        ),
        (r matches Ok(PublishStatus::Private)) == !package@.publishable(registry@),
        package@.publishable(registry@) ==> {
            &&& r is Err <==> reply is Err
            &&& r matches Err(error) ==> (reply matches Err(reason) && error@ == reason@)
            &&& (r matches Ok(PublishStatus::NotPublished)) == (reply matches Ok(None))
        },
        package@.publishable(registry@) ==> (reply matches Ok(Some(published)) ==> match std_order(
            versions_order(package.version@, published@),
        ) {
            Ordering::Equal => r matches Ok(PublishStatus::UpToDate { .. }),
            Ordering::Less => r matches Ok(PublishStatus::Outdated { .. }),
            Ordering::Greater => r matches Ok(PublishStatus::Ahead { .. }),
        }),
{
    if !is_publishable(package, registry) {
        return Ok(PublishStatus::Private);
    }
    match reply {
        Err(error) => Err(error),
        Ok(None) => Ok(PublishStatus::NotPublished),
        Ok(Some(published)) => Ok(settle(package, published, has_uncommitted_changes)),
    }
}

/// A package is up to date exactly where it may be published and the registry
/// holds its very version.
pub proof fn law_up_to_date(
    package: PackageModel,
    registry: Seq<char>,
    reply: Result<Option<Seq<char>>, Seq<char>>,
    dirty: bool,
)
    ensures
        (package.checked(registry, reply, dirty) matches Ok(status) && status is UpToDate) <==> (
        package.publishable(registry) && reply == Ok::<Option<Seq<char>>, Seq<char>>(
            Some(package.version),
        )),
{
    if let Ok(Some(published)) = reply {
        law_versions_order(package.version, published);
    }
}

/// What a package that may not be published is found to be depends on neither
/// the registry's reply nor the state of its directory.
pub proof fn law_private_needs_no_answer(
    package: PackageModel,
    registry: Seq<char>,
    reply: Result<Option<Seq<char>>, Seq<char>>,
    dirty: bool,
)
    requires
        !package.publishable(registry),
    ensures
        package.checked(registry, reply, dirty) == Ok::<StatusModel, Seq<char>>(
            StatusModel::Private,
        ),
{
}

/// A package without a list of registries may be published to any; one with a
/// list exactly to those that it names, where `crates.io` names `crates-io`
/// too.
pub proof fn law_publishable(package: PackageModel, registry: Seq<char>)
    ensures
        package.publish is None ==> package.publishable(registry),
        package.publish matches Some(entries) ==> {
            &&& entries.contains(registry) ==> package.publishable(registry)
            &&& registry == "crates-io"@ && entries.contains("crates.io"@)
                ==> package.publishable(registry)
            &&& package.publishable(registry) ==> entries.contains(registry) || (registry
                == "crates-io"@ && entries.contains("crates.io"@))
        },
{
    if let Some(entries) = package.publish {
        if entries.contains(registry) {
            let k = choose|k: int| 0 <= k < entries.len() && entries[k] == registry;
            assert(names_registry(entries[k], registry));
        }
        if registry == "crates-io"@ && entries.contains("crates.io"@) {
            let k = choose|k: int| 0 <= k < entries.len() && entries[k] == "crates.io"@;
            assert(names_registry(entries[k], registry));
        }
    }
}

/// Of a package that may be published, a failed reply is passed on, and a
/// reply without version means that it is not published. With a published
/// version the comparison decides: equal is up to date, less is outdated,
/// greater is ahead; only the first tells of uncommitted changes.
pub proof fn law_checked(
    package: PackageModel,
    registry: Seq<char>,
    error: Seq<char>,
    published: Seq<char>,
    dirty: bool,
)
    requires
        package.publishable(registry),
    ensures
        package.checked(registry, Err(error), dirty) == Err::<StatusModel, Seq<char>>(error),
        package.checked(registry, Ok(None), dirty) == Ok::<StatusModel, Seq<char>>(
            StatusModel::NotPublished,
        ),
        match std_order(versions_order(package.version, published)) {
            Ordering::Equal => package.checked(registry, Ok(Some(published)), dirty) == Ok::<
                StatusModel,
                Seq<char>,
            >(StatusModel::UpToDate { version: package.version, has_uncommitted_changes: dirty }),
            Ordering::Less => package.checked(registry, Ok(Some(published)), dirty) == Ok::<
                StatusModel,
                Seq<char>,
            >(
                StatusModel::Outdated {
                    local_version: package.version,
                    published_version: published,
                },
            ),
            Ordering::Greater => package.checked(registry, Ok(Some(published)), dirty) == Ok::<
                StatusModel,
                Seq<char>,
            >(
                StatusModel::Ahead {
                    local_version: package.version,
                    published_version: published,
                },
            ),
        },
{
}

/// A package stands for its own name, version, path and list of registries.
pub proof fn law_package_view(package: PackageMetadata, i: int)
    ensures
        package@.name == package.name@,
        package@.version == package.version@,
        package@.manifest_path == package.manifest_path@,
        package@.publish is Some <==> package.publish is Some,
        package.publish matches Some(entries) ==> {
            &&& package@.publish->0.len() == entries@.len()
            &&& 0 <= i < entries@.len() ==> package@.publish->0[i] == entries@[i]@
        },
{
}

} // verus!
