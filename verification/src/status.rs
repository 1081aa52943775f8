//! What is known of a crate's publication, and how it is reported.
use vstd::prelude::*;

verus! {

/// How a crate stands to what its registry holds.
#[derive(Debug, PartialEq, Eq)]
pub enum PublishStatus {
    /// The registry does not know the crate.
    NotPublished,
    /// The manifest does not allow publishing to the registry.
    Private,
    /// The registry's latest version is the local one.
    UpToDate { version: String, has_uncommitted_changes: bool },
    /// The registry's latest version is newer than the local one.
    Outdated { local_version: String, published_version: String },
    /// The local version is newer than the registry's latest.
    Ahead { local_version: String, published_version: String },
}

/// What a `PublishStatus` stands for.
pub enum StatusModel {
    NotPublished,
    Private,
    UpToDate { version: Seq<char>, has_uncommitted_changes: bool },
    Outdated { local_version: Seq<char>, published_version: Seq<char> },
    Ahead { local_version: Seq<char>, published_version: Seq<char> },
}

impl View for PublishStatus {
    type V = StatusModel;

    open spec fn view(&self) -> StatusModel {
        match self {
            PublishStatus::NotPublished => StatusModel::NotPublished,
            PublishStatus::Private => StatusModel::Private,
            PublishStatus::UpToDate { version, has_uncommitted_changes } => StatusModel::UpToDate {
                version: version@,
                has_uncommitted_changes: *has_uncommitted_changes,
            },
            PublishStatus::Outdated { local_version, published_version } => StatusModel::Outdated {
                local_version: local_version@,
                published_version: published_version@,
            },
            PublishStatus::Ahead { local_version, published_version } => StatusModel::Ahead {
                local_version: local_version@,
                published_version: published_version@,
            },
        }
    }
}

impl StatusModel {
    /// Whether the crate is published at its local version; under `strict`
    /// also without uncommitted changes.
    pub open spec fn success(self, strict: bool) -> bool {
        self matches StatusModel::UpToDate { has_uncommitted_changes, .. } && !(strict
            && has_uncommitted_changes)
    }

    /// The line that reports this status of the crate `name`.
    pub open spec fn message(self, name: Seq<char>, local_version: Seq<char>) -> Seq<char> {
        match self {
            StatusModel::NotPublished => name + " "@ + local_version + " is not published"@,
            StatusModel::Private => name + " "@ + local_version
                + " is not published (private crate: publish = false)"@,
            StatusModel::UpToDate { version, has_uncommitted_changes } => if has_uncommitted_changes {
                name + " "@ + version + " is published and up to date (uncommitted changes)"@
            } else {
                name + " "@ + version + " is published and up to date"@
            },
            StatusModel::Outdated { published_version, .. } => name + " "@ + local_version
                + " is published, but outdated (latest published is "@ + published_version + ")"@,
            StatusModel::Ahead { published_version, .. } => name + " "@ + local_version
                + " is published, but local version is ahead (latest published is "@
                + published_version + ")"@,
        }
    }
}

impl PublishStatus {
    /// Whether the crate is published at its local version; under `strict`
    /// also without uncommitted changes.
    pub fn is_success(&self, strict: bool) -> (r: bool)
        ensures
            r == self@.success(strict),
            r <==> (*self matches PublishStatus::UpToDate { has_uncommitted_changes, .. }
                && !(strict && has_uncommitted_changes)),
    {
        match self {
            PublishStatus::UpToDate { has_uncommitted_changes, .. } => !(strict
                && *has_uncommitted_changes),
            _ => false,
        }
    }

    /// The line that reports this status of the crate `name`.
    pub fn format_message(&self, name: &str, local_version: &str) -> (r: String)
        ensures
            r@ == self@.message(name@, local_version@),
            *self is NotPublished ==> r@ == name@ + " "@ + local_version@ + " is not published"@,
            *self is Private ==> r@ == name@ + " "@ + local_version@
                + " is not published (private crate: publish = false)"@,
            *self matches PublishStatus::UpToDate { version, has_uncommitted_changes } ==> r@
                == name@ + " "@ + version@ + (if has_uncommitted_changes {
                " is published and up to date (uncommitted changes)"@
            } else {
                " is published and up to date"@
            }),
            *self matches PublishStatus::Outdated { published_version, .. } ==> r@ == name@ + " "@
                + local_version@ + " is published, but outdated (latest published is "@
                + published_version@ + ")"@,
            *self matches PublishStatus::Ahead { published_version, .. } ==> r@ == name@ + " "@
                + local_version@
                + " is published, but local version is ahead (latest published is "@
                + published_version@ + ")"@,
    {
        match self {
            PublishStatus::NotPublished => name.to_owned().concat(" ").concat(local_version).concat(
                " is not published",
            ),
            PublishStatus::Private => name.to_owned().concat(" ").concat(local_version).concat(
                " is not published (private crate: publish = false)",
            ),
            PublishStatus::UpToDate { version, has_uncommitted_changes } => {
                let known = name.to_owned().concat(" ").concat(version.as_str());
                if *has_uncommitted_changes {
                    known.concat(" is published and up to date (uncommitted changes)")
                } else {
                    known.concat(" is published and up to date")
                }
            },
            PublishStatus::Outdated { published_version, .. } => name.to_owned().concat(" ").concat(
                local_version,
            ).concat(" is published, but outdated (latest published is ").concat(
                published_version.as_str(),
            ).concat(")"),
            PublishStatus::Ahead { published_version, .. } => name.to_owned().concat(" ").concat(
                local_version,
            ).concat(" is published, but local version is ahead (latest published is ").concat(
                published_version.as_str(),
            ).concat(")"),
        }
    }
}

/// What succeeds strictly succeeds, and what succeeds at all is up to date.
pub proof fn law_strict_only_tightens(status: StatusModel)
    ensures
        status.success(true) ==> status.success(false),
        status.success(false) ==> status is UpToDate,
        status.success(false) && !status.success(true) ==> status->has_uncommitted_changes,
{
}

/// Exactly an up-to-date crate succeeds, under `strict` exactly one without
/// uncommitted changes.
pub proof fn law_success(version: Seq<char>, other: Seq<char>, changed: bool, strict: bool)
    ensures
        (StatusModel::UpToDate { version, has_uncommitted_changes: changed }).success(strict)
            <==> !strict || !changed,
        !StatusModel::NotPublished.success(strict),
        !StatusModel::Private.success(strict),
        !(StatusModel::Outdated { local_version: version, published_version: other }).success(
            strict,
        ),
        !(StatusModel::Ahead { local_version: version, published_version: other }).success(strict),
{
}

/// A report names the crate and its version and then says what was found,
/// with the published version where it is another one.
pub proof fn law_message(
    name: Seq<char>,
    local: Seq<char>,
    version: Seq<char>,
    published: Seq<char>,
    changed: bool,
)
    ensures
        StatusModel::NotPublished.message(name, local) == name + " "@ + local
            + " is not published"@,
        StatusModel::Private.message(name, local) == name + " "@ + local
            + " is not published (private crate: publish = false)"@,
        (StatusModel::UpToDate { version, has_uncommitted_changes: false }).message(name, local)
            == name + " "@ + version + " is published and up to date"@,
        (StatusModel::UpToDate { version, has_uncommitted_changes: true }).message(name, local)
            == name + " "@ + version + " is published and up to date (uncommitted changes)"@,
        (StatusModel::Outdated { local_version: version, published_version: published }).message(
            name,
            local,
        ) == name + " "@ + local + " is published, but outdated (latest published is "@ + published
            + ")"@,
        (StatusModel::Ahead { local_version: version, published_version: published }).message(
            name,
            local,
        ) == name + " "@ + local
            + " is published, but local version is ahead (latest published is "@ + published
            + ")"@,
{
}

/// A status stands for itself, with its texts.
pub proof fn law_status_view(status: PublishStatus)
    ensures
        match status {
            PublishStatus::NotPublished => status@ is NotPublished,
            PublishStatus::Private => status@ is Private,
            PublishStatus::UpToDate { version, has_uncommitted_changes } => status@ == (
            StatusModel::UpToDate { version: version@, has_uncommitted_changes }),
            PublishStatus::Outdated { local_version, published_version } => status@ == (
            StatusModel::Outdated {
                local_version: local_version@,
                published_version: published_version@,
            }),
            PublishStatus::Ahead { local_version, published_version } => status@ == (
            StatusModel::Ahead {
                local_version: local_version@,
                published_version: published_version@,
            }),
        },
{
}

} // verus!
