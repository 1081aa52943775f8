//! What `git` is asked, and what its answers mean.
use crate::command::{decode, lossy_text, texts, CommandOutcome};
use crate::text::{blank, is_blank, white_space};
use vstd::prelude::*;

verus! {

/// The arguments by which `git` lists uncommitted changes.
pub fn status_args() -> (r: Vec<String>)
    ensures
        texts(r@) == seq!["status"@, "--porcelain"@],
{
    let r = vec!["status".to_owned(), "--porcelain".to_owned()];
    assert(texts(r@) =~= seq!["status"@, "--porcelain"@]);
    r
}

/// The arguments by which `git` lists remotes.
pub fn remote_args() -> (r: Vec<String>)
    ensures
        texts(r@) == seq!["remote"@],
{
    let r = vec!["remote".to_owned()];
    assert(texts(r@) =~= seq!["remote"@]);
    r
}

/// The text that a command printed, if it ran and succeeded.
pub open spec fn printed(outcome: CommandOutcome) -> Option<Seq<char>> {
    match outcome {
        CommandOutcome::Exited { success: true, stdout, .. } => Some(lossy_text(stdout@)),
        _ => None,
    }
}

/// The text that `git` printed; nothing where it could not be run or failed.
pub fn git_stdout(outcome: &CommandOutcome) -> (r: Option<String>)
    ensures
        match r {
            Some(text) => printed(*outcome) == Some(text@),
            None => printed(*outcome) is None,
        },
        r is Some <==> (*outcome matches CommandOutcome::Exited { success, .. } && success),
        r matches Some(text) ==> (*outcome matches CommandOutcome::Exited { stdout, .. } && text@
            == lossy_text(stdout@)),
{
    match outcome {
        CommandOutcome::Exited { success, stdout, .. } => {
            if *success {
                Some(decode(stdout))
            } else {
                None
            }
        },
        CommandOutcome::NotRun { .. } => None,
    }
}

/// Whether `git status --porcelain` listed any change.
pub fn lists_changes(status: &str) -> (r: bool)
    ensures
        r == !blank(status@),
{
    !is_blank(status)
}

/// Whether the end of `git status --porcelain` tells of uncommitted changes;
/// it does not where `git` could not be run or failed.
pub fn check_git_uncommitted(outcome: &CommandOutcome) -> (r: bool)
    ensures
        r == (printed(*outcome) matches Some(status) && !blank(status)),
        r <==> (*outcome matches CommandOutcome::Exited { success, stdout, .. } && success
            && exists|i: int|
            0 <= i < lossy_text(stdout@).len() && !white_space(#[trigger] lossy_text(stdout@)[i])),
{
    match git_stdout(outcome) {
        Some(status) => lists_changes(status.as_str()),
        None => false,
    }
}

/// A command printed what it wrote if it ran and succeeded, and else nothing
/// that counts.
pub proof fn law_printed(error: String, success: bool, stdout: Vec<u8>, stderr: Vec<u8>)
    ensures
        printed(CommandOutcome::NotRun { error }) is None,
        printed(CommandOutcome::Exited { success, stdout, stderr }) == (if success {
            Some(lossy_text(stdout@))
        } else {
            None
        }),
{
}

} // verus!
