//! What came of running another program.
use vstd::prelude::*;
use vstd::utf8::{decode_utf8, valid_utf8};

verus! {

/// The end of a command: it could not be run, or it ended and left its output.
#[derive(Debug)]
pub enum CommandOutcome {
    NotRun { error: String },
    Exited { success: bool, stdout: Vec<u8>, stderr: Vec<u8> },
}

/// The text that `String::from_utf8_lossy` makes of `bytes`.
pub uninterp spec fn lossy_text(bytes: Seq<u8>) -> Seq<char>;

/// `String::from_utf8_lossy`. Not proved here: valid UTF-8 is decoded as it
/// is, and in any case the text depends on the bytes alone and has no more
/// characters than there are bytes. Where the replacement characters for
/// invalid bytes go is left unsaid.
#[verifier::external_body]
pub(crate) fn decode(bytes: &Vec<u8>) -> (r: String)
    ensures
        r@ == lossy_text(bytes@),
        valid_utf8(bytes@) ==> r@ == decode_utf8(bytes@),
        r@.len() <= bytes@.len(),
{
    String::from_utf8_lossy(bytes).into_owned()
}

/// The texts `words` as owned arguments of a command.
pub open spec fn texts(words: Seq<String>) -> Seq<Seq<char>> {
    words.map_values(|w: String| w@)
}

/// The texts of the words are theirs, one for each, in order.
pub proof fn law_texts(words: Seq<String>, i: int)
    ensures
        texts(words).len() == words.len(),
        0 <= i < words.len() ==> texts(words)[i] == words[i]@,
{
}

} // verus!
