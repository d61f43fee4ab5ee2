//! Identifiers for projects, categories and tasks.

use rand::distributions::Alphanumeric;
use rand::{thread_rng, Rng};
use vstd::prelude::*;

verus! {

/// How many characters an identifier has.
pub const ID_LEN: usize = 8;

/// Whether `c` is an ASCII letter or digit.
pub open spec fn is_id_char(c: char) -> bool {
    ('a' <= c && c <= 'z') || ('A' <= c && c <= 'Z') || ('0' <= c && c <= '9')
}

/// Whether every character of `text` is an ASCII letter or digit.
pub open spec fn is_alphanumeric(text: Seq<char>) -> bool {
    forall|i: int| 0 <= i < text.len() ==> is_id_char(#[trigger] text[i])
}

/// Whether `id` has the shape of a generated identifier.
pub open spec fn is_id(id: Seq<char>) -> bool {
    id.len() == ID_LEN && is_alphanumeric(id)
}

/// `len` characters sampled from rand's `Alphanumeric` with the thread's
/// generator. Which characters come out is left to chance; each is an ASCII
/// letter or digit, as `Alphanumeric` documents.
#[verifier::external_body]
pub(crate) fn random_alphanumeric(len: usize) -> (text: String)
    ensures
        text@.len() == len,
        is_alphanumeric(text@),
{
    thread_rng().sample_iter(&Alphanumeric).take(len).map(char::from).collect()
}

/// A fresh identifier: `ID_LEN` random letters and digits.
pub fn generate_id() -> (id: String)
    ensures
        is_id(id@),
{
    random_alphanumeric(ID_LEN)
}

} // verus!
