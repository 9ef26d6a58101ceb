//! Account-request checks: the user-name length rule and email
//! normalization.

use vstd::prelude::*;

verus! {

/// The shortest accepted user name, in characters.
pub const MIN_NAME_LENGTH: usize = 5;

/// The longest accepted user name, in characters.
pub const MAX_NAME_LENGTH: usize = 35;

/// What `lowercase` returns: the lowercase form of a string, as a function
/// of its characters alone.
pub uninterp spec fn lower_of(s: Seq<char>) -> Seq<char>;

/// Relies on str::to_lowercase: the Unicode-lowercased string. The result
/// depends on the input's characters alone, and an empty string stays
/// empty.
#[verifier::external_body]
fn lowercase(s: &str) -> (r: String)
    ensures
        r@ == lower_of(s@),
        s@.len() == 0 ==> r@.len() == 0,
{
    s.to_lowercase()
}

/// Accepts a user name exactly when its length in characters lies in the
/// accepted range; otherwise reports the rule.
pub fn check_user_name(name: &str) -> (r: Result<(), String>)
    ensures
        r is Ok <==> MIN_NAME_LENGTH <= name@.len() <= MAX_NAME_LENGTH,
{
    let n = name.unicode_len();
    if MIN_NAME_LENGTH <= n && n <= MAX_NAME_LENGTH {
        Ok(())
    } else {
        Err(
            "Имя слишком короткое. Оно должно быть не менее 5 символов и не более 35.".to_string(),
        )
    }
}

/// Lowercases an email address, as sign-up and sign-in do before storing
/// or looking one up.
pub fn normalize_email(email: &str) -> (r: String)
    ensures
        r@ == lower_of(email@),
{
    lowercase(email)
}

} // verus!
