use vstd::prelude::*;
use vstd::utf8::{valid_utf8, encode_utf8};

use crate::text::{chars_of, string_of, append_chars};

verus! {

/// The start-up snapshot handed to the script runtime: none, so the runtime
/// starts from its built-in state.
pub fn _create_snapshot() -> (r: Vec<u8>)
    ensures
        r@.len() == 0,
{
    Vec::new()
}

/// Reads bytes as UTF-8 text (`std::str::from_utf8`).
/// Trusted: the documentation says it succeeds exactly when the bytes are
/// valid UTF-8, and the text then has exactly those bytes.
#[verifier::external_body]
fn utf8_text(bytes: &[u8]) -> (r: Option<&str>)
    ensures
        r.is_some() == valid_utf8(bytes@),
        r matches Some(s) ==> encode_utf8(s@) == bytes@,
{
    std::str::from_utf8(bytes).ok()
}

/// The script to run from its source bytes: the text they encode when they
/// are valid UTF-8, the empty script otherwise.
pub fn script_text(source: &[u8]) -> (r: String)
    ensures
        valid_utf8(source@) ==> encode_utf8(r@) == source@,
        !valid_utf8(source@) ==> r@.len() == 0,
{
    match utf8_text(source) {
        Some(s) => s.to_owned(),
        None => String::new(),
    }
}

/// The message of the error raised when a script's value cannot be read
/// back: `Cannot deserialize value: ` and the error's details.
pub fn deserialize_error_message(detail: &str) -> (r: String)
    ensures
        r@ == "Cannot deserialize value: "@ + detail@,
{
    let mut m = chars_of("Cannot deserialize value: ");
    append_chars(&mut m, &chars_of(detail));
    string_of(&m)
}

/// The message of the error raised when a script fails to run:
/// `Evaling error: ` and the error's details.
pub fn eval_error_message(detail: &str) -> (r: String)
    ensures
        r@ == "Evaling error: "@ + detail@,
{
    let mut m = chars_of("Evaling error: ");
    append_chars(&mut m, &chars_of(detail));
    string_of(&m)
}

} // verus!
