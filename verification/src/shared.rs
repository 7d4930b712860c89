use vstd::prelude::*;

use crate::mime::MimeTable;
use crate::text::{chars_of, string_of, append_chars, decimal, decimal_chars};

verus! {

/// What `{:?}` prints for a string: the string in double quotes with its
/// special characters escaped, as `str`'s `Debug` implementation does.
pub uninterp spec fn debug_text(s: Seq<char>) -> Seq<char>;

/// Formats a string with `str`'s `Debug` implementation (`format!("{:?}", s)`).
/// Trusted: the result is whatever that implementation prints for `s`, named
/// `debug_text(s@)`; its escaping rules are not stated here.
#[verifier::external_body]
fn debug_quote(s: &str) -> (r: String)
    ensures
        r@ == debug_text(s@),
{
    format!("{:?}", s)
}

/// The settings every request handler reads.
pub struct SharedData {
    /// Content types by file extension.
    pub mime: MimeTable,
    /// The directory whose files are served.
    pub serve_dir: String,
    /// Whether the server holds a TLS acceptor.
    pub has_tls_acceptor: bool,
}

/// The one-line description of the shared settings: the number of known
/// extensions, the served directory as its debug text, and whether there is
/// a TLS acceptor.
pub open spec fn description(mime_len: nat, quoted_dir: Seq<char>, has_tls: bool) -> Seq<char> {
    "SharedData { mime: "@ + decimal(mime_len) + ", serve_dir: "@ + quoted_dir
        + ", tls_acceptor: "@ + (if has_tls {
        "\"Some(TlsAcceptor)\""@
    } else {
        "\"None\""@
    }) + " }"@
}

/// The description of settings with `mime_len` known extensions, the served
/// directory already rendered as `quoted_dir`, and a TLS acceptor or not.
pub fn describe_with(mime_len: usize, quoted_dir: &str, has_tls: bool) -> (r: String)
    ensures
        r@ == description(mime_len as nat, quoted_dir@, has_tls),
{
    let mut out = chars_of("SharedData { mime: ");
    append_chars(&mut out, &decimal_chars(mime_len as u64));
    append_chars(&mut out, &chars_of(", serve_dir: "));
    append_chars(&mut out, &chars_of(quoted_dir));
    append_chars(&mut out, &chars_of(", tls_acceptor: "));
    if has_tls {
        append_chars(&mut out, &chars_of("\"Some(TlsAcceptor)\""));
    } else {
        append_chars(&mut out, &chars_of("\"None\""));
    }
    append_chars(&mut out, &chars_of(" }"));
    string_of(&out)
}

impl SharedData {
    /// Describes the settings the way their debug output reads.
    pub fn describe(&self) -> (r: String)
        ensures
            r@ == description(self.mime@.dom().len(), debug_text(self.serve_dir@), self.has_tls_acceptor),
    {
        let n: usize = self.mime.len();
        let quoted = debug_quote(self.serve_dir.as_str());
        describe_with(n, quoted.as_str(), self.has_tls_acceptor)
    }
}

} // verus!
