use vstd::prelude::*;

use crate::path::{cleaned, clean_path, split_slash, cleaned_path_is_safe};
use crate::text::{chars_of, string_of, append_chars, vec_starts_with, starts_with, decimal, decimal_chars};

verus! {

/// Where a request goes once its path is known.
pub struct RequestTarget {
    /// The cleaned request path.
    pub clean_path: String,
    /// The served directory followed by the cleaned path.
    pub full_path: String,
    /// Whether the cleaned path starts with `/api`.
    pub is_api: bool,
}

/// The prefix of the paths handled by the API handler.
pub open spec fn api_prefix() -> Seq<char> {
    seq!['/', 'a', 'p', 'i']
}

/// The API prefix is the four characters `/api`.
pub proof fn api_prefix_is_slash_api()
    ensures
        api_prefix() == "/api"@,
        api_prefix().len() == 4,
{
    reveal_strlit("/api");
    assert(api_prefix() =~= "/api"@);
}

/// Cleans the request path and places it under the served directory.
pub fn request_target(serve_dir: &str, raw_path: &str) -> (t: RequestTarget)
    ensures
        t.clean_path@ == cleaned(raw_path@),
        t.full_path@ == serve_dir@ + cleaned(raw_path@),
        t.is_api == starts_with(cleaned(raw_path@), api_prefix()),
        t.is_api == (cleaned(raw_path@).len() >= 4 && cleaned(raw_path@).subrange(0, 4) == "/api"@),
{
    let clean = clean_path(raw_path);
    let clean_chars = chars_of(clean.as_str());
    let mut full = chars_of(serve_dir);
    append_chars(&mut full, &clean_chars);
    let mut api: Vec<char> = Vec::new();
    api.push('/');
    api.push('a');
    api.push('p');
    api.push('i');
    assert(api@ =~= api_prefix());
    let is_api = vec_starts_with(&clean_chars, &api);
    proof {
        api_prefix_is_slash_api();
    }
    RequestTarget { clean_path: clean, full_path: string_of(&full), is_api }
}

/// The full path of a request is the served directory followed by the
/// cleaned request path, so no `.` or `..` piece can lead it out of the
/// served directory.
pub proof fn full_path_stays_in_serve_dir(serve_dir: Seq<char>, raw_path: Seq<char>)
    ensures
        (serve_dir + cleaned(raw_path)).take(serve_dir.len() as int) == serve_dir,
        forall|i: int| 0 <= i < split_slash((serve_dir + cleaned(raw_path)).skip(serve_dir.len() as int)).len() ==> {
            let piece = #[trigger] split_slash((serve_dir + cleaned(raw_path)).skip(serve_dir.len() as int))[i];
            piece != seq!['.'] && piece != seq!['.', '.']
        },
{
    cleaned_path_is_safe(raw_path);
    assert((serve_dir + cleaned(raw_path)).take(serve_dir.len() as int) =~= serve_dir);
    assert((serve_dir + cleaned(raw_path)).skip(serve_dir.len() as int) =~= cleaned(raw_path));
}

/// What the file system says a path is.
#[derive(PartialEq, Eq, Structural, Debug, Clone, Copy)]
pub enum PathKind {
    File,
    Directory,
    Other,
}

/// The result of asking the file system about a path.
#[derive(PartialEq, Eq, Structural, Debug, Clone, Copy)]
pub enum StatOutcome {
    /// The path exists and is of the given kind.
    Found(PathKind),
    /// Nothing exists at the path.
    NotFound,
    /// The file system could not answer for another reason.
    Failed,
}

/// How a non-API request is answered.
#[derive(PartialEq, Eq, Structural, Debug, Clone, Copy)]
pub enum Route {
    /// Send the file's contents.
    ServeFile,
    /// Look for an index file in the directory.
    ServeDirectory,
    /// Answer with the error of this status code.
    Fail(u16),
}

/// The answer for each file system outcome: files are served, directories
/// searched for an index, anything else found is a conflict (409), a
/// missing path is not found (404) and any other failure is an internal
/// error (500).
pub open spec fn route_of(outcome: StatOutcome) -> Route {
    match outcome {
        StatOutcome::Found(PathKind::File) => Route::ServeFile,
        StatOutcome::Found(PathKind::Directory) => Route::ServeDirectory,
        StatOutcome::Found(PathKind::Other) => Route::Fail(409),
        StatOutcome::NotFound => Route::Fail(404),
        StatOutcome::Failed => Route::Fail(500),
    }
}

/// Decides how to answer a request from what the file system said.
pub fn route_for(outcome: StatOutcome) -> (r: Route)
    ensures
        r == route_of(outcome),
{
    match outcome {
        StatOutcome::Found(PathKind::File) => Route::ServeFile,
        StatOutcome::Found(PathKind::Directory) => Route::ServeDirectory,
        StatOutcome::Found(PathKind::Other) => Route::Fail(409),
        StatOutcome::NotFound => Route::Fail(404),
        StatOutcome::Failed => Route::Fail(500),
    }
}

/// An error answer: status line, content type and body.
pub struct ErrorReply {
    pub status: u16,
    pub reason: String,
    pub content_type: String,
    pub body: String,
}

/// The reason phrase sent with an error status: the usual phrase for 404,
/// 409 and 500, and for any other code the code followed by `: ` and the
/// error's text.
pub open spec fn reason_for(code: u16, error_text: Seq<char>) -> Seq<char> {
    if code == 404 {
        "Not found"@
    } else if code == 409 {
        "Conflict"@
    } else if code == 500 {
        "Internal Server Error"@
    } else {
        decimal(code as nat) + seq![':', ' '] + error_text
    }
}

/// The body sent with an error status.
pub open spec fn error_body(code: u16) -> Seq<char> {
    if code == 404 {
        "not found"@
    } else if code == 409 {
        "conflict"@
    } else {
        "internal server error"@
    }
}

/// The error answers spelled out: 404, 409 and 500 have fixed reason
/// phrases and bodies whatever the error was; any other code reads as its
/// decimal digits, `: ` and the error's text, with the internal-error body.
pub proof fn error_answers_spelled_out(code: u16, error_text: Seq<char>)
    ensures
        code == 404 ==> reason_for(code, error_text) == "Not found"@ && error_body(code) == "not found"@,
        code == 409 ==> reason_for(code, error_text) == "Conflict"@ && error_body(code) == "conflict"@,
        code == 500 ==> reason_for(code, error_text) == "Internal Server Error"@ && error_body(code) == "internal server error"@,
        code != 404 && code != 409 && code != 500 ==> reason_for(code, error_text) == decimal(code as nat) + ": "@ + error_text
            && error_body(code) == "internal server error"@,
{
    reveal_strlit(": ");
    assert(seq![':', ' '] =~= ": "@);
}

/// The route for every file system outcome, spelled out: only files are
/// served and only directories searched; anything else found answers 409, a
/// missing path 404, and any other failure 500.
pub proof fn routes_spelled_out(outcome: StatOutcome)
    ensures
        route_of(outcome) == Route::ServeFile <==> outcome == StatOutcome::Found(PathKind::File),
        route_of(outcome) == Route::ServeDirectory <==> outcome == StatOutcome::Found(PathKind::Directory),
        route_of(outcome) == Route::Fail(404) <==> outcome == StatOutcome::NotFound,
        route_of(outcome) == Route::Fail(409) <==> outcome == StatOutcome::Found(PathKind::Other),
        route_of(outcome) == Route::Fail(500) <==> outcome == StatOutcome::Failed,
{
}

/// The answer for an error of the given status code, as plain text.
pub fn error_reply(code: u16, error_text: &str) -> (r: ErrorReply)
    ensures
        r.status == code,
        r.reason@ == reason_for(code, error_text@),
        r.content_type@ == "text/plain"@,
        r.body@ == error_body(code),
{
    let content_type = "text/plain".to_owned();
    if code == 404 {
        ErrorReply { status: code, reason: "Not found".to_owned(), content_type, body: "not found".to_owned() }
    } else if code == 409 {
        ErrorReply { status: code, reason: "Conflict".to_owned(), content_type, body: "conflict".to_owned() }
    } else if code == 500 {
        ErrorReply {
            status: code,
            reason: "Internal Server Error".to_owned(),
            content_type,
            body: "internal server error".to_owned(),
        }
    } else {
        let mut reason = decimal_chars(code as u64);
        reason.push(':');
        reason.push(' ');
        append_chars(&mut reason, &chars_of(error_text));
        ErrorReply {
            status: code,
            reason: string_of(&reason),
            content_type,
            body: "internal server error".to_owned(),
        }
    }
}

/// What the API handler sends: a first chunk, a pause, then a last chunk.
pub struct ApiReply {
    pub content_type: String,
    pub first_chunk: String,
    pub pause_ms: u64,
    pub last_chunk: String,
}

/// The API handler's answer for a request on `full_path`.
pub fn api_reply(full_path: &str) -> (r: ApiReply)
    ensures
        r.content_type@ == "text/plain"@,
        r.first_chunk@ == "test write "@ + full_path@ + seq!['\n'],
        r.pause_ms == 1000,
        r.last_chunk@ == "test close"@,
{
    let mut first = chars_of("test write ");
    append_chars(&mut first, &chars_of(full_path));
    first.push('\n');
    ApiReply {
        content_type: "text/plain".to_owned(),
        first_chunk: string_of(&first),
        pause_ms: 1000,
        last_chunk: "test close".to_owned(),
    }
}

} // verus!
