//! What a handler that serves files from a directory decides: which file a request
//! names, where files are looked for, whether a file is inside that place, and what is
//! answered for what happened when the file was opened and read.

use vstd::prelude::*;

use crate::headers::{add_each, str_pair_views, HeaderView, Headers};
use crate::http_message::{from_utf8, response_of, Body, BodyView, Response, ResponseView, Status};
use crate::text::{ends_with, ends_with_str, starts_with, starts_with_str, str_eq};
use vstd::utf8::{decode_utf8, valid_utf8, encode_utf8_decode_utf8};
use vstd::string::StringSliceAdditionalSpecFns;

verus! {

/// The file a request's path names: `/index.html` for `/`, else the path itself.
pub open spec fn spec_requested_file(path: Seq<char>) -> Seq<char> {
    if path == "/"@ {
        "/index.html"@
    } else {
        path
    }
}

pub fn requested_file(path: &str) -> (r: String)
    ensures
        r@ == spec_requested_file(path@),
{
    if str_eq(path, "/") {
        "/index.html".to_owned()
    } else {
        path.to_owned()
    }
}

/// The directory files are served from: the working directory, then
/// `/http4r-example-app` unless the environment is `test`, then the root.
pub open spec fn spec_served_directory(cwd: Seq<char>, env_name: Seq<char>, root: Seq<char>) -> Seq<char> {
    if env_name != "test"@ {
        cwd + "/http4r-example-app"@ + root
    } else {
        cwd + root
    }
}

pub fn served_directory(cwd: &str, env_name: &str, root: &str) -> (r: String)
    ensures
        r@ == spec_served_directory(cwd@, env_name@, root@),
{
    let mut out = cwd.to_owned();
    if !str_eq(env_name, "test") {
        out.append("/http4r-example-app");
    }
    out.append(root);
    out
}

/// A file's resolved path lies in the directory files are served from.
pub fn inside_directory(canonical_path: &str, directory: &str) -> (r: bool)
    ensures
        r == starts_with(canonical_path@, directory@),
{
    starts_with_str(canonical_path, directory)
}

/// The content type and the caching a file is served with, by its extension.
pub open spec fn spec_file_kind(path: Seq<char>) -> (Seq<char>, Seq<char>) {
    if ends_with(path, ".html"@) {
        ("text/html"@, "private, max-age=10"@)
    } else if ends_with(path, ".js"@) {
        ("text/javascript"@, "private, max-age=30"@)
    } else if ends_with(path, ".css"@) {
        ("text/css"@, "private, max-age=60"@)
    } else {
        ("text/plain"@, "no-store"@)
    }
}

pub fn file_kind(path: &str) -> (r: (&'static str, &'static str))
    ensures
        (r.0@, r.1@) == spec_file_kind(path@),
{
    if ends_with_str(path, ".html") {
        ("text/html", "private, max-age=10")
    } else if ends_with_str(path, ".js") {
        ("text/javascript", "private, max-age=30")
    } else if ends_with_str(path, ".css") {
        ("text/css", "private, max-age=60")
    } else {
        ("text/plain", "no-store")
    }
}

/// The headers a file is served with: its Content-Type and its Cache-Control.
pub open spec fn file_headers(path: Seq<char>) -> Seq<HeaderView> {
    add_each(
        Seq::empty(),
        seq![("Content-Type"@, spec_file_kind(path).0), ("Cache-Control"@, spec_file_kind(path).1)],
    )
}

/// What happened when the file was opened.
#[derive(PartialEq, Eq, Structural, Debug, Clone, Copy)]
pub enum FileOutcome {
    CannotOpen,
    NoMetadata,
    NotAFile,
    /// The file was read; its bytes are handed over beside.
    Read,
}

/// The answer for a file: 404 with the reason when it could not be opened, had no
/// metadata or was not a plain file; else 200 with the headers for its kind, and the
/// file as text when it holds UTF-8, as its bytes (an icon, an image) when it does not.
pub open spec fn spec_file_response(path: Seq<char>, outcome: FileOutcome, contents: Seq<u8>) -> ResponseView {
    match outcome {
        FileOutcome::CannotOpen => response_of(Status::NotFound, Seq::empty(), BodyView::Text("Could not open file."@)),
        FileOutcome::NoMetadata => response_of(
            Status::NotFound,
            Seq::empty(),
            BodyView::Text("Could not get metadata for file."@),
        ),
        FileOutcome::NotAFile => response_of(
            Status::NotFound,
            Seq::empty(),
            BodyView::Text("Not a file but a directory or symlink."@),
        ),
        FileOutcome::Read => if valid_utf8(contents) {
            response_of(Status::OK, file_headers(path), BodyView::Text(decode_utf8(contents)))
        } else {
            response_of(Status::OK, file_headers(path), BodyView::Bytes(contents))
        },
    }
}

pub fn file_response<'a>(path: &str, outcome: FileOutcome, contents: &'a [u8]) -> (r: Response<'a>)
    ensures
        r@ == spec_file_response(path@, outcome, contents@),
{
    match outcome {
        FileOutcome::CannotOpen => Response::not_found(Headers::empty(), Body::BodyString("Could not open file.")),
        FileOutcome::NoMetadata => Response::not_found(
            Headers::empty(),
            Body::BodyString("Could not get metadata for file."),
        ),
        FileOutcome::NotAFile => Response::not_found(
            Headers::empty(),
            Body::BodyString("Not a file but a directory or symlink."),
        ),
        FileOutcome::Read => {
            let (content_type, cache_control) = file_kind(path);
            let pairs = vec![("Content-Type", content_type), ("Cache-Control", cache_control)];
            proof {
                assert(str_pair_views(pairs@) =~= seq![
                    ("Content-Type"@, spec_file_kind(path@).0),
                    ("Cache-Control"@, spec_file_kind(path@).1),
                ]);
            }
            match from_utf8(contents) {
                Some(text) => {
                    proof {
                        encode_utf8_decode_utf8(text@);
                    }
                    Response::ok(Headers::from(pairs), Body::BodyString(text))
                },
                None => Response::ok(Headers::from(pairs), Body::BodyStream(contents)),
            }
        },
    }
}

/// The text of the answer when a file's resolved path leaves the directory files are
/// served from (the answer is `Response::forbidden`).
pub fn outside_directory_text(canonical_path: &str) -> (r: String)
    ensures
        r@ == "Attempted to access a file outside of root: "@ + canonical_path@,
{
    let mut out = "Attempted to access a file outside of root: ".to_owned();
    out.append(canonical_path);
    out
}

} // verus!
