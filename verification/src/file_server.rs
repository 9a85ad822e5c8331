//! Serving files below a base directory: where a file lies, and what is
//! answered once the file was read or written. Reading and writing the file
//! is left to the caller.

use crate::request::{Request, RequestView};
use crate::response_writer::{upsert, Response, ResponseWriter};
use crate::router::with_status;
use crate::status_code_registry::ReasonPhrase;
use crate::text::decimal;
use std::path::Path;
use vstd::prelude::*;

verus! {

/// The path is not below the base directory.
#[derive(Debug, Clone, Copy, PartialEq, Eq, Structural)]
pub struct InvalidPath;

impl InvalidPath {
    pub fn to_string(&self) -> (s: String)
        ensures
            s@ == "invalid path"@,
    {
        "invalid path".to_owned()
    }
}

/// `path` adjoined to `base` by the rules of the platform's paths.
pub uninterp spec fn joined_path(base: Seq<char>, path: Seq<char>) -> Seq<char>;

/// `path` in its shortest equal form, as `path_clean` gives it.
pub uninterp spec fn cleaned_path(path: Seq<char>) -> Seq<char>;

/// `path` without the leading components `prefix`, where it begins with
/// them.
pub uninterp spec fn path_without_prefix(path: Seq<char>, prefix: Seq<char>) -> Option<Seq<char>>;

/// Whether the components of `path` begin with the components of `base`.
pub uninterp spec fn path_has_prefix(path: Seq<char>, base: Seq<char>) -> bool;

/// `std::path::Path::join`: `base` with `path` adjoined. The result depends
/// on the two paths alone.
#[verifier::external_body]
fn path_join(base: &str, path: &str) -> (r: String)
    ensures
        r@ == joined_path(base@, path@),
{
    Path::new(base).join(path).to_string_lossy().into_owned()
}

/// `path_clean::clean`: the path without `.` components, without `..`
/// components that have a component before them to cancel, and without
/// repeated separators; `.` for what would be empty. It works on the text of
/// the path and does not look at the file system.
#[verifier::external_body]
fn clean_path(path: &str) -> (r: String)
    ensures
        r@ == cleaned_path(path@),
{
    path_clean::clean(path).to_string_lossy().into_owned()
}

/// `std::path::Path::strip_prefix`: the path that, joined onto `prefix`,
/// gives `path`; nothing where `path` does not begin with `prefix`.
#[verifier::external_body]
fn path_strip_prefix(path: &str, prefix: &str) -> (r: Option<String>)
    ensures
        match r {
            Some(rest) => path_without_prefix(path@, prefix@) == Some(rest@),
            None => path_without_prefix(path@, prefix@) is None,
        },
{
    match Path::new(path).strip_prefix(prefix) {
        Ok(rest) => Some(rest.to_string_lossy().into_owned()),
        Err(_) => None,
    }
}

/// `std::path::Path::starts_with`: whether `base` is a prefix of `path`,
/// whole components considered.
#[verifier::external_body]
fn path_starts_with(path: &str, base: &str) -> (r: bool)
    ensures
        r == path_has_prefix(path@, base@),
{
    Path::new(path).starts_with(base)
}

/// The base directory as paths below it begin: without a leading `./`.
pub open spec fn anchor(base: Seq<char>) -> Seq<char> {
    match path_without_prefix(base, "./"@) {
        Some(stripped) => stripped,
        None => base,
    }
}

/// The path that `suffix` names below `base`, in its shortest form.
pub open spec fn resolved(base: Seq<char>, suffix: Seq<char>) -> Seq<char> {
    cleaned_path(joined_path(base, suffix))
}

/// The path `path` where it lies inside the base directory, and the error
/// where it does not.
pub fn confine(path: String, inside: bool) -> (r: Result<String, InvalidPath>)
    ensures
        r == if inside {
            Ok::<String, InvalidPath>(path)
        } else {
            Err::<String, InvalidPath>(InvalidPath)
        },
{
    if !inside {
        return Err(InvalidPath);
    }
    Ok(path)
}

/// The path of the file that `suffix` names below `base_path`. The path is
/// given in its shortest form, and only where that form still begins with
/// the base directory: a suffix that leads out of it is an error.
pub fn build_path(base_path: &str, suffix: &str) -> (r: Result<String, InvalidPath>)
    ensures
        match r {
            Ok(path) => path@ == resolved(base_path@, suffix@) && path_has_prefix(
                path@,
                anchor(base_path@),
            ),
            Err(_) => !path_has_prefix(resolved(base_path@, suffix@), anchor(base_path@)),
        },
{
    let joined = path_join(base_path, suffix);
    let path = clean_path(joined.as_str());
    let inside = match path_strip_prefix(base_path, "./") {
        Some(stripped) => path_starts_with(path.as_str(), stripped.as_str()),
        None => path_starts_with(path.as_str(), base_path),
    };
    confine(path, inside)
}

/// Where the file of a request lies: the path that the request's parameter
/// names below the base directory, if it has a parameter and the path stays
/// inside.
pub open spec fn file_of(base: Seq<char>, r: RequestView) -> Option<Seq<char>> {
    match r.param {
        None => None,
        Some(suffix) => if path_has_prefix(resolved(base, suffix), anchor(base)) {
            Some(resolved(base, suffix))
        } else {
            None
        },
    }
}

/// The path of the file that the request names below `base_path`. Where
/// the request names none, the response is `400 Bad Request`.
pub fn locate(base_path: &str, w: &mut ResponseWriter, r: &Request) -> (path: Option<String>)
    ensures
        match file_of(base_path@, r@) {
            Some(file) => path matches Some(p) && p@ == file && final(w)@ == old(w)@,
            None => path is None && final(w)@ == with_status(old(w)@, ReasonPhrase::BadRequest),
        },
{
    let suffix = match r.get_param() {
        Some(suffix) => suffix,
        None => {
            w.set_reason_phrase(ReasonPhrase::BadRequest);
            return None;
        },
    };
    match build_path(base_path, suffix) {
        Ok(path) => Some(path),
        Err(_) => {
            w.set_reason_phrase(ReasonPhrase::BadRequest);
            None
        },
    }
}

/// How the reading of a file ended.
#[derive(Debug)]
pub enum ReadOutcome {
    /// The contents of the file.
    Contents(Vec<u8>),
    /// There is no such file.
    NotFound,
    /// The file could not be read for another reason.
    Failed,
}

/// How the writing of a file ended.
#[derive(Debug, Clone, Copy, PartialEq, Eq, Structural)]
pub enum WriteOutcome {
    /// The file holds the body.
    Written,
    /// The directories above the file could not be made, or the file could
    /// not be written.
    Failed,
}

/// The answer to a request for a file: `200 OK` with the contents as
/// `application/octet-stream`, `404 Not Found` where there is no such file,
/// `500 Internal Server Error` where reading failed.
pub fn answer_read(w: &mut ResponseWriter, outcome: ReadOutcome)
    ensures
        final(w)@ == match outcome {
            ReadOutcome::Contents(contents) => Response {
                headers: upsert(
                    upsert(old(w)@.headers, "Content-Type"@, "application/octet-stream"@),
                    "Content-Length"@,
                    decimal(contents@.len()),
                ),
                body: contents@,
                ..with_status(old(w)@, ReasonPhrase::OK)
            },
            ReadOutcome::NotFound => with_status(old(w)@, ReasonPhrase::NotFound),
            ReadOutcome::Failed => with_status(old(w)@, ReasonPhrase::InternalServerError),
        },
{
    match outcome {
        ReadOutcome::Contents(contents) => {
            w.set_reason_phrase(ReasonPhrase::OK);
            w.set_body(contents, "application/octet-stream");
        },
        ReadOutcome::NotFound => {
            w.set_reason_phrase(ReasonPhrase::NotFound);
        },
        ReadOutcome::Failed => {
            w.set_reason_phrase(ReasonPhrase::InternalServerError);
        },
    }
}

/// The answer to a request to write a file: `201 Created` where the file
/// was written, `500 Internal Server Error` where it was not.
pub fn answer_write(w: &mut ResponseWriter, outcome: WriteOutcome)
    ensures
        final(w)@ == match outcome {
            WriteOutcome::Written => with_status(old(w)@, ReasonPhrase::Created),
            WriteOutcome::Failed => with_status(old(w)@, ReasonPhrase::InternalServerError),
        },
{
    match outcome {
        WriteOutcome::Written => {
            w.set_reason_phrase(ReasonPhrase::Created);
        },
        WriteOutcome::Failed => {
            w.set_reason_phrase(ReasonPhrase::InternalServerError);
        },
    }
}

} // verus!
