//! Turning the reply to a course-page request into a course descriptor.

use vstd::prelude::*;
use crate::page::{extract, extract_spec, CourseDescriptor, CourseDescriptorView, ParseError};
use crate::text::{contains, contains_text, join};

verus! {

/// Why a course could not be fetched.
#[derive(Debug, Clone, Copy, PartialEq, Eq, Structural)]
pub enum FetchError {
    /// The server answered with a status outside the success range.
    HttpStatus(u16),
    /// The request was redirected to the login page.
    AuthRequired,
    /// The page came, and no course could be read from it.
    Unparsable(ParseError),
}

/// What came back from a GET request, once redirects were followed.
#[derive(Debug, Clone, PartialEq, Eq)]
pub struct PageReply {
    pub status: u16,
    pub final_url: String,
    pub body: String,
}

/// The success range of HTTP status codes.
pub open spec fn is_success(status: u16) -> bool {
    200 <= status < 300
}

/// The path segment by which the login page is known.
pub open spec fn login_marker() -> Seq<char> {
    "/login/"@
}

/// Whether a request for `requested` ended on the login page: the reply came
/// from another address, one that holds the login segment.
pub open spec fn is_login_redirect(requested: Seq<char>, final_url: Seq<char>) -> bool {
    final_url != requested && contains_text(final_url, login_marker())
}

/// Tells whether a request for `requested` ended on the login page.
pub fn detect_login_redirect(requested: &str, final_url: &str) -> (r: bool)
    ensures
        r == is_login_redirect(requested@, final_url@),
{
    let same = String::from_str(requested) == String::from_str(final_url);
    !same && contains(final_url, "/login/")
}

/// What a reply's status and address say before its body is read: a status
/// outside the success range is reported first, then a login redirect.
pub open spec fn reply_error_spec(requested: Seq<char>, status: u16, final_url: Seq<char>) -> Option<
    FetchError,
> {
    if !is_success(status) {
        Some(FetchError::HttpStatus(status))
    } else if is_login_redirect(requested, final_url) {
        Some(FetchError::AuthRequired)
    } else {
        None
    }
}

/// Judges a reply by its status and address alone.
pub fn reply_error(requested: &str, status: u16, final_url: &str) -> (r: Option<FetchError>)
    ensures
        r == reply_error_spec(requested@, status, final_url@),
{
    if status < 200 || status >= 300 {
        Some(FetchError::HttpStatus(status))
    } else if detect_login_redirect(requested, final_url) {
        Some(FetchError::AuthRequired)
    } else {
        None
    }
}

/// What a reply means, given what reading its body as a course page gives:
/// the error that its status or address shows, else the course, else why
/// the page cannot be read.
pub open spec fn fetch_outcome(
    requested: Seq<char>,
    status: u16,
    final_url: Seq<char>,
    parsed: Result<CourseDescriptorView, ParseError>,
) -> Result<CourseDescriptorView, FetchError> {
    match reply_error_spec(requested, status, final_url) {
        Some(e) => Err(e),
        None => match parsed {
            Ok(course) => Ok(course),
            Err(e) => Err(FetchError::Unparsable(e)),
        },
    }
}

/// The outcome of a fetch as plain values.
pub open spec fn course_view(r: Result<CourseDescriptor, FetchError>) -> Result<
    CourseDescriptorView,
    FetchError,
> {
    match r {
        Ok(course) => Ok(course@),
        Err(e) => Err(e),
    }
}

/// Reads the reply to the request for `course_url` as a course.
pub fn fetch_course(course_url: &str, reply: &PageReply) -> (r: Result<
    CourseDescriptor,
    FetchError,
>)
    ensures
        course_view(r) == fetch_outcome(
            course_url@,
            reply.status,
            reply.final_url@,
            extract_spec(reply.body@),
        ),
{
    match reply_error(course_url, reply.status, reply.final_url.as_str()) {
        Some(e) => Err(e),
        None => match extract(reply.body.as_str()) {
            Ok(course) => Ok(course),
            Err(e) => Err(FetchError::Unparsable(e)),
        },
    }
}

/// The name of the file that a course's archive is downloaded to.
pub fn archive_file_name(title: &str) -> (r: String)
    ensures
        r@ == title@ + ".zip"@,
{
    join(title, ".zip")
}

/// A status outside the success range is reported as such, whatever the
/// reply's address and body are.
pub proof fn lemma_status_comes_first(
    requested: Seq<char>,
    status: u16,
    final_url: Seq<char>,
    parsed: Result<CourseDescriptorView, ParseError>,
)
    requires
        !is_success(status),
    ensures
        fetch_outcome(requested, status, final_url, parsed) == Err::<
            CourseDescriptorView,
            FetchError,
        >(FetchError::HttpStatus(status)),
{
}

} // verus!
