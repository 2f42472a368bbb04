//! Driving a batch of courses: one result per address, in the order given,
//! each course in a directory of its own.

use vstd::prelude::*;
use crate::archive::ExtractError;
use crate::course::{
    archive_file_name, course_view, fetch_course, fetch_outcome, FetchError, PageReply,
};
use crate::page::{extract_spec, CourseDescriptor, CourseDescriptorView, ParseError};
use crate::text::{decimal, decimal_spec, join, push_char};

verus! {

/// What went wrong for one course.
#[derive(Debug, Clone, Copy, PartialEq, Eq, Structural)]
pub enum Failure {
    Fetch(FetchError),
    Extract(ExtractError),
}

/// A failure, tagged with the address of the course that it belongs to.
#[derive(Debug, Clone, PartialEq, Eq)]
pub struct PipelineError {
    pub url: String,
    pub failure: Failure,
}

/// What the fetch hands to the extraction: a course and where its archive is.
#[derive(Debug, Clone, PartialEq, Eq)]
pub struct CourseArchivePair {
    pub course_name: String,
    pub archive_path: String,
}

/// An address and the reply that its request got.
#[derive(Debug, Clone, PartialEq, Eq)]
pub struct Fetched {
    pub url: String,
    pub reply: PageReply,
}

/// An address and what reading its reply gave.
#[derive(Debug, PartialEq, Eq)]
pub struct Outcome {
    pub url: String,
    pub course: Result<CourseDescriptor, FetchError>,
}

/// What to do for one course: where its archive is, and the directory that
/// its content goes to.
#[derive(Debug, Clone, PartialEq, Eq)]
pub struct CoursePlan {
    pub archive: CourseArchivePair,
    pub directory: String,
}

/// Whether a character cannot stand in a directory's name: a control
/// character, a path separator, or one that a common filesystem reserves.
pub open spec fn is_reserved(c: char) -> bool {
    let n = c as u32;
    n < 0x20 || n == 0x7F || c == '/' || c == '\\' || c == ':' || c == '*' || c == '?' || c == '"'
        || c == '<' || c == '>' || c == '|'
}

/// The character that stands for `c` in a directory's name.
pub open spec fn clean_char(c: char) -> char {
    if is_reserved(c) {
        '_'
    } else {
        c
    }
}

/// A title as a directory name: each reserved character becomes an
/// underscore, and an underscore goes in front of a title that is empty,
/// `.` or `..`.
pub open spec fn sanitize_spec(title: Seq<char>) -> Seq<char> {
    let cleaned = title.map_values(|c: char| clean_char(c));
    if title.len() == 0 || title == seq!['.'] || title == seq!['.', '.'] {
        seq!['_'] + cleaned
    } else {
        cleaned
    }
}

/// Tells whether a character cannot stand in a directory's name.
pub fn reserved(c: char) -> (r: bool)
    ensures
        r == is_reserved(c),
{
    let n: u32 = c as u32;
    n < 0x20 || n == 0x7F || c == '/' || c == '\\' || c == ':' || c == '*' || c == '?' || c == '"'
        || c == '<' || c == '>' || c == '|'
}

/// Makes a directory name of a course title.
pub fn sanitize_name(title: &str) -> (r: String)
    ensures
        r@ == sanitize_spec(title@),
{
    let n: usize = title.unicode_len();
    let mut out = String::new();
    let dots_only = (n == 1 && title.get_char(0) == '.') || (n == 2 && title.get_char(0) == '.'
        && title.get_char(1) == '.');
    proof {
        if n == 1 && title@[0] == '.' {
            assert(title@ =~= seq!['.']);
        }
        if n == 2 && title@[0] == '.' && title@[1] == '.' {
            assert(title@ =~= seq!['.', '.']);
        }
        if title@ == seq!['.'] {
            assert(title@.len() == 1 && title@[0] == '.');
        }
        if title@ == seq!['.', '.'] {
            assert(title@.len() == 2 && title@[0] == '.' && title@[1] == '.');
        }
    }
    if n == 0 || dots_only {
        push_char(&mut out, '_');
    }
    let ghost front = out@;
    let ghost cleaned = title@.map_values(|c: char| clean_char(c));
    let mut i: usize = 0;
    assert(out@ =~= front + cleaned.take(0));
    while i < n
        invariant
            i <= n,
            n == title@.len(),
            cleaned == title@.map_values(|c: char| clean_char(c)),
            out@ == front + cleaned.take(i as int),
        decreases n - i,
    {
        let c = title.get_char(i);
        let kept = if reserved(c) {
            '_'
        } else {
            c
        };
        push_char(&mut out, kept);
        assert(cleaned.take(i as int + 1) =~= cleaned.take(i as int).push(kept));
        assert(out@ =~= front + cleaned.take(i as int + 1));
        i += 1;
    }
    assert(cleaned.take(n as int) =~= cleaned);
    assert(front =~= if n == 0 || dots_only {
        seq!['_']
    } else {
        Seq::empty()
    });
    assert(Seq::<char>::empty() + cleaned =~= cleaned);
    out
}

/// A directory name made of a title is not empty, is neither `.` nor `..`,
/// and holds no reserved character.
pub proof fn lemma_sanitized_is_plain(title: Seq<char>)
    ensures
        sanitize_spec(title).len() > 0,
        sanitize_spec(title) != seq!['.'],
        sanitize_spec(title) != seq!['.', '.'],
        forall|i: int|
            0 <= i < sanitize_spec(title).len() ==> !is_reserved(#[trigger] sanitize_spec(title)[i]),
{
    let cleaned = title.map_values(|c: char| clean_char(c));
    let name = sanitize_spec(title);
    assert(seq!['.'].len() == 1 && seq!['.'][0] == '.');
    assert(seq!['.', '.'].len() == 2 && seq!['.', '.'][0] == '.' && seq!['.', '.'][1] == '.');
    assert(!is_reserved('_'));
    assert forall|i: int| 0 <= i < cleaned.len() implies !is_reserved(#[trigger] cleaned[i]) by {
        assert(cleaned[i] == clean_char(title[i]));
    }
    if title.len() == 0 || title == seq!['.'] || title == seq!['.', '.'] {
        assert(name[0] == '_');
        assert forall|i: int| 0 <= i < name.len() implies !is_reserved(#[trigger] name[i]) by {
            if i > 0 {
                assert(name[i] == cleaned[i - 1]);
            }
        }
    } else {
        if name == seq!['.'] {
            assert(cleaned[0] == clean_char(title[0]));
            assert(title =~= seq!['.']);
        }
        if name == seq!['.', '.'] {
            assert(cleaned[0] == clean_char(title[0]));
            assert(cleaned[1] == clean_char(title[1]));
            assert(title =~= seq!['.', '.']);
        }
    }
}

/// `name` with `k` underscores behind it.
pub open spec fn with_suffix(name: Seq<char>, k: nat) -> Seq<char> {
    name + Seq::new(k, |i: int| '_')
}

/// Whether `fresh` is the name that `name` gets beside the names in `taken`:
/// `name` with the fewest underscores behind it that make it differ from
/// all of them.
pub open spec fn is_fresh_name(fresh: Seq<char>, name: Seq<char>, taken: Seq<Seq<char>>) -> bool {
    exists|k: nat|
        fresh == #[trigger] with_suffix(name, k) && !taken.contains(fresh) && forall|j: nat|
            j < k ==> taken.contains(#[trigger] with_suffix(name, j))
}

/// The name and the names in use fix the fresh name.
pub proof fn lemma_fresh_name_is_unique(
    fresh: Seq<char>,
    other: Seq<char>,
    name: Seq<char>,
    taken: Seq<Seq<char>>,
)
    requires
        is_fresh_name(fresh, name, taken),
        is_fresh_name(other, name, taken),
    ensures
        fresh == other,
{
    let k = choose|k: nat|
        fresh == #[trigger] with_suffix(name, k) && !taken.contains(fresh) && forall|j: nat|
            j < k ==> taken.contains(#[trigger] with_suffix(name, j));
    let m = choose|m: nat|
        other == #[trigger] with_suffix(name, m) && !taken.contains(other) && forall|j: nat|
            j < m ==> taken.contains(#[trigger] with_suffix(name, j));
    if k < m {
        assert(taken.contains(with_suffix(name, k)));
    }
    if m < k {
        assert(taken.contains(with_suffix(name, m)));
    }
}

/// The length of the longest name.
pub open spec fn longest(names: Seq<Seq<char>>) -> nat
    decreases names.len(),
{
    if names.len() == 0 {
        0
    } else {
        let rest = longest(names.drop_last());
        if names.last().len() > rest {
            names.last().len()
        } else {
            rest
        }
    }
}

/// No name is longer than the longest.
proof fn lemma_longest(names: Seq<Seq<char>>, i: int)
    requires
        0 <= i < names.len(),
    ensures
        names[i].len() <= longest(names),
    decreases names.len(),
{
    if i < names.len() - 1 {
        lemma_longest(names.drop_last(), i);
    }
}

/// Tells whether `candidate` is one of the names in `taken`.
pub fn is_taken(taken: &Vec<String>, candidate: &String) -> (r: bool)
    ensures
        r == taken.deep_view().contains(candidate@),
{
    let mut i: usize = 0;
    while i < taken.len()
        invariant
            i <= taken.len(),
            forall|j: int| 0 <= j < i ==> taken.deep_view()[j] != candidate@,
        decreases taken.len() - i,
    {
        if taken[i] == *candidate {
            assert(taken.deep_view()[i as int] == candidate@);
            return true;
        }
        i += 1;
    }
    false
}

/// Picks the directory name for `name` beside the names already in use.
pub fn unique_name(name: &str, taken: &Vec<String>) -> (r: String)
    ensures
        is_fresh_name(r@, name@, taken.deep_view()),
{
    let mut candidate = String::from_str(name);
    let ghost mut k: nat = 0;
    let ghost names = taken.deep_view();
    assert(candidate@ =~= with_suffix(name@, 0));
    while is_taken(taken, &candidate)
        invariant
            names == taken.deep_view(),
            candidate@ == with_suffix(name@, k),
            forall|j: nat| j < k ==> names.contains(#[trigger] with_suffix(name@, j)),
        decreases longest(names) + 1 - candidate@.len(),
    {
        proof {
            let i = choose|i: int| 0 <= i < names.len() && names[i] == candidate@;
            lemma_longest(names, i);
        }
        push_char(&mut candidate, '_');
        proof {
            assert(with_suffix(name@, k + 1) =~= with_suffix(name@, k).push('_'));
            k = k + 1;
        }
    }
    candidate
}

/// Whether `result` is what the batch owes for the course at `url`, beside
/// the directories in `taken`: the fetch error tagged with the address; or,
/// for a course, its archive under the title followed by `.zip`, and the
/// fresh directory name made of its title.
pub open spec fn is_result_for(
    result: Result<CoursePlan, PipelineError>,
    url: Seq<char>,
    course: Result<CourseDescriptorView, FetchError>,
    taken: Seq<Seq<char>>,
) -> bool {
    match course {
        Err(e) => result is Err && result->Err_0.url@ == url && result->Err_0.failure
            == Failure::Fetch(e),
        Ok(found) => result is Ok && result->Ok_0.archive.course_name@ == found.name
            && result->Ok_0.archive.archive_path@ == found.name + ".zip"@ && is_fresh_name(
            result->Ok_0.directory@,
            sanitize_spec(found.name),
            taken,
        ),
    }
}

/// Plans one course from what reading its page gave, beside the directories
/// already given to other courses.
pub fn plan_course(url: &str, course: &Result<CourseDescriptor, FetchError>, taken: &Vec<String>) -> (r:
    Result<CoursePlan, PipelineError>)
    ensures
        is_result_for(r, url@, course_view(*course), taken.deep_view()),
{
    match course {
        Err(e) => Err(PipelineError { url: String::from_str(url), failure: Failure::Fetch(*e) }),
        Ok(descriptor) => {
            let course_name = descriptor.name.clone();
            let archive_path = archive_file_name(descriptor.name.as_str());
            let clean = sanitize_name(descriptor.name.as_str());
            let directory = unique_name(clean.as_str(), taken);
            Ok(CoursePlan { archive: CourseArchivePair { course_name, archive_path }, directory })
        },
    }
}

/// The directories that the plans among `results` name, in order.
pub open spec fn directories(results: Seq<Result<CoursePlan, PipelineError>>) -> Seq<Seq<char>>
    decreases results.len(),
{
    if results.len() == 0 {
        Seq::empty()
    } else {
        match results.last() {
            Ok(plan) => directories(results.drop_last()).push(plan.directory@),
            Err(_) => directories(results.drop_last()),
        }
    }
}

/// Whether no two plans among `results` name the same directory.
pub open spec fn directories_differ(results: Seq<Result<CoursePlan, PipelineError>>) -> bool {
    forall|i: int, j: int|
        0 <= i < j < results.len() && (#[trigger] results[i]) is Ok && (#[trigger] results[j]) is Ok
            ==> results[i]->Ok_0.directory@ != results[j]->Ok_0.directory@
}

/// Plans the courses of a batch: one result per outcome, in the outcomes'
/// order. A failed fetch is that course's result and leaves the others as
/// they would be without it; each course gets a directory that no earlier
/// course of the batch has.
pub fn plan_courses(outcomes: &Vec<Outcome>) -> (r: Vec<Result<CoursePlan, PipelineError>>)
    ensures
        r.len() == outcomes.len(),
        forall|i: int|
            0 <= i < r.len() ==> is_result_for(
                #[trigger] r[i],
                outcomes[i].url@,
                course_view(outcomes[i].course),
                directories(r@.take(i)),
            ),
        directories_differ(r@),
{
    let mut out: Vec<Result<CoursePlan, PipelineError>> = Vec::new();
    let mut taken: Vec<String> = Vec::new();
    let mut n: usize = 0;
    assert(taken.deep_view() =~= directories(out@));
    while n < outcomes.len()
        invariant
            n <= outcomes.len(),
            out.len() == n,
            taken.deep_view() == directories(out@),
            forall|i: int|
                0 <= i < n ==> is_result_for(
                    #[trigger] out[i],
                    outcomes[i].url@,
                    course_view(outcomes[i].course),
                    directories(out@.take(i)),
                ),
            forall|i: int|
                0 <= i < n && (#[trigger] out[i]) is Ok ==> directories(out@).contains(
                    out[i]->Ok_0.directory@,
                ),
            directories_differ(out@),
        decreases outcomes.len() - n,
    {
        let ghost before = out@;
        let ghost dirs = directories(out@);
        let result = plan_course(outcomes[n].url.as_str(), &outcomes[n].course, &taken);
        match &result {
            Ok(plan) => {
                taken.push(plan.directory.clone());
                assert(taken.deep_view() =~= dirs.push(plan.directory@));
                assert(!dirs.contains(plan.directory@));
            },
            Err(_) => {},
        }
        out.push(result);
        proof {
            assert(out@.drop_last() =~= before);
            assert(out@.take(n as int) =~= before);
            assert forall|i: int| 0 <= i < n implies out@.take(i) == before.take(i) by {
                assert(out@.take(i) =~= before.take(i));
            }
            assert forall|i: int| 0 <= i < n + 1 && (#[trigger] out[i]) is Ok implies directories(
                out@,
            ).contains(out[i]->Ok_0.directory@) by {
                if i < n {
                    assert(before[i] == out[i]);
                    assert(dirs.contains(before[i]->Ok_0.directory@));
                    let w = choose|w: int|
                        0 <= w < dirs.len() && dirs[w] == before[i]->Ok_0.directory@;
                    assert(directories(out@)[w] == dirs[w]);
                } else {
                    assert(directories(out@).last() == out[i]->Ok_0.directory@);
                }
            }
            assert forall|i: int, j: int|
                0 <= i < j < n + 1 && (#[trigger] out[i]) is Ok && (#[trigger] out[j]) is Ok implies out[i]->Ok_0.directory@
                != out[j]->Ok_0.directory@ by {
                assert(before[i] == out[i]);
                if j < n {
                    assert(before[j] == out[j]);
                } else {
                    assert(dirs.contains(before[i]->Ok_0.directory@));
                }
            }
        }
        n += 1;
    }
    assert(out@.take(n as int) =~= out@);
    out
}

/// Reads each reply of a batch as a course.
pub fn interpret_batch(fetched: &Vec<Fetched>) -> (r: Vec<Outcome>)
    ensures
        r.len() == fetched.len(),
        forall|i: int|
            0 <= i < r.len() ==> (#[trigger] r[i]).url@ == fetched[i].url@ && course_view(
                r[i].course,
            ) == fetch_outcome(
                fetched[i].url@,
                fetched[i].reply.status,
                fetched[i].reply.final_url@,
                extract_spec(fetched[i].reply.body@),
            ),
{
    let mut out: Vec<Outcome> = Vec::new();
    let mut n: usize = 0;
    while n < fetched.len()
        invariant
            n <= fetched.len(),
            out.len() == n,
            forall|i: int|
                0 <= i < n ==> (#[trigger] out[i]).url@ == fetched[i].url@ && course_view(
                    out[i].course,
                ) == fetch_outcome(
                    fetched[i].url@,
                    fetched[i].reply.status,
                    fetched[i].reply.final_url@,
                    extract_spec(fetched[i].reply.body@),
                ),
        decreases fetched.len() - n,
    {
        let item = &fetched[n];
        let course = fetch_course(item.url.as_str(), &item.reply);
        out.push(Outcome { url: item.url.clone(), course });
        n += 1;
    }
    out
}

/// Plans a batch from the replies that its addresses got: one result per
/// item, in the items' order, each course in a directory of its own.
pub fn plan_batch(fetched: &Vec<Fetched>) -> (r: Vec<Result<CoursePlan, PipelineError>>)
    ensures
        r.len() == fetched.len(),
        forall|i: int|
            0 <= i < r.len() ==> is_result_for(
                #[trigger] r[i],
                fetched[i].url@,
                fetch_outcome(
                    fetched[i].url@,
                    fetched[i].reply.status,
                    fetched[i].reply.final_url@,
                    extract_spec(fetched[i].reply.body@),
                ),
                directories(r@.take(i)),
            ),
        directories_differ(r@),
{
    let outcomes = interpret_batch(fetched);
    plan_courses(&outcomes)
}

/// The result of one course once its extraction has ended: success, or the
/// extraction's error tagged with the course's address.
pub fn course_result(url: &str, extraction: Result<(), ExtractError>) -> (r: Result<
    (),
    PipelineError,
>)
    ensures
        match extraction {
            Ok(_) => r is Ok,
            Err(e) => r is Err && r->Err_0.url@ == url@ && r->Err_0.failure == Failure::Extract(e),
        },
{
    match extraction {
        Ok(_) => Ok(()),
        Err(e) => Err(PipelineError { url: String::from_str(url), failure: Failure::Extract(e) }),
    }
}

/// What a failure reads as.
pub open spec fn failure_text(failure: Failure) -> Seq<char> {
    match failure {
        Failure::Fetch(FetchError::HttpStatus(code)) => "the server answered with status "@
            + decimal_spec(code as nat),
        Failure::Fetch(FetchError::AuthRequired) => "the request was sent to the login page"@,
        Failure::Fetch(FetchError::Unparsable(ParseError::MissingTitle)) =>
            "the page has no course title"@,
        Failure::Fetch(FetchError::Unparsable(ParseError::MissingHref)) =>
            "a section link has no address"@,
        Failure::Extract(ExtractError::Corrupt) => "the archive cannot be read"@,
        Failure::Extract(ExtractError::Io) => "the archive's content cannot be written"@,
        Failure::Extract(ExtractError::UnsafePath) =>
            "an archive entry leads out of the course directory"@,
    }
}

/// Puts a failure in words.
pub fn describe_failure(failure: Failure) -> (r: String)
    ensures
        r@ == failure_text(failure),
{
    match failure {
        Failure::Fetch(FetchError::HttpStatus(code)) => {
            let number = decimal(code);
            join("the server answered with status ", number.as_str())
        },
        Failure::Fetch(FetchError::AuthRequired) => String::from_str(
            "the request was sent to the login page",
        ),
        Failure::Fetch(FetchError::Unparsable(ParseError::MissingTitle)) => String::from_str(
            "the page has no course title",
        ),
        Failure::Fetch(FetchError::Unparsable(ParseError::MissingHref)) => String::from_str(
            "a section link has no address",
        ),
        Failure::Extract(ExtractError::Corrupt) => String::from_str("the archive cannot be read"),
        Failure::Extract(ExtractError::Io) => String::from_str(
            "the archive's content cannot be written",
        ),
        Failure::Extract(ExtractError::UnsafePath) => String::from_str(
            "an archive entry leads out of the course directory",
        ),
    }
}

/// The line that reports one course: its address, then `ok` or what failed.
pub open spec fn report_spec(url: Seq<char>, failure: Option<Failure>) -> Seq<char> {
    match failure {
        None => url + ": ok"@,
        Some(f) => url + ": "@ + failure_text(f),
    }
}

/// Writes the line that reports the result of the course at `url`.
pub fn report_line(url: &str, result: &Result<(), PipelineError>) -> (r: String)
    ensures
        r@ == report_spec(
            url@,
            match result {
                Ok(_) => None,
                Err(e) => Some(e.failure),
            },
        ),
{
    match result {
        Ok(_) => join(url, ": ok"),
        Err(e) => {
            let head = join(url, ": ");
            let words = describe_failure(e.failure);
            join(head.as_str(), words.as_str())
        },
    }
}

} // verus!
