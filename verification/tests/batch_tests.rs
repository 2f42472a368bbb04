use coursefetch::archive::ExtractError;
use coursefetch::batch::{
    course_result, describe_failure, interpret_batch, is_taken, plan_batch, plan_course, plan_courses,
    report_line, reserved, sanitize_name, unique_name, Failure, Fetched, Outcome, PipelineError,
};
use coursefetch::text::{decimal, matches_at};
use coursefetch::course::{
    archive_file_name, detect_login_redirect, fetch_course, reply_error, FetchError, PageReply,
};
use coursefetch::page::{CourseDescriptor, ParseError};

fn page(title: &str) -> String {
    format!(
        "<html><body><h1 class=\"page-header\">{}</h1><ul class=\"topics\"><li class=\"section main\"><div class=\"content\"><h3 class=\"sectionname\"><a href=\"/s/1\">S</a></h3></div></li></ul></body></html>",
        title
    )
}

fn ok_reply(url: &str, title: &str) -> Fetched {
    Fetched {
        url: url.to_string(),
        reply: PageReply { status: 200, final_url: url.to_string(), body: page(title) },
    }
}

#[test]
fn fetch_course_reads_a_successful_reply() {
    let item = ok_reply("https://lms.example/course/1", " Algebra ");
    let course = fetch_course(&item.url, &item.reply).unwrap();
    assert_eq!(course.name, "Algebra");
    assert_eq!(course.sections, vec!["/s/1".to_string()]);
}

#[test]
fn fetch_course_reports_status_first() {
    let url = "https://lms.example/course/1";
    for status in [403u16, 404, 500, 199, 300, 302, 0] {
        let reply = PageReply {
            status,
            final_url: "https://lms.example/login/index.php".to_string(),
            body: page("Algebra"),
        };
        assert_eq!(fetch_course(url, &reply), Err(FetchError::HttpStatus(status)));
    }
    for status in [200u16, 204, 299] {
        let reply = PageReply { status, final_url: url.to_string(), body: page("Algebra") };
        assert!(fetch_course(url, &reply).is_ok());
    }
}

#[test]
fn fetch_course_reports_login_redirect() {
    let reply = PageReply {
        status: 200,
        final_url: "https://lms.example/login/index.php".to_string(),
        body: page("Log in"),
    };
    assert_eq!(fetch_course("https://lms.example/course/1", &reply), Err(FetchError::AuthRequired));
    assert!(detect_login_redirect("https://a/c", "https://a/login/"));
    assert!(!detect_login_redirect("https://a/login/x", "https://a/login/x"));
    assert!(!detect_login_redirect("https://a/c", "https://a/c?x=1"));
}

#[test]
fn fetch_course_reports_unparsable_page() {
    let url = "https://lms.example/course/1";
    let reply = PageReply { status: 200, final_url: url.to_string(), body: "<p>nothing</p>".to_string() };
    assert_eq!(fetch_course(url, &reply), Err(FetchError::Unparsable(ParseError::MissingTitle)));
    let body = "<h1 class=\"page-header\">T</h1><ul class=\"topics\"><li class=\"section main\"><div class=\"content\"><h3 class=\"sectionname\"><a>S</a></h3></div></li></ul>";
    let reply = PageReply { status: 200, final_url: url.to_string(), body: body.to_string() };
    assert_eq!(fetch_course(url, &reply), Err(FetchError::Unparsable(ParseError::MissingHref)));
}

#[test]
fn archive_file_name_appends_extension() {
    assert_eq!(archive_file_name("Algebra I"), "Algebra I.zip");
    assert_eq!(archive_file_name(""), ".zip");
}

#[test]
fn sanitize_name_replaces_reserved_characters() {
    assert_eq!(sanitize_name("Algebra I"), "Algebra I");
    assert_eq!(sanitize_name("a/b\\c:d*e?f\"g<h>i|j"), "a_b_c_d_e_f_g_h_i_j");
    assert_eq!(sanitize_name("tab\there\u{7f}"), "tab_here_");
    assert_eq!(sanitize_name(""), "_");
    assert_eq!(sanitize_name("."), "_.");
    assert_eq!(sanitize_name(".."), "_..");
    assert_eq!(sanitize_name("..."), "...");
    assert_eq!(sanitize_name("../x"), ".._x");
    assert_eq!(sanitize_name("Análisis – 1"), "Análisis – 1");
    assert!(reserved('/'));
    assert!(reserved('\0'));
    assert!(!reserved(' '));
    assert!(!reserved('.'));
}

#[test]
fn unique_name_appends_fewest_underscores() {
    let taken = vec!["A".to_string(), "B".to_string(), "A__".to_string(), "A_".to_string()];
    assert_eq!(unique_name("A", &taken), "A___");
    assert_eq!(unique_name("B", &taken), "B_");
    assert_eq!(unique_name("C", &taken), "C");
    assert_eq!(unique_name("A", &Vec::new()), "A");
    assert!(is_taken(&taken, &"A_".to_string()));
    assert!(!is_taken(&taken, &"a".to_string()));
}

#[test]
fn batch_continues_after_a_failed_fetch() {
    let second = Fetched {
        url: "https://lms.example/course/2".to_string(),
        reply: PageReply {
            status: 403,
            final_url: "https://lms.example/course/2".to_string(),
            body: String::new(),
        },
    };
    let batch = vec![
        ok_reply("https://lms.example/course/1", "Algebra"),
        second,
        ok_reply("https://lms.example/course/3", "Physics"),
    ];
    let results = plan_batch(&batch);
    assert_eq!(results.len(), 3);
    let first = results[0].as_ref().unwrap();
    assert_eq!(first.directory, "Algebra");
    assert_eq!(first.archive.course_name, "Algebra");
    assert_eq!(first.archive.archive_path, "Algebra.zip");
    assert_eq!(
        results[1],
        Err(PipelineError {
            url: "https://lms.example/course/2".to_string(),
            failure: Failure::Fetch(FetchError::HttpStatus(403)),
        })
    );
    let third = results[2].as_ref().unwrap();
    assert_eq!(third.directory, "Physics");
    assert_eq!(third.archive.course_name, "Physics");
    assert_eq!(third.archive.archive_path, "Physics.zip");
}

#[test]
fn batch_gives_colliding_titles_distinct_directories() {
    let batch = vec![
        ok_reply("https://lms.example/course/1", "A/B"),
        ok_reply("https://lms.example/course/2", "A:B"),
        ok_reply("https://lms.example/course/3", "A_B_"),
        ok_reply("https://lms.example/course/4", "A_B"),
    ];
    let results = plan_batch(&batch);
    let dirs: Vec<String> = results.iter().map(|r| r.as_ref().unwrap().directory.clone()).collect();
    assert_eq!(dirs, vec!["A_B", "A_B_", "A_B__", "A_B___"]);
    let archives: Vec<String> =
        results.iter().map(|r| r.as_ref().unwrap().archive.archive_path.clone()).collect();
    assert_eq!(archives, vec!["A/B.zip", "A:B.zip", "A_B_.zip", "A_B.zip"]);
}

#[test]
fn batch_of_nothing_is_empty() {
    assert!(plan_batch(&Vec::new()).is_empty());
}

#[test]
fn plan_course_uses_names_already_taken() {
    let course = Ok(CourseDescriptor { name: "Algebra".to_string(), sections: Vec::new() });
    let plan = plan_course("https://lms.example/course/9", &course, &vec!["Algebra".to_string()]).unwrap();
    assert_eq!(plan.directory, "Algebra_");
    assert_eq!(plan.archive.course_name, "Algebra");
    assert_eq!(plan.archive.archive_path, "Algebra.zip");
    let failed = Err(FetchError::AuthRequired);
    assert_eq!(
        plan_course("https://lms.example/course/9", &failed, &Vec::new()),
        Err(PipelineError {
            url: "https://lms.example/course/9".to_string(),
            failure: Failure::Fetch(FetchError::AuthRequired),
        })
    );
}

#[test]
fn course_result_tags_extraction_errors() {
    assert_eq!(course_result("u", Ok(())), Ok(()));
    for e in [ExtractError::Corrupt, ExtractError::Io, ExtractError::UnsafePath] {
        assert_eq!(
            course_result("https://lms.example/course/2", Err(e)),
            Err(PipelineError { url: "https://lms.example/course/2".to_string(), failure: Failure::Extract(e) })
        );
    }
}

#[test]
fn decimal_writes_numbers() {
    assert_eq!(decimal(0), "0");
    assert_eq!(decimal(7), "7");
    assert_eq!(decimal(10), "10");
    assert_eq!(decimal(403), "403");
    assert_eq!(decimal(65535), "65535");
    for n in [9u16, 99, 100, 1234, 50005] {
        assert_eq!(decimal(n), n.to_string());
    }
}

#[test]
fn matches_at_checks_one_position() {
    assert!(matches_at("abcabc", "abc", 3));
    assert!(matches_at("abc", "", 3));
    assert!(!matches_at("abc", "", 4));
    assert!(!matches_at("abcabc", "abc", 4));
    assert!(!matches_at("abcabc", "abd", 0));
}

#[test]
fn failures_are_put_in_words() {
    assert_eq!(
        describe_failure(Failure::Fetch(FetchError::HttpStatus(403))),
        "the server answered with status 403"
    );
    assert_eq!(
        describe_failure(Failure::Fetch(FetchError::AuthRequired)),
        "the request was sent to the login page"
    );
    assert_eq!(
        describe_failure(Failure::Fetch(FetchError::Unparsable(ParseError::MissingTitle))),
        "the page has no course title"
    );
    assert_eq!(
        describe_failure(Failure::Fetch(FetchError::Unparsable(ParseError::MissingHref))),
        "a section link has no address"
    );
    assert_eq!(describe_failure(Failure::Extract(ExtractError::Corrupt)), "the archive cannot be read");
    assert_eq!(
        describe_failure(Failure::Extract(ExtractError::Io)),
        "the archive's content cannot be written"
    );
    assert_eq!(
        describe_failure(Failure::Extract(ExtractError::UnsafePath)),
        "an archive entry leads out of the course directory"
    );
}

#[test]
fn report_line_names_the_address() {
    assert_eq!(report_line("https://a/1", &Ok(())), "https://a/1: ok");
    let failed = Err(PipelineError {
        url: "https://a/2".to_string(),
        failure: Failure::Fetch(FetchError::HttpStatus(500)),
    });
    assert_eq!(report_line("https://a/2", &failed), "https://a/2: the server answered with status 500");
}

#[test]
fn reply_error_judges_status_then_address() {
    assert_eq!(reply_error("https://a/c", 403, "https://a/c"), Some(FetchError::HttpStatus(403)));
    assert_eq!(reply_error("https://a/c", 500, "https://a/login/index.php"), Some(FetchError::HttpStatus(500)));
    assert_eq!(reply_error("https://a/c", 200, "https://a/login/index.php"), Some(FetchError::AuthRequired));
    assert_eq!(reply_error("https://a/c", 200, "https://a/c"), None);
    assert_eq!(reply_error("https://a/c", 299, "https://a/other"), None);
}

#[test]
fn plan_courses_keeps_order_and_separates_directories() {
    let course = |name: &str| Ok(CourseDescriptor { name: name.to_string(), sections: Vec::new() });
    let outcomes = vec![
        Outcome { url: "u1".to_string(), course: course("Same") },
        Outcome { url: "u2".to_string(), course: Err(FetchError::Unparsable(ParseError::MissingHref)) },
        Outcome { url: "u3".to_string(), course: course("Same") },
        Outcome { url: "u4".to_string(), course: course("") },
    ];
    let results = plan_courses(&outcomes);
    assert_eq!(results.len(), 4);
    assert_eq!(results[0].as_ref().unwrap().directory, "Same");
    assert_eq!(
        results[1],
        Err(PipelineError {
            url: "u2".to_string(),
            failure: Failure::Fetch(FetchError::Unparsable(ParseError::MissingHref)),
        })
    );
    assert_eq!(results[2].as_ref().unwrap().directory, "Same_");
    assert_eq!(results[2].as_ref().unwrap().archive.archive_path, "Same.zip");
    assert_eq!(results[3].as_ref().unwrap().directory, "_");
}

#[test]
fn interpret_batch_reads_each_reply() {
    let batch = vec![
        ok_reply("https://lms.example/course/1", " Algebra "),
        Fetched {
            url: "https://lms.example/course/2".to_string(),
            reply: PageReply { status: 404, final_url: "https://lms.example/course/2".to_string(), body: String::new() },
        },
    ];
    let outcomes = interpret_batch(&batch);
    assert_eq!(
        outcomes,
        vec![
            Outcome {
                url: "https://lms.example/course/1".to_string(),
                course: Ok(CourseDescriptor { name: "Algebra".to_string(), sections: vec!["/s/1".to_string()] }),
            },
            Outcome { url: "https://lms.example/course/2".to_string(), course: Err(FetchError::HttpStatus(404)) },
        ]
    );
}
