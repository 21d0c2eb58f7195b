use examfinder::error::ParseError;
use examfinder::exam::{Exam, Kind, Source, Term};
use examfinder::scraper::mathsoc_services::{
    convert_exam, convert_exams, find_entry, flatten_subjects, next_stage, parse_path,
    CourseEntry, NextStage, RawExam, Subject, BASE_URL, COURSE_KEY_PREFIX, DIRECTORY_KEY,
    EXAMS_URL, SUBJECTS_URL,
};

fn raw(term: &str, kind: &str, exam_url: &str, solution_url: &str) -> RawExam {
    RawExam {
        term: term.to_string(),
        kind: kind.to_string(),
        exam_url: exam_url.to_string(),
        solution_url: solution_url.to_string(),
    }
}

fn entry(course: &str, subject: &str, number: i32) -> CourseEntry {
    CourseEntry { course: course.to_string(), subject: subject.to_string(), number }
}

fn directory() -> Vec<CourseEntry> {
    flatten_subjects(&vec![
        Subject { code: "CS".to_string(), courses: vec![135, 136, 240] },
        Subject { code: "EMPTY".to_string(), courses: vec![] },
        Subject { code: "MATH".to_string(), courses: vec![135] },
    ])
}

#[test]
fn path_becomes_an_address() {
    assert_eq!(parse_path(""), None);
    assert_eq!(
        parse_path("/media/exam.pdf"),
        Some("https://services.mathsoc.uwaterloo.ca/media/exam.pdf".to_string())
    );
    assert_eq!(parse_path(" "), Some("https://services.mathsoc.uwaterloo.ca ".to_string()));
}

#[test]
fn subjects_become_a_directory() {
    assert_eq!(
        directory(),
        vec![
            entry("CS135", "CS", 135),
            entry("CS136", "CS", 136),
            entry("CS240", "CS", 240),
            entry("MATH135", "MATH", 135),
        ]
    );
    assert_eq!(flatten_subjects(&vec![]), vec![]);
}

#[test]
fn course_numbers_are_written_in_decimal() {
    let listed = flatten_subjects(&vec![Subject {
        code: "X".to_string(),
        courses: vec![0, 7, 10, 100, -5, i32::MAX, i32::MIN],
    }]);
    let codes: Vec<&str> = listed.iter().map(|e| e.course.as_str()).collect();
    assert_eq!(codes, ["X0", "X7", "X10", "X100", "X-5", "X2147483647", "X-2147483648"]);
}

#[test]
fn course_is_looked_up_by_its_code() {
    let dir = directory();
    assert_eq!(find_entry(&dir, "CS136"), Some(&entry("CS136", "CS", 136)));
    assert_eq!(find_entry(&dir, "MATH135"), Some(&entry("MATH135", "MATH", 135)));
    assert_eq!(find_entry(&dir, "CS137"), None);
    assert_eq!(find_entry(&dir, "cs136"), None);
    assert_eq!(find_entry(&dir, ""), None);
    assert_eq!(find_entry(&vec![], "CS136"), None);
}

#[test]
fn later_entry_of_a_code_replaces_an_earlier_one() {
    let dir = flatten_subjects(&vec![
        Subject { code: "CS1".to_string(), courses: vec![35] },
        Subject { code: "CS".to_string(), courses: vec![135] },
    ]);
    assert_eq!(find_entry(&dir, "CS135"), Some(&entry("CS135", "CS", 135)));
}

#[test]
fn absent_course_ends_the_query_without_a_second_stage() {
    assert_eq!(next_stage(&directory(), "PHYS121"), NextStage::Done(vec![]));
    assert_eq!(next_stage(&directory(), ""), NextStage::Done(vec![]));
    assert_eq!(next_stage(&vec![], "CS135"), NextStage::Done(vec![]));
}

#[test]
fn present_course_is_asked_for_by_subject_and_number() {
    assert_eq!(
        next_stage(&directory(), "CS135"),
        NextStage::AskCourse {
            cache_key: "mathsoc_services:course:CS135".to_string(),
            url: "https://services.mathsoc.uwaterloo.ca/university/exams/?subject=CS&course=135"
                .to_string(),
        }
    );
}

#[test]
fn reported_exam_becomes_a_record() {
    assert_eq!(
        convert_exam(&raw("Winter 2021", "Midterm", "/e.pdf", "/s.pdf")),
        Ok(Exam {
            year: 2021,
            term: Term::Winter,
            kind: Kind::Midterm,
            source: Source::MathSocServices,
            exam_url: Some("https://services.mathsoc.uwaterloo.ca/e.pdf".to_string()),
            solution_url: Some("https://services.mathsoc.uwaterloo.ca/s.pdf".to_string()),
        })
    );
    assert_eq!(
        convert_exam(&raw("f -12", "Quiz", "", "")),
        Ok(Exam {
            year: -12,
            term: Term::Fall,
            kind: Kind::Quiz,
            source: Source::MathSocServices,
            exam_url: None,
            solution_url: None,
        })
    );
}

#[test]
fn reported_exam_that_cannot_be_read_is_an_error() {
    assert_eq!(convert_exam(&raw("Winter2021", "Final", "", "")), Err(ParseError::UnsplittableTerm));
    assert_eq!(convert_exam(&raw("", "Final", "", "")), Err(ParseError::UnsplittableTerm));
    assert_eq!(
        convert_exam(&raw(" 2021", "Final", "", "")),
        Err(ParseError::InvalidTerm(String::new()))
    );
    assert_eq!(
        convert_exam(&raw("Autumn 2021", "Final", "", "")),
        Err(ParseError::InvalidTerm("Autumn".to_string()))
    );
    assert_eq!(convert_exam(&raw("Winter  2021", "Final", "", "")), Err(ParseError::InvalidYear));
    assert_eq!(convert_exam(&raw("Winter 2021 ", "Final", "", "")), Err(ParseError::InvalidYear));
    assert_eq!(convert_exam(&raw("Winter ", "Final", "", "")), Err(ParseError::InvalidYear));
    assert_eq!(
        convert_exam(&raw("Winter 2147483648", "Final", "", "")),
        Err(ParseError::InvalidYear)
    );
    assert_eq!(
        convert_exam(&raw("Winter 2021", "final", "", "")),
        Err(ParseError::InvalidKind("final".to_string()))
    );
    assert_eq!(convert_exam(&raw("Winter x", "final", "", "")), Err(ParseError::InvalidYear));
}

#[test]
fn reported_exams_are_read_in_order_and_fail_together() {
    let good = vec![raw("Fall 2020", "Final", "/a", ""), raw("Spring 2021", "Test", "", "/b")];
    let exams = convert_exams(&good).unwrap();
    assert_eq!(exams.len(), 2);
    assert_eq!(exams[0], convert_exam(&good[0]).unwrap());
    assert_eq!(exams[1], convert_exam(&good[1]).unwrap());
    assert_eq!(convert_exams(&vec![]), Ok(vec![]));
    let bad = vec![
        raw("Fall 2020", "Final", "/a", ""),
        raw("Fall", "Final", "", ""),
        raw("Fall 2020", "Oral", "", ""),
    ];
    assert_eq!(convert_exams(&bad), Err(ParseError::UnsplittableTerm));
}

#[test]
fn addresses_and_keys_of_the_second_source() {
    assert_eq!(SUBJECTS_URL, "https://services.mathsoc.uwaterloo.ca/university/courses/");
    assert_eq!(EXAMS_URL, "https://services.mathsoc.uwaterloo.ca/university/exams/");
    assert_eq!(BASE_URL, "https://services.mathsoc.uwaterloo.ca");
    assert_eq!(DIRECTORY_KEY, "mathsoc_services:courses");
    assert_eq!(COURSE_KEY_PREFIX, "mathsoc_services:course:");
}
