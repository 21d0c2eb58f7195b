//! The second source: a service that answers in two stages, first with the
//! directory of courses by subject, then with the exams of one course.

use vstd::prelude::*;
use vstd::string::StringExecFns;
use crate::error::{ParseError, ParseErrorView};
use crate::exam::{kind_of_word, term_of_word, Exam, ExamView, Kind, Source, Term};
use crate::text::{
    chars_of, decimal_text, find_between, first_index, parse_number, push_decimal, same_text,
    signed_number, text_between,
};

verus! {

/// Where the directory of courses is asked for.
pub const SUBJECTS_URL: &'static str = "https://services.mathsoc.uwaterloo.ca/university/courses/";

/// Where the exams of a course are asked for.
pub const EXAMS_URL: &'static str = "https://services.mathsoc.uwaterloo.ca/university/exams/";

/// What stands before the path of a document in its address.
pub const BASE_URL: &'static str = "https://services.mathsoc.uwaterloo.ca";

/// The key under which the directory of courses is cached.
pub const DIRECTORY_KEY: &'static str = "mathsoc_services:courses";

/// What stands before a course in the key under which its exams are cached.
pub const COURSE_KEY_PREFIX: &'static str = "mathsoc_services:course:";

/// A subject of the directory with the numbers of its courses.
#[derive(Clone, Debug, PartialEq, Eq)]
pub struct Subject {
    pub code: String,
    pub courses: Vec<i32>,
}

/// A subject as a plain value.
pub struct SubjectView {
    pub code: Seq<char>,
    pub courses: Seq<int>,
}

impl View for Subject {
    type V = SubjectView;

    open spec fn view(&self) -> SubjectView {
        SubjectView {
            code: self.code@,
            courses: self.courses@.map_values(|number: i32| number as int),
        }
    }
}

impl DeepView for Subject {
    type V = SubjectView;

    open spec fn deep_view(&self) -> SubjectView {
        self@
    }
}

/// A course of the directory: its code, and the subject and number that it
/// is asked for by.
#[derive(Clone, Debug, PartialEq, Eq)]
pub struct CourseEntry {
    pub course: String,
    pub subject: String,
    pub number: i32,
}

/// A course of the directory as a plain value.
pub struct CourseEntryView {
    pub course: Seq<char>,
    pub subject: Seq<char>,
    pub number: int,
}

impl View for CourseEntry {
    type V = CourseEntryView;

    open spec fn view(&self) -> CourseEntryView {
        CourseEntryView { course: self.course@, subject: self.subject@, number: self.number as int }
    }
}

impl DeepView for CourseEntry {
    type V = CourseEntryView;

    open spec fn deep_view(&self) -> CourseEntryView {
        self@
    }
}

/// An exam as the service reports it: all four fields are text, and a
/// document that is missing has an empty path.
#[derive(Clone, Debug, PartialEq, Eq)]
pub struct RawExam {
    pub term: String,
    pub kind: String,
    pub exam_url: String,
    pub solution_url: String,
}

/// A reported exam as a plain value.
pub struct RawExamView {
    pub term: Seq<char>,
    pub kind: Seq<char>,
    pub exam_url: Seq<char>,
    pub solution_url: Seq<char>,
}

impl View for RawExam {
    type V = RawExamView;

    open spec fn view(&self) -> RawExamView {
        RawExamView {
            term: self.term@,
            kind: self.kind@,
            exam_url: self.exam_url@,
            solution_url: self.solution_url@,
        }
    }
}

impl DeepView for RawExam {
    type V = RawExamView;

    open spec fn deep_view(&self) -> RawExamView {
        self@
    }
}

/// The entry of one course of a subject: the code is the subject's code
/// followed by the number in decimal.
pub open spec fn entry_of(code: Seq<char>, number: int) -> CourseEntryView {
    CourseEntryView { course: code + decimal_text(number), subject: code, number }
}

/// The entries of the first `count` courses of a subject.
pub open spec fn entries_of_subject(subject: SubjectView, count: int) -> Seq<CourseEntryView>
    decreases count,
{
    if count <= 0 {
        Seq::empty()
    } else {
        entries_of_subject(subject, count - 1).push(
            entry_of(subject.code, subject.courses[count - 1]),
        )
    }
}

/// The directory that the subjects give: the courses of each subject, one
/// subject after the other.
pub open spec fn directory_of(subjects: Seq<SubjectView>) -> Seq<CourseEntryView>
    decreases subjects.len(),
{
    if subjects.len() == 0 {
        Seq::empty()
    } else {
        directory_of(subjects.drop_last()) + entries_of_subject(
            subjects.last(),
            subjects.last().courses.len() as int,
        )
    }
}

/// The entry under which a course is found: the last one with its code, so
/// that a later entry replaces an earlier one of the same code.
pub open spec fn entry_for(directory: Seq<CourseEntryView>, course: Seq<char>) -> Option<
    CourseEntryView,
>
    decreases directory.len(),
{
    if directory.len() == 0 {
        None
    } else if directory.last().course == course {
        Some(directory.last())
    } else {
        entry_for(directory.drop_last(), course)
    }
}

/// The key under which the exams of a course are cached.
pub open spec fn course_key(course: Seq<char>) -> Seq<char> {
    COURSE_KEY_PREFIX@ + course
}

/// The address at which the exams of a course are asked for.
pub open spec fn course_url(subject: Seq<char>, number: int) -> Seq<char> {
    EXAMS_URL@ + "?subject="@ + subject + "&course="@ + decimal_text(number)
}

/// The address of a document: none for an empty path, else the base
/// followed by the path.
pub open spec fn path_url(path: Seq<char>) -> Option<Seq<char>> {
    if path.len() == 0 {
        None
    } else {
        Some(BASE_URL@ + path)
    }
}

/// The record that a reported exam gives. Its term field is cut at the first
/// space into term word and year. A field without a space, a term word, a
/// year or a kind that does not parse is an error, looked for in this order.
pub open spec fn exam_of_raw(raw: RawExamView) -> Result<ExamView, ParseErrorView> {
    match first_index(raw.term, ' ') {
        None => Err(ParseErrorView::UnsplittableTerm),
        Some(space) => {
            let term_word = raw.term.take(space);
            let year_text = raw.term.skip(space + 1);
            match term_of_word(term_word) {
                None => Err(ParseErrorView::InvalidTerm(term_word)),
                Some(term) => match signed_number(year_text) {
                    None => Err(ParseErrorView::InvalidYear),
                    Some(year) => match kind_of_word(raw.kind) {
                        None => Err(ParseErrorView::InvalidKind(raw.kind)),
                        Some(kind) => Ok(
                            ExamView {
                                year,
                                term,
                                kind,
                                source: Source::MathSocServices,
                                exam_url: path_url(raw.exam_url),
                                solution_url: path_url(raw.solution_url),
                            },
                        ),
                    },
                },
            }
        },
    }
}

/// The records that the reported exams give, in order, or the error of the
/// first that gives none.
pub open spec fn exams_of_raw(raws: Seq<RawExamView>) -> Result<Seq<ExamView>, ParseErrorView>
    decreases raws.len(),
{
    if raws.len() == 0 {
        Ok(Seq::empty())
    } else {
        match exams_of_raw(raws.drop_last()) {
            Err(error) => Err(error),
            Ok(exams) => match exam_of_raw(raws.last()) {
                Err(error) => Err(error),
                Ok(exam) => Ok(exams.push(exam)),
            },
        }
    }
}

/// Lists the courses of the subjects as a directory.
pub fn flatten_subjects(subjects: &Vec<Subject>) -> (directory: Vec<CourseEntry>)
    ensures
        directory.deep_view() == directory_of(subjects.deep_view()),
{
    let mut directory: Vec<CourseEntry> = Vec::new();
    let ghost all = subjects.deep_view();
    let mut at: usize = 0;
    while at < subjects.len()
        invariant
            at <= subjects.len(),
            all == subjects.deep_view(),
            directory.deep_view() == directory_of(all.take(at as int)),
        decreases subjects.len() - at,
    {
        let subject = &subjects[at];
        let ghost before = directory.deep_view();
        let ghost view = subject@;
        let mut index: usize = 0;
        while index < subject.courses.len()
            invariant
                index <= subject.courses.len(),
                view == subject@,
                directory.deep_view() == before + entries_of_subject(view, index as int),
            decreases subject.courses.len() - index,
        {
            let ghost listed = directory.deep_view();
            let number = subject.courses[index];
            let mut course = subject.code.clone();
            push_decimal(&mut course, number);
            directory.push(CourseEntry { course, subject: subject.code.clone(), number });
            proof {
                assert(listed.push(entry_of(view.code, number as int)) =~= before
                    + entries_of_subject(view, index + 1));
            }
            index += 1;
        }
        proof {
            let next = all.take(at + 1);
            assert(next.drop_last() =~= all.take(at as int));
        }
        at += 1;
    }
    assert(all.take(at as int) =~= all);
    directory
}

/// Looks a course up in the directory.
pub fn find_entry<'a>(directory: &'a Vec<CourseEntry>, course: &str) -> (found: Option<
    &'a CourseEntry,
>)
    ensures
        match found {
            Some(entry) => entry_for(directory.deep_view(), course@) == Some(entry@),
            None => entry_for(directory.deep_view(), course@) is None,
        },
{
    let ghost all = directory.deep_view();
    let mut at: usize = directory.len();
    assert(all.take(at as int) =~= all);
    while at > 0
        invariant
            at <= directory.len(),
            all == directory.deep_view(),
            entry_for(all, course@) == entry_for(all.take(at as int), course@),
        decreases at,
    {
        let ghost open = all.take(at as int);
        assert(open.drop_last() =~= all.take(at - 1));
        if same_text(directory[at - 1].course.as_str(), course) {
            return Some(&directory[at - 1]);
        }
        at -= 1;
    }
    None
}

/// The address of a document from its path.
pub fn parse_path(path: &str) -> (url: Option<String>)
    ensures
        url.deep_view() == path_url(path@),
{
    if path.is_empty() {
        return None;
    }
    Some(String::from_str(BASE_URL).concat(path))
}

/// The record that a reported exam gives.
pub fn convert_exam(raw: &RawExam) -> (exam: Result<Exam, ParseError>)
    ensures
        match exam_of_raw(raw@) {
            Ok(record) => exam matches Ok(found) && found@ == record,
            Err(error) => exam matches Err(e) && e@ == error,
        },
{
    let chars = chars_of(raw.term.as_str());
    assert(chars@.subrange(0, chars.len() as int) =~= raw.term@);
    let space = match find_between(&chars, 0, chars.len(), ' ') {
        Some(space) => space,
        None => return Err(ParseError::UnsplittableTerm),
    };
    let term_word = text_between(&chars, 0, space);
    let year_text = text_between(&chars, space + 1, chars.len());
    let term = match Term::from_str(term_word.as_str()) {
        Ok(term) => term,
        Err(e) => return Err(e),
    };
    let year = match parse_number(year_text.as_str()) {
        Some(year) => year,
        None => return Err(ParseError::InvalidYear),
    };
    let kind = match Kind::from_str(raw.kind.as_str()) {
        Ok(kind) => kind,
        Err(e) => return Err(e),
    };
    Ok(
        Exam {
            year,
            term,
            kind,
            source: Source::MathSocServices,
            exam_url: parse_path(raw.exam_url.as_str()),
            solution_url: parse_path(raw.solution_url.as_str()),
        },
    )
}

/// An error among the first reported exams is the error of them all.
proof fn lemma_raw_error_stays(raws: Seq<RawExamView>, count: int)
    requires
        0 <= count <= raws.len(),
        exams_of_raw(raws.take(count)) is Err,
    ensures
        exams_of_raw(raws) == exams_of_raw(raws.take(count)),
    decreases raws.len() - count,
{
    if count < raws.len() {
        assert(raws.take(count + 1).drop_last() =~= raws.take(count));
        lemma_raw_error_stays(raws, count + 1);
    } else {
        assert(raws.take(count) =~= raws);
    }
}

/// The records that the reported exams of a course give. One exam that
/// cannot be read fails them all.
pub fn convert_exams(raws: &Vec<RawExam>) -> (exams: Result<Vec<Exam>, ParseError>)
    ensures
        match exams_of_raw(raws.deep_view()) {
            Ok(records) => exams matches Ok(found) && found.deep_view() == records,
            Err(error) => exams matches Err(e) && e@ == error,
        },
{
    let ghost all = raws.deep_view();
    let mut exams: Vec<Exam> = Vec::new();
    let mut at: usize = 0;
    assert(exams.deep_view() =~= Seq::<ExamView>::empty());
    while at < raws.len()
        invariant
            at <= raws.len(),
            all == raws.deep_view(),
            exams_of_raw(all.take(at as int)) == Ok::<Seq<ExamView>, ParseErrorView>(
                exams.deep_view(),
            ),
        decreases raws.len() - at,
    {
        let ghost before = exams.deep_view();
        proof {
            let next = all.take(at + 1);
            assert(next.drop_last() =~= all.take(at as int));
        }
        match convert_exam(&raws[at]) {
            Ok(exam) => {
                exams.push(exam);
                assert(exams.deep_view() =~= before.push(exam@));
            },
            Err(e) => {
                proof {
                    lemma_raw_error_stays(all, at + 1);
                }
                return Err(e);
            },
        }
        at += 1;
    }
    assert(all.take(at as int) =~= all);
    Ok(exams)
}

/// What is to be done once the directory is at hand.
#[derive(Debug, PartialEq, Eq)]
pub enum NextStage {
    /// The course is not in the directory: the answer is this list, which is
    /// empty, and nothing more is asked for.
    Done(Vec<Exam>),
    /// The exams of the course are to be had under this cache key or, if
    /// they are not cached, from this address.
    AskCourse { cache_key: String, url: String },
}

/// Decides the second stage for a course from the directory: a course that
/// the directory does not hold ends the query with no exams and no error;
/// any other is asked for by the subject and number of its entry.
pub fn next_stage(directory: &Vec<CourseEntry>, course: &str) -> (stage: NextStage)
    ensures
        match entry_for(directory.deep_view(), course@) {
            None => stage matches NextStage::Done(exams) && exams@.len() == 0,
            Some(entry) => stage matches NextStage::AskCourse { cache_key, url } && cache_key@
                == course_key(course@) && url@ == course_url(entry.subject, entry.number),
        },
{
    match find_entry(directory, course) {
        None => NextStage::Done(Vec::new()),
        Some(entry) => {
            let cache_key = String::from_str(COURSE_KEY_PREFIX).concat(course);
            let mut url = String::from_str(EXAMS_URL).concat("?subject=").concat(
                entry.subject.as_str(),
            ).concat("&course=");
            push_decimal(&mut url, entry.number);
            NextStage::AskCourse { cache_key, url }
        },
    }
}

} // verus!
