//! The first source: a page whose script holds a list of file names, one for
//! each exam or solution on offer.

use vstd::prelude::*;
use vstd::string::StringSliceAdditionalSpecFns;
use vstd::utf8::{decode_utf8, encode_utf8, is_char_boundary};
use vstd::string::StringExecFns;
use crate::error::{ParseError, ParseErrorView};
use crate::exam::{kind_of_word, term_of_word, Exam, ExamView, Kind, Source, Term};
use crate::pattern::{first_captures, first_match, Patterns, EXAM_NAME, NAMES_START};
use crate::text::{
    all_digits, all_space, chars_of, find_between, first_index, number_between, number_of, same_text,
    split_on, text_between, trim_between, trimmed, trimmed_ignores_space_around,
};

verus! {

/// The page that lists the file names.
pub const PAGE_URL: &'static str = "https://mathsoc.uwaterloo.ca/exam-bank/";

/// What stands before a file name in the address of its document.
pub const BASE_URL: &'static str = "https://mathsoc.uwaterloo.ca/wp-content/uploads/";

/// The key under which the records read from the page are cached.
pub const CACHE_KEY: &'static str = "mathsoc:exams";

/// Either of the two characters that delimit a name in the list.
pub open spec fn is_quote(c: char) -> bool {
    c == '\'' || c == '"'
}

/// The name inside a quoted piece: the piece without its first and its last
/// character, if both are quotes. The two need not be the same quote. A
/// piece that is not quoted at both ends holds no name.
pub open spec fn unquoted(piece: Seq<char>) -> Option<Seq<char>> {
    if piece.len() >= 2 && is_quote(piece[0]) && is_quote(piece.last()) {
        Some(piece.subrange(1, piece.len() - 1))
    } else {
        None
    }
}

/// The name that a piece of the list holds, once the white space around it
/// is taken away. An empty piece holds none.
pub open spec fn name_of_piece(piece: Seq<char>) -> Option<Seq<char>> {
    unquoted(trimmed(piece))
}

/// The names that the pieces hold, in order; pieces without a name are
/// passed over.
pub open spec fn names_of_pieces(pieces: Seq<Seq<char>>) -> Seq<Seq<char>>
    decreases pieces.len(),
{
    if pieces.len() == 0 {
        Seq::empty()
    } else {
        let rest = names_of_pieces(pieces.drop_first());
        match name_of_piece(pieces[0]) {
            Some(name) => seq![name] + rest,
            None => rest,
        }
    }
}

/// The names listed in the text that follows a start marker: the text up to
/// the first closing bracket is cut at its commas, and each piece gives a
/// name or nothing.
pub open spec fn list_names(rest: Seq<char>) -> Result<Seq<Seq<char>>, ParseErrorView> {
    match first_index(rest, ']') {
        Some(end) => Ok(names_of_pieces(split_on(rest.take(end), ','))),
        None => Err(ParseErrorView::MissingEnd),
    }
}

/// The part of a text that starts at a byte offset of its UTF-8 form.
pub open spec fn text_after(text: Seq<char>, offset: int) -> Seq<char> {
    decode_utf8(encode_utf8(text).skip(offset))
}

/// The names listed in a page: those that follow the first start marker.
pub open spec fn page_names(page: Seq<char>) -> Result<Seq<Seq<char>>, ParseErrorView> {
    match first_match(NAMES_START@, page) {
        Some(span) => list_names(text_after(page, span.1)),
        None => Err(ParseErrorView::MissingStart),
    }
}

/// Whether a character delimits a name.
fn is_string_delim(c: char) -> (quote: bool)
    ensures
        quote == is_quote(c),
{
    c == '\'' || c == '"'
}

/// The name held by the piece between `from` and `to`.
fn name_between(chars: &Vec<char>, from: usize, to: usize) -> (name: Option<String>)
    requires
        from <= to <= chars.len(),
    ensures
        name.deep_view() == name_of_piece(chars@.subrange(from as int, to as int)),
{
    let (start, end) = trim_between(chars, from, to);
    if end - start >= 2 && is_string_delim(chars[start]) && is_string_delim(chars[end - 1]) {
        Some(text_between(chars, start + 1, end - 1))
    } else {
        None
    }
}

/// Reads the list of names from the text that follows a start marker. Fails
/// only where the list is not closed.
pub fn parse_list_body(rest: &str) -> (names: Result<Vec<String>, ParseError>)
    ensures
        match list_names(rest@) {
            Ok(listed) => names matches Ok(found) && found.deep_view() == listed,
            Err(error) => names matches Err(e) && e@ == error,
        },
{
    let chars = chars_of(rest);
    assert(chars@.subrange(0, chars.len() as int) =~= rest@);
    let end = match find_between(&chars, 0, chars.len(), ']') {
        Some(end) => end,
        None => return Err(ParseError::MissingEnd),
    };
    let ghost body = rest@.take(end as int);
    let ghost listed = names_of_pieces(split_on(body, ','));
    let mut names: Vec<String> = Vec::new();
    let mut from: usize = 0;
    let mut done = false;
    while !done
        invariant
            from <= end <= chars.len(),
            !done ==> names.deep_view() + names_of_pieces(
                split_on(chars@.subrange(from as int, end as int), ','),
            ) == listed,
            done ==> names.deep_view() == listed,
        decreases
                (if done {
                    0
                } else {
                    end - from + 1
                }),
    {
        let ghost open = chars@.subrange(from as int, end as int);
        let stop = match find_between(&chars, from, end, ',') {
            Some(at) => at,
            None => end,
        };
        let ghost piece = chars@.subrange(from as int, stop as int);
        let ghost rest_pieces = if stop < end {
            split_on(chars@.subrange(stop + 1, end as int), ',')
        } else {
            Seq::<Seq<char>>::empty()
        };
        proof {
            if stop < end {
                assert(open.take(stop - from) =~= piece);
                assert(open.skip(stop - from + 1) =~= chars@.subrange(stop + 1, end as int));
            }
            let pieces = split_on(open, ',');
            assert(pieces.drop_first() =~= rest_pieces);
            assert(names_of_pieces(Seq::<Seq<char>>::empty()) =~= Seq::<Seq<char>>::empty());
        }
        match name_between(&chars, from, stop) {
            Some(name) => {
                names.push(name);
            },
            None => {},
        }
        if stop < end {
            from = stop + 1;
        } else {
            done = true;
        }
    }
    Ok(names)
}

/// Reads the list of names from a page: finds the first start marker and
/// reads what follows it. Fails where the page holds no start marker, or no
/// closing bracket after it.
pub fn parse_name_list(patterns: &Patterns, page: &str) -> (names: Result<Vec<String>, ParseError>)
    ensures
        match page_names(page@) {
            Ok(listed) => names matches Ok(found) && found.deep_view() == listed,
            Err(error) => names matches Err(e) && e@ == error,
        },
{
    match patterns.find_names_start(page) {
        None => Err(ParseError::MissingStart),
        Some((_, end)) => {
            let (_, rest) = page.split_at(end);
            proof {
                vstd::utf8::encode_utf8_decode_utf8(rest@);
            }
            parse_list_body(rest)
        },
    }
}

/// One file name of the list, read: the exam event it belongs to, which of
/// the two documents it is, and where that document is found.
#[derive(Clone, Debug, PartialEq, Eq)]
pub struct Listing {
    pub course: String,
    pub year: i32,
    pub term: Term,
    pub kind: Kind,
    pub solution: bool,
    pub url: String,
}

/// A listing as a plain value.
pub struct ListingView {
    pub course: Seq<char>,
    pub year: int,
    pub term: Term,
    pub kind: Kind,
    pub solution: bool,
    pub url: Seq<char>,
}

impl View for Listing {
    type V = ListingView;

    open spec fn view(&self) -> ListingView {
        ListingView {
            course: self.course@,
            year: self.year as int,
            term: self.term,
            kind: self.kind,
            solution: self.solution,
            url: self.url@,
        }
    }
}

impl DeepView for Listing {
    type V = ListingView;

    open spec fn deep_view(&self) -> ListingView {
        self@
    }
}

/// The year that four decimal digits write; anything else is no year.
pub open spec fn year_of_digits(digits: Seq<char>) -> Option<int> {
    if digits.len() == 4 && all_digits(digits) {
        Some(number_of(digits))
    } else {
        None
    }
}

/// The address of a document: the base, the parts of its file name as they
/// stand in the list, and `.pdf`.
pub open spec fn document_url(
    course: Seq<char>,
    term_word: Seq<char>,
    year_digits: Seq<char>,
    kind_word: Seq<char>,
    document: Seq<char>,
) -> Seq<char> {
    BASE_URL@ + course + term_word + year_digits + kind_word + document + ".pdf"@
}

/// What the groups of a matched file name say. The groups are the whole
/// name, the course, the term word, the year, the kind word, and `exam` or
/// `solution`. A match without these five parts, or with a year that is not
/// four decimal digits, is passed over; a term word or kind word that does
/// not parse is an error.
pub open spec fn listing_of_groups(groups: Seq<Option<Seq<char>>>) -> Result<
    Option<ListingView>,
    ParseErrorView,
> {
    if groups.len() != 6 || groups[1] is None || groups[2] is None || groups[3] is None
        || groups[4] is None || groups[5] is None {
        Ok(None)
    } else {
        let course = groups[1]->0;
        let term_word = groups[2]->0;
        let year_digits = groups[3]->0;
        let kind_word = groups[4]->0;
        let document = groups[5]->0;
        match year_of_digits(year_digits) {
            None => Ok(None),
            Some(year) => match term_of_word(term_word) {
                None => Err(ParseErrorView::InvalidTerm(term_word)),
                Some(term) => match kind_of_word(kind_word) {
                    None => Err(ParseErrorView::InvalidKind(kind_word)),
                    Some(kind) => Ok(
                        Some(
                            ListingView {
                                course,
                                year,
                                term,
                                kind,
                                solution: document == "solution"@,
                                url: document_url(
                                    course,
                                    term_word,
                                    year_digits,
                                    kind_word,
                                    document,
                                ),
                            },
                        ),
                    ),
                },
            },
        }
    }
}

/// What a name of the list says: nothing if it has not the shape of a file
/// name of an exam or a solution, else what its groups say.
pub open spec fn listing_of_name(name: Seq<char>) -> Result<Option<ListingView>, ParseErrorView> {
    match first_captures(EXAM_NAME@, name) {
        Some(groups) => listing_of_groups(groups),
        None => Ok(None),
    }
}

/// Reads a year of four decimal digits.
fn four_digit_year(digits: &str) -> (year: Option<i32>)
    ensures
        match year {
            Some(y) => year_of_digits(digits@) == Some(y as int),
            None => year_of_digits(digits@) is None,
        },
{
    let chars = chars_of(digits);
    if chars.len() != 4 {
        return None;
    }
    assert(chars@.subrange(0, 4) =~= digits@);
    match number_between(&chars, 0, 4, 0xffff) {
        Some(value) => Some(value as i32),
        None => {
            proof {
                if all_digits(digits@) {
                    lemma_four_digits_small(digits@);
                }
            }
            None
        },
    }
}

proof fn lemma_four_digits_small(digits: Seq<char>)
    requires
        digits.len() == 4,
        all_digits(digits),
    ensures
        0 <= number_of(digits) <= 9999,
{
    reveal_with_fuel(number_of, 5);
}

/// Reads the groups of a matched file name.
pub fn read_listing(groups: &Vec<Option<String>>) -> (listing: Result<Option<Listing>, ParseError>)
    ensures
        match listing_of_groups(groups.deep_view()) {
            Ok(read) => listing matches Ok(found) && found.deep_view() == read,
            Err(error) => listing matches Err(e) && e@ == error,
        },
{
    if groups.len() != 6 {
        return Ok(None);
    }
    match (&groups[1], &groups[2], &groups[3], &groups[4], &groups[5]) {
        (Some(course), Some(term_word), Some(year_digits), Some(kind_word), Some(document)) => {
            let year = match four_digit_year(year_digits.as_str()) {
                Some(year) => year,
                None => return Ok(None),
            };
            let term = match Term::from_str(term_word.as_str()) {
                Ok(term) => term,
                Err(e) => return Err(e),
            };
            let kind = match Kind::from_str(kind_word.as_str()) {
                Ok(kind) => kind,
                Err(e) => return Err(e),
            };
            let url = String::from_str(BASE_URL).concat(course.as_str()).concat(
                term_word.as_str(),
            ).concat(year_digits.as_str()).concat(kind_word.as_str()).concat(
                document.as_str(),
            ).concat(".pdf");
            let solution = same_text(document.as_str(), "solution");
            Ok(Some(Listing { course: course.clone(), year, term, kind, solution, url }))
        },
        _ => Ok(None),
    }
}

/// The exams of one course.
#[derive(Clone, Debug, PartialEq, Eq)]
pub struct CourseExams {
    pub course: String,
    pub exams: Vec<Exam>,
}

/// The exams of one course as a plain value.
pub struct CourseExamsView {
    pub course: Seq<char>,
    pub exams: Seq<ExamView>,
}

impl View for CourseExams {
    type V = CourseExamsView;

    open spec fn view(&self) -> CourseExamsView {
        CourseExamsView { course: self.course@, exams: self.exams.deep_view() }
    }
}

impl DeepView for CourseExams {
    type V = CourseExamsView;

    open spec fn deep_view(&self) -> CourseExamsView {
        self@
    }
}

/// The place of the first exam of the listing's event among the exams of a
/// course.
pub open spec fn event_position(exams: Seq<ExamView>, listing: ListingView) -> Option<int>
    decreases exams.len(),
{
    if exams.len() == 0 {
        None
    } else if exams[0].year == listing.year && exams[0].term == listing.term && exams[0].kind
        == listing.kind {
        Some(0)
    } else {
        match event_position(exams.drop_first(), listing) {
            Some(i) => Some(i + 1),
            None => None,
        }
    }
}

/// The place of the first entry of a course.
pub open spec fn course_position(courses: Seq<CourseExamsView>, course: Seq<char>) -> Option<int>
    decreases courses.len(),
{
    if courses.len() == 0 {
        None
    } else if courses[0].course == course {
        Some(0)
    } else {
        match course_position(courses.drop_first(), course) {
            Some(i) => Some(i + 1),
            None => None,
        }
    }
}

/// The exam with the listing's document entered: as its solution or as the
/// exam itself.
pub open spec fn with_document(exam: ExamView, listing: ListingView) -> ExamView {
    if listing.solution {
        ExamView {
            year: exam.year,
            term: exam.term,
            kind: exam.kind,
            source: exam.source,
            exam_url: exam.exam_url,
            solution_url: Some(listing.url),
        }
    } else {
        ExamView {
            year: exam.year,
            term: exam.term,
            kind: exam.kind,
            source: exam.source,
            exam_url: Some(listing.url),
            solution_url: exam.solution_url,
        }
    }
}

/// The record that a listing opens: its event, this source, and the
/// listing's document alone.
pub open spec fn first_record(listing: ListingView) -> ExamView {
    with_document(
        ExamView {
            year: listing.year,
            term: listing.term,
            kind: listing.kind,
            source: Source::MathSoc,
            exam_url: None,
            solution_url: None,
        },
        listing,
    )
}

/// The exams of a course after a listing of that course: its document is
/// entered in the record of its event, which is added at the end if the
/// course had none.
pub open spec fn exams_with(exams: Seq<ExamView>, listing: ListingView) -> Seq<ExamView> {
    match event_position(exams, listing) {
        Some(at) => exams.update(at, with_document(exams[at], listing)),
        None => exams.push(first_record(listing)),
    }
}

/// The courses after a listing: entered with the exams of its course, which
/// is added at the end if it was not there.
pub open spec fn courses_with(courses: Seq<CourseExamsView>, listing: ListingView) -> Seq<
    CourseExamsView,
> {
    match course_position(courses, listing.course) {
        Some(at) => courses.update(
            at,
            CourseExamsView {
                course: courses[at].course,
                exams: exams_with(courses[at].exams, listing),
            },
        ),
        None => courses.push(
            CourseExamsView { course: listing.course, exams: seq![first_record(listing)] },
        ),
    }
}

/// The courses and exams that a list of names gives, or the first error met
/// in it. Names that have not the shape of a file name add nothing.
pub open spec fn gathered(names: Seq<Seq<char>>) -> Result<Seq<CourseExamsView>, ParseErrorView>
    decreases names.len(),
{
    if names.len() == 0 {
        Ok(Seq::empty())
    } else {
        match gathered(names.drop_last()) {
            Err(error) => Err(error),
            Ok(courses) => match listing_of_name(names.last()) {
                Err(error) => Err(error),
                Ok(None) => Ok(courses),
                Ok(Some(listing)) => Ok(courses_with(courses, listing)),
            },
        }
    }
}

/// The courses and exams that a page lists.
pub open spec fn page_exams(page: Seq<char>) -> Result<Seq<CourseExamsView>, ParseErrorView> {
    match page_names(page) {
        Ok(names) => gathered(names),
        Err(error) => Err(error),
    }
}

/// The exams of a course; none if the course is not among the courses.
pub open spec fn exams_of_course(courses: Seq<CourseExamsView>, course: Seq<char>) -> Seq<
    ExamView,
> {
    match course_position(courses, course) {
        Some(at) => courses[at].exams,
        None => Seq::empty(),
    }
}

proof fn lemma_event_position(exams: Seq<ExamView>, listing: ListingView, at: int)
    requires
        0 <= at <= exams.len(),
        forall|j: int|
            0 <= j < at ==> !(exams[j].year == listing.year && exams[j].term == listing.term
                && exams[j].kind == listing.kind),
        at < exams.len() ==> exams[at].year == listing.year && exams[at].term == listing.term
            && exams[at].kind == listing.kind,
    ensures
        event_position(exams, listing) == (if at < exams.len() {
            Some(at)
        } else {
            None
        }),
    decreases exams.len(),
{
    if exams.len() > 0 && at > 0 {
        lemma_event_position(exams.drop_first(), listing, at - 1);
    }
}

proof fn lemma_course_position(courses: Seq<CourseExamsView>, course: Seq<char>, at: int)
    requires
        0 <= at <= courses.len(),
        forall|j: int| 0 <= j < at ==> courses[j].course != course,
        at < courses.len() ==> courses[at].course == course,
    ensures
        course_position(courses, course) == (if at < courses.len() {
            Some(at)
        } else {
            None
        }),
    decreases courses.len(),
{
    if courses.len() > 0 && at > 0 {
        lemma_course_position(courses.drop_first(), course, at - 1);
    }
}

/// Where the entry of a course stands.
fn find_course(courses: &Vec<CourseExams>, course: &str) -> (found: Option<usize>)
    ensures
        match found {
            Some(at) => at < courses.len() && course_position(courses.deep_view(), course@)
                == Some(at as int),
            None => course_position(courses.deep_view(), course@) is None,
        },
{
    let mut at: usize = 0;
    while at < courses.len()
        invariant
            at <= courses.len(),
            forall|j: int| 0 <= j < at ==> courses.deep_view()[j].course != course@,
        decreases courses.len() - at,
    {
        if same_text(courses[at].course.as_str(), course) {
            proof {
                lemma_course_position(courses.deep_view(), course@, at as int);
            }
            return Some(at);
        }
        at += 1;
    }
    proof {
        lemma_course_position(courses.deep_view(), course@, at as int);
    }
    None
}

/// Enters the document of a listing among the exams of its course.
fn record_exam(exams: &mut Vec<Exam>, listing: Listing)
    ensures
        final(exams).deep_view() == exams_with(old(exams).deep_view(), listing@),
{
    let ghost before = exams.deep_view();
    let mut at: usize = 0;
    while at < exams.len() && !(exams[at].year == listing.year && exams[at].term == listing.term
        && exams[at].kind == listing.kind)
        invariant
            at <= exams.len(),
            exams.deep_view() == before,
            forall|j: int|
                0 <= j < at ==> !(before[j].year == listing.year && before[j].term == listing.term
                    && before[j].kind == listing.kind),
        decreases exams.len() - at,
    {
        at += 1;
    }
    proof {
        lemma_event_position(before, listing@, at as int);
    }
    if at == exams.len() {
        let mut exam = Exam {
            year: listing.year,
            term: listing.term,
            kind: listing.kind,
            source: Source::MathSoc,
            exam_url: None,
            solution_url: None,
        };
        if listing.solution {
            exam.solution_url = Some(listing.url);
        } else {
            exam.exam_url = Some(listing.url);
        }
        exams.push(exam);
    } else {
        if listing.solution {
            exams[at].solution_url = Some(listing.url);
        } else {
            exams[at].exam_url = Some(listing.url);
        }
    }
}

/// Enters a listing among the courses.
pub fn record(courses: &mut Vec<CourseExams>, listing: Listing)
    ensures
        final(courses).deep_view() == courses_with(old(courses).deep_view(), listing@),
{
    match find_course(courses, listing.course.as_str()) {
        Some(at) => {
            record_exam(&mut courses[at].exams, listing);
        },
        None => {
            let course = listing.course.clone();
            let mut exams: Vec<Exam> = Vec::new();
            record_exam(&mut exams, listing);
            assert(exams.deep_view() =~= seq![first_record(listing@)]);
            courses.push(CourseExams { course, exams });
        },
    }
}

/// Reads the names of the list one after the other and enters each file
/// name of an exam or a solution among the courses. Names of another shape
/// are passed over; the first term word or kind word that does not parse
/// ends the reading with its error.
pub fn gather(patterns: &Patterns, names: &Vec<String>) -> (courses: Result<
    Vec<CourseExams>,
    ParseError,
>)
    ensures
        match gathered(names.deep_view()) {
            Ok(listed) => courses matches Ok(found) && found.deep_view() == listed,
            Err(error) => courses matches Err(e) && e@ == error,
        },
{
    let ghost all = names.deep_view();
    let mut courses: Vec<CourseExams> = Vec::new();
    let mut at: usize = 0;
    assert(courses.deep_view() =~= Seq::<CourseExamsView>::empty());
    while at < names.len()
        invariant
            at <= names.len(),
            all == names.deep_view(),
            gathered(all.take(at as int)) == Ok::<Seq<CourseExamsView>, ParseErrorView>(
                courses.deep_view(),
            ),
        decreases names.len() - at,
    {
        let ghost read = all.take(at as int);
        let ghost next = all.take(at + 1);
        proof {
            assert(next.drop_last() =~= read);
        }
        match patterns.match_exam_name(names[at].as_str()) {
            None => {},
            Some(groups) => {
                match read_listing(&groups) {
                    Err(e) => {
                        proof {
                            lemma_gathered_error_stays(all, at + 1);
                        }
                        return Err(e);
                    },
                    Ok(None) => {},
                    Ok(Some(listing)) => {
                        record(&mut courses, listing);
                    },
                }
            },
        }
        at += 1;
    }
    assert(all.take(at as int) =~= all);
    Ok(courses)
}

/// An error met among the first names of a list is the error of the whole
/// list.
proof fn lemma_gathered_error_stays(names: Seq<Seq<char>>, count: int)
    requires
        0 <= count <= names.len(),
        gathered(names.take(count)) is Err,
    ensures
        gathered(names) == gathered(names.take(count)),
    decreases names.len() - count,
{
    if count < names.len() {
        assert(names.take(count + 1).drop_last() =~= names.take(count));
        lemma_gathered_error_stays(names, count + 1);
    } else {
        assert(names.take(count) =~= names);
    }
}

/// Reads a page: the names it lists, and the courses and exams that these
/// give.
pub fn parse_page(patterns: &Patterns, page: &str) -> (courses: Result<
    Vec<CourseExams>,
    ParseError,
>)
    ensures
        match page_exams(page@) {
            Ok(listed) => courses matches Ok(found) && found.deep_view() == listed,
            Err(error) => courses matches Err(e) && e@ == error,
        },
{
    match parse_name_list(patterns, page) {
        Ok(names) => gather(patterns, &names),
        Err(e) => Err(e),
    }
}

/// The exams of a course among the courses read; none, and no error, if the
/// course is not there.
pub fn exams_for(courses: Vec<CourseExams>, course: &str) -> (exams: Vec<Exam>)
    ensures
        exams.deep_view() == exams_of_course(courses.deep_view(), course@),
{
    let mut courses = courses;
    match find_course(&courses, course) {
        Some(at) => {
            let entry = courses.swap_remove(at);
            entry.exams
        },
        None => Vec::new(),
    }
}

/// White space around a piece of the list, line breaks included, does not
/// change the name it holds.
pub proof fn name_of_piece_ignores_space_around(
    before: Seq<char>,
    piece: Seq<char>,
    after: Seq<char>,
)
    requires
        all_space(before),
        all_space(after),
    ensures
        name_of_piece(before + piece + after) == name_of_piece(piece),
{
    trimmed_ignores_space_around(before, piece, after);
}

/// A page is what stands before a character boundary followed by what
/// stands after it.
pub proof fn text_after_is_the_rest(page: Seq<char>, offset: int)
    requires
        is_char_boundary(encode_utf8(page), offset),
        0 <= offset <= encode_utf8(page).len(),
    ensures
        page == decode_utf8(encode_utf8(page).take(offset)) + text_after(page, offset),
{
    let bytes = encode_utf8(page);
    vstd::utf8::encode_utf8_valid_utf8(page);
    vstd::utf8::encode_utf8_decode_utf8(page);
    vstd::utf8::decode_utf8_split(bytes, offset);
}

/// The address of a document is the base, the file name as it stands in
/// the list, and `.pdf`.
pub proof fn document_url_holds_name(
    name: Seq<char>,
    course: Seq<char>,
    term_word: Seq<char>,
    year_digits: Seq<char>,
    kind_word: Seq<char>,
    document: Seq<char>,
)
    requires
        name == course + term_word + year_digits + kind_word + document,
    ensures
        document_url(course, term_word, year_digits, kind_word, document) == BASE_URL@ + name
            + ".pdf"@,
{
}

/// The exams of one course are in order: there is at least one, no two are
/// of the same exam event, and each is of this source and has a document.
pub open spec fn well_listed(exams: Seq<ExamView>) -> bool {
    &&& exams.len() > 0
    &&& forall|i: int, j: int| 0 <= i < j < exams.len() ==> !exams[i].same_event(exams[j])
    &&& forall|i: int|
        0 <= i < exams.len() ==> (#[trigger] exams[i]).source == Source::MathSoc && (
        exams[i].exam_url is Some || exams[i].solution_url is Some)
}

/// The courses are in order: no course occurs twice, and the exams of each
/// are in order.
pub open spec fn well_grouped(courses: Seq<CourseExamsView>) -> bool {
    &&& forall|i: int, j: int|
        0 <= i < j < courses.len() ==> courses[i].course != courses[j].course
    &&& forall|i: int| 0 <= i < courses.len() ==> well_listed((#[trigger] courses[i]).exams)
}

proof fn lemma_event_position_found(exams: Seq<ExamView>, listing: ListingView)
    ensures
        match event_position(exams, listing) {
            Some(at) => 0 <= at < exams.len() && exams[at].year == listing.year && exams[at].term
                == listing.term && exams[at].kind == listing.kind,
            None => forall|j: int|
                0 <= j < exams.len() ==> !((#[trigger] exams[j]).year == listing.year
                    && exams[j].term == listing.term && exams[j].kind == listing.kind),
        },
    decreases exams.len(),
{
    if exams.len() > 0 {
        let rest = exams.drop_first();
        lemma_event_position_found(rest, listing);
        if event_position(exams, listing) is None {
            assert forall|j: int| 0 <= j < exams.len() implies !((#[trigger] exams[j]).year
                == listing.year && exams[j].term == listing.term && exams[j].kind
                == listing.kind) by {
                if j > 0 {
                    assert(exams[j] == rest[j - 1]);
                }
            }
        }
    }
}

proof fn lemma_course_position_found(courses: Seq<CourseExamsView>, course: Seq<char>)
    ensures
        match course_position(courses, course) {
            Some(at) => 0 <= at < courses.len() && courses[at].course == course,
            None => forall|j: int| 0 <= j < courses.len() ==> (#[trigger] courses[j]).course != course,
        },
    decreases courses.len(),
{
    if courses.len() > 0 {
        let rest = courses.drop_first();
        lemma_course_position_found(rest, course);
        if course_position(courses, course) is None {
            assert forall|j: int| 0 <= j < courses.len() implies (#[trigger] courses[j]).course
                != course by {
                if j > 0 {
                    assert(courses[j] == rest[j - 1]);
                }
            }
        }
    }
}

proof fn lemma_exams_with_well_listed(exams: Seq<ExamView>, listing: ListingView)
    requires
        well_listed(exams),
    ensures
        well_listed(exams_with(exams, listing)),
{
    lemma_event_position_found(exams, listing);
    let after = exams_with(exams, listing);
    if event_position(exams, listing) is Some {
        assert forall|i: int, j: int| 0 <= i < j < after.len() implies !after[i].same_event(
            after[j],
        ) by {
            assert(!exams[i].same_event(exams[j]));
        }
    }
}

/// Entering a listing keeps the courses in order.
pub proof fn courses_with_stays_well_grouped(courses: Seq<CourseExamsView>, listing: ListingView)
    requires
        well_grouped(courses),
    ensures
        well_grouped(courses_with(courses, listing)),
{
    lemma_course_position_found(courses, listing.course);
    if let Some(at) = course_position(courses, listing.course) {
        lemma_exams_with_well_listed(courses[at].exams, listing);
    }
}

/// What a list of names gives is in order: no course twice, within a course
/// no exam event twice, and every record of this source and with a document.
pub proof fn gathered_is_well_grouped(names: Seq<Seq<char>>)
    ensures
        gathered(names) matches Ok(courses) ==> well_grouped(courses),
    decreases names.len(),
{
    if names.len() > 0 {
        gathered_is_well_grouped(names.drop_last());
        match gathered(names.drop_last()) {
            Ok(courses) => match listing_of_name(names.last()) {
                Ok(Some(listing)) => {
                    courses_with_stays_well_grouped(courses, listing);
                },
                _ => {},
            },
            Err(_) => {},
        }
    }
}

/// A name that is passed over changes nothing, wherever it stands in the
/// list.
pub proof fn skipped_name_changes_nothing(
    before: Seq<Seq<char>>,
    name: Seq<char>,
    after: Seq<Seq<char>>,
)
    requires
        listing_of_name(name) == Ok::<Option<ListingView>, ParseErrorView>(None),
    ensures
        gathered(before + seq![name] + after) == gathered(before + after),
    decreases after.len(),
{
    let with = before + seq![name] + after;
    let without = before + after;
    if after.len() == 0 {
        assert(with.drop_last() =~= before);
    } else {
        skipped_name_changes_nothing(before, name, after.drop_last());
        assert(with.drop_last() =~= before + seq![name] + after.drop_last());
        assert(without.drop_last() =~= before + after.drop_last());
    }
}

} // verus!
