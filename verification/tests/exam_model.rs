use examfinder::error::ParseError;
use examfinder::exam::{Exam, Kind, Source, Term};

fn exam(year: i32, term: Term, kind: Kind, source: Source) -> Exam {
    Exam { year, term, kind, source, exam_url: None, solution_url: None }
}

#[test]
fn term_is_read_from_first_character() {
    assert_eq!(Term::from_str("Winter"), Ok(Term::Winter));
    assert_eq!(Term::from_str("w"), Ok(Term::Winter));
    assert_eq!(Term::from_str("W2021"), Ok(Term::Winter));
    assert_eq!(Term::from_str("spring"), Ok(Term::Spring));
    assert_eq!(Term::from_str("S"), Ok(Term::Spring));
    assert_eq!(Term::from_str("summer"), Ok(Term::Spring));
    assert_eq!(Term::from_str("Fall"), Ok(Term::Fall));
    assert_eq!(Term::from_str("f"), Ok(Term::Fall));
    assert_eq!(Term::from_str("FOO"), Ok(Term::Fall));
}

#[test]
fn term_refuses_other_first_characters() {
    assert_eq!(Term::from_str(""), Err(ParseError::InvalidTerm(String::new())));
    assert_eq!(Term::from_str("autumn"), Err(ParseError::InvalidTerm("autumn".to_string())));
    assert_eq!(Term::from_str(" Fall"), Err(ParseError::InvalidTerm(" Fall".to_string())));
    assert_eq!(Term::from_str("1"), Err(ParseError::InvalidTerm("1".to_string())));
}

#[test]
fn term_parses_through_from_str_trait() {
    assert_eq!("Fall".parse::<Term>(), Ok(Term::Fall));
    assert_eq!("x".parse::<Term>(), Err(ParseError::InvalidTerm("x".to_string())));
    assert_eq!("Final".parse::<Kind>(), Ok(Kind::Final));
    assert_eq!("final".parse::<Kind>(), Err(ParseError::InvalidKind("final".to_string())));
}

#[test]
fn kind_is_read_from_exact_literal() {
    assert_eq!(Kind::from_str("Quiz"), Ok(Kind::Quiz));
    assert_eq!(Kind::from_str("Test"), Ok(Kind::Test));
    assert_eq!(Kind::from_str("Midterm"), Ok(Kind::Midterm));
    assert_eq!(Kind::from_str("Final"), Ok(Kind::Final));
}

#[test]
fn kind_refuses_other_words_and_other_case() {
    assert_eq!(Kind::from_str("quiz"), Err(ParseError::InvalidKind("quiz".to_string())));
    assert_eq!(Kind::from_str("FINAL"), Err(ParseError::InvalidKind("FINAL".to_string())));
    assert_eq!(Kind::from_str("Final "), Err(ParseError::InvalidKind("Final ".to_string())));
    assert_eq!(Kind::from_str(""), Err(ParseError::InvalidKind(String::new())));
    assert_eq!(Kind::from_str("Exam"), Err(ParseError::InvalidKind("Exam".to_string())));
}

#[test]
fn names_of_the_enumerations() {
    assert_eq!(Term::Winter.as_str(), "Winter");
    assert_eq!(Term::Spring.as_str(), "Spring");
    assert_eq!(Term::Fall.as_str(), "Fall");
    assert_eq!(Kind::Quiz.as_str(), "Quiz");
    assert_eq!(Kind::Test.as_str(), "Test");
    assert_eq!(Kind::Midterm.as_str(), "Midterm");
    assert_eq!(Kind::Final.as_str(), "Final");
    assert_eq!(Source::MathSoc.as_str(), "MathSoc");
    assert_eq!(Source::MathSocServices.as_str(), "MathSoc Services");
}

#[test]
fn names_round_trip_through_the_parsers() {
    for term in [Term::Winter, Term::Spring, Term::Fall] {
        assert_eq!(Term::from_str(term.as_str()), Ok(term));
    }
    for kind in [Kind::Quiz, Kind::Test, Kind::Midterm, Kind::Final] {
        assert_eq!(Kind::from_str(kind.as_str()), Ok(kind));
    }
}

#[test]
fn enumerations_are_ordered_as_declared() {
    assert!(Term::Winter < Term::Spring && Term::Spring < Term::Fall);
    assert!(Kind::Quiz < Kind::Test && Kind::Test < Kind::Midterm && Kind::Midterm < Kind::Final);
    assert!(Source::MathSoc < Source::MathSocServices);
}

#[test]
fn records_are_ordered_by_year_term_kind_source() {
    let base = exam(2020, Term::Spring, Kind::Test, Source::MathSoc);
    assert!(base.at_most(&base));
    let later_year = exam(2021, Term::Winter, Kind::Quiz, Source::MathSoc);
    assert!(base.at_most(&later_year));
    assert!(!later_year.at_most(&base));
    let later_term = exam(2020, Term::Fall, Kind::Quiz, Source::MathSoc);
    assert!(base.at_most(&later_term));
    assert!(!later_term.at_most(&base));
    let later_kind = exam(2020, Term::Spring, Kind::Final, Source::MathSoc);
    assert!(base.at_most(&later_kind));
    assert!(!later_kind.at_most(&base));
    let higher_source = exam(2020, Term::Spring, Kind::Test, Source::MathSocServices);
    assert!(base.at_most(&higher_source));
    assert!(!higher_source.at_most(&base));
}

#[test]
fn documents_play_no_part_in_the_order() {
    let bare = exam(2020, Term::Spring, Kind::Test, Source::MathSoc);
    let mut full = bare.clone();
    full.exam_url = Some("a".to_string());
    full.solution_url = Some("b".to_string());
    assert!(bare.at_most(&full));
    assert!(full.at_most(&bare));
    assert!(bare.same_event(&full));
    assert_ne!(bare, full);
}

#[test]
fn same_event_looks_at_year_term_and_kind() {
    let a = exam(2021, Term::Winter, Kind::Midterm, Source::MathSoc);
    assert!(a.same_event(&exam(2021, Term::Winter, Kind::Midterm, Source::MathSocServices)));
    assert!(!a.same_event(&exam(2020, Term::Winter, Kind::Midterm, Source::MathSoc)));
    assert!(!a.same_event(&exam(2021, Term::Fall, Kind::Midterm, Source::MathSoc)));
    assert!(!a.same_event(&exam(2021, Term::Winter, Kind::Final, Source::MathSoc)));
}

#[test]
fn clone_keeps_every_field() {
    let a = Exam {
        year: -3,
        term: Term::Fall,
        kind: Kind::Quiz,
        source: Source::MathSocServices,
        exam_url: Some("x".to_string()),
        solution_url: None,
    };
    assert_eq!(a.clone(), a);
}

#[test]
fn error_messages() {
    assert_eq!(ParseError::MissingStart.message(), "couldn't find start");
    assert_eq!(ParseError::MissingEnd.message(), "couldn't find end");
    assert_eq!(ParseError::UnsplittableTerm.message(), "couldn't split term");
    assert_eq!(ParseError::InvalidYear.message(), "couldn't parse year");
    assert_eq!(
        ParseError::InvalidTerm("autumn".to_string()).message(),
        "invalid term: \"autumn\""
    );
    assert_eq!(
        ParseError::InvalidKind("a\"b\n".to_string()).message(),
        "invalid kind: \"a\\\"b\\n\""
    );
    let e = ParseError::InvalidKind("x".to_string());
    assert_eq!(e.clone(), e);
}
