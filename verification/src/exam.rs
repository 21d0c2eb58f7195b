//! The exam record and its three closed enumerations.

use vstd::prelude::*;
use vstd::string::StrSliceExecFns;
use crate::error::{ParseError, ParseErrorView};
use crate::text::same_text;

verus! {

/// The academic term of an exam. Later in the year is greater.
#[derive(Clone, Copy, Debug, PartialEq, Eq, Structural, PartialOrd, Ord, Hash)]
pub enum Term {
    Winter,
    Spring,
    Fall,
}

/// The kind of an exam, from the smallest to the largest.
#[derive(Clone, Copy, Debug, PartialEq, Eq, Structural, PartialOrd, Ord, Hash)]
pub enum Kind {
    Quiz,
    Test,
    Midterm,
    Final,
}

/// Where a record comes from, from the lowest to the highest priority.
#[derive(Clone, Copy, Debug, PartialEq, Eq, Structural, PartialOrd, Ord, Hash)]
pub enum Source {
    MathSoc,
    MathSocServices,
}

/// The term that a word stands for: decided by its first character alone,
/// in either case.
pub open spec fn term_of_word(word: Seq<char>) -> Option<Term> {
    if word.len() == 0 {
        None
    } else if word[0] == 'w' || word[0] == 'W' {
        Some(Term::Winter)
    } else if word[0] == 's' || word[0] == 'S' {
        Some(Term::Spring)
    } else if word[0] == 'f' || word[0] == 'F' {
        Some(Term::Fall)
    } else {
        None
    }
}

/// The kind that a word stands for: the word is one of the four literals,
/// letter for letter.
pub open spec fn kind_of_word(word: Seq<char>) -> Option<Kind> {
    if word == "Quiz"@ {
        Some(Kind::Quiz)
    } else if word == "Test"@ {
        Some(Kind::Test)
    } else if word == "Midterm"@ {
        Some(Kind::Midterm)
    } else if word == "Final"@ {
        Some(Kind::Final)
    } else {
        None
    }
}

impl Term {
    /// The position of the term in the year, from 0.
    pub open spec fn rank(self) -> int {
        match self {
            Term::Winter => 0,
            Term::Spring => 1,
            Term::Fall => 2,
        }
    }

    /// The word that names the term.
    pub open spec fn word(self) -> Seq<char> {
        match self {
            Term::Winter => "Winter"@,
            Term::Spring => "Spring"@,
            Term::Fall => "Fall"@,
        }
    }

    /// Reads a term from a word by its first character; a word that begins
    /// with anything else, or with nothing, is refused with the word.
    pub fn from_str(s: &str) -> (parsed: Result<Term, ParseError>)
        ensures
            match term_of_word(s@) {
                Some(term) => parsed == Ok::<Term, ParseError>(term),
                None => parsed matches Err(e) && e@ == ParseErrorView::InvalidTerm(s@),
            },
    {
        if s.is_empty() {
            return Err(ParseError::InvalidTerm(s.to_owned()));
        }
        let first = s.get_char(0);
        if first == 'w' || first == 'W' {
            Ok(Term::Winter)
        } else if first == 's' || first == 'S' {
            Ok(Term::Spring)
        } else if first == 'f' || first == 'F' {
            Ok(Term::Fall)
        } else {
            Err(ParseError::InvalidTerm(s.to_owned()))
        }
    }

    /// The word that names the term.
    pub fn as_str(&self) -> (name: &'static str)
        ensures
            name@ == self.word(),
    {
        match self {
            Term::Winter => "Winter",
            Term::Spring => "Spring",
            Term::Fall => "Fall",
        }
    }
}

impl std::str::FromStr for Term {
    type Err = ParseError;

    /// Reads a term as `Term::from_str` does, for callers that parse through
    /// the standard trait.
    fn from_str(s: &str) -> (parsed: Result<Term, ParseError>)
        ensures
            match term_of_word(s@) {
                Some(term) => parsed == Ok::<Term, ParseError>(term),
                None => parsed matches Err(e) && e@ == ParseErrorView::InvalidTerm(s@),
            },
    {
        Term::from_str(s)
    }
}

impl std::str::FromStr for Kind {
    type Err = ParseError;

    /// Reads a kind as `Kind::from_str` does, for callers that parse through
    /// the standard trait.
    fn from_str(s: &str) -> (parsed: Result<Kind, ParseError>)
        ensures
            match kind_of_word(s@) {
                Some(kind) => parsed == Ok::<Kind, ParseError>(kind),
                None => parsed matches Err(e) && e@ == ParseErrorView::InvalidKind(s@),
            },
    {
        Kind::from_str(s)
    }
}

impl Kind {
    /// The position of the kind among the four, from 0.
    pub open spec fn rank(self) -> int {
        match self {
            Kind::Quiz => 0,
            Kind::Test => 1,
            Kind::Midterm => 2,
            Kind::Final => 3,
        }
    }

    /// The word that names the kind.
    pub open spec fn word(self) -> Seq<char> {
        match self {
            Kind::Quiz => "Quiz"@,
            Kind::Test => "Test"@,
            Kind::Midterm => "Midterm"@,
            Kind::Final => "Final"@,
        }
    }

    /// Reads a kind from one of the four literals, letter for letter; any
    /// other word, also one that differs only in case, is refused with the
    /// word.
    pub fn from_str(s: &str) -> (parsed: Result<Kind, ParseError>)
        ensures
            match kind_of_word(s@) {
                Some(kind) => parsed == Ok::<Kind, ParseError>(kind),
                None => parsed matches Err(e) && e@ == ParseErrorView::InvalidKind(s@),
            },
    {
        if same_text(s, "Quiz") {
            Ok(Kind::Quiz)
        } else if same_text(s, "Test") {
            Ok(Kind::Test)
        } else if same_text(s, "Midterm") {
            Ok(Kind::Midterm)
        } else if same_text(s, "Final") {
            Ok(Kind::Final)
        } else {
            Err(ParseError::InvalidKind(s.to_owned()))
        }
    }

    /// The word that names the kind.
    pub fn as_str(&self) -> (name: &'static str)
        ensures
            name@ == self.word(),
    {
        match self {
            Kind::Quiz => "Quiz",
            Kind::Test => "Test",
            Kind::Midterm => "Midterm",
            Kind::Final => "Final",
        }
    }
}

impl Source {
    /// The priority of the source: the greater one wins a merge.
    pub open spec fn rank(self) -> int {
        match self {
            Source::MathSoc => 0,
            Source::MathSocServices => 1,
        }
    }

    /// The name under which the source is shown.
    pub open spec fn label(self) -> Seq<char> {
        match self {
            Source::MathSoc => "MathSoc"@,
            Source::MathSocServices => "MathSoc Services"@,
        }
    }

    /// The name under which the source is shown.
    pub fn as_str(&self) -> (name: &'static str)
        ensures
            name@ == self.label(),
    {
        match self {
            Source::MathSoc => "MathSoc",
            Source::MathSocServices => "MathSoc Services",
        }
    }
}

/// One exam of one course, as one source reports it. Either document may be
/// missing.
#[derive(Debug, PartialEq, Eq)]
pub struct Exam {
    pub year: i32,
    pub term: Term,
    pub kind: Kind,
    pub source: Source,
    pub exam_url: Option<String>,
    pub solution_url: Option<String>,
}

/// An exam record as a plain value: what contracts speak of.
pub struct ExamView {
    pub year: int,
    pub term: Term,
    pub kind: Kind,
    pub source: Source,
    pub exam_url: Option<Seq<char>>,
    pub solution_url: Option<Seq<char>>,
}

impl View for Exam {
    type V = ExamView;

    open spec fn view(&self) -> ExamView {
        ExamView {
            year: self.year as int,
            term: self.term,
            kind: self.kind,
            source: self.source,
            exam_url: match self.exam_url {
                Some(url) => Some(url@),
                None => None,
            },
            solution_url: match self.solution_url {
                Some(url) => Some(url@),
                None => None,
            },
        }
    }
}

impl DeepView for Exam {
    type V = ExamView;

    open spec fn deep_view(&self) -> ExamView {
        self@
    }
}

impl ExamView {
    /// Two records describe the same exam event: they agree on year, term
    /// and kind.
    pub open spec fn same_event(self, other: ExamView) -> bool {
        self.year == other.year && self.term == other.term && self.kind == other.kind
    }

    /// `self` comes before `other`, or beside it, in the order by year, then
    /// term, then kind, then source. The documents play no part.
    pub open spec fn at_most(self, other: ExamView) -> bool {
        if self.year != other.year {
            self.year < other.year
        } else if self.term != other.term {
            self.term.rank() < other.term.rank()
        } else if self.kind != other.kind {
            self.kind.rank() < other.kind.rank()
        } else {
            self.source.rank() <= other.source.rank()
        }
    }
}

impl Clone for Exam {
    fn clone(&self) -> (copy: Exam)
        ensures
            copy == *self,
    {
        Exam {
            year: self.year,
            term: self.term,
            kind: self.kind,
            source: self.source,
            exam_url: copy_text(&self.exam_url),
            solution_url: copy_text(&self.solution_url),
        }
    }
}

impl Exam {
    /// Whether two records describe the same exam event.
    pub fn same_event(&self, other: &Exam) -> (same: bool)
        ensures
            same == self@.same_event(other@),
    {
        self.year == other.year && self.term == other.term && self.kind == other.kind
    }

    /// Whether `self` comes before `other`, or beside it, in the order by
    /// year, term, kind and source.
    pub fn at_most(&self, other: &Exam) -> (holds: bool)
        ensures
            holds == self@.at_most(other@),
    {
        if self.year != other.year {
            self.year < other.year
        } else if self.term != other.term {
            term_rank(self.term) < term_rank(other.term)
        } else if self.kind != other.kind {
            kind_rank(self.kind) < kind_rank(other.kind)
        } else {
            source_rank(self.source) <= source_rank(other.source)
        }
    }
}

fn term_rank(term: Term) -> (rank: u8)
    ensures
        rank == term.rank(),
{
    match term {
        Term::Winter => 0,
        Term::Spring => 1,
        Term::Fall => 2,
    }
}

fn kind_rank(kind: Kind) -> (rank: u8)
    ensures
        rank == kind.rank(),
{
    match kind {
        Kind::Quiz => 0,
        Kind::Test => 1,
        Kind::Midterm => 2,
        Kind::Final => 3,
    }
}

fn source_rank(source: Source) -> (rank: u8)
    ensures
        rank == source.rank(),
{
    match source {
        Source::MathSoc => 0,
        Source::MathSocServices => 1,
    }
}

fn copy_text(text: &Option<String>) -> (copy: Option<String>)
    ensures
        copy == *text,
{
    match text {
        Some(s) => Some(s.clone()),
        None => None,
    }
}

} // verus!
