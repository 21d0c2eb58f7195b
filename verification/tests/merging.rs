use examfinder::exam::{Exam, Kind, Source, Term};
use examfinder::scraper::{deduplicate, merge, sort_newest_first};

fn exam(year: i32, term: Term, kind: Kind, source: Source) -> Exam {
    Exam { year, term, kind, source, exam_url: None, solution_url: None }
}

fn with_urls(mut e: Exam, exam_url: Option<&str>, solution_url: Option<&str>) -> Exam {
    e.exam_url = exam_url.map(|s| s.to_string());
    e.solution_url = solution_url.map(|s| s.to_string());
    e
}

#[test]
fn deduplicate_of_nothing_is_nothing() {
    assert_eq!(deduplicate(vec![]), vec![]);
}

#[test]
fn deduplicate_keeps_a_single_record() {
    let a = exam(2021, Term::Winter, Kind::Midterm, Source::MathSoc);
    assert_eq!(deduplicate(vec![a.clone()]), vec![a]);
}

#[test]
fn deduplicate_keeps_first_of_pair() {
    let a = exam(2021, Term::Winter, Kind::Midterm, Source::MathSocServices);
    let b = exam(2021, Term::Winter, Kind::Midterm, Source::MathSoc);
    let kept = deduplicate(vec![a.clone(), b]);
    assert_eq!(kept, vec![a]);
}

#[test]
fn deduplicate_keeps_first_of_pair_whatever_its_source() {
    let a = exam(2021, Term::Winter, Kind::Midterm, Source::MathSoc);
    let b = exam(2021, Term::Winter, Kind::Midterm, Source::MathSocServices);
    let kept = deduplicate(vec![a.clone(), b]);
    assert_eq!(kept, vec![a]);
}

#[test]
fn deduplicate_keeps_both_records_of_one_source() {
    let a = with_urls(exam(2021, Term::Winter, Kind::Midterm, Source::MathSoc), Some("a"), None);
    let b = with_urls(exam(2021, Term::Winter, Kind::Midterm, Source::MathSoc), Some("b"), None);
    let kept = deduplicate(vec![a.clone(), b.clone()]);
    assert_eq!(kept, vec![a, b]);
}

#[test]
fn deduplicate_keeps_different_events() {
    let list = vec![
        exam(2021, Term::Winter, Kind::Midterm, Source::MathSocServices),
        exam(2021, Term::Winter, Kind::Quiz, Source::MathSoc),
        exam(2020, Term::Winter, Kind::Quiz, Source::MathSocServices),
        exam(2020, Term::Spring, Kind::Quiz, Source::MathSoc),
    ];
    assert_eq!(deduplicate(list.clone()), list);
}

#[test]
fn deduplicate_holds_each_record_against_the_last_kept() {
    let b1 = with_urls(exam(2021, Term::Fall, Kind::Final, Source::MathSocServices), Some("1"), None);
    let b2 = with_urls(exam(2021, Term::Fall, Kind::Final, Source::MathSocServices), Some("2"), None);
    let a1 = with_urls(exam(2021, Term::Fall, Kind::Final, Source::MathSoc), Some("3"), None);
    let a2 = with_urls(exam(2021, Term::Fall, Kind::Final, Source::MathSoc), Some("4"), None);
    let kept = deduplicate(vec![b1.clone(), b2.clone(), a1, a2]);
    assert_eq!(kept, vec![b1, b2]);
}

#[test]
fn deduplicate_never_lengthens_and_never_reorders() {
    let list = vec![
        exam(2022, Term::Fall, Kind::Final, Source::MathSocServices),
        exam(2022, Term::Fall, Kind::Final, Source::MathSoc),
        exam(2022, Term::Fall, Kind::Midterm, Source::MathSoc),
        exam(2021, Term::Spring, Kind::Test, Source::MathSocServices),
        exam(2021, Term::Spring, Kind::Test, Source::MathSoc),
        exam(2019, Term::Winter, Kind::Quiz, Source::MathSoc),
    ];
    let kept = deduplicate(list.clone());
    assert!(kept.len() <= list.len());
    assert_eq!(kept, vec![list[0].clone(), list[2].clone(), list[3].clone(), list[5].clone()]);
}

#[test]
fn deduplicate_twice_is_deduplicate_once() {
    let list = vec![
        exam(2022, Term::Fall, Kind::Final, Source::MathSocServices),
        exam(2022, Term::Fall, Kind::Final, Source::MathSoc),
        exam(2022, Term::Fall, Kind::Final, Source::MathSoc),
        exam(2021, Term::Spring, Kind::Test, Source::MathSoc),
        exam(2021, Term::Spring, Kind::Test, Source::MathSocServices),
        exam(2021, Term::Spring, Kind::Test, Source::MathSoc),
    ];
    let once = deduplicate(list);
    let twice = deduplicate(once.clone());
    assert_eq!(twice, once);
}

#[test]
fn sort_puts_newest_first() {
    let list = vec![
        exam(2019, Term::Winter, Kind::Quiz, Source::MathSoc),
        exam(2021, Term::Spring, Kind::Test, Source::MathSoc),
        exam(2021, Term::Fall, Kind::Quiz, Source::MathSoc),
        exam(2021, Term::Spring, Kind::Final, Source::MathSoc),
        exam(2021, Term::Spring, Kind::Test, Source::MathSocServices),
        exam(2022, Term::Winter, Kind::Quiz, Source::MathSoc),
    ];
    let sorted = sort_newest_first(list);
    assert_eq!(
        sorted,
        vec![
            exam(2022, Term::Winter, Kind::Quiz, Source::MathSoc),
            exam(2021, Term::Fall, Kind::Quiz, Source::MathSoc),
            exam(2021, Term::Spring, Kind::Final, Source::MathSoc),
            exam(2021, Term::Spring, Kind::Test, Source::MathSocServices),
            exam(2021, Term::Spring, Kind::Test, Source::MathSoc),
            exam(2019, Term::Winter, Kind::Quiz, Source::MathSoc),
        ]
    );
}

#[test]
fn sort_reverses_records_that_are_beside_each_other() {
    let a = with_urls(exam(2021, Term::Fall, Kind::Final, Source::MathSoc), Some("a"), None);
    let b = with_urls(exam(2021, Term::Fall, Kind::Final, Source::MathSoc), Some("b"), None);
    let c = with_urls(exam(2021, Term::Fall, Kind::Final, Source::MathSoc), Some("c"), None);
    let sorted = sort_newest_first(vec![a.clone(), b.clone(), c.clone()]);
    assert_eq!(sorted, vec![c, b, a]);
}

#[test]
fn sort_keeps_a_sorted_list_and_an_empty_one() {
    assert_eq!(sort_newest_first(vec![]), vec![]);
    let list = vec![
        exam(2022, Term::Winter, Kind::Quiz, Source::MathSoc),
        exam(2021, Term::Fall, Kind::Quiz, Source::MathSoc),
        exam(-5, Term::Fall, Kind::Quiz, Source::MathSoc),
    ];
    assert_eq!(sort_newest_first(list.clone()), list);
}

#[test]
fn merge_prefers_the_record_of_the_higher_source() {
    let partial = with_urls(
        exam(2021, Term::Winter, Kind::Midterm, Source::MathSoc),
        Some("https://mathsoc.uwaterloo.ca/wp-content/uploads/CS135Winter2021Midtermexam.pdf"),
        None,
    );
    let complete = with_urls(
        exam(2021, Term::Winter, Kind::Midterm, Source::MathSocServices),
        Some("https://services.mathsoc.uwaterloo.ca/exams/1.pdf"),
        Some("https://services.mathsoc.uwaterloo.ca/exams/1s.pdf"),
    );
    let result = merge(vec![partial], vec![complete.clone()]);
    assert_eq!(result, vec![complete]);
}

#[test]
fn merge_of_one_source_alone_returns_its_records_sorted() {
    let a = exam(2019, Term::Winter, Kind::Quiz, Source::MathSoc);
    let b = exam(2021, Term::Winter, Kind::Midterm, Source::MathSoc);
    let result = merge(vec![a.clone(), b.clone()], vec![]);
    assert_eq!(result, vec![b.clone(), a.clone()]);
    let result = merge(vec![], vec![a.clone(), b.clone()]);
    assert_eq!(result, vec![b, a]);
    assert_eq!(merge(vec![], vec![]), vec![]);
}

#[test]
fn merge_interleaves_and_collapses() {
    let a1 = exam(2020, Term::Fall, Kind::Final, Source::MathSoc);
    let a2 = exam(2021, Term::Winter, Kind::Midterm, Source::MathSoc);
    let a3 = exam(2018, Term::Spring, Kind::Quiz, Source::MathSoc);
    let b1 = exam(2021, Term::Winter, Kind::Midterm, Source::MathSocServices);
    let b2 = exam(2019, Term::Fall, Kind::Test, Source::MathSocServices);
    let b3 = exam(2020, Term::Fall, Kind::Final, Source::MathSocServices);
    let result = merge(vec![a1, a2, a3.clone()], vec![b1.clone(), b2.clone(), b3.clone()]);
    assert_eq!(result, vec![b1, b3, b2, a3]);
}

fn sample(seed: u64, count: usize) -> Vec<Exam> {
    let mut state = seed;
    let mut list = Vec::new();
    for index in 0..count {
        state = state.wrapping_mul(6364136223846793005).wrapping_add(1442695040888963407);
        let bits = state >> 33;
        let term = [Term::Winter, Term::Spring, Term::Fall][(bits % 3) as usize];
        let kind = [Kind::Quiz, Kind::Test, Kind::Midterm, Kind::Final][((bits >> 2) % 4) as usize];
        let source = [Source::MathSoc, Source::MathSocServices][((bits >> 4) % 2) as usize];
        let year = 2019 + ((bits >> 5) % 3) as i32;
        list.push(with_urls(exam(year, term, kind, source), Some(&index.to_string()), None));
    }
    list
}

fn key(e: &Exam) -> (i32, Term, Kind, Source) {
    (e.year, e.term, e.kind, e.source)
}

#[test]
fn sort_is_a_stable_sort_upwards_reversed() {
    for seed in 0..40 {
        let list = sample(seed, 5 + (seed as usize % 30));
        let mut expected = list.clone();
        expected.sort_by_key(key);
        expected.reverse();
        assert_eq!(sort_newest_first(list), expected);
    }
}

#[test]
fn merge_is_sorted_settled_and_keeps_the_best_of_every_event() {
    for seed in 0..40 {
        let first = sample(seed, 3 + (seed as usize % 20));
        let second = sample(seed + 1000, 2 + (seed as usize % 15));
        let result = merge(first.clone(), second.clone());
        assert!(result.len() <= first.len() + second.len());
        for pair in result.windows(2) {
            assert!(pair[1].at_most(&pair[0]));
            assert!(!(pair[0].same_event(&pair[1]) && pair[0].source != pair[1].source));
        }
        for record in first.iter().chain(second.iter()) {
            assert!(result.iter().any(|kept| kept.same_event(record) && kept.source >= record.source));
        }
        assert_eq!(deduplicate(result.clone()), result);
    }
}
