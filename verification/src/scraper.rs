//! Merging the records of the two sources: order them newest first, then let
//! records of the same exam event give way to the one that came first.

pub mod mathsoc;
pub mod mathsoc_services;

use vstd::prelude::*;
use vstd::seq_lib::to_multiset_insert;
use crate::exam::{Exam, ExamView};

verus! {

/// The records of a list as plain values, in the same order.
pub open spec fn views(exams: Seq<Exam>) -> Seq<ExamView> {
    exams.map_values(|exam: Exam| exam@)
}

/// Every record is at most each record before it: the list runs from the
/// newest year down and, within one exam event, from the highest priority
/// down.
pub open spec fn descending(list: Seq<ExamView>) -> bool {
    forall|i: int, j: int| 0 <= i < j < list.len() ==> list[j].at_most(list[i])
}

/// Where a record enters a descending list: before the first record that is
/// at most it, or at the end if there is none.
pub open spec fn slot(list: Seq<ExamView>, exam: ExamView) -> int
    decreases list.len(),
{
    if list.len() == 0 || list[0].at_most(exam) {
        0
    } else {
        1 + slot(list.drop_first(), exam)
    }
}

/// The list in descending order. Records that are beside each other in the
/// order come out in the reverse of the order they went in.
pub open spec fn newest_first(list: Seq<ExamView>) -> Seq<ExamView>
    decreases list.len(),
{
    if list.len() == 0 {
        list
    } else {
        let before = newest_first(list.drop_last());
        before.insert(slot(before, list.last()), list.last())
    }
}

/// Every record is at most each record after it.
pub open spec fn ascending(list: Seq<ExamView>) -> bool {
    forall|i: int, j: int| 0 <= i < j < list.len() ==> list[i].at_most(list[j])
}

/// Where a record enters an ascending list: before the first record that is
/// not at most it, so behind the records that are beside it in the order.
pub open spec fn slot_upwards(list: Seq<ExamView>, exam: ExamView) -> int
    decreases list.len(),
{
    if list.len() == 0 || !list[0].at_most(exam) {
        0
    } else {
        1 + slot_upwards(list.drop_first(), exam)
    }
}

/// The list in ascending order, with the records that are beside each other
/// in the order they went in.
pub open spec fn oldest_first(list: Seq<ExamView>) -> Seq<ExamView>
    decreases list.len(),
{
    if list.len() == 0 {
        list
    } else {
        let before = oldest_first(list.drop_last());
        before.insert(slot_upwards(before, list.last()), list.last())
    }
}

/// A record gives way to the record kept before it: both describe the same
/// exam event, and they come from different sources.
pub open spec fn gives_way(kept: ExamView, next: ExamView) -> bool {
    kept.same_event(next) && kept.source != next.source
}

/// The list after one pass from the left, in which each record is held
/// against the last record kept so far and dropped if it gives way to it.
/// Two records of one event and one source do not give way to each other:
/// both stay.
pub open spec fn deduplicated(list: Seq<ExamView>) -> Seq<ExamView>
    decreases list.len(),
{
    if list.len() == 0 {
        list
    } else {
        let before = deduplicated(list.drop_last());
        if before.len() > 0 && gives_way(before.last(), list.last()) {
            before
        } else {
            before.push(list.last())
        }
    }
}

/// No record of the list gives way to the record just before it.
pub open spec fn settled(list: Seq<ExamView>) -> bool {
    forall|i: int| 0 < i < list.len() ==> !gives_way(#[trigger] list[i - 1], list[i])
}

/// `part` can be had from `whole` by leaving records out, without moving any.
pub open spec fn kept_in_order(part: Seq<ExamView>, whole: Seq<ExamView>) -> bool
    decreases whole.len(),
{
    if part.len() == 0 {
        true
    } else if whole.len() == 0 {
        false
    } else {
        ||| (part.last() == whole.last() && kept_in_order(part.drop_last(), whole.drop_last()))
        ||| kept_in_order(part, whole.drop_last())
    }
}

/// What a query returns for the records of the first and the second source:
/// both lists together, newest first, deduplicated.
pub open spec fn merged(first: Seq<ExamView>, second: Seq<ExamView>) -> Seq<ExamView> {
    deduplicated(newest_first(first + second))
}

proof fn lemma_slot(list: Seq<ExamView>, exam: ExamView)
    ensures
        0 <= slot(list, exam) <= list.len(),
        forall|j: int| 0 <= j < slot(list, exam) ==> !(#[trigger] list[j]).at_most(exam),
        slot(list, exam) < list.len() ==> list[slot(list, exam)].at_most(exam),
    decreases list.len(),
{
    if list.len() > 0 && !list[0].at_most(exam) {
        let rest = list.drop_first();
        lemma_slot(rest, exam);
        assert forall|j: int| 0 <= j < slot(list, exam) implies !(#[trigger] list[j]).at_most(
            exam,
        ) by {
            if j > 0 {
                assert(list[j] == rest[j - 1]);
            }
        }
    }
}

proof fn lemma_slot_is(list: Seq<ExamView>, exam: ExamView, at: int)
    requires
        0 <= at <= list.len(),
        forall|j: int| 0 <= j < at ==> !(#[trigger] list[j]).at_most(exam),
        at < list.len() ==> list[at].at_most(exam),
    ensures
        slot(list, exam) == at,
{
    lemma_slot(list, exam);
}

/// Sorting keeps every record, as often as it occurs, and leaves the list in
/// descending order.
pub proof fn newest_first_is_sorted_permutation(list: Seq<ExamView>)
    ensures
        descending(newest_first(list)),
        newest_first(list).to_multiset() == list.to_multiset(),
        newest_first(list).len() == list.len(),
    decreases list.len(),
{
    if list.len() > 0 {
        let before = newest_first(list.drop_last());
        let exam = list.last();
        let at = slot(before, exam);
        let after = before.insert(at, exam);
        newest_first_is_sorted_permutation(list.drop_last());
        lemma_slot(before, exam);
        to_multiset_insert(before, at, exam);
        assert(list.drop_last().push(exam) =~= list);
        vstd::seq_lib::to_multiset_build(list.drop_last(), exam);
        assert forall|i: int, j: int| 0 <= i < j < after.len() implies after[j].at_most(
            after[i],
        ) by {
            if i == at && j - 1 > at {
                assert(before[j - 1].at_most(before[at]));
            }
        }
    }
}

proof fn lemma_slot_upwards(list: Seq<ExamView>, exam: ExamView)
    ensures
        0 <= slot_upwards(list, exam) <= list.len(),
        forall|j: int| 0 <= j < slot_upwards(list, exam) ==> (#[trigger] list[j]).at_most(exam),
        slot_upwards(list, exam) < list.len() ==> !list[slot_upwards(list, exam)].at_most(exam),
    decreases list.len(),
{
    if list.len() > 0 && list[0].at_most(exam) {
        let rest = list.drop_first();
        lemma_slot_upwards(rest, exam);
        assert forall|j: int| 0 <= j < slot_upwards(list, exam) implies (#[trigger] list[j]).at_most(
            exam,
        ) by {
            if j > 0 {
                assert(list[j] == rest[j - 1]);
            }
        }
    }
}

/// Sorting upwards leaves the list in ascending order, with every record
/// of it.
pub proof fn oldest_first_is_sorted_permutation(list: Seq<ExamView>)
    ensures
        ascending(oldest_first(list)),
        oldest_first(list).to_multiset() == list.to_multiset(),
        oldest_first(list).len() == list.len(),
    decreases list.len(),
{
    if list.len() > 0 {
        let before = oldest_first(list.drop_last());
        let exam = list.last();
        let at = slot_upwards(before, exam);
        let after = before.insert(at, exam);
        oldest_first_is_sorted_permutation(list.drop_last());
        lemma_slot_upwards(before, exam);
        to_multiset_insert(before, at, exam);
        assert(list.drop_last().push(exam) =~= list);
        vstd::seq_lib::to_multiset_build(list.drop_last(), exam);
        assert forall|i: int, j: int| 0 <= i < j < after.len() implies after[i].at_most(
            after[j],
        ) by {
            if i == at && j - 1 > at {
                assert(before[at].at_most(before[j - 1]));
            }
        }
    }
}

/// The descending order is what is had by sorting upwards, with the records
/// that are beside each other left in their order, and then reversing.
pub proof fn newest_first_is_sorted_then_reversed(list: Seq<ExamView>)
    ensures
        newest_first(list) == oldest_first(list).reverse(),
    decreases list.len(),
{
    if list.len() > 0 {
        let head = list.drop_last();
        let exam = list.last();
        let up = oldest_first(head);
        let down = newest_first(head);
        newest_first_is_sorted_then_reversed(head);
        oldest_first_is_sorted_permutation(head);
        lemma_slot_upwards(up, exam);
        let at = slot_upwards(up, exam);
        let count = up.len() as int;
        assert forall|j: int| 0 <= j < count - at implies !(#[trigger] down[j]).at_most(exam) by {
            let k = count - 1 - j;
            if k > at {
                assert(up[at].at_most(up[k]));
            }
        }
        lemma_slot_is(down, exam, count - at);
    }
}

/// A list that is in descending order already, with no two records beside
/// each other in the order, is left as it is.
pub proof fn newest_first_keeps_sorted(list: Seq<ExamView>)
    requires
        forall|i: int, j: int|
            0 <= i < j < list.len() ==> list[j].at_most(list[i]) && !list[i].at_most(list[j]),
    ensures
        newest_first(list) == list,
    decreases list.len(),
{
    if list.len() > 0 {
        let head = list.drop_last();
        newest_first_keeps_sorted(head);
        lemma_slot_is(head, list.last(), head.len() as int);
    }
}

/// Deduplication never lengthens a list, keeps the first record where there
/// is one, leaves out records without moving any, and ends with a list in
/// which no record gives way to the one before it.
pub proof fn deduplicated_is_settled_part(list: Seq<ExamView>)
    ensures
        deduplicated(list).len() <= list.len(),
        list.len() > 0 ==> deduplicated(list).len() > 0 && deduplicated(list)[0] == list[0],
        kept_in_order(deduplicated(list), list),
        settled(deduplicated(list)),
    decreases list.len(),
{
    if list.len() > 0 {
        deduplicated_is_settled_part(list.drop_last());
        let before = deduplicated(list.drop_last());
        let after = deduplicated(list);
        if !(before.len() > 0 && gives_way(before.last(), list.last())) {
            assert(after.drop_last() =~= before);
        }
    }
}

/// A list in which no record gives way to the one before it is left as it
/// is.
pub proof fn deduplicated_keeps_settled(list: Seq<ExamView>)
    requires
        settled(list),
    ensures
        deduplicated(list) == list,
    decreases list.len(),
{
    if list.len() > 0 {
        let head = list.drop_last();
        deduplicated_keeps_settled(head);
    }
}

/// Deduplicating a second time changes nothing.
pub proof fn deduplicated_twice(list: Seq<ExamView>)
    ensures
        deduplicated(deduplicated(list)) == deduplicated(list),
{
    deduplicated_is_settled_part(list);
    deduplicated_keeps_settled(deduplicated(list));
}

/// Two records of one exam event from different sources, side by side,
/// become the first of them.
pub proof fn deduplicated_pair(first: ExamView, second: ExamView)
    requires
        first.same_event(second),
        first.source != second.source,
    ensures
        deduplicated(seq![first, second]) == seq![first],
{
    let pair = seq![first, second];
    assert(pair.drop_last() =~= seq![first]);
    assert(seq![first].drop_last() =~= Seq::<ExamView>::empty());
    assert(deduplicated(Seq::<ExamView>::empty()) =~= Seq::<ExamView>::empty());
    assert(deduplicated(seq![first]) =~= seq![first]);
}

proof fn lemma_kept_in_order_members(part: Seq<ExamView>, whole: Seq<ExamView>)
    requires
        kept_in_order(part, whole),
    ensures
        forall|j: int| 0 <= j < part.len() ==> whole.contains(#[trigger] part[j]),
    decreases whole.len(),
{
    if part.len() > 0 {
        let rest = whole.drop_last();
        if part.last() == whole.last() && kept_in_order(part.drop_last(), rest) {
            lemma_kept_in_order_members(part.drop_last(), rest);
            assert forall|j: int| 0 <= j < part.len() implies whole.contains(
                #[trigger] part[j],
            ) by {
                if j < part.len() - 1 {
                    assert(part.drop_last()[j] == part[j]);
                }
            }
        } else {
            lemma_kept_in_order_members(part, rest);
        }
    }
}

/// In a descending list nothing is lost to a lesser source: for every
/// record that went in, a record of the same exam event comes out whose
/// source has at least its priority.
pub proof fn deduplicated_keeps_best(list: Seq<ExamView>, i: int)
    requires
        descending(list),
        0 <= i < list.len(),
    ensures
        exists|j: int|
            0 <= j < deduplicated(list).len() && (#[trigger] deduplicated(list)[j]).same_event(
                list[i],
            ) && deduplicated(list)[j].source.rank() >= list[i].source.rank(),
    decreases list.len(),
{
    let head = list.drop_last();
    let before = deduplicated(head);
    let after = deduplicated(list);
    deduplicated_is_settled_part(head);
    if i < list.len() - 1 {
        deduplicated_keeps_best(head, i);
        let j = choose|j: int|
            0 <= j < before.len() && (#[trigger] before[j]).same_event(head[i])
                && before[j].source.rank() >= head[i].source.rank();
        assert(after[j] == before[j]);
    } else if before.len() > 0 && gives_way(before.last(), list.last()) {
        lemma_kept_in_order_members(before, head);
        let kept = before.last();
        let k = choose|k: int| 0 <= k < head.len() && head[k] == kept;
        assert(list[i].at_most(list[k]));
    } else {
        assert(after[after.len() - 1] == list[i]);
    }
}

/// Leaving records out of a descending list leaves a descending list.
pub proof fn kept_in_order_stays_descending(part: Seq<ExamView>, whole: Seq<ExamView>)
    requires
        kept_in_order(part, whole),
        descending(whole),
    ensures
        descending(part),
    decreases whole.len(),
{
    if part.len() > 0 {
        let rest = whole.drop_last();
        if part.last() == whole.last() && kept_in_order(part.drop_last(), rest) {
            let head = part.drop_last();
            kept_in_order_stays_descending(head, rest);
            lemma_kept_in_order_members(head, rest);
            assert forall|i: int, j: int| 0 <= i < j < part.len() implies part[j].at_most(
                part[i],
            ) by {
                assert(part[i] == head[i]);
                if j < part.len() - 1 {
                    assert(part[j] == head[j]);
                }
            }
        } else {
            kept_in_order_stays_descending(part, rest);
        }
    }
}

/// The answer to a query is in descending order, no record in it gives way
/// to the one before it, and it is no longer than what the sources returned.
pub proof fn merged_is_descending_and_settled(first: Seq<ExamView>, second: Seq<ExamView>)
    ensures
        descending(merged(first, second)),
        settled(merged(first, second)),
        merged(first, second).len() <= first.len() + second.len(),
{
    let sorted = newest_first(first + second);
    newest_first_is_sorted_permutation(first + second);
    deduplicated_is_settled_part(sorted);
    kept_in_order_stays_descending(deduplicated(sorted), sorted);
}

/// The answer to a query loses no exam event, and loses a record only to a
/// source of higher priority: for every record that either source returned,
/// the answer holds a record of the same event whose source has at least its
/// priority.
pub proof fn merged_keeps_best(first: Seq<ExamView>, second: Seq<ExamView>, exam: ExamView)
    requires
        first.contains(exam) || second.contains(exam),
    ensures
        exists|j: int|
            0 <= j < merged(first, second).len() && (#[trigger] merged(first, second)[j]).same_event(
                exam,
            ) && merged(first, second)[j].source.rank() >= exam.source.rank(),
{
    let all = first + second;
    let sorted = newest_first(all);
    newest_first_is_sorted_permutation(all);
    if first.contains(exam) {
        let k = choose|k: int| 0 <= k < first.len() && first[k] == exam;
        assert(all[k] == exam);
    } else {
        let k = choose|k: int| 0 <= k < second.len() && second[k] == exam;
        assert(all[first.len() + k] == exam);
    }
    vstd::seq_lib::to_multiset_contains(all, exam);
    vstd::seq_lib::to_multiset_contains(sorted, exam);
    let i = choose|i: int| 0 <= i < sorted.len() && sorted[i] == exam;
    deduplicated_keeps_best(sorted, i);
    let j = choose|j: int|
        0 <= j < deduplicated(sorted).len() && (#[trigger] deduplicated(sorted)[j]).same_event(
            sorted[i],
        ) && deduplicated(sorted)[j].source.rank() >= sorted[i].source.rank();
    assert(merged(first, second)[j] == deduplicated(sorted)[j]);
}

/// Puts the records in descending order: newest year first and, within one
/// exam event, the highest priority first.
pub fn sort_newest_first(exams: Vec<Exam>) -> (sorted: Vec<Exam>)
    ensures
        sorted.deep_view() == newest_first(exams.deep_view()),
        descending(sorted.deep_view()),
        sorted.deep_view().to_multiset() == exams.deep_view().to_multiset(),
        sorted.len() == exams.len(),
{
    let ghost input = exams.deep_view();
    let mut sorted: Vec<Exam> = Vec::new();
    for exam in it: exams
        invariant
            input == views(it.seq()),
            sorted.deep_view() == newest_first(input.take(it.index() as int)),
    {
        let ghost done = input.take(it.index() as int);
        let ghost before = sorted.deep_view();
        let mut at: usize = 0;
        while at < sorted.len() && !sorted[at].at_most(&exam)
            invariant
                at <= sorted.len(),
                before == sorted.deep_view(),
                forall|j: int| 0 <= j < at ==> !(#[trigger] before[j]).at_most(exam@),
            decreases sorted.len() - at,
        {
            at += 1;
        }
        proof {
            lemma_slot_is(before, exam@, at as int);
            let next = input.take(it.index() + 1);
            assert(next.drop_last() =~= done);
        }
        sorted.insert(at, exam);
    }
    proof {
        assert(input.take(input.len() as int) =~= input);
        newest_first_is_sorted_permutation(input);
    }
    sorted
}

/// Drops each record that gives way to the last record kept before it: in a
/// descending list, the records of an exam event that come from a lesser
/// source than the one kept.
pub fn deduplicate(exams: Vec<Exam>) -> (kept: Vec<Exam>)
    ensures
        kept.deep_view() == deduplicated(exams.deep_view()),
        kept.len() <= exams.len(),
        kept_in_order(kept.deep_view(), exams.deep_view()),
        settled(kept.deep_view()),
{
    let ghost input = exams.deep_view();
    let mut kept: Vec<Exam> = Vec::new();
    for exam in it: exams
        invariant
            input == views(it.seq()),
            kept.deep_view() == deduplicated(input.take(it.index() as int)),
    {
        let ghost done = input.take(it.index() as int);
        proof {
            let next = input.take(it.index() + 1);
            assert(next.drop_last() =~= done);
        }
        let count = kept.len();
        let absorbed = count > 0 && kept[count - 1].same_event(&exam) && kept[count - 1].source
            != exam.source;
        if !absorbed {
            kept.push(exam);
        }
    }
    proof {
        assert(input.take(input.len() as int) =~= input);
        deduplicated_is_settled_part(input);
    }
    kept
}

/// Answers a query from what the two sources returned for it: all records
/// newest first, and of the records of one exam event from both sources the
/// one of the higher priority.
pub fn merge(first: Vec<Exam>, second: Vec<Exam>) -> (result: Vec<Exam>)
    ensures
        result.deep_view() == merged(first.deep_view(), second.deep_view()),
        result.len() <= first.len() + second.len(),
{
    let mut all = first;
    let mut rest = second;
    let ghost joined = first.deep_view() + second.deep_view();
    all.append(&mut rest);
    assert(all.deep_view() =~= joined);
    let sorted = sort_newest_first(all);
    deduplicate(sorted)
}

} // verus!
