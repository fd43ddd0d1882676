//! The tests of a tracker: the details of each test, and the priority list
//! of the tests due within a week, soonest first.

use vstd::prelude::*;
use crate::coverage::{collect_covered_topics, covered_names, CoverageLookup};
use crate::models::{SubjectData, Test, TestCoverage};
use crate::progress::{
    calculate_tracker_progress, is_tracker_progress, topics_in_subjects, TrackerProgress,
};
use crate::schedule::{
    days_remaining, days_remaining_at, format_time_remaining_at, in_priority_window, is_priority,
    time_remaining_text,
};

verus! {

/// A test with its coverage rows and what each row was found to point at.
#[derive(Debug)]
pub struct TestSnapshot {
    pub test: Test,
    pub coverage: Vec<TestCoverage>,
    pub lookups: Vec<CoverageLookup>,
}

/// A test of the priority list.
#[derive(Debug, Clone)]
pub struct PriorityTest {
    pub test: Test,
    pub coverage: Vec<TestCoverage>,
    pub days_remaining: i32,
    pub time_remaining: String,
    pub covered_topics: Vec<String>,
}

/// A test with what it covers and the time left until it.
#[derive(Debug, Clone)]
pub struct TestDetails {
    pub test: Test,
    pub coverage: Vec<TestCoverage>,
    pub covered_topics: Vec<String>,
    pub days_remaining: i32,
    pub time_remaining: String,
}

/// All there is to show of a tracker.
#[derive(Debug)]
pub struct TrackerData {
    pub subjects: Vec<SubjectData>,
    pub progress: TrackerProgress,
    pub all_tests: Vec<Test>,
    pub priority_tests: Vec<PriorityTest>,
}

/// The model of a test with its coverage and the time left.
pub struct TestOutlook {
    pub test: Test,
    pub coverage: Seq<TestCoverage>,
    pub days_remaining: int,
    pub time_remaining: Seq<char>,
    pub covered_topics: Seq<Seq<char>>,
}

impl DeepView for PriorityTest {
    type V = TestOutlook;

    open spec fn deep_view(&self) -> TestOutlook {
        TestOutlook {
            test: self.test,
            coverage: self.coverage@,
            days_remaining: self.days_remaining as int,
            time_remaining: self.time_remaining@,
            covered_topics: self.covered_topics.deep_view(),
        }
    }
}

impl DeepView for TestDetails {
    type V = TestOutlook;

    open spec fn deep_view(&self) -> TestOutlook {
        TestOutlook {
            test: self.test,
            coverage: self.coverage@,
            days_remaining: self.days_remaining as int,
            time_remaining: self.time_remaining@,
            covered_topics: self.covered_topics.deep_view(),
        }
    }
}

/// The outlook of a test, seen from `now`.
pub open spec fn outlook_of(snapshot: TestSnapshot, now: int) -> TestOutlook {
    TestOutlook {
        test: snapshot.test,
        coverage: snapshot.coverage@,
        days_remaining: days_remaining(snapshot.test.scheduled_date as int, now),
        time_remaining: time_remaining_text(snapshot.test.scheduled_date as int, now),
        covered_topics: covered_names(snapshot.lookups@),
    }
}

/// The outlooks that are due within the priority window, in their order.
pub open spec fn due_soon(outlooks: Seq<TestOutlook>) -> Seq<TestOutlook> {
    outlooks.filter(|o: TestOutlook| in_priority_window(o.days_remaining))
}

/// Where a test with `days` days left goes into a list ordered by days left:
/// behind every test that is due no later.
pub open spec fn insertion_point(list: Seq<TestOutlook>, days: int) -> int
    decreases list.len(),
{
    if list.len() == 0 || list.last().days_remaining <= days {
        list.len() as int
    } else {
        insertion_point(list.drop_last(), days)
    }
}

/// The list with one more test in its place.
pub open spec fn inserted(list: Seq<TestOutlook>, outlook: TestOutlook) -> Seq<TestOutlook> {
    list.insert(insertion_point(list, outlook.days_remaining), outlook)
}

/// The outlooks ordered by days left, soonest first; tests with equal days
/// left keep the order in which they came.
pub open spec fn ranked(outlooks: Seq<TestOutlook>) -> Seq<TestOutlook>
    decreases outlooks.len(),
{
    if outlooks.len() == 0 {
        Seq::empty()
    } else {
        inserted(ranked(outlooks.drop_last()), outlooks.last())
    }
}

/// The outlooks of all the tests, in their order.
pub open spec fn outlooks_of(tests: Seq<TestSnapshot>, now: int) -> Seq<TestOutlook> {
    tests.map_values(|s: TestSnapshot| outlook_of(s, now))
}

/// The priority list of the tests, seen from `now`: the tests due within the
/// priority window, soonest first.
pub open spec fn priority_list(tests: Seq<TestSnapshot>, now: int) -> Seq<TestOutlook> {
    ranked(due_soon(outlooks_of(tests, now)))
}

/// Whether the list is in ascending order of days left.
pub open spec fn ascending(list: Seq<TestOutlook>) -> bool {
    forall|i: int, j: int|
        0 <= i <= j < list.len() ==> list[i].days_remaining <= list[j].days_remaining
}

/// The tests of the list with exactly `days` days left, in their order.
pub open spec fn with_days(list: Seq<TestOutlook>, days: int) -> Seq<TestOutlook> {
    list.filter(|o: TestOutlook| o.days_remaining == days)
}

/// The insertion point lies within the list; what stands before it is due
/// no later, and in an ascending list what stands behind it is due later.
pub proof fn lemma_insertion_point(list: Seq<TestOutlook>, days: int)
    ensures
        0 <= insertion_point(list, days) <= list.len(),
        forall|i: int|
            insertion_point(list, days) <= i < list.len() ==> (#[trigger] list[i]).days_remaining
                > days,
        ascending(list) ==> forall|i: int|
            0 <= i < insertion_point(list, days) ==> (#[trigger] list[i]).days_remaining <= days,
    decreases list.len(),
{
    if list.len() == 0 || list.last().days_remaining <= days {
    } else {
        let rest = list.drop_last();
        lemma_insertion_point(rest, days);
        assert forall|i: int| insertion_point(list, days) <= i < list.len() implies (
        #[trigger] list[i]).days_remaining > days by {
            if i < rest.len() {
                assert(list[i] == rest[i]);
            }
        }
        if ascending(list) {
            assert forall|i: int, j: int| 0 <= i <= j < rest.len() implies rest[i].days_remaining
                <= rest[j].days_remaining by {
                assert(rest[i] == list[i] && rest[j] == list[j]);
            }
            assert forall|i: int| 0 <= i < insertion_point(list, days) implies (
            #[trigger] list[i]).days_remaining <= days by {
                assert(list[i] == rest[i]);
            }
        }
    }
}

/// Putting a test in its place keeps an ascending list ascending.
pub proof fn lemma_inserted_ascending(list: Seq<TestOutlook>, outlook: TestOutlook)
    requires
        ascending(list),
    ensures
        ascending(inserted(list, outlook)),
{
    let p = insertion_point(list, outlook.days_remaining);
    lemma_insertion_point(list, outlook.days_remaining);
    let out = inserted(list, outlook);
    assert forall|i: int, j: int| 0 <= i <= j < out.len() implies out[i].days_remaining
        <= out[j].days_remaining by {
        if i < p {
            assert(out[i] == list[i]);
        } else if i > p {
            assert(out[i] == list[i - 1]);
        }
        if j < p {
            assert(out[j] == list[j]);
        } else if j > p {
            assert(out[j] == list[j - 1]);
        }
    }
}

/// A ranked list is in ascending order of days left.
pub proof fn lemma_ranked_ascending(outlooks: Seq<TestOutlook>)
    ensures
        ascending(ranked(outlooks)),
        ranked(outlooks).len() == outlooks.len(),
    decreases outlooks.len(),
{
    if outlooks.len() > 0 {
        lemma_ranked_ascending(outlooks.drop_last());
        lemma_insertion_point(ranked(outlooks.drop_last()), outlooks.last().days_remaining);
        lemma_inserted_ascending(ranked(outlooks.drop_last()), outlooks.last());
    }
}

proof fn lemma_with_days_push(list: Seq<TestOutlook>, outlook: TestOutlook, days: int)
    ensures
        with_days(list.push(outlook), days) == if outlook.days_remaining == days {
            with_days(list, days).push(outlook)
        } else {
            with_days(list, days)
        },
{
    reveal(Seq::filter);
    assert(list.push(outlook).drop_last() =~= list);
}

proof fn lemma_with_days_none(list: Seq<TestOutlook>, days: int)
    requires
        forall|i: int| 0 <= i < list.len() ==> (#[trigger] list[i]).days_remaining != days,
    ensures
        with_days(list, days).len() == 0,
    decreases list.len(),
{
    reveal(Seq::filter);
    if list.len() > 0 {
        let rest = list.drop_last();
        assert forall|i: int| 0 <= i < rest.len() implies (#[trigger] rest[i]).days_remaining
            != days by {
            assert(rest[i] == list[i]);
        }
        lemma_with_days_none(rest, days);
    }
}

/// Ranking is stable: the tests with any given number of days left stand in
/// the ranked list as they stood before, none lost, none added, and in the
/// same order.
pub proof fn lemma_ranked_stable(outlooks: Seq<TestOutlook>, days: int)
    ensures
        with_days(ranked(outlooks), days) == with_days(outlooks, days),
    decreases outlooks.len(),
{
    reveal(Seq::filter);
    if outlooks.len() > 0 {
        let rest = outlooks.drop_last();
        let last = outlooks.last();
        let list = ranked(rest);
        lemma_ranked_stable(rest, days);
        lemma_ranked_ascending(rest);
        lemma_insertion_point(list, last.days_remaining);
        let p = insertion_point(list, last.days_remaining);
        let keep = |o: TestOutlook| o.days_remaining == days;
        let front = list.take(p);
        let back = list.skip(p);
        assert(list =~= front + back);
        assert(inserted(list, last) =~= front.push(last) + back);
        Seq::filter_distributes_over_add(front, back, keep);
        Seq::filter_distributes_over_add(front.push(last), back, keep);
        lemma_with_days_push(front, last, days);
        lemma_with_days_push(rest, last, days);
        assert(rest.push(last) =~= outlooks);
        if last.days_remaining == days {
            assert forall|i: int| 0 <= i < back.len() implies (#[trigger] back[i]).days_remaining
                != days by {
                assert(back[i] == list[p + i]);
            }
            lemma_with_days_none(back, days);
            assert(with_days(back, days) =~= Seq::<TestOutlook>::empty());
            assert(with_days(front, days) + with_days(back, days) =~= with_days(front, days));
            assert(with_days(front, days).push(last) + with_days(back, days) =~= with_days(
                front,
                days,
            ).push(last));
        }
    }
}

/// The priority list holds only tests that lie ahead and are at most a week
/// away, in ascending order of days left: a test at or before the present is
/// never on it. It holds every such test, and those with equal days left in
/// the order in which they came.
pub proof fn lemma_priority_list(tests: Seq<TestSnapshot>, now: int)
    ensures
        ascending(priority_list(tests, now)),
        forall|i: int|
            0 <= i < priority_list(tests, now).len() ==> in_priority_window(
                (#[trigger] priority_list(tests, now)[i]).days_remaining,
            ),
        forall|i: int|
            0 <= i < priority_list(tests, now).len() ==> (#[trigger] priority_list(
                tests,
                now,
            )[i]).test.scheduled_date > now && outlooks_of(tests, now).contains(
                priority_list(tests, now)[i],
            ),
        forall|days: int|
            with_days(priority_list(tests, now), days) == if in_priority_window(days) {
                with_days(outlooks_of(tests, now), days)
            } else {
                Seq::empty()
            },
{
    let all = outlooks_of(tests, now);
    let soon = due_soon(all);
    let list = ranked(soon);
    lemma_ranked_ascending(soon);
    lemma_due_soon_all_in_window(all);
    assert forall|days: int|
        with_days(list, days) == if in_priority_window(days) {
            with_days(all, days)
        } else {
            Seq::empty()
        } by {
        lemma_ranked_stable(soon, days);
        lemma_due_soon_with_days(all, days);
    }
    assert forall|i: int| 0 <= i < list.len() implies in_priority_window(
        (#[trigger] list[i]).days_remaining,
    ) && list[i].test.scheduled_date > now && all.contains(list[i]) by {
        let d = list[i].days_remaining;
        let keep = |o: TestOutlook| o.days_remaining == d;
        list.lemma_filter_contains(keep, i);
        assert(with_days(list, d).len() > 0);
        assert(with_days(list, d) == with_days(all, d));
        all.lemma_filter_contains_rev(keep, list[i]);
        let k = choose|k: int| 0 <= k < all.len() && all[k] == list[i];
        assert(all[k] == outlook_of(tests[k], now));
        if list[i].test.scheduled_date <= now {
            crate::schedule::lemma_past_test(list[i].test.scheduled_date as int, now);
        }
    }
}

proof fn lemma_due_soon_all_in_window(all: Seq<TestOutlook>)
    ensures
        forall|i: int|
            0 <= i < due_soon(all).len() ==> in_priority_window(
                (#[trigger] due_soon(all)[i]).days_remaining,
            ),
{
    let soon = |o: TestOutlook| in_priority_window(o.days_remaining);
    assert forall|i: int| 0 <= i < due_soon(all).len() implies in_priority_window(
        (#[trigger] due_soon(all)[i]).days_remaining,
    ) by {
        all.lemma_filter_pred(soon, i);
    }
}

proof fn lemma_due_soon_with_days(all: Seq<TestOutlook>, days: int)
    ensures
        with_days(due_soon(all), days) == if in_priority_window(days) {
            with_days(all, days)
        } else {
            Seq::empty()
        },
    decreases all.len(),
{
    reveal(Seq::filter);
    if all.len() > 0 {
        let rest = all.drop_last();
        let last = all.last();
        lemma_due_soon_with_days(rest, days);
        if in_priority_window(last.days_remaining) {
            assert(due_soon(all) == due_soon(rest).push(last));
            lemma_with_days_push(due_soon(rest), last, days);
        }
    }
}

proof fn lemma_due_soon_push(all: Seq<TestOutlook>, outlook: TestOutlook)
    ensures
        due_soon(all.push(outlook)) == if in_priority_window(outlook.days_remaining) {
            due_soon(all).push(outlook)
        } else {
            due_soon(all)
        },
{
    reveal(Seq::filter);
    assert(all.push(outlook).drop_last() =~= all);
}

/// A copy of the coverage rows.
pub fn clone_coverage(coverage: &Vec<TestCoverage>) -> (copy: Vec<TestCoverage>)
    ensures
        copy@ == coverage@,
{
    let mut copy: Vec<TestCoverage> = Vec::new();
    let mut i: usize = 0;
    while i < coverage.len()
        invariant
            i <= coverage.len(),
            copy@ == coverage@.take(i as int),
        decreases coverage.len() - i,
    {
        copy.push(coverage[i].clone());
        assert(coverage@.take(i + 1) =~= coverage@.take(i as int).push(coverage@[i as int]));
        i = i + 1;
    }
    assert(coverage@.take(coverage.len() as int) =~= coverage@);
    copy
}

/// The details of a test, seen from `now`: its coverage rows, the names of
/// the topics that they resolve to, the days left and the countdown.
pub fn test_details(snapshot: &TestSnapshot, now: i64) -> (details: TestDetails)
    ensures
        details.deep_view() == outlook_of(*snapshot, now as int),
{
    TestDetails {
        test: snapshot.test.clone(),
        coverage: clone_coverage(&snapshot.coverage),
        covered_topics: collect_covered_topics(&snapshot.lookups),
        days_remaining: days_remaining_at(snapshot.test.scheduled_date, now),
        time_remaining: format_time_remaining_at(snapshot.test.scheduled_date, now),
    }
}

/// The details of a test that was looked up, seen from `now`; nothing for a
/// test that does not exist.
pub fn get_test_details(snapshot: Option<TestSnapshot>, now: i64) -> (details: Option<TestDetails>)
    ensures
        match snapshot {
            Some(found) => details matches Some(d) && d.deep_view() == outlook_of(
                found,
                now as int,
            ),
            None => details is None,
        },
{
    match snapshot {
        Some(found) => Some(test_details(&found, now)),
        None => None,
    }
}

/// Puts a test into a priority list in its place: behind every test that is
/// due no later.
pub fn insert_by_days(list: &mut Vec<PriorityTest>, entry: PriorityTest)
    ensures
        final(list).deep_view() == inserted(old(list).deep_view(), entry.deep_view()),
{
    let ghost before = list.deep_view();
    let ghost added = entry.deep_view();
    let days = entry.days_remaining;
    let mut p: usize = list.len();
    assert(before.take(p as int) =~= before);
    while p > 0 && list[p - 1].days_remaining > days
        invariant
            p <= list.len(),
            before == list.deep_view(),
            insertion_point(before, days as int) == insertion_point(
                before.take(p as int),
                days as int,
            ),
        decreases p,
    {
        assert(before.take(p as int).drop_last() =~= before.take(p - 1));
        p = p - 1;
    }
    assert(insertion_point(before, days as int) == p) by {
        if p > 0 {
            assert(before.take(p as int).last() == before[p - 1]);
        }
    }
    list.insert(p, entry);
    assert(list.deep_view() =~= before.insert(p as int, added));
}

/// The priority list of the tests, seen from `now`.
pub fn rank_priority_tests(tests: &Vec<TestSnapshot>, now: i64) -> (list: Vec<PriorityTest>)
    ensures
        list.deep_view() == priority_list(tests@, now as int),
        ascending(list.deep_view()),
        forall|i: int|
            0 <= i < list.len() ==> in_priority_window(#[trigger] list[i].days_remaining as int),
{
    let mut list: Vec<PriorityTest> = Vec::new();
    let mut i: usize = 0;
    proof {
        reveal(Seq::filter);
        assert(tests@.take(0) =~= Seq::<TestSnapshot>::empty());
        assert(outlooks_of(tests@.take(0), now as int) =~= Seq::<TestOutlook>::empty());
        assert(list.deep_view() =~= Seq::<TestOutlook>::empty());
    }
    while i < tests.len()
        invariant
            i <= tests.len(),
            list.deep_view() == priority_list(tests@.take(i as int), now as int),
        decreases tests.len() - i,
    {
        let snapshot = &tests[i];
        let days = days_remaining_at(snapshot.test.scheduled_date, now);
        proof {
            let seen = outlooks_of(tests@.take(i as int), now as int);
            let outlook = outlook_of(*snapshot, now as int);
            assert(outlooks_of(tests@.take(i + 1), now as int) =~= seen.push(outlook));
            lemma_due_soon_push(seen, outlook);
            if in_priority_window(days as int) {
                assert(due_soon(seen).push(outlook).drop_last() =~= due_soon(seen));
            }
        }
        if is_priority(days) {
            let entry = PriorityTest {
                test: snapshot.test.clone(),
                coverage: clone_coverage(&snapshot.coverage),
                days_remaining: days,
                time_remaining: format_time_remaining_at(snapshot.test.scheduled_date, now),
                covered_topics: collect_covered_topics(&snapshot.lookups),
            };
            insert_by_days(&mut list, entry);
        }
        i = i + 1;
    }
    proof {
        assert(tests@.take(tests.len() as int) =~= tests@);
        lemma_priority_list(tests@, now as int);
        let ranked_list = list.deep_view();
        assert forall|k: int| 0 <= k < list.len() implies in_priority_window(
            #[trigger] list[k].days_remaining as int,
        ) by {
            assert(ranked_list[k].days_remaining == list[k].days_remaining);
        }
    }
    list
}

/// The tests themselves, in their order.
pub fn all_tests(tests: &Vec<TestSnapshot>) -> (all: Vec<Test>)
    ensures
        all@ == tests@.map_values(|s: TestSnapshot| s.test),
{
    let mut all: Vec<Test> = Vec::new();
    let mut i: usize = 0;
    while i < tests.len()
        invariant
            i <= tests.len(),
            all@ == tests@.take(i as int).map_values(|s: TestSnapshot| s.test),
        decreases tests.len() - i,
    {
        all.push(tests[i].test.clone());
        assert(all@ =~= tests@.take(i + 1).map_values(|s: TestSnapshot| s.test));
        i = i + 1;
    }
    assert(tests@.take(tests.len() as int) =~= tests@);
    all
}

/// All there is to show of a tracker, seen from `now`: the hierarchy as it
/// was read, the progress through it, every test in the order given, and the
/// priority list.
pub fn get_tracker_data(
    tracker_id: &str,
    subjects: Vec<SubjectData>,
    tests: &Vec<TestSnapshot>,
    now: i64,
) -> (data: TrackerData)
    requires
        topics_in_subjects(subjects@) <= i32::MAX,
    ensures
        data.subjects == subjects,
        is_tracker_progress(data.progress, tracker_id@, subjects@),
        data.all_tests@ == tests@.map_values(|s: TestSnapshot| s.test),
        data.priority_tests.deep_view() == priority_list(tests@, now as int),
        ascending(data.priority_tests.deep_view()),
        forall|i: int|
            0 <= i < data.priority_tests.len() ==> in_priority_window(
                #[trigger] data.priority_tests[i].days_remaining as int,
            ),
{
    let progress = calculate_tracker_progress(tracker_id, &subjects);
    let all_tests = all_tests(tests);
    let priority_tests = rank_priority_tests(tests, now);
    TrackerData { subjects, progress, all_tests, priority_tests }
}

} // verus!
