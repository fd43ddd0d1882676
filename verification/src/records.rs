//! Making and changing single records: new semesters, subjects, topics and
//! tests, the completion toggle of a topic, and the recount of a tracker's
//! cached totals.

use vstd::prelude::*;
use crate::ident::{is_identifier, new_id};
use crate::models::{
    clone_optional, Semester, Subject, SubjectData, Test, TestCoverage, TestCoverageInput, TestType,
    Topic, Tracker, UnitData,
};
use crate::progress::{lemma_subject_counts, topics_in_subjects};

verus! {

/// A test with the coverage rows that were made for it.
#[derive(Debug)]
pub struct ScheduledTest {
    pub test: Test,
    pub coverage: Vec<TestCoverage>,
}

/// The size of the hierarchy below a tracker.
#[derive(Debug, Clone, Copy, PartialEq, Eq, Structural)]
pub struct TrackerStatistics {
    pub total_subjects: i32,
    pub total_units: i32,
    pub total_topics: i32,
}

/// The error text for a test type that is none of the four.
pub open spec fn invalid_test_type_message() -> Seq<char> {
    "Invalid test type"@
}

/// The topic with its completion flag flipped, changed at `now`.
pub open spec fn toggled(topic: Topic, now: i64) -> Topic {
    Topic { completed: !topic.completed, updated_at: now, ..topic }
}

/// The highest display position among the topics, or `-1` where there is
/// none.
pub open spec fn highest_order(topics: Seq<Topic>) -> int
    decreases topics.len(),
{
    if topics.len() == 0 {
        -1
    } else if topics.len() == 1 || topics.last().order > highest_order(topics.drop_last()) {
        topics.last().order as int
    } else {
        highest_order(topics.drop_last())
    }
}

/// The display position of a topic added to `topics`: one past the highest
/// so far, and zero for the first topic.
pub open spec fn next_order(topics: Seq<Topic>) -> int {
    highest_order(topics) + 1
}

/// The number of units in the given subjects.
pub open spec fn units_in_subjects(subjects: Seq<SubjectData>) -> nat
    decreases subjects.len(),
{
    if subjects.len() == 0 {
        0
    } else {
        units_in_subjects(subjects.drop_last()) + subjects.last().units@.len()
    }
}

/// Whether the hierarchy can be counted in the totals of a tracker.
pub open spec fn countable(subjects: Seq<SubjectData>) -> bool {
    &&& subjects.len() <= i32::MAX
    &&& units_in_subjects(subjects) <= i32::MAX
    &&& topics_in_subjects(subjects) <= i32::MAX
}

/// The coverage row made for the test `test_id` from what a caller named.
pub open spec fn is_coverage_row(
    row: TestCoverage,
    test_id: Seq<char>,
    input: TestCoverageInput,
) -> bool {
    &&& is_identifier(row.id@)
    &&& row.test_id@ == test_id
    &&& row.unit_id == input.unit_id
    &&& row.topic_id == input.topic_id
}

/// Toggling a topic twice gives back its completion state, and each toggle
/// stamps the topic with its own time; nothing else changes.
pub proof fn lemma_toggle_twice(topic: Topic, first: i64, second: i64)
    ensures
        toggled(topic, first).completed != topic.completed,
        toggled(topic, first).updated_at == first,
        toggled(toggled(topic, first), second).completed == topic.completed,
        toggled(toggled(topic, first), second).updated_at == second,
        toggled(toggled(topic, first), second) == (Topic { updated_at: second, ..topic }),
{
}

/// The next position lies above every position taken, and it is zero for the
/// first topic; with topics at hand it is one past one of theirs.
pub proof fn lemma_next_order(topics: Seq<Topic>)
    ensures
        forall|i: int| 0 <= i < topics.len() ==> (#[trigger] topics[i]).order < next_order(topics),
        topics.len() == 0 ==> next_order(topics) == 0,
        topics.len() > 0 ==> exists|i: int|
            0 <= i < topics.len() && (#[trigger] topics[i]).order + 1 == next_order(topics),
    decreases topics.len(),
{
    if topics.len() > 0 {
        let rest = topics.drop_last();
        lemma_next_order(rest);
        assert forall|i: int| 0 <= i < topics.len() implies (#[trigger] topics[i]).order
            < next_order(topics) by {
            if i < rest.len() {
                assert(topics[i] == rest[i]);
            }
        }
        if topics.len() == 1 || topics.last().order > highest_order(rest) {
            assert(topics[topics.len() - 1].order + 1 == next_order(topics));
        } else {
            let i = choose|i: int|
                0 <= i < rest.len() && (#[trigger] rest[i]).order + 1 == next_order(rest);
            assert(topics[i] == rest[i]);
        }
    }
}

/// Taking one subject out of a hierarchy lowers the recount by that subject,
/// by its units and by its topics, and by nothing else.
pub proof fn lemma_recount_without_subject(subjects: Seq<SubjectData>, i: int)
    requires
        0 <= i < subjects.len(),
    ensures
        subjects.remove(i).len() == subjects.len() - 1,
        units_in_subjects(subjects.remove(i)) == units_in_subjects(subjects)
            - subjects[i].units@.len(),
        topics_in_subjects(subjects.remove(i)) == topics_in_subjects(subjects)
            - crate::progress::topics_in_units(subjects[i].units@),
    decreases subjects.len(),
{
    let rest = subjects.drop_last();
    if i == subjects.len() - 1 {
        assert(subjects.remove(i) =~= rest);
    } else {
        lemma_recount_without_subject(rest, i);
        assert(subjects.remove(i).drop_last() =~= rest.remove(i));
        assert(subjects.remove(i).last() == subjects.last());
    }
}

proof fn lemma_units_prefix(subjects: Seq<SubjectData>, k: int)
    requires
        0 <= k < subjects.len(),
    ensures
        units_in_subjects(subjects.take(k)) + subjects[k].units@.len() <= units_in_subjects(
            subjects,
        ),
    decreases subjects.len(),
{
    if k == subjects.len() - 1 {
        assert(subjects.take(k) =~= subjects.drop_last());
    } else {
        lemma_units_prefix(subjects.drop_last(), k);
        assert(subjects.drop_last().take(k) =~= subjects.take(k));
    }
}

/// A new semester, made at `now`.
pub fn create_semester(name: String, now: i64) -> (semester: Semester)
    ensures
        is_identifier(semester.id@),
        semester.name == name,
        semester.created_at == now,
        semester.updated_at == now,
{
    Semester { id: new_id(), name, created_at: now, updated_at: now }
}

/// A new subject of the tracker `tracker_id`, made at `now`.
pub fn create_subject(tracker_id: String, name: String, now: i64) -> (subject: Subject)
    ensures
        is_identifier(subject.id@),
        subject.tracker_id == tracker_id,
        subject.name == name,
        subject.created_at == now,
        subject.updated_at == now,
{
    Subject { id: new_id(), tracker_id, name, created_at: now, updated_at: now }
}

/// The display position of a topic added to `topics`.
pub fn next_topic_order(topics: &Vec<Topic>) -> (order: i32)
    requires
        forall|i: int| 0 <= i < topics.len() ==> (#[trigger] topics[i]).order < i32::MAX,
    ensures
        order == next_order(topics@),
{
    if topics.len() == 0 {
        return 0;
    }
    let mut highest: i32 = topics[0].order;
    let mut i: usize = 1;
    assert(topics@.take(1).drop_last() =~= Seq::<Topic>::empty());
    while i < topics.len()
        invariant
            1 <= i <= topics.len(),
            forall|k: int| 0 <= k < topics.len() ==> (#[trigger] topics[k]).order < i32::MAX,
            highest == highest_order(topics@.take(i as int)),
            highest < i32::MAX,
        decreases topics.len() - i,
    {
        assert(topics@.take(i + 1).drop_last() =~= topics@.take(i as int));
        if topics[i].order > highest {
            highest = topics[i].order;
        }
        i = i + 1;
    }
    assert(topics@.take(topics.len() as int) =~= topics@);
    highest + 1
}

/// A new topic of the unit `unit_id`, made at `now`: not completed, and
/// placed behind the topics that the unit has.
pub fn create_topic(unit_id: String, name: String, existing: &Vec<Topic>, now: i64) -> (topic:
    Topic)
    requires
        forall|i: int| 0 <= i < existing.len() ==> (#[trigger] existing[i]).order < i32::MAX,
    ensures
        is_identifier(topic.id@),
        topic.unit_id == unit_id,
        topic.name == name,
        !topic.completed,
        topic.order == next_order(existing@),
        topic.created_at == now,
        topic.updated_at == now,
{
    let order = next_topic_order(existing);
    Topic {
        id: new_id(),
        unit_id,
        name,
        completed: false,
        order,
        created_at: now,
        updated_at: now,
    }
}

/// Flips the completion flag of a topic that was looked up, and stamps it
/// with `now`; nothing for a topic that does not exist.
pub fn toggle_topic_completion(topic: Option<Topic>, now: i64) -> (changed: Option<Topic>)
    ensures
        match topic {
            Some(found) => changed == Some(toggled(found, now)),
            None => changed is None,
        },
{
    match topic {
        Some(found) => {
            let mut found = found;
            found.completed = !found.completed;
            found.updated_at = now;
            Some(found)
        },
        None => None,
    }
}

/// A new test of the tracker `tracker_id` with one coverage row for each
/// thing that it is to cover, made at `now`. A test type that is none of the
/// four stored names is refused, and nothing is made.
pub fn schedule_test(
    tracker_id: String,
    name: String,
    test_type: &str,
    scheduled_date: i64,
    coverage_data: Vec<TestCoverageInput>,
    now: i64,
) -> (result: Result<ScheduledTest, String>)
    ensures
        match TestType::named(test_type@) {
            None => result matches Err(message) && message@ == invalid_test_type_message(),
            Some(kind) => {
                &&& result matches Ok(scheduled)
                &&& is_identifier(scheduled.test.id@)
                &&& scheduled.test.tracker_id == tracker_id
                &&& scheduled.test.name == name
                &&& scheduled.test.test_type == kind
                &&& scheduled.test.scheduled_date == scheduled_date
                &&& scheduled.test.created_at == now
                &&& scheduled.test.updated_at == now
                &&& scheduled.coverage@.len() == coverage_data@.len()
                &&& forall|i: int|
                    0 <= i < coverage_data@.len() ==> is_coverage_row(
                        #[trigger] scheduled.coverage@[i],
                        scheduled.test.id@,
                        coverage_data@[i],
                    )
            },
        },
{
    let kind = match TestType::from_str(test_type) {
        Some(kind) => kind,
        None => {
            return Err("Invalid test type".to_owned());
        },
    };
    let test = Test {
        id: new_id(),
        tracker_id,
        name,
        test_type: kind,
        scheduled_date,
        created_at: now,
        updated_at: now,
    };
    let mut coverage: Vec<TestCoverage> = Vec::new();
    let mut i: usize = 0;
    while i < coverage_data.len()
        invariant
            i <= coverage_data.len(),
            coverage@.len() == i,
            forall|k: int|
                0 <= k < i ==> is_coverage_row(#[trigger] coverage@[k], test.id@, coverage_data@[k]),
        decreases coverage_data.len() - i,
    {
        let input = &coverage_data[i];
        coverage.push(
            TestCoverage {
                id: new_id(),
                test_id: test.id.clone(),
                unit_id: clone_optional(&input.unit_id),
                topic_id: clone_optional(&input.topic_id),
            },
        );
        i = i + 1;
    }
    Ok(ScheduledTest { test, coverage })
}

/// Whether the hierarchy can be counted in the totals of a tracker.
pub fn is_countable(subjects: &Vec<SubjectData>) -> (fits: bool)
    ensures
        fits == countable(subjects@),
{
    let limit: usize = 0x7fff_ffff;
    if subjects.len() > limit || !crate::progress::fits_counters(subjects) {
        return false;
    }
    let mut units: usize = 0;
    let mut i: usize = 0;
    assert(subjects@.take(0) =~= Seq::<SubjectData>::empty());
    while i < subjects.len()
        invariant
            i <= subjects.len(),
            limit == i32::MAX,
            units == units_in_subjects(subjects@.take(i as int)),
            units <= limit,
        decreases subjects.len() - i,
    {
        let n = subjects[i].units.len();
        proof {
            assert(subjects@.take(i + 1).drop_last() =~= subjects@.take(i as int));
            lemma_units_prefix(subjects@, i as int);
        }
        if n > limit - units {
            return false;
        }
        units = units + n;
        i = i + 1;
    }
    assert(subjects@.take(subjects.len() as int) =~= subjects@);
    true
}

/// The size of the hierarchy, counted anew from the records themselves.
pub fn count_statistics(subjects: &Vec<SubjectData>) -> (statistics: TrackerStatistics)
    requires
        countable(subjects@),
    ensures
        statistics.total_subjects == subjects@.len(),
        statistics.total_units == units_in_subjects(subjects@),
        statistics.total_topics == topics_in_subjects(subjects@),
{
    let mut units: i32 = 0;
    let mut topics: i32 = 0;
    let mut i: usize = 0;
    assert(subjects@.take(0) =~= Seq::<SubjectData>::empty());
    while i < subjects.len()
        invariant
            i <= subjects.len(),
            countable(subjects@),
            units == units_in_subjects(subjects@.take(i as int)),
            topics == topics_in_subjects(subjects@.take(i as int)),
        decreases subjects.len() - i,
    {
        let subject = &subjects[i];
        proof {
            assert(subjects@.take(i + 1).drop_last() =~= subjects@.take(i as int));
            lemma_units_prefix(subjects@, i as int);
            lemma_subject_counts(subjects@, i as int);
        }
        let mut in_subject: i32 = 0;
        let mut j: usize = 0;
        assert(subject.units@.take(0) =~= Seq::<UnitData>::empty());
        while j < subject.units.len()
            invariant
                j <= subject.units.len(),
                in_subject == crate::progress::topics_in_units(subject.units@.take(j as int)),
                crate::progress::topics_in_units(subject.units@) <= i32::MAX,
            decreases subject.units.len() - j,
        {
            proof {
                assert(subject.units@.take(j + 1).drop_last() =~= subject.units@.take(j as int));
                crate::progress::lemma_unit_counts(subject.units@, j as int);
            }
            in_subject = in_subject + subject.units[j].topics.len() as i32;
            j = j + 1;
        }
        assert(subject.units@.take(subject.units.len() as int) =~= subject.units@);
        units = units + subject.units.len() as i32;
        topics = topics + in_subject;
        i = i + 1;
    }
    assert(subjects@.take(subjects.len() as int) =~= subjects@);
    TrackerStatistics {
        total_subjects: subjects.len() as i32,
        total_units: units,
        total_topics: topics,
    }
}

/// The tracker with its cached totals counted anew from the hierarchy, and
/// stamped with `now`.
pub fn update_tracker_statistics(tracker: Tracker, subjects: &Vec<SubjectData>, now: i64) -> (updated:
    Tracker)
    requires
        countable(subjects@),
    ensures
        updated == (Tracker {
            total_subjects: subjects@.len() as i32,
            total_units: units_in_subjects(subjects@) as i32,
            total_topics: topics_in_subjects(subjects@) as i32,
            updated_at: now,
            ..tracker
        }),
{
    let statistics = count_statistics(subjects);
    let mut tracker = tracker;
    tracker.total_subjects = statistics.total_subjects;
    tracker.total_units = statistics.total_units;
    tracker.total_topics = statistics.total_topics;
    tracker.updated_at = now;
    tracker
}

} // verus!
