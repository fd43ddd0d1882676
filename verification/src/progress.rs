//! Progress through a tracker: how many topics are completed, counted unit
//! by unit and rolled up to subjects and to the tracker.

use vstd::prelude::*;
use crate::models::{SubjectData, Topic, UnitData};

verus! {

/// A share, held exactly: `part` out of `whole`, which in percent is
/// `part / whole * 100`. The whole is never zero.
#[derive(Debug, Clone, Copy, PartialEq, Eq, Structural)]
pub struct Percentage {
    pub part: i32,
    pub whole: i32,
}

#[derive(Debug, Clone)]
pub struct UnitProgress {
    pub unit_id: String,
    pub unit_name: String,
    pub total_topics: i32,
    pub completed_topics: i32,
    pub percentage: Percentage,
}

#[derive(Debug, Clone)]
pub struct SubjectProgress {
    pub subject_id: String,
    pub subject_name: String,
    pub total_topics: i32,
    pub completed_topics: i32,
    pub percentage: Percentage,
    pub units: Vec<UnitProgress>,
}

#[derive(Debug, Clone)]
pub struct TrackerProgress {
    pub tracker_id: String,
    pub total_topics: i32,
    pub completed_topics: i32,
    pub percentage: Percentage,
    pub subjects: Vec<SubjectProgress>,
}

/// The share of `completed` in `total`: `completed / total * 100` percent
/// where there is anything to complete, and zero percent, as none out of
/// one, where there is nothing.
pub open spec fn percentage_of(completed: int, total: int) -> Percentage {
    if total > 0 {
        Percentage { part: completed as i32, whole: total as i32 }
    } else {
        Percentage { part: 0, whole: 1 }
    }
}

/// The number of completed topics among `topics`.
pub open spec fn completed_in(topics: Seq<Topic>) -> nat {
    topics.filter(|t: Topic| t.completed).len()
}

/// The number of topics in the given units.
pub open spec fn topics_in_units(units: Seq<UnitData>) -> nat
    decreases units.len(),
{
    if units.len() == 0 {
        0
    } else {
        topics_in_units(units.drop_last()) + units.last().topics@.len()
    }
}

/// The number of completed topics in the given units.
pub open spec fn completed_in_units(units: Seq<UnitData>) -> nat
    decreases units.len(),
{
    if units.len() == 0 {
        0
    } else {
        completed_in_units(units.drop_last()) + completed_in(units.last().topics@)
    }
}

/// The number of topics in the given subjects.
pub open spec fn topics_in_subjects(subjects: Seq<SubjectData>) -> nat
    decreases subjects.len(),
{
    if subjects.len() == 0 {
        0
    } else {
        topics_in_subjects(subjects.drop_last()) + topics_in_units(subjects.last().units@)
    }
}

/// The number of completed topics in the given subjects.
pub open spec fn completed_in_subjects(subjects: Seq<SubjectData>) -> nat
    decreases subjects.len(),
{
    if subjects.len() == 0 {
        0
    } else {
        completed_in_subjects(subjects.drop_last()) + completed_in_units(subjects.last().units@)
    }
}

/// `p` is the progress of the unit `data`.
pub open spec fn is_unit_progress(p: UnitProgress, data: UnitData) -> bool {
    &&& p.unit_id@ == data.unit.id@
    &&& p.unit_name@ == data.unit.name@
    &&& p.total_topics == data.topics@.len()
    &&& p.completed_topics == completed_in(data.topics@)
    &&& p.percentage == percentage_of(p.completed_topics as int, p.total_topics as int)
}

/// `p` is the progress of the subject `data`: its own counts, and the
/// progress of each of its units in order.
pub open spec fn is_subject_progress(p: SubjectProgress, data: SubjectData) -> bool {
    &&& p.subject_id@ == data.subject.id@
    &&& p.subject_name@ == data.subject.name@
    &&& p.total_topics == topics_in_units(data.units@)
    &&& p.completed_topics == completed_in_units(data.units@)
    &&& p.percentage == percentage_of(p.completed_topics as int, p.total_topics as int)
    &&& p.units@.len() == data.units@.len()
    &&& forall|j: int|
        0 <= j < data.units@.len() ==> is_unit_progress(#[trigger] p.units@[j], data.units@[j])
}

/// `p` is the progress of the tracker `tracker_id` whose subjects are
/// `subjects`.
pub open spec fn is_tracker_progress(
    p: TrackerProgress,
    tracker_id: Seq<char>,
    subjects: Seq<SubjectData>,
) -> bool {
    &&& p.tracker_id@ == tracker_id
    &&& p.total_topics == topics_in_subjects(subjects)
    &&& p.completed_topics == completed_in_subjects(subjects)
    &&& p.percentage == percentage_of(p.completed_topics as int, p.total_topics as int)
    &&& p.subjects@.len() == subjects.len()
    &&& forall|i: int|
        0 <= i < subjects.len() ==> is_subject_progress(#[trigger] p.subjects@[i], subjects[i])
}

/// A percentage is always defined, and lies between zero and a hundred. Of a
/// positive total it is exactly `completed / total * 100`; of nothing it is
/// exactly zero.
pub proof fn lemma_percentage_exact(completed: int, total: int)
    requires
        0 <= completed <= total <= i32::MAX,
    ensures
        percentage_of(completed, total).whole > 0,
        0 <= percentage_of(completed, total).part <= percentage_of(completed, total).whole,
        total > 0 ==> percentage_of(completed, total).part == completed && percentage_of(
            completed,
            total,
        ).whole == total,
        total == 0 ==> percentage_of(completed, total).part == 0,
{
}

/// No more topics are completed than there are.
pub proof fn lemma_completed_at_most_total(topics: Seq<Topic>)
    ensures
        completed_in(topics) <= topics.len(),
{
    topics.lemma_filter_len(|t: Topic| t.completed);
}

/// The counts of a prefix of the units never exceed those of all of them, and
/// no more topics are completed than there are.
pub proof fn lemma_unit_counts(units: Seq<UnitData>, k: int)
    requires
        0 <= k <= units.len(),
    ensures
        topics_in_units(units.take(k)) <= topics_in_units(units),
        completed_in_units(units) <= topics_in_units(units),
        k < units.len() ==> topics_in_units(units.take(k)) + units[k].topics@.len()
            <= topics_in_units(units),
    decreases units.len(),
{
    if units.len() > 0 {
        lemma_completed_at_most_total(units.last().topics@);
        if k < units.len() {
            lemma_unit_counts(units.drop_last(), k);
            assert(units.drop_last().take(k) =~= units.take(k));
            if k == units.len() - 1 {
                assert(units.take(k) =~= units.drop_last());
            }
        } else {
            assert(units.take(k) =~= units);
            lemma_unit_counts(units.drop_last(), k - 1);
        }
    } else {
        assert(units.take(k) =~= units);
    }
}

/// The counts of a prefix of the subjects never exceed those of all of them,
/// and no more topics are completed than there are.
pub proof fn lemma_subject_counts(subjects: Seq<SubjectData>, k: int)
    requires
        0 <= k <= subjects.len(),
    ensures
        topics_in_subjects(subjects.take(k)) <= topics_in_subjects(subjects),
        completed_in_subjects(subjects) <= topics_in_subjects(subjects),
        k < subjects.len() ==> topics_in_subjects(subjects.take(k)) + topics_in_units(
            subjects[k].units@,
        ) <= topics_in_subjects(subjects),
    decreases subjects.len(),
{
    if subjects.len() > 0 {
        lemma_unit_counts(subjects.last().units@, 0);
        if k < subjects.len() {
            lemma_subject_counts(subjects.drop_last(), k);
            assert(subjects.drop_last().take(k) =~= subjects.take(k));
            if k == subjects.len() - 1 {
                assert(subjects.take(k) =~= subjects.drop_last());
            }
        } else {
            assert(subjects.take(k) =~= subjects);
            lemma_subject_counts(subjects.drop_last(), k - 1);
        }
    } else {
        assert(subjects.take(k) =~= subjects);
    }
}

impl Percentage {
    /// The share of `completed` in `total`, in percent.
    pub fn of(completed: i32, total: i32) -> (p: Percentage)
        ensures
            p == percentage_of(completed as int, total as int),
    {
        if total > 0 {
            Percentage { part: completed, whole: total }
        } else {
            Percentage { part: 0, whole: 1 }
        }
    }
}

/// Whether the topics of `subjects` can be counted in the counters of a
/// progress report.
pub fn fits_counters(subjects: &Vec<SubjectData>) -> (fits: bool)
    ensures
        fits == (topics_in_subjects(subjects@) <= i32::MAX),
{
    let limit: u64 = 0x7fff_ffff;
    let mut total: u64 = 0;
    let mut i: usize = 0;
    assert(subjects@.take(0) =~= Seq::<SubjectData>::empty());
    while i < subjects.len()
        invariant
            i <= subjects.len(),
            limit == i32::MAX,
            total == topics_in_subjects(subjects@.take(i as int)),
            total <= limit,
        decreases subjects.len() - i,
    {
        let units = &subjects[i].units;
        let mut in_subject: u64 = 0;
        let mut j: usize = 0;
        assert(units@.take(0) =~= Seq::<UnitData>::empty());
        while j < units.len()
            invariant
                i < subjects.len(),
                units == &subjects@[i as int].units,
                j <= units.len(),
                limit == i32::MAX,
                total <= limit,
                total == topics_in_subjects(subjects@.take(i as int)),
                in_subject == topics_in_units(units@.take(j as int)),
                total + in_subject <= limit,
            decreases units.len() - j,
        {
            let n = units[j].topics.len();
            proof {
                assert(units@.take(j + 1).drop_last() =~= units@.take(j as int));
                lemma_unit_counts(units@, j as int);
                lemma_subject_counts(subjects@, i as int);
            }
            if n as u64 > limit - total - in_subject {
                return false;
            }
            in_subject = in_subject + n as u64;
            j = j + 1;
        }
        proof {
            assert(units@.take(units.len() as int) =~= units@);
            assert(subjects@.take(i + 1).drop_last() =~= subjects@.take(i as int));
        }
        total = total + in_subject;
        i = i + 1;
    }
    assert(subjects@.take(subjects.len() as int) =~= subjects@);
    true
}

/// The progress of one unit.
pub fn unit_progress(data: &UnitData) -> (p: UnitProgress)
    requires
        data.topics@.len() <= i32::MAX,
    ensures
        is_unit_progress(p, *data),
{
    let ghost done = |t: Topic| t.completed;
    let total: i32 = data.topics.len() as i32;
    let mut completed: i32 = 0;
    let mut i: usize = 0;
    proof {
        reveal(Seq::filter);
        assert(data.topics@.take(0) =~= Seq::<Topic>::empty());
    }
    while i < data.topics.len()
        invariant
            i <= data.topics.len(),
            data.topics@.len() <= i32::MAX,
            done == |t: Topic| t.completed,
            completed == data.topics@.take(i as int).filter(done).len(),
            completed <= i,
        decreases data.topics.len() - i,
    {
        proof {
            reveal(Seq::filter);
            assert(data.topics@.take(i + 1).drop_last() =~= data.topics@.take(i as int));
        }
        if data.topics[i].completed {
            completed = completed + 1;
        }
        i = i + 1;
    }
    assert(data.topics@.take(data.topics.len() as int) =~= data.topics@);
    UnitProgress {
        unit_id: data.unit.id.clone(),
        unit_name: data.unit.name.clone(),
        total_topics: total,
        completed_topics: completed,
        percentage: Percentage::of(completed, total),
    }
}

/// The progress of one subject, with that of each of its units.
pub fn subject_progress(data: &SubjectData) -> (p: SubjectProgress)
    requires
        topics_in_units(data.units@) <= i32::MAX,
    ensures
        is_subject_progress(p, *data),
{
    let mut total: i32 = 0;
    let mut completed: i32 = 0;
    let mut units: Vec<UnitProgress> = Vec::new();
    let mut j: usize = 0;
    assert(data.units@.take(0) =~= Seq::<UnitData>::empty());
    while j < data.units.len()
        invariant
            j <= data.units.len(),
            topics_in_units(data.units@) <= i32::MAX,
            total == topics_in_units(data.units@.take(j as int)),
            completed == completed_in_units(data.units@.take(j as int)),
            completed <= total,
            units@.len() == j,
            forall|k: int| 0 <= k < j ==> is_unit_progress(#[trigger] units@[k], data.units@[k]),
        decreases data.units.len() - j,
    {
        proof {
            lemma_unit_counts(data.units@, j as int);
            assert(data.units@.take(j + 1).drop_last() =~= data.units@.take(j as int));
        }
        let unit = unit_progress(&data.units[j]);
        proof {
            lemma_completed_at_most_total(data.units@[j as int].topics@);
        }
        total = total + unit.total_topics;
        completed = completed + unit.completed_topics;
        units.push(unit);
        j = j + 1;
    }
    assert(data.units@.take(data.units.len() as int) =~= data.units@);
    SubjectProgress {
        subject_id: data.subject.id.clone(),
        subject_name: data.subject.name.clone(),
        total_topics: total,
        completed_topics: completed,
        percentage: Percentage::of(completed, total),
        units,
    }
}

/// The progress of a tracker: for each subject in order, for each of its
/// units in order, the topics and the completed topics are counted; the
/// counts are summed up to the subject and to the tracker, and each level
/// carries its own percentage.
pub fn calculate_tracker_progress(tracker_id: &str, subjects: &Vec<SubjectData>) -> (p:
    TrackerProgress)
    requires
        topics_in_subjects(subjects@) <= i32::MAX,
    ensures
        is_tracker_progress(p, tracker_id@, subjects@),
{
    let mut total: i32 = 0;
    let mut completed: i32 = 0;
    let mut reports: Vec<SubjectProgress> = Vec::new();
    let mut i: usize = 0;
    assert(subjects@.take(0) =~= Seq::<SubjectData>::empty());
    while i < subjects.len()
        invariant
            i <= subjects.len(),
            topics_in_subjects(subjects@) <= i32::MAX,
            total == topics_in_subjects(subjects@.take(i as int)),
            completed == completed_in_subjects(subjects@.take(i as int)),
            completed <= total,
            reports@.len() == i,
            forall|k: int|
                0 <= k < i ==> is_subject_progress(#[trigger] reports@[k], subjects@[k]),
        decreases subjects.len() - i,
    {
        proof {
            lemma_subject_counts(subjects@, i as int);
            assert(subjects@.take(i + 1).drop_last() =~= subjects@.take(i as int));
        }
        let report = subject_progress(&subjects[i]);
        proof {
            lemma_unit_counts(subjects@[i as int].units@, 0);
        }
        total = total + report.total_topics;
        completed = completed + report.completed_topics;
        reports.push(report);
        i = i + 1;
    }
    assert(subjects@.take(subjects.len() as int) =~= subjects@);
    TrackerProgress {
        tracker_id: tracker_id.to_owned(),
        total_topics: total,
        completed_topics: completed,
        percentage: Percentage::of(completed, total),
        subjects: reports,
    }
}

} // verus!
