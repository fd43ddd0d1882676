//! What a test covers: which record each coverage row points at, and the
//! topic names that the rows of a test resolve to.

use vstd::prelude::*;
use crate::models::{TestCoverage, Topic};

verus! {

/// What has to be looked up for a coverage row.
#[derive(Debug)]
pub enum CoverageTarget {
    /// All the topics of the unit with this id.
    Unit(String),
    /// The one topic with this id.
    Topic(String),
    /// The row names neither a unit nor a topic.
    Nothing,
}

/// What was found for a coverage row.
#[derive(Debug)]
pub enum CoverageLookup {
    /// The topics now under the unit, in display order.
    UnitTopics(Vec<Topic>),
    /// The topic, if there still is one.
    SingleTopic(Option<Topic>),
    /// Nothing was looked up.
    Nothing,
}

/// The target of a coverage row. A unit takes precedence: a row that names
/// both a unit and a topic covers the unit.
pub open spec fn target_of(coverage: TestCoverage) -> CoverageTarget {
    match coverage.unit_id {
        Some(unit_id) => CoverageTarget::Unit(unit_id),
        None => match coverage.topic_id {
            Some(topic_id) => CoverageTarget::Topic(topic_id),
            None => CoverageTarget::Nothing,
        },
    }
}

/// The names of the topics, in order.
pub open spec fn topic_names(topics: Seq<Topic>) -> Seq<Seq<char>> {
    topics.map_values(|t: Topic| t.name@)
}

/// The topic names that one lookup contributes: every topic of a unit, the
/// one topic that was found, or nothing.
pub open spec fn lookup_names(lookup: CoverageLookup) -> Seq<Seq<char>> {
    match lookup {
        CoverageLookup::UnitTopics(topics) => topic_names(topics@),
        CoverageLookup::SingleTopic(Some(topic)) => seq![topic.name@],
        CoverageLookup::SingleTopic(None) => Seq::empty(),
        CoverageLookup::Nothing => Seq::empty(),
    }
}

/// The names that the lookups contribute, one lookup after the other. A name
/// that several rows reach occurs several times.
pub open spec fn covered_names(lookups: Seq<CoverageLookup>) -> Seq<Seq<char>>
    decreases lookups.len(),
{
    if lookups.len() == 0 {
        Seq::empty()
    } else {
        covered_names(lookups.drop_last()) + lookup_names(lookups.last())
    }
}

/// What has to be looked up for a coverage row.
pub fn coverage_target(coverage: &TestCoverage) -> (target: CoverageTarget)
    ensures
        target == target_of(*coverage),
{
    match &coverage.unit_id {
        Some(unit_id) => CoverageTarget::Unit(unit_id.clone()),
        None => match &coverage.topic_id {
            Some(topic_id) => CoverageTarget::Topic(topic_id.clone()),
            None => CoverageTarget::Nothing,
        },
    }
}

/// The names of all the topics that the lookups of a test found.
pub fn collect_covered_topics(lookups: &Vec<CoverageLookup>) -> (names: Vec<String>)
    ensures
        names.deep_view() == covered_names(lookups@),
{
    let mut names: Vec<String> = Vec::new();
    let mut i: usize = 0;
    assert(lookups@.take(0) =~= Seq::<CoverageLookup>::empty());
    assert(names.deep_view() =~= Seq::<Seq<char>>::empty());
    while i < lookups.len()
        invariant
            i <= lookups.len(),
            names.deep_view() == covered_names(lookups@.take(i as int)),
        decreases lookups.len() - i,
    {
        let ghost before = names.deep_view();
        proof {
            assert(lookups@.take(i + 1).drop_last() =~= lookups@.take(i as int));
        }
        match &lookups[i] {
            CoverageLookup::UnitTopics(topics) => {
                let mut k: usize = 0;
                while k < topics.len()
                    invariant
                        k <= topics.len(),
                        names.deep_view() == before + topic_names(topics@.take(k as int)),
                    decreases topics.len() - k,
                {
                    let ghost so_far = names.deep_view();
                    let name = topics[k].name.clone();
                    names.push(name);
                    assert(names.deep_view() =~= so_far.push(topics@[k as int].name@));
                    assert(topic_names(topics@.take(k + 1)) =~= topic_names(
                        topics@.take(k as int),
                    ).push(topics@[k as int].name@));
                    k = k + 1;
                }
                assert(topics@.take(topics.len() as int) =~= topics@);
            },
            CoverageLookup::SingleTopic(Some(topic)) => {
                let name = topic.name.clone();
                names.push(name);
                assert(names.deep_view() =~= before + seq![topic.name@]);
            },
            CoverageLookup::SingleTopic(None) => {
                assert(before + Seq::<Seq<char>>::empty() =~= before);
            },
            CoverageLookup::Nothing => {
                assert(before + Seq::<Seq<char>>::empty() =~= before);
            },
        }
        i = i + 1;
    }
    assert(lookups@.take(lookups.len() as int) =~= lookups@);
    names
}

} // verus!
