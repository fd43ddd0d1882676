//! The mathematical model of a syllabus: subjects, each with its units, each
//! with its topics, all by name and in order.

use vstd::prelude::*;
use crate::text::is_blank;

verus! {

/// A unit by name, with the names of its topics in order.
pub struct UnitOutline {
    pub name: Seq<char>,
    pub topics: Seq<Seq<char>>,
}

/// A subject by name, with its units in order.
pub struct SubjectOutline {
    pub name: Seq<char>,
    pub units: Seq<UnitOutline>,
}

/// No topic of the unit is blank.
pub open spec fn unit_topics_not_blank(unit: UnitOutline) -> bool {
    forall|k: int| 0 <= k < unit.topics.len() ==> !is_blank(#[trigger] unit.topics[k])
}

/// No topic anywhere in the outline is blank.
pub open spec fn topics_not_blank(outline: Seq<SubjectOutline>) -> bool {
    forall|i: int, j: int|
        0 <= i < outline.len() && 0 <= j < outline[i].units.len() ==> unit_topics_not_blank(
            #[trigger] outline[i].units[j],
        )
}

/// The units of all the subjects, one subject after the other.
pub open spec fn all_units(outline: Seq<SubjectOutline>) -> Seq<UnitOutline>
    decreases outline.len(),
{
    if outline.len() == 0 {
        Seq::empty()
    } else {
        all_units(outline.drop_last()) + outline.last().units
    }
}

/// The number of units in the outline.
pub open spec fn unit_count(outline: Seq<SubjectOutline>) -> nat
    decreases outline.len(),
{
    if outline.len() == 0 {
        0
    } else {
        unit_count(outline.drop_last()) + outline.last().units.len()
    }
}

/// The number of topics among the given units.
pub open spec fn topic_count_of_units(units: Seq<UnitOutline>) -> nat
    decreases units.len(),
{
    if units.len() == 0 {
        0
    } else {
        topic_count_of_units(units.drop_last()) + units.last().topics.len()
    }
}

/// The number of topics in the outline.
pub open spec fn topic_count(outline: Seq<SubjectOutline>) -> nat
    decreases outline.len(),
{
    if outline.len() == 0 {
        0
    } else {
        topic_count(outline.drop_last()) + topic_count_of_units(outline.last().units)
    }
}

} // verus!
