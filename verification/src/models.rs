//! The records of the tracker: semesters, trackers, the subject, unit and
//! topic hierarchy, scheduled tests and what each test covers.

use vstd::prelude::*;
use crate::text::same_text;

verus! {

/// The top-level container of trackers.
#[derive(Debug)]
pub struct Semester {
    pub id: String,
    pub name: String,
    pub created_at: i64,
    pub updated_at: i64,
}

/// One syllabus to work through within a semester. The three totals are a
/// cache of the size of the hierarchy below it.
#[derive(Debug)]
pub struct Tracker {
    pub id: String,
    pub semester_id: String,
    pub name: String,
    pub description: Option<String>,
    pub color: Option<String>,
    pub total_subjects: i32,
    pub total_units: i32,
    pub total_topics: i32,
    pub created_at: i64,
    pub updated_at: i64,
}

#[derive(Debug)]
pub struct Subject {
    pub id: String,
    pub tracker_id: String,
    pub name: String,
    pub created_at: i64,
    pub updated_at: i64,
}

#[derive(Debug)]
pub struct Unit {
    pub id: String,
    pub subject_id: String,
    pub name: String,
    pub order: i32,
    pub created_at: i64,
    pub updated_at: i64,
}

/// The leaf of the hierarchy, and the only record with a completion flag.
#[derive(Debug)]
pub struct Topic {
    pub id: String,
    pub unit_id: String,
    pub name: String,
    pub completed: bool,
    pub order: i32,
    pub created_at: i64,
    pub updated_at: i64,
}

#[derive(Debug, Clone, Copy, PartialEq, Eq, Structural)]
pub enum TestType {
    LabPractical,
    ClassTest,
    ISA,
    ESA,
}

/// A test scheduled for a tracker; `scheduled_date` is in milliseconds since
/// the epoch.
#[derive(Debug)]
pub struct Test {
    pub id: String,
    pub tracker_id: String,
    pub name: String,
    pub test_type: TestType,
    pub scheduled_date: i64,
    pub created_at: i64,
    pub updated_at: i64,
}

/// One thing that a test covers: a whole unit, or a single topic.
#[derive(Debug)]
pub struct TestCoverage {
    pub id: String,
    pub test_id: String,
    pub unit_id: Option<String>,
    pub topic_id: Option<String>,
}

/// A subject with its units, in display order.
#[derive(Debug, Clone)]
pub struct SubjectData {
    pub subject: Subject,
    pub units: Vec<UnitData>,
}

/// A unit with its topics, in display order.
#[derive(Debug, Clone)]
pub struct UnitData {
    pub unit: Unit,
    pub topics: Vec<Topic>,
}

/// What a new test is to cover, as a caller names it.
#[derive(Debug)]
pub struct TestCoverageInput {
    pub unit_id: Option<String>,
    pub topic_id: Option<String>,
}

/// A copy of an optional string.
pub fn clone_optional(value: &Option<String>) -> (copy: Option<String>)
    ensures
        copy == *value,
{
    match value {
        Some(s) => Some(s.clone()),
        None => None,
    }
}

impl Clone for Semester {
    fn clone(&self) -> (copy: Self)
        ensures
            copy == *self,
    {
        Semester {
            id: self.id.clone(),
            name: self.name.clone(),
            created_at: self.created_at,
            updated_at: self.updated_at,
        }
    }
}

impl Clone for Tracker {
    fn clone(&self) -> (copy: Self)
        ensures
            copy == *self,
    {
        Tracker {
            id: self.id.clone(),
            semester_id: self.semester_id.clone(),
            name: self.name.clone(),
            description: clone_optional(&self.description),
            color: clone_optional(&self.color),
            total_subjects: self.total_subjects,
            total_units: self.total_units,
            total_topics: self.total_topics,
            created_at: self.created_at,
            updated_at: self.updated_at,
        }
    }
}

impl Clone for Subject {
    fn clone(&self) -> (copy: Self)
        ensures
            copy == *self,
    {
        Subject {
            id: self.id.clone(),
            tracker_id: self.tracker_id.clone(),
            name: self.name.clone(),
            created_at: self.created_at,
            updated_at: self.updated_at,
        }
    }
}

impl Clone for Unit {
    fn clone(&self) -> (copy: Self)
        ensures
            copy == *self,
    {
        Unit {
            id: self.id.clone(),
            subject_id: self.subject_id.clone(),
            name: self.name.clone(),
            order: self.order,
            created_at: self.created_at,
            updated_at: self.updated_at,
        }
    }
}

impl Clone for Topic {
    fn clone(&self) -> (copy: Self)
        ensures
            copy == *self,
    {
        Topic {
            id: self.id.clone(),
            unit_id: self.unit_id.clone(),
            name: self.name.clone(),
            completed: self.completed,
            order: self.order,
            created_at: self.created_at,
            updated_at: self.updated_at,
        }
    }
}

impl Clone for TestCoverageInput {
    fn clone(&self) -> (copy: Self)
        ensures
            copy == *self,
    {
        TestCoverageInput {
            unit_id: clone_optional(&self.unit_id),
            topic_id: clone_optional(&self.topic_id),
        }
    }
}

impl Clone for Test {
    fn clone(&self) -> (copy: Self)
        ensures
            copy == *self,
    {
        Test {
            id: self.id.clone(),
            tracker_id: self.tracker_id.clone(),
            name: self.name.clone(),
            test_type: self.test_type,
            scheduled_date: self.scheduled_date,
            created_at: self.created_at,
            updated_at: self.updated_at,
        }
    }
}

impl Clone for TestCoverage {
    fn clone(&self) -> (copy: Self)
        ensures
            copy == *self,
    {
        TestCoverage {
            id: self.id.clone(),
            test_id: self.test_id.clone(),
            unit_id: clone_optional(&self.unit_id),
            topic_id: clone_optional(&self.topic_id),
        }
    }
}

impl TestType {
    /// The name under which the type is stored.
    pub open spec fn name(self) -> Seq<char> {
        match self {
            TestType::LabPractical => "lab_practical"@,
            TestType::ClassTest => "class_test"@,
            TestType::ISA => "isa"@,
            TestType::ESA => "esa"@,
        }
    }

    /// The type that a stored name stands for, if it is one of the four.
    pub open spec fn named(s: Seq<char>) -> Option<TestType> {
        if s == "lab_practical"@ {
            Some(TestType::LabPractical)
        } else if s == "class_test"@ {
            Some(TestType::ClassTest)
        } else if s == "isa"@ {
            Some(TestType::ISA)
        } else if s == "esa"@ {
            Some(TestType::ESA)
        } else {
            None
        }
    }

    /// The type that a stored name is read as: an unknown name reads as a
    /// class test.
    pub open spec fn read_as(s: Seq<char>) -> TestType {
        match Self::named(s) {
            Some(t) => t,
            None => TestType::ClassTest,
        }
    }

    /// Reading back the name of a type gives that type, and a name that
    /// reads as some type is the name of that type.
    pub proof fn lemma_name_round_trip(t: TestType, s: Seq<char>)
        ensures
            Self::named(t.name()) == Some(t),
            Self::read_as(t.name()) == t,
            Self::named(s) == Some(t) <==> s == t.name(),
    {
        reveal_strlit("lab_practical");
        reveal_strlit("class_test");
        reveal_strlit("isa");
        reveal_strlit("esa");
        assert("lab_practical"@.len() == 13);
        assert("class_test"@.len() == 10);
        assert("isa"@.len() == 3);
        assert("esa"@.len() == 3);
        assert("isa"@[0] != "esa"@[0]);
    }

    /// The name under which the type is stored.
    pub fn as_str(&self) -> (s: &str)
        ensures
            s@ == self.name(),
    {
        match self {
            TestType::LabPractical => "lab_practical",
            TestType::ClassTest => "class_test",
            TestType::ISA => "isa",
            TestType::ESA => "esa",
        }
    }

    /// The type that a name stands for on the way in: a name that is none of
    /// the four is no type at all.
    pub fn from_str(s: &str) -> (r: Option<Self>)
        ensures
            r == Self::named(s@),
    {
        if same_text(s, "lab_practical") {
            Some(TestType::LabPractical)
        } else if same_text(s, "class_test") {
            Some(TestType::ClassTest)
        } else if same_text(s, "isa") {
            Some(TestType::ISA)
        } else if same_text(s, "esa") {
            Some(TestType::ESA)
        } else {
            None
        }
    }

    /// Reads a stored name; a name that is none of the four reads as a class
    /// test, so that old or damaged data never fails a read.
    pub fn from_stored(s: &str) -> (r: Self)
        ensures
            r == Self::read_as(s@),
    {
        match Self::from_str(s) {
            Some(t) => t,
            None => TestType::ClassTest,
        }
    }
}

} // verus!
