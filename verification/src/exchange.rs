//! A tracker's hierarchy by name, as a document to hand on, and the making of
//! a new tracker from such a document or from syllabus text.

use vstd::prelude::*;
use crate::coverage::topic_names;
use crate::ident::{is_identifier, new_id};
use crate::models::{clone_optional, Subject, SubjectData, Topic, Tracker, Unit, UnitData};
use crate::outline::{topic_count, topic_count_of_units, unit_count, SubjectOutline, UnitOutline};
use crate::progress::{topics_in_subjects, topics_in_units};
use crate::records::{countable, units_in_subjects, update_tracker_statistics};
use crate::syllabus::{lemma_parsed_size, parse_syllabus, parsed, ParsedSyllabusEntry};

verus! {

#[derive(Debug, Clone)]
pub struct SyllabusUnit {
    pub name: String,
    pub topics: Vec<String>,
}

#[derive(Debug, Clone)]
pub struct SyllabusSubject {
    pub name: String,
    pub units: Vec<SyllabusUnit>,
}

/// The hierarchy of a tracker by name, with the format version of the
/// document.
#[derive(Debug, Clone)]
pub struct SyllabusExport {
    pub name: String,
    pub description: Option<String>,
    pub color: Option<String>,
    pub version: String,
    pub subjects: Vec<SyllabusSubject>,
}

/// A tracker that was just made, with the hierarchy to store below it.
#[derive(Debug)]
pub struct NewTracker {
    pub tracker: Tracker,
    pub subjects: Vec<SubjectData>,
}

impl DeepView for SyllabusUnit {
    type V = UnitOutline;

    open spec fn deep_view(&self) -> UnitOutline {
        UnitOutline { name: self.name@, topics: self.topics.deep_view() }
    }
}

impl DeepView for SyllabusSubject {
    type V = SubjectOutline;

    open spec fn deep_view(&self) -> SubjectOutline {
        SubjectOutline { name: self.name@, units: self.units.deep_view() }
    }
}

/// The format version that exported documents carry.
pub open spec fn format_version() -> Seq<char> {
    "1.0"@
}

/// The error text for the export of a tracker that does not exist.
pub open spec fn tracker_not_found_message() -> Seq<char> {
    "Tracker not found"@
}

/// The unit by name, with the names of its topics.
pub open spec fn unit_outline(data: UnitData) -> UnitOutline {
    UnitOutline { name: data.unit.name@, topics: topic_names(data.topics@) }
}

/// The subject by name, with its units by name.
pub open spec fn subject_outline(data: SubjectData) -> SubjectOutline {
    SubjectOutline {
        name: data.subject.name@,
        units: data.units@.map_values(|u: UnitData| unit_outline(u)),
    }
}

/// The hierarchy by name.
pub open spec fn outline_of(subjects: Seq<SubjectData>) -> Seq<SubjectOutline> {
    subjects.map_values(|s: SubjectData| subject_outline(s))
}

/// Whether an outline can be stored below one tracker: its subjects, units
/// and topics can each be counted in a tracker's totals.
pub open spec fn storable(outline: Seq<SubjectOutline>) -> bool {
    &&& outline.len() <= i32::MAX
    &&& unit_count(outline) <= i32::MAX
    &&& topic_count(outline) <= i32::MAX
}

/// A topic as it is first stored: not completed, at its position in the
/// unit, made at `now`.
pub open spec fn is_new_topic(
    topic: Topic,
    unit_id: Seq<char>,
    position: int,
    name: Seq<char>,
    now: i64,
) -> bool {
    &&& is_identifier(topic.id@)
    &&& topic.unit_id@ == unit_id
    &&& topic.name@ == name
    &&& !topic.completed
    &&& topic.order == position
    &&& topic.created_at == now
    &&& topic.updated_at == now
}

/// A unit as it is first stored, with its topics in the order of the
/// outline.
pub open spec fn is_new_unit(
    data: UnitData,
    subject_id: Seq<char>,
    position: int,
    outline: UnitOutline,
    now: i64,
) -> bool {
    &&& is_identifier(data.unit.id@)
    &&& data.unit.subject_id@ == subject_id
    &&& data.unit.name@ == outline.name
    &&& data.unit.order == position
    &&& data.unit.created_at == now
    &&& data.unit.updated_at == now
    &&& data.topics@.len() == outline.topics.len()
    &&& forall|k: int|
        0 <= k < outline.topics.len() ==> is_new_topic(
            #[trigger] data.topics@[k],
            data.unit.id@,
            k,
            outline.topics[k],
            now,
        )
}

/// A subject as it is first stored, with its units in the order of the
/// outline.
pub open spec fn is_new_subject(
    data: SubjectData,
    tracker_id: Seq<char>,
    outline: SubjectOutline,
    now: i64,
) -> bool {
    &&& is_identifier(data.subject.id@)
    &&& data.subject.tracker_id@ == tracker_id
    &&& data.subject.name@ == outline.name
    &&& data.subject.created_at == now
    &&& data.subject.updated_at == now
    &&& data.units@.len() == outline.units.len()
    &&& forall|j: int|
        0 <= j < outline.units.len() ==> is_new_unit(
            #[trigger] data.units@[j],
            data.subject.id@,
            j,
            outline.units[j],
            now,
        )
}

/// A hierarchy as it is first stored below the tracker `tracker_id`: one
/// subject for each of the outline, in its order.
pub open spec fn is_new_hierarchy(
    subjects: Seq<SubjectData>,
    tracker_id: Seq<char>,
    outline: Seq<SubjectOutline>,
    now: i64,
) -> bool {
    &&& subjects.len() == outline.len()
    &&& forall|i: int|
        0 <= i < outline.len() ==> is_new_subject(#[trigger] subjects[i], tracker_id, outline[i], now)
}

/// A new hierarchy has the names of its outline, in the same order, and none
/// of its topics is completed.
pub proof fn lemma_new_hierarchy_outline(
    subjects: Seq<SubjectData>,
    tracker_id: Seq<char>,
    outline: Seq<SubjectOutline>,
    now: i64,
)
    requires
        is_new_hierarchy(subjects, tracker_id, outline, now),
    ensures
        outline_of(subjects) == outline,
        forall|i: int, j: int, k: int|
            0 <= i < subjects.len() && 0 <= j < subjects[i].units@.len() && 0 <= k
                < subjects[i].units@[j].topics@.len() ==> !(
            #[trigger] subjects[i].units@[j].topics@[k]).completed,
{
    assert forall|i: int| 0 <= i < outline.len() implies #[trigger] outline_of(subjects)[i]
        == outline[i] by {
        let data = subjects[i];
        assert(is_new_subject(data, tracker_id, outline[i], now));
        let units = subject_outline(data).units;
        assert forall|j: int| 0 <= j < outline[i].units.len() implies #[trigger] units[j]
            == outline[i].units[j] by {
            let unit = data.units@[j];
            assert(is_new_unit(unit, data.subject.id@, j, outline[i].units[j], now));
            let names = topic_names(unit.topics@);
            assert forall|k: int| 0 <= k < outline[i].units[j].topics.len() implies #[trigger] names[k]
                == outline[i].units[j].topics[k] by {
                assert(is_new_topic(
                    unit.topics@[k],
                    unit.unit.id@,
                    k,
                    outline[i].units[j].topics[k],
                    now,
                ));
            }
            assert(names =~= outline[i].units[j].topics);
        }
        assert(units =~= outline[i].units);
    }
    assert(outline_of(subjects) =~= outline);
    assert forall|i: int, j: int, k: int|
        0 <= i < subjects.len() && 0 <= j < subjects[i].units@.len() && 0 <= k
            < subjects[i].units@[j].topics@.len() implies !(
    #[trigger] subjects[i].units@[j].topics@[k]).completed by {
        assert(is_new_subject(subjects[i], tracker_id, outline[i], now));
        assert(is_new_unit(
            subjects[i].units@[j],
            subjects[i].subject.id@,
            j,
            outline[i].units[j],
            now,
        ));
        assert(is_new_topic(
            subjects[i].units@[j].topics@[k],
            subjects[i].units@[j].unit.id@,
            k,
            outline[i].units[j].topics[k],
            now,
        ));
    }
}

/// Export followed by import gives back the hierarchy by name: a hierarchy
/// made from the exported outline of another has the same subjects, units
/// and topics by name, in the same order, and starts with no topic completed.
pub proof fn lemma_export_import_round_trip(
    source: Seq<SubjectData>,
    imported: Seq<SubjectData>,
    tracker_id: Seq<char>,
    now: i64,
)
    requires
        is_new_hierarchy(imported, tracker_id, outline_of(source), now),
    ensures
        outline_of(imported) == outline_of(source),
        forall|i: int, j: int, k: int|
            0 <= i < imported.len() && 0 <= j < imported[i].units@.len() && 0 <= k
                < imported[i].units@[j].topics@.len() ==> !(
            #[trigger] imported[i].units@[j].topics@[k]).completed,
{
    lemma_new_hierarchy_outline(imported, tracker_id, outline_of(source), now);
}

/// The units of a hierarchy are counted alike in the records and in their
/// outline, and so are the topics.
pub proof fn lemma_counts_of_outline(subjects: Seq<SubjectData>)
    ensures
        unit_count(outline_of(subjects)) == units_in_subjects(subjects),
        topic_count(outline_of(subjects)) == topics_in_subjects(subjects),
    decreases subjects.len(),
{
    if subjects.len() > 0 {
        lemma_counts_of_outline(subjects.drop_last());
        assert(outline_of(subjects).drop_last() =~= outline_of(subjects.drop_last()));
        lemma_topic_count_of_units(subjects.last().units@);
    }
}

proof fn lemma_topic_count_of_units(units: Seq<UnitData>)
    ensures
        topic_count_of_units(units.map_values(|u: UnitData| unit_outline(u))) == topics_in_units(
            units,
        ),
    decreases units.len(),
{
    let outlines = units.map_values(|u: UnitData| unit_outline(u));
    if units.len() > 0 {
        lemma_topic_count_of_units(units.drop_last());
        assert(outlines.drop_last() =~= units.drop_last().map_values(|u: UnitData| unit_outline(u)));
    }
}

/// Every subject of a storable outline has a countable number of units, and
/// every unit a countable number of topics.
pub proof fn lemma_storable_parts(outline: Seq<SubjectOutline>, i: int)
    requires
        storable(outline),
        0 <= i < outline.len(),
    ensures
        outline[i].units.len() <= i32::MAX,
        topic_count_of_units(outline[i].units) <= i32::MAX,
        forall|j: int|
            0 <= j < outline[i].units.len() ==> (#[trigger] outline[i].units[j]).topics.len()
                <= i32::MAX,
    decreases outline.len(),
{
    if i < outline.len() - 1 {
        lemma_storable_parts(outline.drop_last(), i);
    } else {
        assert forall|j: int| 0 <= j < outline[i].units.len() implies (
        #[trigger] outline[i].units[j]).topics.len() <= i32::MAX by {
            lemma_unit_topics_bounded(outline[i].units, j);
        }
    }
}

proof fn lemma_unit_topics_bounded(units: Seq<UnitOutline>, j: int)
    requires
        0 <= j < units.len(),
    ensures
        units[j].topics.len() <= topic_count_of_units(units),
    decreases units.len(),
{
    if j < units.len() - 1 {
        lemma_unit_topics_bounded(units.drop_last(), j);
    }
}

/// A copy of the names.
pub fn clone_names(names: &Vec<String>) -> (copy: Vec<String>)
    ensures
        copy.deep_view() == names.deep_view(),
{
    let mut copy: Vec<String> = Vec::new();
    let mut i: usize = 0;
    while i < names.len()
        invariant
            i <= names.len(),
            copy@.len() == i,
            forall|k: int| 0 <= k < i ==> (#[trigger] copy@[k])@ == names@[k]@,
        decreases names.len() - i,
    {
        copy.push(names[i].clone());
        i = i + 1;
    }
    assert(copy.deep_view() =~= names.deep_view());
    copy
}

/// The names of the topics, in order.
pub fn names_of_topics(topics: &Vec<Topic>) -> (names: Vec<String>)
    ensures
        names.deep_view() == topic_names(topics@),
{
    let mut names: Vec<String> = Vec::new();
    let mut i: usize = 0;
    while i < topics.len()
        invariant
            i <= topics.len(),
            names@.len() == i,
            forall|k: int| 0 <= k < i ==> (#[trigger] names@[k])@ == topics@[k].name@,
        decreases topics.len() - i,
    {
        names.push(topics[i].name.clone());
        i = i + 1;
    }
    assert(names.deep_view() =~= topic_names(topics@));
    names
}

/// The hierarchy of a tracker by name, as a document of format version
/// `1.0`. The export of a tracker that does not exist is refused.
pub fn export_syllabus(tracker: Option<&Tracker>, subjects: &Vec<SubjectData>) -> (result: Result<
    SyllabusExport,
    String,
>)
    ensures
        match tracker {
            Some(found) => {
                &&& result matches Ok(document)
                &&& document.name@ == found.name@
                &&& document.description == found.description
                &&& document.color == found.color
                &&& document.version@ == format_version()
                &&& document.subjects.deep_view() == outline_of(subjects@)
            },
            None => result matches Err(message) && message@ == tracker_not_found_message(),
        },
{
    let found = match tracker {
        Some(found) => found,
        None => {
            return Err("Tracker not found".to_owned());
        },
    };
    let mut exported: Vec<SyllabusSubject> = Vec::new();
    let mut i: usize = 0;
    while i < subjects.len()
        invariant
            i <= subjects.len(),
            exported@.len() == i,
            forall|k: int|
                0 <= k < i ==> (#[trigger] exported@[k]).deep_view() == subject_outline(subjects@[k]),
        decreases subjects.len() - i,
    {
        let data = &subjects[i];
        let mut units: Vec<SyllabusUnit> = Vec::new();
        let mut j: usize = 0;
        while j < data.units.len()
            invariant
                j <= data.units.len(),
                units@.len() == j,
                forall|k: int|
                    0 <= k < j ==> (#[trigger] units@[k]).deep_view() == unit_outline(data.units@[k]),
            decreases data.units.len() - j,
        {
            let unit = &data.units[j];
            units.push(
                SyllabusUnit { name: unit.unit.name.clone(), topics: names_of_topics(&unit.topics) },
            );
            j = j + 1;
        }
        assert(units.deep_view() =~= subject_outline(*data).units);
        exported.push(SyllabusSubject { name: data.subject.name.clone(), units });
        i = i + 1;
    }
    assert(exported.deep_view() =~= outline_of(subjects@));
    Ok(
        SyllabusExport {
            name: found.name.clone(),
            description: clone_optional(&found.description),
            color: clone_optional(&found.color),
            version: "1.0".to_owned(),
            subjects: exported,
        },
    )
}

/// The parsed entries as the subjects of a document.
pub fn syllabus_subjects(entries: &Vec<ParsedSyllabusEntry>) -> (subjects: Vec<SyllabusSubject>)
    ensures
        subjects.deep_view() == entries.deep_view(),
{
    let mut subjects: Vec<SyllabusSubject> = Vec::new();
    let mut i: usize = 0;
    while i < entries.len()
        invariant
            i <= entries.len(),
            subjects@.len() == i,
            forall|k: int|
                0 <= k < i ==> (#[trigger] subjects@[k]).deep_view() == entries@[k].deep_view(),
        decreases entries.len() - i,
    {
        let entry = &entries[i];
        let mut units: Vec<SyllabusUnit> = Vec::new();
        let mut j: usize = 0;
        while j < entry.units.len()
            invariant
                j <= entry.units.len(),
                units@.len() == j,
                forall|k: int|
                    0 <= k < j ==> (#[trigger] units@[k]).deep_view() == entry.units@[k].deep_view(),
            decreases entry.units.len() - j,
        {
            let unit = &entry.units[j];
            units.push(
                SyllabusUnit { name: unit.unit_name.clone(), topics: clone_names(&unit.topics) },
            );
            j = j + 1;
        }
        assert(units.deep_view() =~= entry.units.deep_view());
        subjects.push(SyllabusSubject { name: entry.subject_name.clone(), units });
        i = i + 1;
    }
    assert(subjects.deep_view() =~= entries.deep_view());
    subjects
}

/// Whether the subjects of a document can be stored below one tracker.
pub fn is_storable(subjects: &Vec<SyllabusSubject>) -> (fits: bool)
    ensures
        fits == storable(subjects.deep_view()),
{
    let ghost outline = subjects.deep_view();
    let limit: usize = 0x7fff_ffff;
    if subjects.len() > limit {
        return false;
    }
    let mut units: usize = 0;
    let mut topics: usize = 0;
    let mut i: usize = 0;
    assert(outline.take(0) =~= Seq::<SubjectOutline>::empty());
    while i < subjects.len()
        invariant
            i <= subjects.len(),
            limit == i32::MAX,
            outline == subjects.deep_view(),
            units == unit_count(outline.take(i as int)),
            topics == topic_count(outline.take(i as int)),
            units <= limit,
            topics <= limit,
        decreases subjects.len() - i,
    {
        let subject = &subjects[i];
        proof {
            assert(outline.take(i + 1).drop_last() =~= outline.take(i as int));
            assert(outline[i as int] == subject.deep_view());
            lemma_count_prefix(outline, i + 1);
        }
        if subject.units.len() > limit - units {
            return false;
        }
        let ghost unit_outlines = subject.units.deep_view();
        let mut in_subject: usize = 0;
        let mut j: usize = 0;
        assert(unit_outlines.take(0) =~= Seq::<UnitOutline>::empty());
        while j < subject.units.len()
            invariant
                j <= subject.units.len(),
                limit == i32::MAX,
                outline == subjects.deep_view(),
                unit_outlines == subject.units.deep_view(),
                unit_outlines == outline[i as int].units,
                i < outline.len(),
                topics == topic_count(outline.take(i as int)),
                topic_count(outline.take(i as int)) + topic_count_of_units(outline[i as int].units)
                    <= topic_count(outline),
                in_subject == topic_count_of_units(unit_outlines.take(j as int)),
                topics + in_subject <= limit,
            decreases subject.units.len() - j,
        {
            let n = subject.units[j].topics.len();
            proof {
                assert(unit_outlines.take(j + 1).drop_last() =~= unit_outlines.take(j as int));
                assert(unit_outlines[j as int].topics.len() == n);
                assert(unit_outlines.take(j + 1).last() == unit_outlines[j as int]);
                assert(topic_count_of_units(unit_outlines.take(j + 1)) == in_subject + n);
                lemma_unit_prefix(unit_outlines, j + 1);
            }
            if n > limit - topics - in_subject {
                return false;
            }
            in_subject = in_subject + n;
            j = j + 1;
        }
        assert(unit_outlines.take(subject.units.len() as int) =~= unit_outlines);
        units = units + subject.units.len();
        topics = topics + in_subject;
        i = i + 1;
    }
    assert(outline.take(subjects.len() as int) =~= outline);
    true
}

proof fn lemma_count_prefix(outline: Seq<SubjectOutline>, k: int)
    requires
        0 <= k <= outline.len(),
    ensures
        unit_count(outline.take(k)) <= unit_count(outline),
        topic_count(outline.take(k)) <= topic_count(outline),
    decreases outline.len(),
{
    if k == outline.len() {
        assert(outline.take(k) =~= outline);
    } else {
        lemma_count_prefix(outline.drop_last(), k);
        assert(outline.drop_last().take(k) =~= outline.take(k));
    }
}

proof fn lemma_unit_prefix(units: Seq<UnitOutline>, k: int)
    requires
        0 <= k <= units.len(),
    ensures
        topic_count_of_units(units.take(k)) <= topic_count_of_units(units),
    decreases units.len(),
{
    if k == units.len() {
        assert(units.take(k) =~= units);
    } else {
        lemma_unit_prefix(units.drop_last(), k);
        assert(units.drop_last().take(k) =~= units.take(k));
    }
}

/// The topics of a unit as they are first stored.
fn new_topics(unit_id: &String, names: &Vec<String>, now: i64) -> (topics: Vec<Topic>)
    requires
        names@.len() <= i32::MAX,
    ensures
        topics@.len() == names@.len(),
        forall|k: int|
            0 <= k < names@.len() ==> is_new_topic(
                #[trigger] topics@[k],
                unit_id@,
                k,
                names@[k]@,
                now,
            ),
{
    let mut topics: Vec<Topic> = Vec::new();
    let mut k: usize = 0;
    while k < names.len()
        invariant
            k <= names.len(),
            names@.len() <= i32::MAX,
            topics@.len() == k,
            forall|m: int|
                0 <= m < k ==> is_new_topic(#[trigger] topics@[m], unit_id@, m, names@[m]@, now),
        decreases names.len() - k,
    {
        topics.push(
            Topic {
                id: new_id(),
                unit_id: unit_id.clone(),
                name: names[k].clone(),
                completed: false,
                order: k as i32,
                created_at: now,
                updated_at: now,
            },
        );
        k = k + 1;
    }
    topics
}

/// A unit with its topics as they are first stored.
fn new_unit(subject_id: &String, position: i32, unit: &SyllabusUnit, now: i64) -> (data:
    UnitData)
    requires
        unit.topics@.len() <= i32::MAX,
    ensures
        is_new_unit(data, subject_id@, position as int, unit.deep_view(), now),
{
    let id = new_id();
    let topics = new_topics(&id, &unit.topics, now);
    UnitData {
        unit: Unit {
            id,
            subject_id: subject_id.clone(),
            name: unit.name.clone(),
            order: position,
            created_at: now,
            updated_at: now,
        },
        topics,
    }
}

/// A subject with its units and topics as they are first stored.
fn new_subject(tracker_id: &String, subject: &SyllabusSubject, now: i64) -> (data: SubjectData)
    requires
        subject.units@.len() <= i32::MAX,
        forall|j: int|
            0 <= j < subject.units@.len() ==> (#[trigger] subject.units@[j]).topics@.len()
                <= i32::MAX,
    ensures
        is_new_subject(data, tracker_id@, subject.deep_view(), now),
{
    let id = new_id();
    let mut units: Vec<UnitData> = Vec::new();
    let mut j: usize = 0;
    while j < subject.units.len()
        invariant
            j <= subject.units.len(),
            subject.units@.len() <= i32::MAX,
            forall|m: int|
                0 <= m < subject.units@.len() ==> (#[trigger] subject.units@[m]).topics@.len()
                    <= i32::MAX,
            units@.len() == j,
            forall|m: int|
                0 <= m < j ==> is_new_unit(
                    #[trigger] units@[m],
                    id@,
                    m,
                    subject.units@[m].deep_view(),
                    now,
                ),
        decreases subject.units.len() - j,
    {
        units.push(new_unit(&id, j as i32, &subject.units[j], now));
        j = j + 1;
    }
    SubjectData {
        subject: Subject {
            id,
            tracker_id: tracker_id.clone(),
            name: subject.name.clone(),
            created_at: now,
            updated_at: now,
        },
        units,
    }
}

/// The hierarchy of an outline as it is first stored below the tracker
/// `tracker_id`: every record with an identifier of its own, made at `now`,
/// each unit and topic at its position in the outline.
pub fn new_hierarchy(tracker_id: &String, subjects: &Vec<SyllabusSubject>, now: i64) -> (hierarchy:
    Vec<SubjectData>)
    requires
        storable(subjects.deep_view()),
    ensures
        is_new_hierarchy(hierarchy@, tracker_id@, subjects.deep_view(), now),
        outline_of(hierarchy@) == subjects.deep_view(),
        countable(hierarchy@),
{
    let ghost outline = subjects.deep_view();
    let mut hierarchy: Vec<SubjectData> = Vec::new();
    let mut i: usize = 0;
    while i < subjects.len()
        invariant
            i <= subjects.len(),
            outline == subjects.deep_view(),
            storable(outline),
            hierarchy@.len() == i,
            forall|m: int|
                0 <= m < i ==> is_new_subject(#[trigger] hierarchy@[m], tracker_id@, outline[m], now),
        decreases subjects.len() - i,
    {
        let subject = &subjects[i];
        proof {
            lemma_storable_parts(outline, i as int);
            assert(outline[i as int] == subject.deep_view());
            assert forall|j: int| 0 <= j < subject.units@.len() implies (
            #[trigger] subject.units@[j]).topics@.len() <= i32::MAX by {
                assert(outline[i as int].units[j].topics.len() == subject.units@[j].topics@.len());
            }
        }
        hierarchy.push(new_subject(tracker_id, subject, now));
        i = i + 1;
    }
    proof {
        lemma_new_hierarchy_outline(hierarchy@, tracker_id@, outline, now);
        lemma_counts_of_outline(hierarchy@);
    }
    hierarchy
}

/// A new tracker of the semester `semester_id` with the hierarchy of a
/// document, made at `now`. The tracker is handed back as it is first
/// stored, its cached totals at zero; the hierarchy is what there is to
/// store below it.
pub fn import_syllabus(semester_id: String, syllabus: SyllabusExport, now: i64) -> (imported:
    NewTracker)
    requires
        storable(syllabus.subjects.deep_view()),
    ensures
        is_identifier(imported.tracker.id@),
        imported.tracker.semester_id == semester_id,
        imported.tracker.name == syllabus.name,
        imported.tracker.description == syllabus.description,
        imported.tracker.color == syllabus.color,
        imported.tracker.total_subjects == 0,
        imported.tracker.total_units == 0,
        imported.tracker.total_topics == 0,
        imported.tracker.created_at == now,
        imported.tracker.updated_at == now,
        is_new_hierarchy(
            imported.subjects@,
            imported.tracker.id@,
            syllabus.subjects.deep_view(),
            now,
        ),
        outline_of(imported.subjects@) == syllabus.subjects.deep_view(),
        countable(imported.subjects@),
{
    let id = new_id();
    let subjects = new_hierarchy(&id, &syllabus.subjects, now);
    NewTracker {
        tracker: Tracker {
            id,
            semester_id,
            name: syllabus.name,
            description: syllabus.description,
            color: syllabus.color,
            total_subjects: 0,
            total_units: 0,
            total_topics: 0,
            created_at: now,
            updated_at: now,
        },
        subjects,
    }
}

/// A new tracker of the semester `semester_id` with the hierarchy that the
/// syllabus text describes, made at `now`, its cached totals counted from
/// that hierarchy. Text that does not parse is refused with the parser's
/// error, and nothing is made.
pub fn create_new_tracker(
    semester_id: String,
    name: String,
    syllabus_text: &str,
    now: i64,
) -> (result: Result<NewTracker, String>)
    requires
        syllabus_text@.len() <= i32::MAX,
    ensures
        match parsed(syllabus_text@) {
            Ok(outline) => {
                &&& result matches Ok(created)
                &&& is_identifier(created.tracker.id@)
                &&& created.tracker.semester_id == semester_id
                &&& created.tracker.name == name
                &&& created.tracker.description is None
                &&& created.tracker.color is None
                &&& created.tracker.total_subjects == outline.len()
                &&& created.tracker.total_units == unit_count(outline)
                &&& created.tracker.total_topics == topic_count(outline)
                &&& created.tracker.created_at == now
                &&& created.tracker.updated_at == now
                &&& is_new_hierarchy(created.subjects@, created.tracker.id@, outline, now)
                &&& outline_of(created.subjects@) == outline
            },
            Err(message) => result matches Err(e) && e@ == message,
        },
{
    let entries = match parse_syllabus(syllabus_text) {
        Ok(entries) => entries,
        Err(message) => {
            return Err(message);
        },
    };
    proof {
        lemma_parsed_size(syllabus_text@);
    }
    let outline = syllabus_subjects(&entries);
    let id = new_id();
    let subjects = new_hierarchy(&id, &outline, now);
    let tracker = Tracker {
        id,
        semester_id,
        name,
        description: None,
        color: None,
        total_subjects: 0,
        total_units: 0,
        total_topics: 0,
        created_at: now,
        updated_at: now,
    };
    proof {
        lemma_counts_of_outline(subjects@);
    }
    let tracker = update_tracker_statistics(tracker, &subjects, now);
    Ok(NewTracker { tracker, subjects })
}

} // verus!
