use study_tracker::models::{
    clone_optional, Subject, SubjectData, TestCoverageInput, TestType, Topic, Tracker, Unit, UnitData,
};
use study_tracker::records::{
    count_statistics, create_semester, create_subject, create_topic, is_countable, next_topic_order,
    schedule_test, toggle_topic_completion, update_tracker_statistics,
};
use uuid::{Uuid, Variant};

fn topic(order: i32, completed: bool) -> Topic {
    Topic {
        id: format!("p{}", order),
        unit_id: "u1".to_string(),
        name: format!("topic {}", order),
        completed,
        order,
        created_at: 10,
        updated_at: 20,
    }
}

fn unit(id: &str, topics: usize) -> UnitData {
    UnitData {
        unit: Unit {
            id: id.to_string(),
            subject_id: "s".to_string(),
            name: id.to_string(),
            order: 0,
            created_at: 1,
            updated_at: 1,
        },
        topics: (0..topics).map(|k| topic(k as i32, false)).collect(),
    }
}

fn subject(id: &str, units: Vec<UnitData>) -> SubjectData {
    SubjectData {
        subject: Subject {
            id: id.to_string(),
            tracker_id: "t".to_string(),
            name: id.to_string(),
            created_at: 1,
            updated_at: 1,
        },
        units,
    }
}

fn tracker() -> Tracker {
    Tracker {
        id: "t".to_string(),
        semester_id: "sem".to_string(),
        name: "Course".to_string(),
        description: Some("notes".to_string()),
        color: None,
        total_subjects: 0,
        total_units: 0,
        total_topics: 0,
        created_at: 5,
        updated_at: 5,
    }
}

fn assert_is_identifier(id: &str) {
    assert_eq!(id.len(), 36);
    let parsed = Uuid::parse_str(id).unwrap();
    assert_eq!(parsed.get_version_num(), 4);
    assert_eq!(parsed.get_variant(), Variant::RFC4122);
    assert_eq!(parsed.hyphenated().to_string(), id);
    for (i, c) in id.chars().enumerate() {
        if i == 8 || i == 13 || i == 18 || i == 23 {
            assert_eq!(c, '-');
        } else {
            assert!(c.is_ascii_digit() || ('a'..='f').contains(&c));
        }
    }
    assert_eq!(id.as_bytes()[14], b'4');
    assert!(matches!(id.as_bytes()[19], b'8' | b'9' | b'a' | b'b'));
}

#[test]
fn test_type_names_round_trip() {
    for t in [TestType::LabPractical, TestType::ClassTest, TestType::ISA, TestType::ESA] {
        assert_eq!(TestType::from_str(t.as_str()), Some(t));
        assert_eq!(TestType::from_stored(t.as_str()), t);
    }
    assert_eq!(TestType::LabPractical.as_str(), "lab_practical");
    assert_eq!(TestType::ClassTest.as_str(), "class_test");
    assert_eq!(TestType::ISA.as_str(), "isa");
    assert_eq!(TestType::ESA.as_str(), "esa");
}

#[test]
fn unknown_test_type_names_are_refused_on_write() {
    for s in ["", "ISA", "isa ", "quiz", "lab-practical", "class_tes", "class_testx"] {
        assert_eq!(TestType::from_str(s), None);
    }
}

#[test]
fn unknown_test_type_names_read_as_class_test() {
    assert_eq!(TestType::from_stored("quiz"), TestType::ClassTest);
    assert_eq!(TestType::from_stored(""), TestType::ClassTest);
    assert_eq!(TestType::from_stored("esa"), TestType::ESA);
}

#[test]
fn optional_strings_are_copied() {
    assert_eq!(clone_optional(&None), None);
    assert_eq!(clone_optional(&Some("x".to_string())), Some("x".to_string()));
}

#[test]
fn records_are_cloned_field_by_field() {
    let t = topic(3, true);
    let c = t.clone();
    assert_eq!((c.id, c.unit_id, c.name), (t.id, t.unit_id, t.name));
    assert_eq!((c.completed, c.order, c.created_at, c.updated_at), (true, 3, 10, 20));
    let tr = tracker();
    let c = tr.clone();
    assert_eq!(c.description.as_deref(), Some("notes"));
    assert_eq!(c.color, None);
    assert_eq!((c.id, c.semester_id, c.name), (tr.id, tr.semester_id, tr.name));
}

#[test]
fn new_semester_has_a_fresh_identifier() {
    let a = create_semester("Autumn".to_string(), 42);
    let b = create_semester("Autumn".to_string(), 42);
    assert_is_identifier(&a.id);
    assert_is_identifier(&b.id);
    assert_ne!(a.id, b.id);
    assert_eq!(a.name, "Autumn");
    assert_eq!(a.created_at, 42);
    assert_eq!(a.updated_at, 42);
}

#[test]
fn new_subject_belongs_to_its_tracker() {
    let s = create_subject("tracker-1".to_string(), "Physics".to_string(), 7);
    assert_is_identifier(&s.id);
    assert_eq!(s.tracker_id, "tracker-1");
    assert_eq!(s.name, "Physics");
    assert_eq!(s.created_at, 7);
    assert_eq!(s.updated_at, 7);
}

#[test]
fn first_topic_gets_position_zero() {
    assert_eq!(next_topic_order(&Vec::new()), 0);
    let t = create_topic("u1".to_string(), "first".to_string(), &Vec::new(), 9);
    assert_eq!(t.order, 0);
}

#[test]
fn next_position_is_one_past_the_highest() {
    assert_eq!(next_topic_order(&vec![topic(0, false), topic(1, false), topic(2, false)]), 3);
    assert_eq!(next_topic_order(&vec![topic(5, false), topic(2, false)]), 6);
    assert_eq!(next_topic_order(&vec![topic(2, false), topic(9, false), topic(4, false)]), 10);
    assert_eq!(next_topic_order(&vec![topic(-5, false)]), -4);
    assert_eq!(next_topic_order(&vec![topic(-5, false), topic(-7, false)]), -4);
    assert_eq!(next_topic_order(&vec![topic(i32::MAX - 1, false)]), i32::MAX);
}

#[test]
fn new_topic_is_incomplete_and_placed_last() {
    let existing = vec![topic(0, true), topic(1, false)];
    let t = create_topic("u1".to_string(), "third".to_string(), &existing, 99);
    assert_is_identifier(&t.id);
    assert_eq!(t.unit_id, "u1");
    assert_eq!(t.name, "third");
    assert!(!t.completed);
    assert_eq!(t.order, 2);
    assert_eq!(t.created_at, 99);
    assert_eq!(t.updated_at, 99);
}

#[test]
fn toggling_flips_completion_and_stamps_the_time() {
    let once = toggle_topic_completion(Some(topic(1, false)), 100).unwrap();
    assert!(once.completed);
    assert_eq!(once.updated_at, 100);
    assert_eq!(once.created_at, 10);
    assert_eq!((once.id.as_str(), once.unit_id.as_str(), once.name.as_str(), once.order), ("p1", "u1", "topic 1", 1));
}

#[test]
fn toggling_twice_gives_back_the_completion_state() {
    for start in [false, true] {
        let once = toggle_topic_completion(Some(topic(1, start)), 100).unwrap();
        assert_eq!(once.completed, !start);
        assert_eq!(once.updated_at, 100);
        let twice = toggle_topic_completion(Some(once), 200).unwrap();
        assert_eq!(twice.completed, start);
        assert_eq!(twice.updated_at, 200);
        assert_eq!(twice.created_at, 10);
        assert_eq!(twice.name, "topic 1");
    }
}

#[test]
fn toggling_a_missing_topic_gives_nothing() {
    assert!(toggle_topic_completion(None, 100).is_none());
}

#[test]
fn scheduling_makes_a_test_and_its_coverage_rows() {
    let inputs = vec![
        TestCoverageInput { unit_id: Some("u1".to_string()), topic_id: None },
        TestCoverageInput { unit_id: None, topic_id: Some("p3".to_string()) },
        TestCoverageInput { unit_id: None, topic_id: None },
        TestCoverageInput { unit_id: Some("u2".to_string()), topic_id: Some("p4".to_string()) },
    ];
    let scheduled = schedule_test(
        "tracker".to_string(),
        "Midterm".to_string(),
        "lab_practical",
        1_700_000_000_000,
        inputs,
        55,
    )
    .unwrap();
    assert_is_identifier(&scheduled.test.id);
    assert_eq!(scheduled.test.tracker_id, "tracker");
    assert_eq!(scheduled.test.name, "Midterm");
    assert_eq!(scheduled.test.test_type, TestType::LabPractical);
    assert_eq!(scheduled.test.scheduled_date, 1_700_000_000_000);
    assert_eq!(scheduled.test.created_at, 55);
    assert_eq!(scheduled.test.updated_at, 55);
    assert_eq!(scheduled.coverage.len(), 4);
    for row in &scheduled.coverage {
        assert_is_identifier(&row.id);
        assert_eq!(row.test_id, scheduled.test.id);
        assert_ne!(row.id, scheduled.test.id);
    }
    assert_eq!(scheduled.coverage[0].unit_id.as_deref(), Some("u1"));
    assert_eq!(scheduled.coverage[0].topic_id, None);
    assert_eq!(scheduled.coverage[1].unit_id, None);
    assert_eq!(scheduled.coverage[1].topic_id.as_deref(), Some("p3"));
    assert_eq!(scheduled.coverage[2].unit_id, None);
    assert_eq!(scheduled.coverage[2].topic_id, None);
    assert_eq!(scheduled.coverage[3].unit_id.as_deref(), Some("u2"));
    assert_eq!(scheduled.coverage[3].topic_id.as_deref(), Some("p4"));
}

#[test]
fn scheduling_without_coverage_makes_no_rows() {
    let scheduled =
        schedule_test("t".to_string(), "Final".to_string(), "esa", 1, Vec::new(), 2).unwrap();
    assert_eq!(scheduled.test.test_type, TestType::ESA);
    assert!(scheduled.coverage.is_empty());
}

#[test]
fn scheduling_with_an_unknown_type_is_refused() {
    let inputs = vec![TestCoverageInput { unit_id: Some("u1".to_string()), topic_id: None }];
    let result = schedule_test("t".to_string(), "Quiz".to_string(), "quiz", 1, inputs, 2);
    assert_eq!(result.unwrap_err(), "Invalid test type");
}

#[test]
fn statistics_count_the_whole_hierarchy() {
    let subjects = vec![
        subject("a", vec![unit("a1", 3), unit("a2", 0)]),
        subject("b", Vec::new()),
        subject("c", vec![unit("c1", 2)]),
    ];
    assert!(is_countable(&subjects));
    let s = count_statistics(&subjects);
    assert_eq!((s.total_subjects, s.total_units, s.total_topics), (3, 3, 5));
    let empty = count_statistics(&Vec::new());
    assert_eq!((empty.total_subjects, empty.total_units, empty.total_topics), (0, 0, 0));
}

#[test]
fn refreshing_sets_the_totals_and_the_time() {
    let subjects = vec![subject("a", vec![unit("a1", 3), unit("a2", 1)])];
    let updated = update_tracker_statistics(tracker(), &subjects, 77);
    assert_eq!(updated.total_subjects, 1);
    assert_eq!(updated.total_units, 2);
    assert_eq!(updated.total_topics, 4);
    assert_eq!(updated.updated_at, 77);
    assert_eq!(updated.created_at, 5);
    assert_eq!(updated.id, "t");
    assert_eq!(updated.semester_id, "sem");
    assert_eq!(updated.name, "Course");
    assert_eq!(updated.description.as_deref(), Some("notes"));
    assert_eq!(updated.color, None);
}

#[test]
fn recount_without_a_subject_drops_its_subtree() {
    let mut subjects = vec![
        subject("a", vec![unit("a1", 3), unit("a2", 4)]),
        subject("b", vec![unit("b1", 2)]),
    ];
    let before = count_statistics(&subjects);
    assert_eq!((before.total_subjects, before.total_units, before.total_topics), (2, 3, 9));
    subjects.remove(0);
    let after = count_statistics(&subjects);
    assert_eq!((after.total_subjects, after.total_units, after.total_topics), (1, 1, 2));
    subjects.remove(0);
    let none = update_tracker_statistics(tracker(), &subjects, 8);
    assert_eq!((none.total_subjects, none.total_units, none.total_topics), (0, 0, 0));
}
