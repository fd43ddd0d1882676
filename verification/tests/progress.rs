use study_tracker::models::{Subject, SubjectData, Topic, Unit, UnitData};
use study_tracker::progress::{
    calculate_tracker_progress, fits_counters, subject_progress, unit_progress, Percentage,
};

fn topic(id: &str, unit_id: &str, completed: bool, order: i32) -> Topic {
    Topic {
        id: id.to_string(),
        unit_id: unit_id.to_string(),
        name: format!("topic {}", id),
        completed,
        order,
        created_at: 1,
        updated_at: 2,
    }
}

fn unit(id: &str, subject_id: &str, order: i32, done: &[bool]) -> UnitData {
    UnitData {
        unit: Unit {
            id: id.to_string(),
            subject_id: subject_id.to_string(),
            name: format!("unit {}", id),
            order,
            created_at: 1,
            updated_at: 2,
        },
        topics: done
            .iter()
            .enumerate()
            .map(|(k, d)| topic(&format!("{}-{}", id, k), id, *d, k as i32))
            .collect(),
    }
}

fn subject(id: &str, units: Vec<UnitData>) -> SubjectData {
    SubjectData {
        subject: Subject {
            id: id.to_string(),
            tracker_id: "tracker".to_string(),
            name: format!("subject {}", id),
            created_at: 1,
            updated_at: 2,
        },
        units,
    }
}

fn value(p: Percentage) -> f64 {
    p.part as f64 / p.whole as f64 * 100.0
}

#[test]
fn percentage_is_zero_of_nothing() {
    assert_eq!(Percentage::of(0, 0), Percentage { part: 0, whole: 1 });
    assert_eq!(value(Percentage::of(0, 0)), 0.0);
}

#[test]
fn percentage_is_hundred_times_the_share() {
    assert_eq!(Percentage::of(1, 4), Percentage { part: 1, whole: 4 });
    assert_eq!(value(Percentage::of(1, 4)), 25.0);
    assert_eq!(value(Percentage::of(0, 3)), 0.0);
    assert_eq!(value(Percentage::of(3, 3)), 100.0);
    assert_eq!(Percentage::of(1, 3), Percentage { part: 1, whole: 3 });
    assert_eq!(
        Percentage::of(i32::MAX, i32::MAX),
        Percentage { part: i32::MAX, whole: i32::MAX }
    );
}

#[test]
fn unit_progress_counts_completed_topics() {
    let data = unit("u1", "s1", 0, &[true, false, true, true]);
    let p = unit_progress(&data);
    assert_eq!(p.unit_id, "u1");
    assert_eq!(p.unit_name, "unit u1");
    assert_eq!(p.total_topics, 4);
    assert_eq!(p.completed_topics, 3);
    assert_eq!(value(p.percentage), 75.0);
}

#[test]
fn unit_without_topics_has_zero_percent() {
    let p = unit_progress(&unit("u1", "s1", 0, &[]));
    assert_eq!(p.total_topics, 0);
    assert_eq!(p.completed_topics, 0);
    assert_eq!(p.percentage, Percentage { part: 0, whole: 1 });
}

#[test]
fn subject_progress_sums_its_units() {
    let data = subject(
        "s1",
        vec![unit("u1", "s1", 0, &[true, false]), unit("u2", "s1", 1, &[]), unit("u3", "s1", 2, &[true, true, false])],
    );
    let p = subject_progress(&data);
    assert_eq!(p.subject_id, "s1");
    assert_eq!(p.subject_name, "subject s1");
    assert_eq!(p.total_topics, 5);
    assert_eq!(p.completed_topics, 3);
    assert_eq!(value(p.percentage), 60.0);
    assert_eq!(p.units.len(), 3);
    assert_eq!(p.units[0].unit_id, "u1");
    assert_eq!(value(p.units[0].percentage), 50.0);
    assert_eq!(p.units[1].unit_id, "u2");
    assert_eq!(value(p.units[1].percentage), 0.0);
    assert_eq!(p.units[2].unit_id, "u3");
    assert_eq!(p.units[2].completed_topics, 2);
    assert_eq!(p.units[2].total_topics, 3);
}

#[test]
fn tracker_progress_rolls_up_every_level() {
    let subjects = vec![
        subject("s1", vec![unit("u1", "s1", 0, &[true, true, false, false]), unit("u2", "s1", 1, &[true])]),
        subject("s2", vec![]),
        subject("s3", vec![unit("u3", "s3", 0, &[false, false, false])]),
    ];
    let p = calculate_tracker_progress("tracker", &subjects);
    assert_eq!(p.tracker_id, "tracker");
    assert_eq!(p.total_topics, 8);
    assert_eq!(p.completed_topics, 3);
    assert_eq!(p.percentage, Percentage { part: 3, whole: 8 });
    assert_eq!(value(p.percentage), 37.5);
    assert_eq!(p.subjects.len(), 3);
    assert_eq!(p.subjects[0].subject_id, "s1");
    assert_eq!(p.subjects[0].total_topics, 5);
    assert_eq!(p.subjects[0].completed_topics, 3);
    assert_eq!(value(p.subjects[0].percentage), 60.0);
    assert_eq!(p.subjects[0].units.len(), 2);
    assert_eq!(value(p.subjects[0].units[0].percentage), 50.0);
    assert_eq!(value(p.subjects[0].units[1].percentage), 100.0);
    assert_eq!(p.subjects[1].subject_id, "s2");
    assert_eq!(p.subjects[1].total_topics, 0);
    assert_eq!(p.subjects[1].percentage, Percentage { part: 0, whole: 1 });
    assert!(p.subjects[1].units.is_empty());
    assert_eq!(p.subjects[2].total_topics, 3);
    assert_eq!(p.subjects[2].completed_topics, 0);
    assert_eq!(value(p.subjects[2].percentage), 0.0);
}

#[test]
fn tracker_without_subjects_has_zero_percent() {
    let p = calculate_tracker_progress("empty", &Vec::new());
    assert_eq!(p.tracker_id, "empty");
    assert_eq!(p.total_topics, 0);
    assert_eq!(p.completed_topics, 0);
    assert_eq!(p.percentage, Percentage { part: 0, whole: 1 });
    assert!(p.subjects.is_empty());
}

#[test]
fn percentages_are_defined_at_every_level() {
    let subjects = vec![
        subject("s1", vec![unit("u1", "s1", 0, &[]), unit("u2", "s1", 1, &[true, false, true])]),
        subject("s2", vec![unit("u3", "s2", 0, &[])]),
    ];
    let p = calculate_tracker_progress("t", &subjects);
    let check = |percentage: Percentage, completed: i32, total: i32| {
        assert!(percentage.whole > 0);
        if total > 0 {
            assert_eq!((percentage.part, percentage.whole), (completed, total));
            assert_eq!(value(percentage), completed as f64 / total as f64 * 100.0);
        } else {
            assert_eq!(percentage.part, 0);
            assert_eq!(value(percentage), 0.0);
        }
        assert!(!value(percentage).is_nan());
    };
    check(p.percentage, p.completed_topics, p.total_topics);
    for s in &p.subjects {
        check(s.percentage, s.completed_topics, s.total_topics);
        for u in &s.units {
            check(u.percentage, u.completed_topics, u.total_topics);
        }
    }
}

#[test]
fn small_hierarchies_fit_the_counters() {
    assert!(fits_counters(&Vec::new()));
    assert!(fits_counters(&vec![subject("s1", vec![unit("u1", "s1", 0, &[true; 100])])]));
}
