use ufsc_schedule::campus::{Campus, Semester};
use ufsc_schedule::outcome::filter_out_errors;
use ufsc_schedule::row::{Class, Course};

fn class(id: &str) -> Class {
    Class {
        id: id.to_string(),
        course: Course { id: "EEL7000".to_string(), title: "Circuitos".to_string(), hours: 4 },
        labels: vec![],
        total_slots: 1,
        filled_slots: 0,
        special_students: 0,
        open_slots: 1,
        waiting_for_slot: 0,
        times: vec![],
        teachers: vec![],
    }
}

#[test]
fn one_failed_campus_leaves_the_other_four() {
    let data: Vec<(Campus, Result<Vec<Class>, String>)> = vec![
        (Campus::FLO, Ok(vec![class("A")])),
        (Campus::JOI, Ok(vec![class("B")])),
        (Campus::CBS, Err("connection reset".to_string())),
        (Campus::ARA, Ok(vec![])),
        (Campus::BLN, Ok(vec![class("C"), class("D")])),
    ];
    let kept = filter_out_errors(&Semester::new("20251".to_string()), data);
    let campi: Vec<Campus> = kept.iter().map(|(c, _)| *c).collect();
    assert_eq!(campi, vec![Campus::FLO, Campus::JOI, Campus::ARA, Campus::BLN]);
    assert_eq!(kept[3].1.len(), 2);
    assert_eq!(kept[0].1[0].id, "A");
}

#[test]
fn all_failed_gives_nothing() {
    let data: Vec<(Campus, Result<Vec<Class>, String>)> =
        vec![(Campus::FLO, Err("timeout".to_string()))];
    assert!(filter_out_errors(&Semester::new("20251".to_string()), data).is_empty());
}
