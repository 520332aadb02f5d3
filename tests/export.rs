use ufsc_schedule::export::{format_class_times, format_timestamp, group_classes_for_matrufsc, CourseEntry};
use ufsc_schedule::row::{Class, Course};
use ufsc_schedule::time_slot::{Time, TimeOfDay, Weekday};

fn class(course: &str, title: &str, id: &str) -> Class {
    Class {
        id: id.to_string(),
        course: Course { id: course.to_string(), title: title.to_string(), hours: 4 },
        labels: vec!["EAD".to_string()],
        total_slots: 30,
        filled_slots: 10,
        special_students: 1,
        open_slots: 20,
        waiting_for_slot: 0,
        times: vec![Time {
            weekday: Weekday::Wed,
            time: TimeOfDay { hour: 13, minute: 30 },
            credits: 2,
            place: "CFH-201".to_string(),
        }],
        teachers: vec!["Eva".to_string()],
    }
}

fn summary(groups: &[CourseEntry]) -> Vec<(String, Vec<String>)> {
    groups
        .iter()
        .map(|g| {
            let mut ids: Vec<String> = g.classes.iter().map(|c| c.id.clone()).collect();
            ids.sort();
            (g.id.clone(), ids)
        })
        .collect()
}

#[test]
fn groups_by_course_in_id_order() {
    let groups = group_classes_for_matrufsc(vec![
        class("MTM2", "álgebra", "02"),
        class("INE1", "Programação", "01"),
        class("MTM2", "álgebra", "01"),
    ]);
    assert_eq!(groups.len(), 2);
    assert_eq!(groups[0].id, "INE1");
    assert_eq!(groups[0].title, "Programação");
    assert_eq!(groups[0].title_upper, "PROGRAMAÇÃO");
    assert_eq!(groups[1].id, "MTM2");
    assert_eq!(groups[1].title_upper, "ÁLGEBRA");
    let ids: Vec<&str> = groups[1].classes.iter().map(|c| c.id.as_str()).collect();
    assert_eq!(ids, vec!["02", "01"]);
    assert_eq!(groups[1].classes[0].hours, 4);
    assert_eq!(groups[1].classes[0].times, vec!["4.1330-2 / CFH-201".to_string()]);
}

#[test]
fn grouping_ignores_input_order() {
    let a = group_classes_for_matrufsc(vec![
        class("B", "b", "1"),
        class("A", "a", "1"),
        class("B", "b", "2"),
        class("C", "c", "9"),
    ]);
    let b = group_classes_for_matrufsc(vec![
        class("C", "c", "9"),
        class("B", "b", "2"),
        class("A", "a", "1"),
        class("B", "b", "1"),
    ]);
    assert_eq!(summary(&a), summary(&b));
    assert_eq!(summary(&a).len(), 3);
}

#[test]
fn no_classes_no_courses() {
    assert!(group_classes_for_matrufsc(vec![]).is_empty());
}

#[test]
fn times_are_written_back() {
    let times = vec![
        Time { weekday: Weekday::Sun, time: TimeOfDay { hour: 7, minute: 5 }, credits: 1, place: "X".to_string() },
        Time { weekday: Weekday::Sat, time: TimeOfDay { hour: 21, minute: 50 }, credits: 10, place: "Y Z".to_string() },
    ];
    assert_eq!(format_class_times(&times), vec!["1.0705-1 / X".to_string(), "7.2150-10 / Y Z".to_string()]);
}

#[test]
fn timestamp_is_day_month_short_year() {
    assert_eq!(format_timestamp(5, 3, 2025, 9, 7), "05/03/25 - 09:07");
    assert_eq!(format_timestamp(31, 12, 2009, 23, 59), "31/12/09 - 23:59");
}
