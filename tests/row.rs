use ufsc_schedule::row::{classes_from_html, Class, NumericField, ParseError};
use ufsc_schedule::time_slot::{TimeOfDay, Weekday};

fn cells(overrides: &[(usize, &str)]) -> Vec<String> {
    let mut c: Vec<String> = vec![
        "", "", "", "INE5401", "01208A", "Introdução à Computação\n[EAD]\n[[Extra]]", "72", "40", "35",
        "-1", "5", "", "2.0820-2 / CTC-CTC105\n\n4.1010-2 / CTC-CTC105", "Ana Souza\n  \nBruno Lima",
    ]
    .into_iter()
    .map(String::from)
    .collect();
    for (i, v) in overrides {
        c[*i] = v.to_string();
    }
    c
}

#[test]
fn decodes_a_full_row() {
    let class = Class::from_cells(&cells(&[])).expect("valid row");
    assert_eq!(class.id, "01208A");
    assert_eq!(class.course.id, "INE5401");
    assert_eq!(class.course.title, "Introdução à Computação");
    assert_eq!(class.course.hours, 72);
    assert_eq!(class.labels, vec!["EAD".to_string(), "[Extra]".to_string()]);
    assert_eq!(class.total_slots, 40);
    assert_eq!(class.filled_slots, 35);
    assert_eq!(class.special_students, -1);
    assert_eq!(class.open_slots, 5);
    assert_eq!(class.waiting_for_slot, 0);
    assert_eq!(class.times.len(), 2);
    assert_eq!(class.times[0].weekday, Weekday::Mon);
    assert_eq!(class.times[1].time, TimeOfDay { hour: 10, minute: 10 });
    assert_eq!(class.teachers, vec!["Ana Souza".to_string(), "Bruno Lima".to_string()]);
}

#[test]
fn full_class_has_zero_open_slots() {
    let class = Class::from_cells(&cells(&[(10, "LOTADA"), (11, "7")])).expect("valid row");
    assert_eq!(class.open_slots, 0);
    assert_eq!(class.waiting_for_slot, 7);
}

#[test]
fn empty_waiting_list_is_zero() {
    let class = Class::from_cells(&cells(&[(11, "")])).expect("valid row");
    assert_eq!(class.waiting_for_slot, 0);
}

#[test]
fn numeric_errors_name_the_field() {
    let cases = [
        (6, NumericField::Hours),
        (7, NumericField::TotalSlots),
        (8, NumericField::FilledSlots),
        (9, NumericField::SpecialStudents),
        (10, NumericField::OpenSlots),
        (11, NumericField::WaitingForSlot),
    ];
    for (i, field) in cases {
        match Class::from_cells(&cells(&[(i, "abc")])) {
            Err(ParseError::NumericFieldParse { field: f, course_id }) => {
                assert_eq!(f, field);
                assert_eq!(course_id, "INE5401");
            }
            _ => panic!("expected a numeric error"),
        }
    }
}

#[test]
fn empty_title_fails() {
    assert!(matches!(Class::from_cells(&cells(&[(5, "  ")])), Err(ParseError::NoCourseTitle)));
}

#[test]
fn bad_time_slot_fails() {
    assert!(matches!(
        Class::from_cells(&cells(&[(12, "9.0820-2 / CTC")])),
        Err(ParseError::InvalidTimeFormat)
    ));
}

#[test]
fn short_row_fails() {
    let short: Vec<String> = vec!["a".to_string(); 13];
    assert!(matches!(Class::from_cells(&short), Err(ParseError::MissingCells)));
}

fn page(rows: &str) -> String {
    format!(
        "<html><body><form><table><tbody id=\"formBusca:dataTable:tb\">{}</tbody></table></form></body></html>",
        rows
    )
}

fn row_html(course: &str, class: &str, open: &str) -> String {
    format!(
        "<tr><td>1</td><td>2</td><td>3</td><td>{}</td><td>{}</td><td>Cálculo I</td><td>72</td><td>40</td><td>40</td><td>0</td><td>{}</td><td>3</td><td>3.1430-4 / CTC-AUD</td><td>Carla</td></tr>",
        course, class, open
    )
}

#[test]
fn decodes_a_results_page() {
    let html = page(&(row_html("MTM3101", "01A", "LOTADA") + &row_html("MTM3102", "02B", "4")));
    let classes = classes_from_html(&html).expect("valid page");
    assert_eq!(classes.len(), 2);
    assert_eq!(classes[0].course.id, "MTM3101");
    assert_eq!(classes[0].open_slots, 0);
    assert_eq!(classes[0].waiting_for_slot, 3);
    assert_eq!(classes[0].times[0].place, "CTC-AUD");
    assert_eq!(classes[1].id, "02B");
    assert_eq!(classes[1].open_slots, 4);
}

#[test]
fn page_without_table_fails() {
    let html = "<html><body><p>Sessão expirada</p></body></html>";
    assert!(matches!(classes_from_html(html), Err(ParseError::TableNotFound)));
}

#[test]
fn first_bad_row_fails_the_page() {
    let html = page(&(row_html("MTM3101", "01A", "2") + &row_html("MTM3102", "02B", "x")));
    match classes_from_html(&html) {
        Err(ParseError::NumericFieldParse { field, course_id }) => {
            assert_eq!(field, NumericField::OpenSlots);
            assert_eq!(course_id, "MTM3102");
        }
        _ => panic!("expected the second row's error"),
    }
}

#[test]
fn empty_table_gives_no_classes() {
    let classes = classes_from_html(&page("")).expect("valid page");
    assert!(classes.is_empty());
}
