use ufsc_schedule::campus::{form_data, Campus, Semester};

#[test]
fn campus_numbers_are_the_wire_codes() {
    let all = Campus::all();
    let numbers: Vec<u32> = all.iter().map(|c| c.number()).collect();
    assert_eq!(numbers, vec![1, 2, 3, 4, 5]);
    let codes: Vec<String> = all.iter().map(|c| c.code()).collect();
    assert_eq!(codes, vec!["FLO", "JOI", "CBS", "ARA", "BLN"]);
}

#[test]
fn form_carries_semester_campus_and_page() {
    let f = form_data(&Semester::new("20242".to_string()), &Campus::CBS, 12);
    let pairs: Vec<(&str, &str)> = f.iter().map(|(k, v)| (*k, v.as_str())).collect();
    assert_eq!(
        pairs,
        vec![
            ("formBusca", "formBusca"),
            ("javax.faces.ViewState", "j_id1"),
            ("formBusca:selectSemestre", "20242"),
            ("formBusca:selectCampus", "3"),
            ("formBusca:dataScroller1", "12"),
        ]
    );
}
