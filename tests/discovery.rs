use ufsc_schedule::campus::Semester;
use ufsc_schedule::discovery::{latest_semesters, semesters_from_html, DiscoveryError};

fn landing(options: &str) -> String {
    format!(
        "<html><body><form><select id=\"formBusca:selectSemestre\">{}</select></form></body></html>",
        options
    )
}

fn values(v: &[Semester]) -> Vec<&str> {
    v.iter().map(|s| s.as_str()).collect()
}

#[test]
fn reads_semesters_in_page_order() {
    let html = landing("<option value=\"20251\">2025/1</option><option>sem valor</option><option value=\"20242\">2024/2</option><option value=\"20241\">2024/1</option>");
    let s = semesters_from_html(&html).expect("dropdown present");
    assert_eq!(values(&s), vec!["20251", "20242", "20241"]);
}

#[test]
fn dropdown_without_options_gives_none() {
    let s = semesters_from_html(&landing("")).expect("dropdown present");
    assert!(s.is_empty());
}

#[test]
fn missing_dropdown_is_an_error() {
    let r = semesters_from_html("<html><body></body></html>");
    assert_eq!(r, Err(DiscoveryError::DropdownNotFound));
}

#[test]
fn only_the_latest_are_chosen() {
    let all: Vec<Semester> =
        ["20251", "20242", "20241"].iter().map(|s| Semester::new(s.to_string())).collect();
    let chosen = latest_semesters(all, 2);
    assert_eq!(values(&chosen), vec!["20251", "20242"]);
}

#[test]
fn asking_for_more_than_offered_gives_all() {
    let all: Vec<Semester> = ["20251"].iter().map(|s| Semester::new(s.to_string())).collect();
    assert_eq!(values(&latest_semesters(all, 3)), vec!["20251"]);
}
