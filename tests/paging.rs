use ufsc_schedule::paging::{page_count_from_html, Pagination, PROBE_PAGE};
use ufsc_schedule::row::ParseError;

fn probe(count: &str) -> String {
    format!(
        "<html><body><span id=\"formBusca:dataTableGroup\"><span>{}</span></span></body></html>",
        count
    )
}

fn results(course: &str) -> String {
    format!(
        "<html><body><table><tbody id=\"formBusca:dataTable:tb\"><tr><td></td><td></td><td></td><td>{}</td><td>01</td><td>Física</td><td>4</td><td>10</td><td>5</td><td>0</td><td>5</td><td></td><td></td><td>Dora</td></tr></tbody></table></body></html>",
        course
    )
}

#[test]
fn page_count_rounds_up() {
    assert_eq!(page_count_from_html(&probe("120")), 3);
    assert_eq!(page_count_from_html(&probe("100")), 2);
    assert_eq!(page_count_from_html(&probe("1")), 1);
    assert_eq!(page_count_from_html(&probe("0")), 0);
}

#[test]
fn missing_count_means_no_pages() {
    assert_eq!(page_count_from_html("<html><body></body></html>"), 0);
    assert_eq!(page_count_from_html(&probe("muitos")), 0);
}

#[test]
fn count_probe_uses_page_two() {
    assert_eq!(PROBE_PAGE, 2);
}

#[test]
fn pages_are_requested_in_order() {
    let mut p = Pagination::new(2);
    assert_eq!(p.next_request(), Some(1));
    p.receive(results("FSC1")).expect("valid page");
    assert_eq!(p.next_request(), Some(2));
    p.receive(results("FSC2")).expect("valid page");
    assert_eq!(p.next_request(), None);
    let classes = p.into_classes();
    assert_eq!(classes.len(), 2);
    assert_eq!(classes[1].course.id, "FSC2");
}

#[test]
fn repeated_page_stops_the_scrape() {
    let mut p = Pagination::new(5);
    assert_eq!(p.next_request(), Some(1));
    p.receive(results("FSC1")).expect("valid page");
    assert_eq!(p.next_request(), Some(2));
    p.receive(results("FSC1")).expect("a repeat is no error");
    assert_eq!(p.next_request(), None);
    let classes = p.into_classes();
    assert_eq!(classes.len(), 1);
}

#[test]
fn broken_page_ends_the_scrape_with_its_error() {
    let mut p = Pagination::new(3);
    p.receive(results("FSC1")).expect("valid page");
    let r = p.receive("<html></html>".to_string());
    assert!(matches!(r, Err(ParseError::TableNotFound)));
    assert_eq!(p.next_request(), None);
}

#[test]
fn no_pages_means_no_requests() {
    let p = Pagination::new(0);
    assert_eq!(p.next_request(), None);
}
