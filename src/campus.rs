//! Campuses and semesters, and the form that selects them on the site.
use vstd::prelude::*;

use crate::text::{chars_of, decimal_chars, decimal_text, string_from};

verus! {

/// A campus of the university. Each has the number that the site's form uses
/// for it: that number is part of the protocol and must not change.
#[derive(Clone, Copy, Debug, PartialEq, Eq, Structural, Hash)]
pub enum Campus {
    FLO,
    JOI,
    CBS,
    ARA,
    BLN,
}

/// The form number of each campus.
pub open spec fn campus_number(c: Campus) -> nat {
    match c {
        Campus::FLO => 1,
        Campus::JOI => 2,
        Campus::CBS => 3,
        Campus::ARA => 4,
        Campus::BLN => 5,
    }
}

/// The three-letter code of each campus.
pub open spec fn campus_code(c: Campus) -> Seq<char> {
    match c {
        Campus::FLO => seq!['F', 'L', 'O'],
        Campus::JOI => seq!['J', 'O', 'I'],
        Campus::CBS => seq!['C', 'B', 'S'],
        Campus::ARA => seq!['A', 'R', 'A'],
        Campus::BLN => seq!['B', 'L', 'N'],
    }
}

/// Every campus, in form-number order.
pub open spec fn all_campi() -> Seq<Campus> {
    seq![Campus::FLO, Campus::JOI, Campus::CBS, Campus::ARA, Campus::BLN]
}

impl Campus {
    /// The number that the site's form uses for this campus.
    pub fn number(&self) -> (r: u32)
        ensures
            r == campus_number(*self),
    {
        match self {
            Campus::FLO => 1,
            Campus::JOI => 2,
            Campus::CBS => 3,
            Campus::ARA => 4,
            Campus::BLN => 5,
        }
    }

    /// The three-letter code of this campus.
    pub fn code(&self) -> (r: String)
        ensures
            r@ == campus_code(*self),
    {
        let v = match self {
            Campus::FLO => vec!['F', 'L', 'O'],
            Campus::JOI => vec!['J', 'O', 'I'],
            Campus::CBS => vec!['C', 'B', 'S'],
            Campus::ARA => vec!['A', 'R', 'A'],
            Campus::BLN => vec!['B', 'L', 'N'],
        };
        assert(v@ =~= campus_code(*self));
        string_from(&v)
    }

    /// Every campus, in form-number order.
    pub fn all() -> (r: Vec<Campus>)
        ensures
            r@ == all_campi(),
    {
        let r = vec![Campus::FLO, Campus::JOI, Campus::CBS, Campus::ARA, Campus::BLN];
        assert(r@ =~= all_campi());
        r
    }
}

/// A semester, as the site names it. Its value and order are the site's.
#[derive(Clone, Debug, PartialEq, Eq, PartialOrd, Ord, Hash)]
pub struct Semester(String);

impl View for Semester {
    type V = Seq<char>;

    closed spec fn view(&self) -> Seq<char> {
        self.0@
    }
}

impl Semester {
    pub fn new(value: String) -> (r: Semester)
        ensures
            r@ == value@,
    {
        Semester(value)
    }

    pub fn as_str(&self) -> (r: &str)
        ensures
            r@ == self@,
    {
        self.0.as_str()
    }
}

/// Names of the fields of the site's search form.
pub const FORM_FIELD: &'static str = "formBusca";
pub const VIEW_STATE_FIELD: &'static str = "javax.faces.ViewState";
pub const SEMESTER_FIELD: &'static str = "formBusca:selectSemestre";
pub const CAMPUS_FIELD: &'static str = "formBusca:selectCampus";
pub const PAGE_FIELD: &'static str = "formBusca:dataScroller1";

/// The form's identity token and its static view-state token.
pub open spec fn form_token() -> Seq<char> {
    seq!['f', 'o', 'r', 'm', 'B', 'u', 's', 'c', 'a']
}

pub open spec fn view_state_token() -> Seq<char> {
    seq!['j', '_', 'i', 'd', '1']
}

/// The search form for one page of one semester on one campus, as pairs of
/// field name and value.
pub fn form_data(semester: &Semester, campus: &Campus, page_index: usize) -> (r: Vec<(&'static str, String)>)
    ensures
        r@.len() == 5,
        r@[0].0 == FORM_FIELD && r@[0].1@ == form_token(),
        r@[1].0 == VIEW_STATE_FIELD && r@[1].1@ == view_state_token(),
        r@[2].0 == SEMESTER_FIELD && r@[2].1@ == semester@,
        r@[3].0 == CAMPUS_FIELD && r@[3].1@ == decimal_text(campus_number(*campus)),
        r@[4].0 == PAGE_FIELD && r@[4].1@ == decimal_text(page_index as nat),
{
    let token = vec!['f', 'o', 'r', 'm', 'B', 'u', 's', 'c', 'a'];
    assert(token@ =~= form_token());
    let view_state = vec!['j', '_', 'i', 'd', '1'];
    assert(view_state@ =~= view_state_token());
    let semester_value = string_from(&chars_of(semester.as_str()));
    let campus_value = string_from(&decimal_chars(campus.number() as u64));
    let page_value = string_from(&decimal_chars(page_index as u64));
    let mut r: Vec<(&'static str, String)> = Vec::new();
    r.push((FORM_FIELD, string_from(&token)));
    r.push((VIEW_STATE_FIELD, string_from(&view_state)));
    r.push((SEMESTER_FIELD, semester_value));
    r.push((CAMPUS_FIELD, campus_value));
    r.push((PAGE_FIELD, page_value));
    r
}

} // verus!
