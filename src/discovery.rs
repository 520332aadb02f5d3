//! Discovery of the semesters that the site offers, and the choice of those
//! to scrape.
use select::document::Document;
use select::predicate::{Attr, Name, Predicate};
use vstd::prelude::*;

use crate::campus::Semester;

verus! {

/// The element id of the semester dropdown on the landing page.
pub const SEMESTER_DROPDOWN_ID: &'static str = "formBusca:selectSemestre";

/// What select's `Document::from(source)` finds for `select` elements with id
/// `id`: none where there is no such element, else the `value` attribute of
/// each `option` child of any of them, in document order.
pub uninterp spec fn dropdown_values_of(source: Seq<char>, id: Seq<char>) -> Option<Seq<Option<Seq<char>>>>;

pub open spec fn option_views(v: Seq<Option<String>>) -> Seq<Option<Seq<char>>> {
    v.map_values(|o: Option<String>| match o {
        Some(s) => Some(s@),
        None => None,
    })
}

/// Relies on select's `Document::from`, `find`, `Predicate::child` and
/// `Node::attr`: whether a dropdown with the id exists, and the `value`
/// attribute of each `option` child of every dropdown with that id.
#[verifier::external_body]
fn dropdown_values(source: &str, id: &str) -> (r: Option<Vec<Option<String>>>)
    ensures
        match r {
            Some(v) => dropdown_values_of(source@, id@) == Some(option_views(v@)),
            None => dropdown_values_of(source@, id@) is None,
        },
{
    let document = Document::from(source);
    let dropdown = Name("select").and(Attr("id", id));
    document.find(dropdown).next().map(|_| {
        document.find(dropdown.child(Name("option"))).map(|o| o.attr("value").map(str::to_owned)).collect()
    })
}

/// The values that are present, in order.
pub open spec fn present_values(v: Seq<Option<Seq<char>>>) -> Seq<Seq<char>>
    decreases v.len(),
{
    if v.len() == 0 {
        Seq::empty()
    } else {
        match v.last() {
            Some(s) => present_values(v.drop_last()).push(s),
            None => present_values(v.drop_last()),
        }
    }
}

/// Why no semesters could be read from the landing page.
#[derive(Debug, Clone, Copy, PartialEq, Eq, Structural)]
pub enum DiscoveryError {
    /// The page holds no semester dropdown.
    DropdownNotFound,
}

pub open spec fn semester_views(v: Seq<Semester>) -> Seq<Seq<char>> {
    v.map_values(|s: Semester| s@)
}

/// The semesters that the landing page offers, in the page's order.
pub open spec fn offered_semesters(source: Seq<char>) -> Option<Seq<Seq<char>>> {
    match dropdown_values_of(source, SEMESTER_DROPDOWN_ID@) {
        Some(v) => Some(present_values(v)),
        None => None,
    }
}

/// The semesters that the landing page offers, in the page's order; an error
/// where the page has no semester dropdown.
pub fn semesters_from_html(source: &str) -> (r: Result<Vec<Semester>, DiscoveryError>)
    ensures
        match r {
            Ok(v) => offered_semesters(source@) == Some(semester_views(v@)),
            Err(e) => offered_semesters(source@) is None && e == DiscoveryError::DropdownNotFound,
        },
{
    let values = match dropdown_values(source, SEMESTER_DROPDOWN_ID) {
        Some(v) => v,
        None => return Err(DiscoveryError::DropdownNotFound),
    };
    let ghost full = option_views(values@);
    let mut out: Vec<Semester> = Vec::new();
    let mut i: usize = 0;
    assert(full.take(0) =~= Seq::<Option<Seq<char>>>::empty());
    assert(semester_views(out@) =~= Seq::<Seq<char>>::empty());
    while i < values.len()
        invariant
            i <= values@.len(),
            full == option_views(values@),
            semester_views(out@) == present_values(full.take(i as int)),
        decreases values@.len() - i,
    {
        proof {
            assert(full.take(i + 1).drop_last() =~= full.take(i as int));
        }
        match &values[i] {
            Some(v) => {
                let ghost before = out@;
                let s = Semester::new(v.clone());
                out.push(s);
                assert(semester_views(out@) =~= semester_views(before).push(v@));
            },
            None => {},
        }
        i = i + 1;
    }
    assert(full.take(i as int) =~= full);
    Ok(out)
}

/// The first `n` semesters of those offered, which the site lists newest first.
pub fn latest_semesters(semesters: Vec<Semester>, n: usize) -> (r: Vec<Semester>)
    ensures
        r@ == semesters@.take(if n < semesters@.len() { n as int } else { semesters@.len() as int }),
{
    let mut r = semesters;
    let ghost all = r@;
    if n < r.len() {
        r.truncate(n);
    }
    assert(r@ =~= all.take(if n < all.len() { n as int } else { all.len() as int }));
    r
}

} // verus!
