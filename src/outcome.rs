//! The outcomes of the concurrent campus scrapes of one semester.
use vstd::prelude::*;

use crate::campus::{Campus, Semester};
use crate::row::{class_views, Class, ClassView};

verus! {

/// The campuses whose scrape succeeded, with their classes, in order.
pub open spec fn successes<E>(data: Seq<(Campus, Result<Vec<Class>, E>)>) -> Seq<(Campus, Seq<ClassView>)>
    decreases data.len(),
{
    if data.len() == 0 {
        Seq::empty()
    } else {
        let rest = successes(data.drop_first());
        match data[0].1 {
            Ok(cs) => seq![(data[0].0, class_views(cs@))] + rest,
            Err(_) => rest,
        }
    }
}

pub open spec fn campus_class_views(v: Seq<(Campus, Vec<Class>)>) -> Seq<(Campus, Seq<ClassView>)> {
    v.map_values(|p: (Campus, Vec<Class>)| (p.0, class_views(p.1@)))
}

/// Keeps the campuses whose scrape succeeded, with their classes, and drops
/// those whose scrape failed; the order is kept.
pub fn filter_out_errors<E>(semester: &Semester, data: Vec<(Campus, Result<Vec<Class>, E>)>) -> (r: Vec<(Campus, Vec<Class>)>)
    ensures
        campus_class_views(r@) == successes(data@),
{
    let ghost given = data@;
    let mut data = data;
    let mut r: Vec<(Campus, Vec<Class>)> = Vec::new();
    assert(campus_class_views(r@) =~= Seq::<(Campus, Seq<ClassView>)>::empty());
    assert(campus_class_views(r@) + successes(data@) =~= successes(given));
    while data.len() > 0
        invariant
            campus_class_views(r@) + successes(data@) == successes(given),
        decreases data@.len(),
    {
        let ghost rest = data@.drop_first();
        let (campus, outcome) = data.remove(0);
        assert(data@ =~= rest);
        match outcome {
            Ok(classes) => {
                let ghost before = r@;
                let ghost cv = class_views(classes@);
                r.push((campus, classes));
                assert(campus_class_views(r@) =~= campus_class_views(before).push((campus, cv)));
                assert(campus_class_views(r@) + successes(data@) =~= campus_class_views(before) + (
                seq![(campus, cv)] + successes(data@)));
            },
            Err(_) => {},
        }
    }
    assert(campus_class_views(r@) =~= successes(given));
    r
}

/// One failed campus scrape leaves the others' results in place: with every
/// scrape but the one at `j` successful, the result holds all the others, in
/// order.
pub proof fn one_failure_keeps_the_others<E>(data: Seq<(Campus, Result<Vec<Class>, E>)>, j: int)
    requires
        0 <= j < data.len(),
        data[j].1 is Err,
        forall|k: int| 0 <= k < data.len() && k != j ==> (#[trigger] data[k]).1 is Ok,
    ensures
        successes(data).len() == data.len() - 1,
        forall|k: int| 0 <= k < j ==> #[trigger] successes(data)[k] == (data[k].0, class_views(data[k].1->Ok_0@)),
        forall|k: int| j < k < data.len() ==> #[trigger] successes(data)[k - 1] == (data[k].0, class_views(data[k].1->Ok_0@)),
    decreases data.len(),
{
    let rest = data.drop_first();
    if j == 0 {
        all_successes(rest);
        assert forall|k: int| 0 < k < data.len() implies #[trigger] successes(data)[k - 1] == (data[k].0, class_views(data[k].1->Ok_0@)) by {
            assert(rest[k - 1] == data[k]);
        }
    } else {
        assert forall|k: int| 0 <= k < rest.len() && k != j - 1 implies (#[trigger] rest[k]).1 is Ok by {
            assert(rest[k] == data[k + 1]);
        }
        one_failure_keeps_the_others(rest, j - 1);
        assert forall|k: int| 0 <= k < j implies #[trigger] successes(data)[k] == (data[k].0, class_views(data[k].1->Ok_0@)) by {
            if k > 0 {
                assert(rest[k - 1] == data[k]);
            }
        }
        assert forall|k: int| j < k < data.len() implies #[trigger] successes(data)[k - 1] == (data[k].0, class_views(data[k].1->Ok_0@)) by {
            assert(rest[k - 1] == data[k]);
        }
    }
}

/// Where every scrape succeeded, every campus is kept, in order.
pub proof fn all_successes<E>(data: Seq<(Campus, Result<Vec<Class>, E>)>)
    requires
        forall|k: int| 0 <= k < data.len() ==> (#[trigger] data[k]).1 is Ok,
    ensures
        successes(data).len() == data.len(),
        forall|k: int| 0 <= k < data.len() ==> #[trigger] successes(data)[k] == (data[k].0, class_views(data[k].1->Ok_0@)),
    decreases data.len(),
{
    if data.len() > 0 {
        let rest = data.drop_first();
        assert forall|k: int| 0 <= k < rest.len() implies (#[trigger] rest[k]).1 is Ok by {
            assert(rest[k] == data[k + 1]);
        }
        all_successes(rest);
        assert forall|k: int| 0 <= k < data.len() implies #[trigger] successes(data)[k] == (data[k].0, class_views(data[k].1->Ok_0@)) by {
            if k > 0 {
                assert(rest[k - 1] == data[k]);
            }
        }
    }
}

} // verus!
