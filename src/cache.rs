//! The freshness gate: whether output produced earlier for a semester is
//! recent enough to skip scraping it again.
use vstd::prelude::*;

use crate::campus::{campus_code, Campus, Semester};
use crate::text::{chars_of, push_all, string_from};

verus! {

/// The age, in seconds, below which earlier output counts as fresh: three days.
pub const FRESHNESS_SECS: u64 = 259200;

/// The campus whose output stands for the whole semester's.
pub const REFERENCE_CAMPUS: Campus = Campus::FLO;

/// Whether earlier output is fresh. `force` asks for a new scrape whatever
/// the output's age; `artifact_age_secs` is the age of the reference output,
/// none where it is missing or its age could not be read.
pub fn cache_is_fresh(force: bool, artifact_age_secs: Option<u64>) -> (r: bool)
    ensures
        r == (!force && artifact_age_secs is Some && artifact_age_secs->0 < FRESHNESS_SECS),
{
    if force {
        return false;
    }
    match artifact_age_secs {
        Some(age) => age < FRESHNESS_SECS,
        None => false,
    }
}

/// The directory of the earlier output.
pub open spec fn artifact_dir() -> Seq<char> {
    seq!['.', '.', '/', '.', '.', '/', 'd', 'a', 't', 'a', '/', 's', 'c', 'h', 'e', 'd', 'u', 'l', 'e', '/']
}

/// The path of the reference output of a semester:
/// `<dir><semester>-<reference campus code>.json`.
pub open spec fn artifact_path(semester: Seq<char>) -> Seq<char> {
    artifact_dir() + semester + seq!['-'] + campus_code(Campus::FLO) + seq!['.', 'j', 's', 'o', 'n']
}

/// The path of the output whose age decides a semester's freshness.
pub fn reference_artifact_path(semester: &Semester) -> (r: String)
    ensures
        r@ == artifact_path(semester@),
{
    let mut v = vec![
        '.', '.', '/', '.', '.', '/', 'd', 'a', 't', 'a', '/', 's', 'c', 'h', 'e', 'd', 'u', 'l', 'e', '/',
    ];
    assert(v@ =~= artifact_dir());
    push_all(&mut v, &chars_of(semester.as_str()));
    v.push('-');
    push_all(&mut v, &chars_of(REFERENCE_CAMPUS.code().as_str()));
    let suffix = vec!['.', 'j', 's', 'o', 'n'];
    push_all(&mut v, &suffix);
    assert(v@ =~= artifact_path(semester@));
    string_from(&v)
}

} // verus!
