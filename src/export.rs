//! The shape in which classes are published: grouped into courses, with
//! each time slot written back in its compact notation.
use vstd::prelude::*;

use crate::row::{class_views, string_views, time_views, Class, ClassView};
use crate::text::{chars_of, string_from};
use crate::time_slot::{push_two_digits, time_slot_text, two_digits, Time, TimeView};

verus! {

/// A class as published.
pub struct ClassEntry {
    pub id: String,
    pub hours: u32,
    pub labels: Vec<String>,
    pub total_slots: u32,
    pub filled_slots: u32,
    pub special_students: i32,
    pub open_slots: u32,
    pub waiting_for_slot: u32,
    pub times: Vec<String>,
    pub teachers: Vec<String>,
}

/// A course as published, with its classes.
pub struct CourseEntry {
    pub id: String,
    pub title_upper: String,
    pub title: String,
    pub classes: Vec<ClassEntry>,
}

pub struct ClassEntryView {
    pub id: Seq<char>,
    pub hours: u32,
    pub labels: Seq<Seq<char>>,
    pub total_slots: u32,
    pub filled_slots: u32,
    pub special_students: i32,
    pub open_slots: u32,
    pub waiting_for_slot: u32,
    pub times: Seq<Seq<char>>,
    pub teachers: Seq<Seq<char>>,
}

pub struct CourseEntryView {
    pub id: Seq<char>,
    pub title_upper: Seq<char>,
    pub title: Seq<char>,
    pub classes: Seq<ClassEntryView>,
}

pub open spec fn entry_views(v: Seq<ClassEntry>) -> Seq<ClassEntryView> {
    v.map_values(|e: ClassEntry| e@)
}

impl View for ClassEntry {
    type V = ClassEntryView;

    open spec fn view(&self) -> ClassEntryView {
        ClassEntryView {
            id: self.id@,
            hours: self.hours,
            labels: string_views(self.labels@),
            total_slots: self.total_slots,
            filled_slots: self.filled_slots,
            special_students: self.special_students,
            open_slots: self.open_slots,
            waiting_for_slot: self.waiting_for_slot,
            times: string_views(self.times@),
            teachers: string_views(self.teachers@),
        }
    }
}

impl View for CourseEntry {
    type V = CourseEntryView;

    open spec fn view(&self) -> CourseEntryView {
        CourseEntryView {
            id: self.id@,
            title_upper: self.title_upper@,
            title: self.title@,
            classes: entry_views(self.classes@),
        }
    }
}

/// The notation of each time slot, in order.
pub open spec fn times_text(ts: Seq<TimeView>) -> Seq<Seq<char>> {
    ts.map_values(|t: TimeView| time_slot_text(t))
}

/// Writes each time slot back in the notation that it was read from.
pub fn format_class_times(times: &Vec<Time>) -> (r: Vec<String>)
    ensures
        string_views(r@) == times_text(time_views(times@)),
{
    let mut r: Vec<String> = Vec::new();
    let mut i: usize = 0;
    while i < times.len()
        invariant
            i <= times@.len(),
            string_views(r@) == times_text(time_views(times@.take(i as int))),
        decreases times@.len() - i,
    {
        let t = times[i].to_text();
        let ghost before = r@;
        let ghost i0 = i;
        r.push(t);
        i = i + 1;
        proof {
            assert(times@.take(i as int) =~= times@.take(i0 as int).push(times@[i0 as int]));
            assert(string_views(r@) =~= string_views(before).push(t@));
            assert(times_text(time_views(times@.take(i as int))) =~= times_text(time_views(times@.take(i0 as int))).push(time_slot_text(times@[i0 as int]@)));
        }
    }
    assert(times@.take(i as int) =~= times@);
    r
}

/// A class as published, with the hours of its course's first class.
pub open spec fn entry_view(c: ClassView, hours: u32) -> ClassEntryView {
    ClassEntryView {
        id: c.id,
        hours,
        labels: c.labels,
        total_slots: c.total_slots,
        filled_slots: c.filled_slots,
        special_students: c.special_students,
        open_slots: c.open_slots,
        waiting_for_slot: c.waiting_for_slot,
        times: times_text(c.times),
        teachers: c.teachers,
    }
}

fn copy_strings(v: &Vec<String>) -> (r: Vec<String>)
    ensures
        string_views(r@) == string_views(v@),
{
    let mut r: Vec<String> = Vec::new();
    let mut i: usize = 0;
    while i < v.len()
        invariant
            i <= v@.len(),
            string_views(r@) == string_views(v@.take(i as int)),
        decreases v@.len() - i,
    {
        let ghost before = r@;
        let ghost i0 = i;
        let c = v[i].clone();
        r.push(c);
        i = i + 1;
        proof {
            assert(v@.take(i as int) =~= v@.take(i0 as int).push(v@[i0 as int]));
            assert(string_views(r@) =~= string_views(before).push(c@));
            assert(string_views(v@.take(i as int)) =~= string_views(v@.take(i0 as int)).push(v@[i0 as int]@));
        }
    }
    assert(v@.take(i as int) =~= v@);
    r
}

fn entry_from(c: &Class, hours: u32) -> (r: ClassEntry)
    ensures
        r@ == entry_view(c@, hours),
{
    ClassEntry {
        id: c.id.clone(),
        hours,
        labels: copy_strings(&c.labels),
        total_slots: c.total_slots,
        filled_slots: c.filled_slots,
        special_students: c.special_students,
        open_slots: c.open_slots,
        waiting_for_slot: c.waiting_for_slot,
        times: format_class_times(&c.times),
        teachers: copy_strings(&c.teachers),
    }
}

/// What `str::to_uppercase` gives for `s`.
pub uninterp spec fn upper_of(s: Seq<char>) -> Seq<char>;

/// Relies on `str::to_uppercase`: the upper-case form depends on the
/// characters alone.
#[verifier::external_body]
fn to_upper(s: &String) -> (r: String)
    ensures
        r@ == upper_of(s@),
{
    s.to_uppercase()
}

/// Strict order of text, character by character, as `String`'s `Ord` orders it.
pub open spec fn text_lt(a: Seq<char>, b: Seq<char>) -> bool
    decreases a.len(),
{
    if a.len() == 0 {
        b.len() > 0
    } else if b.len() == 0 {
        false
    } else if a[0] != b[0] {
        a[0] < b[0]
    } else {
        text_lt(a.drop_first(), b.drop_first())
    }
}

pub proof fn lemma_text_lt_irreflexive(a: Seq<char>)
    ensures
        !text_lt(a, a),
    decreases a.len(),
{
    if a.len() > 0 {
        lemma_text_lt_irreflexive(a.drop_first());
    }
}

pub proof fn lemma_text_lt_transitive(a: Seq<char>, b: Seq<char>, c: Seq<char>)
    requires
        text_lt(a, b),
        text_lt(b, c),
    ensures
        text_lt(a, c),
    decreases a.len(),
{
    if a.len() > 0 && b.len() > 0 && c.len() > 0 && a[0] == b[0] && b[0] == c[0] {
        lemma_text_lt_transitive(a.drop_first(), b.drop_first(), c.drop_first());
    }
}

pub proof fn lemma_text_lt_total(a: Seq<char>, b: Seq<char>)
    ensures
        a == b || text_lt(a, b) || text_lt(b, a),
    decreases a.len(),
{
    if a.len() > 0 && b.len() > 0 && a[0] == b[0] {
        lemma_text_lt_total(a.drop_first(), b.drop_first());
        if a.drop_first() == b.drop_first() {
            assert(a =~= seq![a[0]] + a.drop_first());
            assert(b =~= seq![b[0]] + b.drop_first());
        }
    } else if a.len() == 0 && b.len() == 0 {
        assert(a =~= b);
    }
}

pub proof fn lemma_text_lt_asymmetric(a: Seq<char>, b: Seq<char>)
    requires
        text_lt(a, b),
    ensures
        !text_lt(b, a),
{
    if text_lt(b, a) {
        lemma_text_lt_transitive(a, b, a);
        lemma_text_lt_irreflexive(a);
    }
}

fn chars_lt(a: &Vec<char>, b: &Vec<char>) -> (r: bool)
    ensures
        r == text_lt(a@, b@),
{
    let mut i: usize = 0;
    assert(a@.skip(0) =~= a@);
    assert(b@.skip(0) =~= b@);
    while i < a.len() && i < b.len() && a[i] == b[i]
        invariant
            i <= a@.len(),
            i <= b@.len(),
            text_lt(a@.skip(i as int), b@.skip(i as int)) == text_lt(a@, b@),
        decreases a@.len() - i,
    {
        proof {
            assert(a@.skip(i as int).drop_first() =~= a@.skip(i + 1));
            assert(b@.skip(i as int).drop_first() =~= b@.skip(i + 1));
        }
        i = i + 1;
    }
    if i == a.len() {
        i < b.len()
    } else if i == b.len() {
        false
    } else {
        a[i] < b[i]
    }
}

fn chars_eq(a: &Vec<char>, b: &Vec<char>) -> (r: bool)
    ensures
        r == (a@ == b@),
{
    if a.len() != b.len() {
        return false;
    }
    let mut i: usize = 0;
    while i < a.len()
        invariant
            i <= a@.len() == b@.len(),
            forall|k: int| 0 <= k < i ==> a@[k] == b@[k],
        decreases a@.len() - i,
    {
        if a[i] != b[i] {
            return false;
        }
        i = i + 1;
    }
    assert(a@ =~= b@);
    true
}

/// The publication timestamp `DD/MM/YY - HH:MM`, from the local date and
/// time; the year is written by its last two digits.
pub open spec fn timestamp_text(day: nat, month: nat, year: nat, hour: nat, minute: nat) -> Seq<char> {
    two_digits(day) + seq!['/'] + two_digits(month) + seq!['/'] + two_digits(year % 100) + seq![
        ' ',
        '-',
        ' ',
    ] + two_digits(hour) + seq![':'] + two_digits(minute)
}

/// Writes the publication timestamp `DD/MM/YY - HH:MM`.
pub fn format_timestamp(day: u32, month: u32, year: u32, hour: u32, minute: u32) -> (r: String)
    ensures
        r@ == timestamp_text(day as nat, month as nat, year as nat, hour as nat, minute as nat),
{
    let mut v: Vec<char> = Vec::new();
    push_two_digits(&mut v, day);
    v.push('/');
    push_two_digits(&mut v, month);
    v.push('/');
    push_two_digits(&mut v, year % 100);
    v.push(' ');
    v.push('-');
    v.push(' ');
    push_two_digits(&mut v, hour);
    v.push(':');
    push_two_digits(&mut v, minute);
    assert(v@ =~= timestamp_text(day as nat, month as nat, year as nat, hour as nat, minute as nat));
    string_from(&v)
}

/// The classes of the course `id`, in order.
pub open spec fn in_course(cs: Seq<ClassView>, id: Seq<char>) -> Seq<ClassView>
    decreases cs.len(),
{
    if cs.len() == 0 {
        Seq::empty()
    } else if cs.last().course.id == id {
        in_course(cs.drop_last(), id).push(cs.last())
    } else {
        in_course(cs.drop_last(), id)
    }
}

/// Whether some class belongs to the course `id`.
pub open spec fn has_course(cs: Seq<ClassView>, id: Seq<char>) -> bool {
    exists|i: int| 0 <= i < cs.len() && #[trigger] cs[i].course.id == id
}

/// The course ids, without repeats, in increasing order.
pub open spec fn is_course_index(ids: Seq<Seq<char>>, cs: Seq<ClassView>) -> bool {
    &&& forall|i: int, j: int| 0 <= i < j < ids.len() ==> text_lt(#[trigger] ids[i], #[trigger] ids[j])
    &&& forall|i: int| 0 <= i < ids.len() ==> has_course(cs, #[trigger] ids[i])
    &&& forall|i: int| 0 <= i < cs.len() ==> ids.contains(#[trigger] cs[i].course.id)
}

/// The published form of the course `id` of the classes `cs`.
pub open spec fn course_entry(cs: Seq<ClassView>, id: Seq<char>) -> CourseEntryView {
    let members = in_course(cs, id);
    CourseEntryView {
        id,
        title_upper: upper_of(members[0].course.title),
        title: members[0].course.title,
        classes: members.map_values(|c: ClassView| entry_view(c, members[0].course.hours)),
    }
}

pub open spec fn course_views(v: Seq<CourseEntry>) -> Seq<CourseEntryView> {
    v.map_values(|c: CourseEntry| c@)
}

/// The course ids of `classes`, without repeats, in increasing order.
fn course_ids(classes: &Vec<Class>) -> (r: Vec<Vec<char>>)
    ensures
        is_course_index(r@.map_values(|v: Vec<char>| v@), class_views(classes@)),
{
    let ghost cv = class_views(classes@);
    let mut ids: Vec<Vec<char>> = Vec::new();
    let mut i: usize = 0;
    while i < classes.len()
        invariant
            i <= classes@.len(),
            cv == class_views(classes@),
            is_course_index(ids@.map_values(|v: Vec<char>| v@), cv.take(i as int)),
        decreases classes@.len() - i,
    {
        let ghost old_ids = ids@.map_values(|v: Vec<char>| v@);
        let key = chars_of(classes[i].course.id.as_str());
        let mut p: usize = 0;
        while p < ids.len() && chars_lt(&ids[p], &key)
            invariant
                p <= ids@.len(),
                old_ids == ids@.map_values(|v: Vec<char>| v@),
                forall|k: int| 0 <= k < p ==> text_lt(#[trigger] old_ids[k], key@),
            decreases ids@.len() - p,
        {
            p = p + 1;
        }
        let ghost prev = cv.take(i as int);
        let ghost next = cv.take(i + 1);
        proof {
            assert forall|k: int| 0 <= k < prev.len() implies next[k] == #[trigger] prev[k] by {}
            assert(next[i as int] == cv[i as int]);
            assert forall|k: int| 0 <= k < old_ids.len() && has_course(prev, #[trigger] old_ids[k]) implies has_course(next, old_ids[k]) by {
                let w = choose|w: int| 0 <= w < prev.len() && #[trigger] prev[w].course.id == old_ids[k];
                assert(next[w].course.id == old_ids[k]);
            }
        }
        if p < ids.len() && chars_eq(&ids[p], &key) {
            proof {
                assert forall|k: int| 0 <= k < next.len() implies old_ids.contains(#[trigger] next[k].course.id) by {
                    if k < i {
                        assert(prev[k] == next[k]);
                    } else {
                        assert(old_ids[p as int] == key@);
                    }
                }
            }
        } else {
            proof {
                if p < ids@.len() {
                    lemma_text_lt_total(old_ids[p as int], key@);
                }
            }
            ids.insert(p, key);
            proof {
                let new_ids = ids@.map_values(|v: Vec<char>| v@);
                assert(new_ids =~= old_ids.insert(p as int, key@));
                assert forall|a: int, b: int| 0 <= a < b < new_ids.len() implies text_lt(#[trigger] new_ids[a], #[trigger] new_ids[b]) by {
                    if a < p && b == p {
                    } else if a < p && b > p {
                        assert(new_ids[b] == old_ids[b - 1]);
                    } else if a == p && b > p {
                        assert(new_ids[b] == old_ids[b - 1]);
                        if b - 1 > p {
                            assert(text_lt(old_ids[p as int], old_ids[b - 1]));
                            lemma_text_lt_transitive(key@, old_ids[p as int], old_ids[b - 1]);
                        }
                    } else if a > p {
                        assert(new_ids[a] == old_ids[a - 1]);
                        assert(new_ids[b] == old_ids[b - 1]);
                    }
                }
                assert forall|k: int| 0 <= k < new_ids.len() implies has_course(next, #[trigger] new_ids[k]) by {
                    if k < p {
                        assert(new_ids[k] == old_ids[k]);
                    } else if k == p {
                        assert(next[i as int].course.id == key@);
                    } else {
                        assert(new_ids[k] == old_ids[k - 1]);
                    }
                }
                assert forall|k: int| 0 <= k < next.len() implies new_ids.contains(#[trigger] next[k].course.id) by {
                    if k < i {
                        assert(prev[k] == next[k]);
                        let w = choose|w: int| 0 <= w < old_ids.len() && old_ids[w] == prev[k].course.id;
                        if w < p {
                            assert(new_ids[w] == old_ids[w]);
                        } else {
                            assert(new_ids[w + 1] == old_ids[w]);
                        }
                    } else {
                        assert(new_ids[p as int] == key@);
                    }
                }
            }
        }
        i = i + 1;
    }
    assert(cv.take(i as int) =~= cv);
    ids
}

/// The classes of the course `key`, published, with the title and hours of
/// the course's first class.
fn course_of(classes: &Vec<Class>, key: &Vec<char>) -> (r: CourseEntry)
    requires
        has_course(class_views(classes@), key@),
    ensures
        r@ == course_entry(class_views(classes@), key@),
{
    let ghost cv = class_views(classes@);
    let mut members: Vec<ClassEntry> = Vec::new();
    let mut title = String::new();
    let mut hours: u32 = 0;
    let mut i: usize = 0;
    while i < classes.len()
        invariant
            i <= classes@.len(),
            cv == class_views(classes@),
            entry_views(members@) == in_course(cv.take(i as int), key@).map_values(
                |c: ClassView| entry_view(c, hours),
            ),
            in_course(cv.take(i as int), key@).len() > 0 ==> title@ == in_course(cv.take(i as int), key@)[0].course.title
                && hours == in_course(cv.take(i as int), key@)[0].course.hours,
        decreases classes@.len() - i,
    {
        let ghost prev = in_course(cv.take(i as int), key@);
        proof {
            assert(cv.take(i + 1).drop_last() =~= cv.take(i as int));
            assert(cv.take(i + 1).last() == cv[i as int]);
        }
        if chars_eq(&chars_of(classes[i].course.id.as_str()), key) {
            if members.len() == 0 {
                title = classes[i].course.title.clone();
                hours = classes[i].course.hours;
            }
            let ghost before = members@;
            let e = entry_from(&classes[i], hours);
            members.push(e);
            proof {
                let now = in_course(cv.take(i + 1), key@);
                assert(now == prev.push(cv[i as int]));
                assert(cv[i as int] == classes@[i as int]@);
                assert(entry_views(before) =~= prev.map_values(|c: ClassView| entry_view(c, hours)));
                assert(entry_views(members@) =~= entry_views(before).push(e@));
                assert(entry_views(members@) =~= now.map_values(|c: ClassView| entry_view(c, hours)));
            }
        }
        i = i + 1;
    }
    assert(cv.take(i as int) =~= cv);
    proof {
        lemma_in_course_nonempty(cv, key@);
    }
    let title_upper = to_upper(&title);
    CourseEntry { id: string_from(key), title_upper, title, classes: members }
}

proof fn lemma_in_course_nonempty(cs: Seq<ClassView>, id: Seq<char>)
    requires
        has_course(cs, id),
    ensures
        in_course(cs, id).len() > 0,
    decreases cs.len(),
{
    if cs.last().course.id != id {
        let w = choose|w: int| 0 <= w < cs.len() && #[trigger] cs[w].course.id == id;
        assert(cs.drop_last()[w] == cs[w]);
        lemma_in_course_nonempty(cs.drop_last(), id);
    }
}

/// Groups classes into courses: one entry per course id, in increasing id
/// order, each with the course's classes in their given order.
pub fn group_classes_for_matrufsc(classes: Vec<Class>) -> (r: Vec<CourseEntry>)
    ensures
        is_course_index(course_views(r@).map_values(|c: CourseEntryView| c.id), class_views(classes@)),
        forall|k: int| 0 <= k < r@.len() ==> #[trigger] course_views(r@)[k] == course_entry(
            class_views(classes@),
            course_views(r@)[k].id,
        ),
{
    let ids = course_ids(&classes);
    let ghost idv = ids@.map_values(|v: Vec<char>| v@);
    let ghost cv = class_views(classes@);
    let mut r: Vec<CourseEntry> = Vec::new();
    let mut g: usize = 0;
    while g < ids.len()
        invariant
            g <= ids@.len(),
            idv == ids@.map_values(|v: Vec<char>| v@),
            cv == class_views(classes@),
            is_course_index(idv, cv),
            r@.len() == g,
            forall|k: int| 0 <= k < g ==> #[trigger] course_views(r@)[k] == course_entry(cv, idv[k]),
        decreases ids@.len() - g,
    {
        assert(has_course(cv, idv[g as int]));
        let c = course_of(&classes, &ids[g]);
        let ghost before = r@;
        r.push(c);
        assert(course_views(r@) =~= course_views(before).push(c@));
        g = g + 1;
    }
    assert(course_views(r@).map_values(|c: CourseEntryView| c.id) =~= idv);
    r
}

/// The classes of a course, counted with repeats, are those of the whole
/// list that belong to it.
pub proof fn lemma_in_course_multiset(cs: Seq<ClassView>, id: Seq<char>)
    ensures
        in_course(cs, id).to_multiset() == cs.to_multiset().filter(|c: ClassView| c.course.id == id),
    decreases cs.len(),
{
    broadcast use vstd::seq_lib::group_to_multiset_ensures;

    if cs.len() == 0 {
        assert(cs.to_multiset().filter(|c: ClassView| c.course.id == id) =~= vstd::multiset::Multiset::empty());
    } else {
        let rest = cs.drop_last();
        lemma_in_course_multiset(rest, id);
        assert(rest.push(cs.last()) =~= cs);
        if cs.last().course.id == id {
            assert(in_course(cs, id).to_multiset() =~= cs.to_multiset().filter(|c: ClassView| c.course.id == id));
        } else {
            assert(in_course(cs, id).to_multiset() =~= cs.to_multiset().filter(|c: ClassView| c.course.id == id));
        }
    }
}

/// Two strictly increasing lists of text with the same elements are equal.
pub proof fn lemma_sorted_unique(x: Seq<Seq<char>>, y: Seq<Seq<char>>)
    requires
        forall|i: int, j: int| 0 <= i < j < x.len() ==> text_lt(#[trigger] x[i], #[trigger] x[j]),
        forall|i: int, j: int| 0 <= i < j < y.len() ==> text_lt(#[trigger] y[i], #[trigger] y[j]),
        forall|e: Seq<char>| x.contains(e) <==> y.contains(e),
    ensures
        x == y,
    decreases x.len(),
{
    if x.len() == 0 {
        if y.len() > 0 {
            assert(y.contains(y[0]));
        }
        assert(x =~= y);
    } else {
        assert(x.contains(x[0]));
        assert(y.len() > 0);
        assert(y.contains(y[0]));
        let k = choose|k: int| 0 <= k < y.len() && y[k] == x[0];
        let m = choose|m: int| 0 <= m < x.len() && x[m] == y[0];
        if k > 0 && m > 0 {
            assert(text_lt(y[0], y[k]));
            assert(text_lt(x[0], x[m]));
            lemma_text_lt_asymmetric(x[0], y[0]);
        } else if k > 0 {
            assert(text_lt(y[0], y[k]));
            lemma_text_lt_irreflexive(x[0]);
        } else if m > 0 {
            assert(text_lt(x[0], x[m]));
            lemma_text_lt_irreflexive(y[0]);
        }
        assert(x[0] == y[0]);
        let xt = x.drop_first();
        let yt = y.drop_first();
        assert forall|e: Seq<char>| xt.contains(e) implies yt.contains(e) by {
            let j = choose|j: int| 0 <= j < xt.len() && xt[j] == e;
            assert(x[j + 1] == e);
            assert(text_lt(x[0], x[j + 1]));
            lemma_text_lt_irreflexive(e);
            assert(y.contains(e));
            let j2 = choose|j2: int| 0 <= j2 < y.len() && y[j2] == e;
            assert(j2 != 0);
            assert(yt[j2 - 1] == e);
        }
        assert forall|e: Seq<char>| yt.contains(e) implies xt.contains(e) by {
            let j = choose|j: int| 0 <= j < yt.len() && yt[j] == e;
            assert(y[j + 1] == e);
            assert(text_lt(y[0], y[j + 1]));
            lemma_text_lt_irreflexive(e);
            assert(x.contains(e));
            let j2 = choose|j2: int| 0 <= j2 < x.len() && x[j2] == e;
            assert(j2 != 0);
            assert(xt[j2 - 1] == e);
        }
        assert forall|i: int, j: int| 0 <= i < j < xt.len() implies text_lt(#[trigger] xt[i], #[trigger] xt[j]) by {
            assert(x[i + 1] == xt[i] && x[j + 1] == xt[j]);
        }
        assert forall|i: int, j: int| 0 <= i < j < yt.len() implies text_lt(#[trigger] yt[i], #[trigger] yt[j]) by {
            assert(y[i + 1] == yt[i] && y[j + 1] == yt[j]);
        }
        lemma_sorted_unique(xt, yt);
        assert(x =~= seq![x[0]] + xt);
        assert(y =~= seq![y[0]] + yt);
    }
}

/// Grouping does not depend on the order of the classes: two lists that hold
/// the same classes give the same course ids, and each course the same
/// classes, counted with repeats.
pub proof fn grouping_ignores_order(
    a: Seq<ClassView>,
    b: Seq<ClassView>,
    ids_a: Seq<Seq<char>>,
    ids_b: Seq<Seq<char>>,
)
    requires
        a.to_multiset() == b.to_multiset(),
        is_course_index(ids_a, a),
        is_course_index(ids_b, b),
    ensures
        ids_a == ids_b,
        forall|id: Seq<char>| #[trigger] in_course(a, id).to_multiset() == in_course(b, id).to_multiset(),
{
    broadcast use vstd::seq_lib::group_to_multiset_ensures;

    assert forall|e: Seq<char>| ids_a.contains(e) implies ids_b.contains(e) by {
        let i = choose|i: int| 0 <= i < ids_a.len() && ids_a[i] == e;
        assert(has_course(a, ids_a[i]));
        let w = choose|w: int| 0 <= w < a.len() && #[trigger] a[w].course.id == e;
        assert(a.contains(a[w]));
        assert(b.to_multiset().count(a[w]) > 0);
        assert(b.contains(a[w]));
        let v = choose|v: int| 0 <= v < b.len() && b[v] == a[w];
        assert(ids_b.contains(b[v].course.id));
    }
    assert forall|e: Seq<char>| ids_b.contains(e) implies ids_a.contains(e) by {
        let i = choose|i: int| 0 <= i < ids_b.len() && ids_b[i] == e;
        assert(has_course(b, ids_b[i]));
        let w = choose|w: int| 0 <= w < b.len() && #[trigger] b[w].course.id == e;
        assert(b.contains(b[w]));
        assert(a.to_multiset().count(b[w]) > 0);
        assert(a.contains(b[w]));
        let v = choose|v: int| 0 <= v < a.len() && a[v] == b[w];
        assert(ids_a.contains(a[v].course.id));
    }
    lemma_sorted_unique(ids_a, ids_b);
    assert forall|id: Seq<char>| #[trigger] in_course(a, id).to_multiset() == in_course(b, id).to_multiset() by {
        lemma_in_course_multiset(a, id);
        lemma_in_course_multiset(b, id);
    }
}

} // verus!
