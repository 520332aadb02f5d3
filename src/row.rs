//! Decoding of the results table: one row into one class with its course.
use select::document::Document;
use select::predicate::{Attr, Name, Predicate};
use vstd::prelude::*;

use crate::text::{
    chars_of, is_blank, lines, lines_of, parse_i32, parse_u32, string_from, sub_chars, trim,
    trim_chars, i32_text, u32_text,
};
use crate::time_slot::{time_from_chars, time_text, Time, TimeView};

verus! {

/// A course, as each of its classes carries it.
pub struct Course {
    pub id: String,
    pub title: String,
    pub hours: u32,
}

/// One offered section of a course.
pub struct Class {
    pub id: String,
    pub course: Course,
    pub labels: Vec<String>,
    pub total_slots: u32,
    pub filled_slots: u32,
    pub special_students: i32,
    pub open_slots: u32,
    pub waiting_for_slot: u32,
    pub times: Vec<Time>,
    pub teachers: Vec<String>,
}

/// The numeric cells of a row, named in decoding errors.
#[derive(Clone, Copy, Debug, PartialEq, Eq, Structural)]
pub enum NumericField {
    Hours,
    TotalSlots,
    FilledSlots,
    SpecialStudents,
    OpenSlots,
    WaitingForSlot,
}

/// Why a page could not be decoded.
#[derive(Debug)]
pub enum ParseError {
    /// The page holds no results table.
    TableNotFound,
    /// A time slot is not of the form `<weekday>.<HHMM>-<credits> / <place>`.
    InvalidTimeFormat,
    /// The course title cell is empty.
    NoCourseTitle,
    /// A row has fewer cells than the table's columns.
    MissingCells,
    /// A numeric cell does not hold a number of its type.
    NumericFieldParse { field: NumericField, course_id: String },
}

pub struct CourseView {
    pub id: Seq<char>,
    pub title: Seq<char>,
    pub hours: u32,
}

pub struct ClassView {
    pub id: Seq<char>,
    pub course: CourseView,
    pub labels: Seq<Seq<char>>,
    pub total_slots: u32,
    pub filled_slots: u32,
    pub special_students: i32,
    pub open_slots: u32,
    pub waiting_for_slot: u32,
    pub times: Seq<TimeView>,
    pub teachers: Seq<Seq<char>>,
}

pub enum ParseErrorView {
    TableNotFound,
    InvalidTimeFormat,
    NoCourseTitle,
    MissingCells,
    NumericFieldParse { field: NumericField, course_id: Seq<char> },
}

pub open spec fn string_views(v: Seq<String>) -> Seq<Seq<char>> {
    v.map_values(|s: String| s@)
}

pub open spec fn time_views(v: Seq<Time>) -> Seq<TimeView> {
    v.map_values(|t: Time| t@)
}

impl View for Course {
    type V = CourseView;

    open spec fn view(&self) -> CourseView {
        CourseView { id: self.id@, title: self.title@, hours: self.hours }
    }
}

impl View for Class {
    type V = ClassView;

    open spec fn view(&self) -> ClassView {
        ClassView {
            id: self.id@,
            course: self.course@,
            labels: string_views(self.labels@),
            total_slots: self.total_slots,
            filled_slots: self.filled_slots,
            special_students: self.special_students,
            open_slots: self.open_slots,
            waiting_for_slot: self.waiting_for_slot,
            times: time_views(self.times@),
            teachers: string_views(self.teachers@),
        }
    }
}

impl View for ParseError {
    type V = ParseErrorView;

    open spec fn view(&self) -> ParseErrorView {
        match self {
            ParseError::TableNotFound => ParseErrorView::TableNotFound,
            ParseError::InvalidTimeFormat => ParseErrorView::InvalidTimeFormat,
            ParseError::NoCourseTitle => ParseErrorView::NoCourseTitle,
            ParseError::MissingCells => ParseErrorView::MissingCells,
            ParseError::NumericFieldParse { field, course_id } => ParseErrorView::NumericFieldParse {
                field: *field,
                course_id: course_id@,
            },
        }
    }
}

/// The column of each cell of a results row.
pub const COURSE_ID_CELL: usize = 3;
pub const CLASS_ID_CELL: usize = 4;
pub const TITLE_CELL: usize = 5;
pub const HOURS_CELL: usize = 6;
pub const TOTAL_SLOTS_CELL: usize = 7;
pub const FILLED_SLOTS_CELL: usize = 8;
pub const SPECIAL_STUDENTS_CELL: usize = 9;
pub const OPEN_SLOTS_CELL: usize = 10;
pub const WAITING_CELL: usize = 11;
pub const TIMES_CELL: usize = 12;
pub const TEACHERS_CELL: usize = 13;
pub const ROW_CELLS: usize = 14;

/// The text that the open-slots cell holds when a class is full.
pub open spec fn full_marker() -> Seq<char> {
    seq!['L', 'O', 'T', 'A', 'D', 'A']
}

/// A label line without one pair of surrounding brackets.
pub open spec fn unbracketed(s: Seq<char>) -> Seq<char> {
    if s.len() >= 2 && s[0] == '[' && s.last() == ']' {
        s.subrange(1, s.len() - 1)
    } else {
        s
    }
}

/// The labels: each line after the first, trimmed and without brackets.
pub open spec fn labels_of(ls: Seq<Seq<char>>) -> Seq<Seq<char>>
    decreases ls.len(),
{
    if ls.len() <= 1 {
        Seq::empty()
    } else {
        labels_of(ls.drop_last()).push(unbracketed(trim(ls.last())))
    }
}

/// The non-blank lines, trimmed.
pub open spec fn filled_lines(ls: Seq<Seq<char>>) -> Seq<Seq<char>>
    decreases ls.len(),
{
    if ls.len() == 0 {
        Seq::empty()
    } else if is_blank(ls.last()) {
        filled_lines(ls.drop_last())
    } else {
        filled_lines(ls.drop_last()).push(trim(ls.last()))
    }
}

/// The time slots of the non-blank lines, if each of them is one.
pub open spec fn slots_of(ls: Seq<Seq<char>>) -> Option<Seq<TimeView>>
    decreases ls.len(),
{
    if ls.len() == 0 {
        Some(Seq::empty())
    } else {
        match slots_of(ls.drop_last()) {
            None => None,
            Some(ts) => if is_blank(ls.last()) {
                Some(ts)
            } else {
                match time_text(trim(ls.last())) {
                    None => None,
                    Some(t) => Some(ts.push(t)),
                }
            },
        }
    }
}

/// The open-slots cell: the full marker reads as zero.
pub open spec fn open_slots_text(s: Seq<char>) -> Option<u32> {
    if s == full_marker() { Some(0) } else { u32_text(s) }
}

/// The waiting-list cell: an empty cell reads as zero.
pub open spec fn waiting_text(s: Seq<char>) -> Option<u32> {
    if s.len() == 0 { Some(0) } else { u32_text(s) }
}

pub open spec fn numeric_error(field: NumericField, course_id: Seq<char>) -> ParseErrorView {
    ParseErrorView::NumericFieldParse { field, course_id }
}

/// The class that a row of cell texts describes, or why it describes none.
pub open spec fn row_class(cells: Seq<Seq<char>>) -> Result<ClassView, ParseErrorView> {
    if cells.len() < 14 {
        Err(ParseErrorView::MissingCells)
    } else {
        let course_id = trim(cells[3]);
        let title_lines = lines(trim(cells[5]));
        if title_lines.len() == 0 {
            Err(ParseErrorView::NoCourseTitle)
        } else if u32_text(trim(cells[6])) is None {
            Err(numeric_error(NumericField::Hours, course_id))
        } else if u32_text(trim(cells[7])) is None {
            Err(numeric_error(NumericField::TotalSlots, course_id))
        } else if u32_text(trim(cells[8])) is None {
            Err(numeric_error(NumericField::FilledSlots, course_id))
        } else if i32_text(trim(cells[9])) is None {
            Err(numeric_error(NumericField::SpecialStudents, course_id))
        } else if open_slots_text(trim(cells[10])) is None {
            Err(numeric_error(NumericField::OpenSlots, course_id))
        } else if waiting_text(trim(cells[11])) is None {
            Err(numeric_error(NumericField::WaitingForSlot, course_id))
        } else {
            match slots_of(lines(trim(cells[12]))) {
                None => Err(ParseErrorView::InvalidTimeFormat),
                Some(times) => Ok(
                    ClassView {
                        id: trim(cells[4]),
                        course: CourseView {
                            id: course_id,
                            title: trim(title_lines[0]),
                            hours: u32_text(trim(cells[6]))->0,
                        },
                        labels: labels_of(title_lines),
                        total_slots: u32_text(trim(cells[7]))->0,
                        filled_slots: u32_text(trim(cells[8]))->0,
                        special_students: i32_text(trim(cells[9]))->0,
                        open_slots: open_slots_text(trim(cells[10]))->0,
                        waiting_for_slot: waiting_text(trim(cells[11]))->0,
                        times,
                        teachers: filled_lines(lines(trim(cells[13]))),
                    },
                ),
            }
        }
    }
}

pub open spec fn class_result_view(r: Result<Class, ParseError>) -> Result<ClassView, ParseErrorView> {
    match r {
        Ok(c) => Ok(c@),
        Err(e) => Err(e@),
    }
}

/// The classes of a table's rows, or the first row's error.
pub open spec fn rows_classes(rows: Seq<Seq<Seq<char>>>) -> Result<Seq<ClassView>, ParseErrorView>
    decreases rows.len(),
{
    if rows.len() == 0 {
        Ok(Seq::empty())
    } else {
        match rows_classes(rows.drop_last()) {
            Err(e) => Err(e),
            Ok(cs) => match row_class(rows.last()) {
                Err(e) => Err(e),
                Ok(c) => Ok(cs.push(c)),
            },
        }
    }
}

pub open spec fn class_views(v: Seq<Class>) -> Seq<ClassView> {
    v.map_values(|c: Class| c@)
}

pub open spec fn classes_result_view(r: Result<Vec<Class>, ParseError>) -> Result<Seq<ClassView>, ParseErrorView> {
    match r {
        Ok(cs) => Ok(class_views(cs@)),
        Err(e) => Err(e@),
    }
}

/// The element id of the results table's body.
pub const RESULTS_TABLE_ID: &'static str = "formBusca:dataTable:tb";

/// What select's `Document::from(source)` finds as the text of each `td` of
/// each `tr` of the first `tbody` with element id `id`.
pub uninterp spec fn table_cells_of(source: Seq<char>, id: Seq<char>) -> Option<Seq<Seq<Seq<char>>>>;

pub open spec fn row_views(rows: Seq<Vec<String>>) -> Seq<Seq<Seq<char>>> {
    rows.map_values(|r: Vec<String>| string_views(r@))
}

/// Relies on select's `Document::from`, `find` and `Node::text`: the cell
/// texts, row by row, of the first `tbody` element with the given id.
#[verifier::external_body]
fn table_cells(source: &str, id: &str) -> (r: Option<Vec<Vec<String>>>)
    ensures
        match r {
            Some(rows) => table_cells_of(source@, id@) == Some(row_views(rows@)),
            None => table_cells_of(source@, id@) is None,
        },
{
    let document = Document::from(source);
    let table = document.find(Name("tbody").and(Attr("id", id))).next();
    table.map(
        |t| t.find(Name("tr")).map(|row| row.find(Name("td")).map(|td| td.text()).collect()).collect(),
    )
}

/// The classes of the results table of an HTML page.
pub open spec fn page_classes(source: Seq<char>) -> Result<Seq<ClassView>, ParseErrorView> {
    match table_cells_of(source, RESULTS_TABLE_ID@) {
        None => Err(ParseErrorView::TableNotFound),
        Some(rows) => rows_classes(rows),
    }
}

/// The classes of a table given as rows of cell texts: every row is decoded
/// and the first failure is returned.
pub fn classes_from_rows(rows: &Vec<Vec<String>>) -> (r: Result<Vec<Class>, ParseError>)
    ensures
        classes_result_view(r) == rows_classes(row_views(rows@)),
{
    let ghost full = row_views(rows@);
    let mut out: Vec<Class> = Vec::new();
    let mut i: usize = 0;
    assert(full.take(0) =~= Seq::<Seq<Seq<char>>>::empty());
    assert(class_views(out@) =~= Seq::<ClassView>::empty());
    while i < rows.len()
        invariant
            i <= rows@.len(),
            full == row_views(rows@),
            rows_classes(full.take(i as int)) == Ok::<Seq<ClassView>, ParseErrorView>(class_views(out@)),
        decreases rows@.len() - i,
    {
        proof {
            assert(full.take(i + 1).drop_last() =~= full.take(i as int));
            assert(full.take(i + 1).last() == string_views(rows@[i as int]@));
        }
        match Class::from_cells(&rows[i]) {
            Ok(c) => {
                let ghost before = out@;
                out.push(c);
                assert(class_views(out@) =~= class_views(before).push(c@));
            },
            Err(e) => {
                proof {
                    lemma_rows_error_extends(full, i as int + 1, e@);
                }
                return Err(e);
            },
        }
        i = i + 1;
    }
    assert(full.take(i as int) =~= full);
    Ok(out)
}

/// Once a prefix of rows fails with `e`, every longer prefix fails with `e`.
proof fn lemma_rows_error_extends(rows: Seq<Seq<Seq<char>>>, k: int, e: ParseErrorView)
    requires
        0 <= k <= rows.len(),
        rows_classes(rows.take(k)) == Err::<Seq<ClassView>, ParseErrorView>(e),
    ensures
        rows_classes(rows) == Err::<Seq<ClassView>, ParseErrorView>(e),
    decreases rows.len() - k,
{
    if k < rows.len() {
        assert(rows.take(k + 1).drop_last() =~= rows.take(k));
        lemma_rows_error_extends(rows, k + 1, e);
    } else {
        assert(rows.take(k) =~= rows);
    }
}

/// The classes of the results table of an HTML page: `TableNotFound` where
/// the page has no such table, else the first row's error or every row's class.
pub fn classes_from_html(source: &str) -> (r: Result<Vec<Class>, ParseError>)
    ensures
        classes_result_view(r) == page_classes(source@),
{
    match table_cells(source, RESULTS_TABLE_ID) {
        None => Err(ParseError::TableNotFound),
        Some(rows) => classes_from_rows(&rows),
    }
}

impl Class {
    /// Decodes one results row given as its cell texts.
    pub fn from_cells(cells: &Vec<String>) -> (r: Result<Class, ParseError>)
        ensures
            class_result_view(r) == row_class(string_views(cells@)),
    {
        let ghost cv = string_views(cells@);
        if cells.len() < ROW_CELLS {
            return Err(ParseError::MissingCells);
        }
        let course_id = trim_chars(&chars_of(cells[COURSE_ID_CELL].as_str()));
        let class_id = trim_chars(&chars_of(cells[CLASS_ID_CELL].as_str()));
        let title_lines = lines_vec(&trim_chars(&chars_of(cells[TITLE_CELL].as_str())));
        if title_lines.len() == 0 {
            return Err(ParseError::NoCourseTitle);
        }
        let hours = match parse_u32(&trim_chars(&chars_of(cells[HOURS_CELL].as_str()))) {
            Some(v) => v,
            None => return Err(ParseError::NumericFieldParse {
                field: NumericField::Hours,
                course_id: string_from(&course_id),
            }),
        };
        let total_slots = match parse_u32(&trim_chars(&chars_of(cells[TOTAL_SLOTS_CELL].as_str()))) {
            Some(v) => v,
            None => return Err(ParseError::NumericFieldParse {
                field: NumericField::TotalSlots,
                course_id: string_from(&course_id),
            }),
        };
        let filled_slots = match parse_u32(&trim_chars(&chars_of(cells[FILLED_SLOTS_CELL].as_str()))) {
            Some(v) => v,
            None => return Err(ParseError::NumericFieldParse {
                field: NumericField::FilledSlots,
                course_id: string_from(&course_id),
            }),
        };
        let special_students = match parse_i32(&trim_chars(&chars_of(cells[SPECIAL_STUDENTS_CELL].as_str()))) {
            Some(v) => v,
            None => return Err(ParseError::NumericFieldParse {
                field: NumericField::SpecialStudents,
                course_id: string_from(&course_id),
            }),
        };
        let open_cell = trim_chars(&chars_of(cells[OPEN_SLOTS_CELL].as_str()));
        let open_slots = match open_slots_value(&open_cell) {
            Some(v) => v,
            None => return Err(ParseError::NumericFieldParse {
                field: NumericField::OpenSlots,
                course_id: string_from(&course_id),
            }),
        };
        let waiting_cell = trim_chars(&chars_of(cells[WAITING_CELL].as_str()));
        let waiting_for_slot = if waiting_cell.len() == 0 {
            0
        } else {
            match parse_u32(&waiting_cell) {
                Some(v) => v,
                None => return Err(ParseError::NumericFieldParse {
                    field: NumericField::WaitingForSlot,
                    course_id: string_from(&course_id),
                }),
            }
        };
        let times = match slots_vec(&lines_vec(&trim_chars(&chars_of(cells[TIMES_CELL].as_str())))) {
            Some(ts) => ts,
            None => return Err(ParseError::InvalidTimeFormat),
        };
        let teachers = filled_lines_vec(&lines_vec(&trim_chars(&chars_of(cells[TEACHERS_CELL].as_str()))));
        let labels = labels_vec(&title_lines);
        let title = trim_chars(&title_lines[0]);
        Ok(Class {
            id: string_from(&class_id),
            course: Course { id: string_from(&course_id), title: string_from(&title), hours },
            labels,
            total_slots,
            filled_slots,
            special_students,
            open_slots,
            waiting_for_slot,
            times,
            teachers,
        })
    }
}

/// The open-slots cell: the full marker reads as zero.
fn open_slots_value(s: &Vec<char>) -> (r: Option<u32>)
    ensures
        r == open_slots_text(s@),
{
    let marker = vec!['L', 'O', 'T', 'A', 'D', 'A'];
    assert(marker@ =~= full_marker());
    let mut same = s.len() == marker.len();
    let mut i: usize = 0;
    while same && i < s.len()
        invariant
            same ==> s@.len() == marker@.len(),
            same ==> forall|k: int| 0 <= k < i ==> s@[k] == marker@[k],
            !same ==> s@ != marker@,
            i <= s@.len() || !same,
        decreases s@.len() - i,
    {
        if s[i] != marker[i] {
            same = false;
        }
        i = i + 1;
    }
    if same {
        assert(s@ =~= marker@);
        Some(0)
    } else {
        parse_u32(s)
    }
}

/// An open-slots cell that reads `LOTADA` gives zero open slots, whatever
/// the other cells hold, and is never the cause of a failure.
pub proof fn full_class_has_no_open_slots(cells: Seq<Seq<char>>)
    requires
        cells.len() >= 14,
        trim(cells[10]) == full_marker(),
    ensures
        row_class(cells) matches Ok(c) ==> c.open_slots == 0,
        row_class(cells) != Err::<ClassView, ParseErrorView>(
            numeric_error(NumericField::OpenSlots, trim(cells[3])),
        ),
{
}

/// An empty waiting-list cell gives zero waiting students, whatever the
/// other cells hold, and is never the cause of a failure.
pub proof fn empty_waiting_list_is_zero(cells: Seq<Seq<char>>)
    requires
        cells.len() >= 14,
        trim(cells[11]).len() == 0,
    ensures
        row_class(cells) matches Ok(c) ==> c.waiting_for_slot == 0,
        row_class(cells) != Err::<ClassView, ParseErrorView>(
            numeric_error(NumericField::WaitingForSlot, trim(cells[3])),
        ),
{
}

pub open spec fn char_views(v: Seq<Vec<char>>) -> Seq<Seq<char>> {
    v.map_values(|l: Vec<char>| l@)
}

fn lines_vec(s: &Vec<char>) -> (r: Vec<Vec<char>>)
    ensures
        char_views(r@) == lines(s@),
{
    let r = lines_of(s);
    assert(char_views(r@) =~= lines(s@));
    r
}

fn unbracket(s: &Vec<char>) -> (r: Vec<char>)
    ensures
        r@ == unbracketed(s@),
{
    if s.len() >= 2 && s[0] == '[' && s[s.len() - 1] == ']' {
        sub_chars(s, 1, s.len() - 1)
    } else {
        sub_chars(s, 0, s.len())
    }
}

fn labels_vec(ls: &Vec<Vec<char>>) -> (r: Vec<String>)
    ensures
        string_views(r@) == labels_of(char_views(ls@)),
{
    let ghost full = char_views(ls@);
    let mut r: Vec<String> = Vec::new();
    if ls.len() <= 1 {
        return r;
    }
    let mut i: usize = 1;
    assert(full.take(1).len() == 1);
    assert(string_views(r@) =~= labels_of(full.take(1)));
    while i < ls.len()
        invariant
            1 <= i <= ls@.len(),
            full == char_views(ls@),
            string_views(r@) == labels_of(full.take(i as int)),
        decreases ls@.len() - i,
    {
        let label = unbracket(&trim_chars(&ls[i]));
        proof {
            assert(full.take(i + 1).drop_last() =~= full.take(i as int));
            assert(full.take(i + 1).last() == ls@[i as int]@);
        }
        let ghost before = r@;
        r.push(string_from(&label));
        assert(string_views(r@) =~= string_views(before).push(label@));
        i = i + 1;
    }
    assert(full.take(i as int) =~= full);
    r
}

fn filled_lines_vec(ls: &Vec<Vec<char>>) -> (r: Vec<String>)
    ensures
        string_views(r@) == filled_lines(char_views(ls@)),
{
    let ghost full = char_views(ls@);
    let mut r: Vec<String> = Vec::new();
    let mut i: usize = 0;
    assert(string_views(r@) =~= filled_lines(full.take(0)));
    while i < ls.len()
        invariant
            i <= ls@.len(),
            full == char_views(ls@),
            string_views(r@) == filled_lines(full.take(i as int)),
        decreases ls@.len() - i,
    {
        let line = trim_chars(&ls[i]);
        proof {
            assert(full.take(i + 1).drop_last() =~= full.take(i as int));
            assert(full.take(i + 1).last() == ls@[i as int]@);
        }
        if line.len() > 0 {
            let ghost before = r@;
            r.push(string_from(&line));
            assert(string_views(r@) =~= string_views(before).push(line@));
        }
        i = i + 1;
    }
    assert(full.take(i as int) =~= full);
    r
}

fn slots_vec(ls: &Vec<Vec<char>>) -> (r: Option<Vec<Time>>)
    ensures
        match r {
            Some(ts) => slots_of(char_views(ls@)) == Some(time_views(ts@)),
            None => slots_of(char_views(ls@)) is None,
        },
{
    let ghost full = char_views(ls@);
    let mut r: Vec<Time> = Vec::new();
    let mut i: usize = 0;
    assert(time_views(r@) =~= Seq::<TimeView>::empty());
    assert(full.take(0) =~= Seq::<Seq<char>>::empty());
    while i < ls.len()
        invariant
            i <= ls@.len(),
            full == char_views(ls@),
            slots_of(full.take(i as int)) == Some(time_views(r@)),
        decreases ls@.len() - i,
    {
        let line = trim_chars(&ls[i]);
        proof {
            assert(full.take(i + 1).drop_last() =~= full.take(i as int));
            assert(full.take(i + 1).last() == ls@[i as int]@);
        }
        if line.len() > 0 {
            match time_from_chars(&line) {
                Some(t) => {
                    let ghost before = r@;
                    r.push(t);
                    assert(time_views(r@) =~= time_views(before).push(t@));
                },
                None => {
                    proof {
                        lemma_slots_fail_extends(full, i as int + 1);
                    }
                    return None;
                },
            }
        }
        i = i + 1;
    }
    assert(full.take(i as int) =~= full);
    Some(r)
}

/// Once the slots of a prefix fail, those of every longer prefix fail.
proof fn lemma_slots_fail_extends(ls: Seq<Seq<char>>, k: int)
    requires
        0 <= k <= ls.len(),
        slots_of(ls.take(k)) is None,
    ensures
        slots_of(ls) is None,
    decreases ls.len() - k,
{
    if k < ls.len() {
        assert(ls.take(k + 1).drop_last() =~= ls.take(k));
        lemma_slots_fail_extends(ls, k + 1);
    } else {
        assert(ls.take(k) =~= ls);
    }
}

} // verus!
