//! Courses and the records a student holds of them.
//!
//! Credit is counted in half points throughout: a course worth 5.5 points has
//! `credit == 11`.

use crate::catalog::{first_position, first_position_is};
use crate::text::{chars_of, half_points, parse_half_points};
use vstd::prelude::*;

verus! {

/// What became of a course a student enrolled in.
#[derive(Clone, Copy, Debug, PartialEq, Eq, Structural)]
pub enum CourseState {
    Complete,
    NotComplete,
    Irrelevant,
}

/// A grade: a number from 0 to 100, or passed / failed.
#[derive(Clone, Copy, Debug, PartialEq, Eq, Structural)]
pub enum Grade {
    Numeric(u8),
    Binary(bool),
}

/// A course of the registry. `credit` is in half points.
#[derive(Debug, PartialEq, Eq)]
pub struct Course {
    pub id: String,
    pub credit: u32,
    pub name: String,
}

/// The mathematical value of a [`Course`].
pub struct CourseModel {
    pub id: Seq<char>,
    pub credit: nat,
    pub name: Seq<char>,
}

impl CourseModel {
    /// What stands for a course that the registry does not hold: no credit
    /// and no name.
    pub open spec fn unknown(id: Seq<char>) -> CourseModel {
        CourseModel { id, credit: 0, name: Seq::empty() }
    }
}

impl View for Course {
    type V = CourseModel;

    open spec fn view(&self) -> CourseModel {
        CourseModel { id: self.id@, credit: self.credit as nat, name: self.name@ }
    }
}

impl Clone for Course {
    fn clone(&self) -> (out: Self)
        ensures
            out@ == self@,
    {
        Course { id: self.id.clone(), credit: self.credit, name: self.name.clone() }
    }
}

impl Default for Course {
    fn default() -> (out: Self)
        ensures
            out@ == CourseModel::unknown(Seq::empty()),
    {
        Course { id: String::new(), credit: 0, name: String::new() }
    }
}

/// The view of an optional string.
pub open spec fn text_of(o: Option<String>) -> Option<Seq<char>> {
    match o {
        Some(s) => Some(s@),
        None => None,
    }
}

/// A copy of an optional string.
pub fn clone_text(o: &Option<String>) -> (out: Option<String>)
    ensures
        text_of(out) == text_of(*o),
{
    match o {
        Some(s) => Some(s.clone()),
        None => None,
    }
}

/// One line of a student's record: a course, and what the student and the
/// engine have said about it.
#[derive(Debug, PartialEq, Eq)]
pub struct CourseStatus {
    pub course: Course,
    pub state: Option<CourseState>,
    pub semester: Option<String>,
    pub grade: Option<Grade>,
    /// The requirement bank this record counts for.
    pub course_type: Option<String>,
    pub additional_msg: Option<String>,
    /// Whether the student edited this record by hand.
    pub modified: bool,
}

/// The mathematical value of a [`CourseStatus`].
pub struct StatusModel {
    pub course: CourseModel,
    pub state: Option<CourseState>,
    pub semester: Option<Seq<char>>,
    pub grade: Option<Grade>,
    pub course_type: Option<Seq<char>>,
    pub additional_msg: Option<Seq<char>>,
    pub modified: bool,
}

impl View for CourseStatus {
    type V = StatusModel;

    open spec fn view(&self) -> StatusModel {
        StatusModel {
            course: self.course@,
            state: self.state,
            semester: text_of(self.semester),
            grade: self.grade,
            course_type: text_of(self.course_type),
            additional_msg: text_of(self.additional_msg),
            modified: self.modified,
        }
    }
}

impl Clone for CourseStatus {
    fn clone(&self) -> (out: Self)
        ensures
            out@ == self@,
    {
        CourseStatus {
            course: self.course.clone(),
            state: self.state,
            semester: clone_text(&self.semester),
            grade: self.grade,
            course_type: clone_text(&self.course_type),
            additional_msg: clone_text(&self.additional_msg),
            modified: self.modified,
        }
    }
}

impl Default for CourseStatus {
    fn default() -> (out: Self)
        ensures
            out@ == StatusModel::blank(CourseModel::unknown(Seq::empty())),
    {
        CourseStatus {
            course: Course::default(),
            state: None,
            semester: None,
            grade: None,
            course_type: None,
            additional_msg: None,
            modified: false,
        }
    }
}

/// The lowest numeric grade that passes a course.
pub const PASSING_GRADE: u8 = 55;

/// Where the ordinal of a semester label starts: behind its last underscore,
/// or at its start where it has none.
pub open spec fn ordinal_start(label: Seq<char>) -> int
    decreases label.len(),
{
    if label.len() == 0 {
        0
    } else if label.last() == '_' {
        label.len() as int
    } else {
        ordinal_start(label.drop_last())
    }
}

/// The ordinal of a semester, in half steps: the label `חורף_1` gives 2, and
/// `קיץ_1.5` gives 3. No label, and a label without a readable ordinal, give 0.
pub open spec fn semester_ordinal(semester: Option<Seq<char>>) -> nat {
    match semester {
        Some(label) => match half_points(label.skip(ordinal_start(label))) {
            Some(v) => v,
            None => 0,
        },
        None => 0,
    }
}

impl StatusModel {
    /// A record of `course` of which nothing is known yet.
    pub open spec fn blank(course: CourseModel) -> StatusModel {
        StatusModel {
            course,
            state: None,
            semester: None,
            grade: None,
            course_type: None,
            additional_msg: None,
            modified: false,
        }
    }

    /// Whether the course was completed.
    pub open spec fn completed(self) -> bool {
        self.state == Some(CourseState::Complete)
    }

    /// Whether the student marked the record as irrelevant.
    pub open spec fn irrelevant(self) -> bool {
        self.state == Some(CourseState::Irrelevant)
    }

    /// Whether the grade passes the course.
    pub open spec fn passed(self) -> bool {
        match self.grade {
            Some(Grade::Numeric(g)) => g >= PASSING_GRADE,
            Some(Grade::Binary(b)) => b,
            None => false,
        }
    }

    /// Whether the bank `bank` may count this record: it is not irrelevant, and
    /// it is counted for no other bank.
    pub open spec fn valid_for_bank(self, bank: Seq<char>) -> bool {
        &&& !self.irrelevant()
        &&& (self.course_type is None || self.course_type == Some(bank))
    }

    /// The record with `bank` as the bank it counts for.
    pub open spec fn with_type(self, bank: Option<Seq<char>>) -> StatusModel {
        StatusModel { course_type: bank, ..self }
    }

    /// The record with `msg` as its explanation.
    pub open spec fn with_msg(self, msg: Seq<char>) -> StatusModel {
        StatusModel { additional_msg: Some(msg), ..self }
    }
}

impl CourseStatus {
    /// Whether the course was completed.
    pub fn completed(&self) -> (out: bool)
        ensures
            out == self@.completed(),
    {
        match self.state {
            Some(CourseState::Complete) => true,
            _ => false,
        }
    }

    /// Whether the student marked the record as irrelevant.
    pub fn irrelevant(&self) -> (out: bool)
        ensures
            out == self@.irrelevant(),
    {
        match self.state {
            Some(CourseState::Irrelevant) => true,
            _ => false,
        }
    }

    /// Whether the grade passes the course.
    pub fn passed(&self) -> (out: bool)
        ensures
            out == self@.passed(),
    {
        match self.grade {
            Some(Grade::Numeric(g)) => g >= PASSING_GRADE,
            Some(Grade::Binary(b)) => b,
            None => false,
        }
    }

    /// Whether the bank `bank` may count this record.
    pub fn valid_for_bank(&self, bank: &String) -> (out: bool)
        ensures
            out == self@.valid_for_bank(bank@),
    {
        if self.irrelevant() {
            return false;
        }
        match &self.course_type {
            Some(t) => *t == *bank,
            None => true,
        }
    }

    /// Sets the state from the grade: complete if it passes, else not complete.
    pub fn set_state(&mut self)
        ensures
            final(self)@ == (StatusModel {
                state: Some(
                    if old(self)@.passed() {
                        CourseState::Complete
                    } else {
                        CourseState::NotComplete
                    },
                ),
                ..old(self)@
            }),
    {
        self.state = Some(
            if self.passed() {
                CourseState::Complete
            } else {
                CourseState::NotComplete
            },
        );
    }

    /// The ordinal of the semester, in half steps.
    pub fn extract_semester(&self) -> (out: u32)
        ensures
            out == semester_ordinal(self@.semester),
    {
        match &self.semester {
            Some(label) => {
                let chars = chars_of(label.as_str());
                let mut p: usize = chars.len();
                assert(chars@.take(p as int) == chars@);
                while p > 0 && chars[p - 1] != '_'
                    invariant
                        p <= chars.len(),
                        ordinal_start(chars@) == ordinal_start(chars@.take(p as int)),
                    decreases p,
                {
                    assert(chars@.take(p as int).drop_last() == chars@.take(p - 1));
                    p -= 1;
                }
                assert(ordinal_start(chars@) == p);
                assert(chars@.subrange(p as int, chars.len() as int) == chars@.skip(p as int));
                match parse_half_points(&chars, p, chars.len()) {
                    Some(v) => v,
                    None => 0,
                }
            },
            None => 0,
        }
    }

    /// Lets the record count for `bank`.
    pub fn set_type(&mut self, bank: String)
        ensures
            final(self)@ == old(self)@.with_type(Some(bank@)),
    {
        self.course_type = Some(bank);
    }

    /// Gives the record the explanation `msg`.
    pub fn set_msg(&mut self, msg: String)
        ensures
            final(self)@ == old(self)@.with_msg(msg@),
    {
        self.additional_msg = Some(msg);
    }
}

/// Appending a record appends its model.
pub proof fn models_push(s: Seq<CourseStatus>, x: CourseStatus)
    ensures
        models(s.push(x)) == models(s).push(x@),
{
    assert(models(s.push(x)) =~= models(s).push(x@));
}

/// The models of a sequence of records.
pub open spec fn models(s: Seq<CourseStatus>) -> Seq<StatusModel> {
    Seq::new(s.len(), |i: int| s[i]@)
}

/// The models of a sequence of courses.
pub open spec fn course_models(s: Seq<Course>) -> Seq<CourseModel> {
    Seq::new(s.len(), |i: int| s[i]@)
}

/// The views of a sequence of strings.
pub open spec fn texts(s: Seq<String>) -> Seq<Seq<char>> {
    Seq::new(s.len(), |i: int| s[i]@)
}

/// The ids of a sequence of courses.
pub open spec fn course_ids(registry: Seq<CourseModel>) -> Seq<Seq<char>> {
    Seq::new(registry.len(), |k: int| registry[k].id)
}

/// The first course of the registry with the id `id`; a course without credit
/// or name where the registry has none.
pub open spec fn course_or_unknown(registry: Seq<CourseModel>, id: Seq<char>) -> CourseModel {
    let p = first_position(course_ids(registry), id);
    if p < registry.len() {
        registry[p]
    } else {
        CourseModel::unknown(id)
    }
}

/// Looks the course `id` up in the registry.
pub fn lookup_course(courses: &Vec<Course>, id: &String) -> (out: Course)
    ensures
        out@ == course_or_unknown(course_models(courses@), id@),
{
    let ghost ids = course_ids(course_models(courses@));
    let mut i: usize = 0;
    while i < courses.len()
        invariant
            i <= courses.len(),
            ids == course_ids(course_models(courses@)),
            forall|k: int| 0 <= k < i ==> ids[k] != id@,
        decreases courses.len() - i,
    {
        if courses[i].id == *id {
            proof {
                first_position_is(ids, id@, i as int);
            }
            return courses[i].clone();
        }
        i += 1;
    }
    proof {
        first_position_is(ids, id@, i as int);
    }
    Course { id: id.clone(), credit: 0, name: String::new() }
}

} // verus!
