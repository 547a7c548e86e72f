//! What is done to a report before the banks are evaluated: what an earlier
//! run derived is forgotten, and the catalog is fitted to the student.

use crate::catalog::{
    contains_text, first_position, first_position_is, replaced, replacement_models, without_course,
    Catalog, CatalogModel, MembershipModel, Replacement, ReplacementModel,
};
use crate::course::{
    course_models, course_or_unknown, lookup_course, models, models_push, semester_ordinal,
    text_of, Course, CourseModel, CourseStatus, StatusModel,
};
use crate::degree_status::{DegreeModel, DegreeStatus};
use crate::degree_status::normal_form::{
    in_semester_order, sorted_is_in_order, sorted_is_permutation,
};
use crate::messages::{
    catalog_replacements_msg, catalog_replacements_text, common_replacements_msg,
    common_replacements_text,
};
use vstd::prelude::*;

verus! {

/// Whether the student, and not an earlier run, put the record in the report:
/// it was edited by hand, or completed, or has a semester.
pub open spec fn added_by_user() -> spec_fn(StatusModel) -> bool {
    |cs: StatusModel| cs.modified || cs.completed() || cs.semester is Some
}

/// Whether the record is one that the student edited, of the course `id`, and
/// not irrelevant.
pub open spec fn is_relevant_edit(cs: StatusModel, id: Seq<char>) -> bool {
    cs.modified && !cs.irrelevant() && cs.course.id == id
}

/// Whether the student has an edited, relevant record of the course `id`.
pub open spec fn has_relevant_edit(s: Seq<StatusModel>, id: Seq<char>) -> bool {
    exists|k: int| 0 <= k < s.len() && is_relevant_edit(#[trigger] s[k], id)
}

/// Whether the record stays: it is not an irrelevant record of a course that
/// the student has entered again.
pub open spec fn not_superseded(s: Seq<StatusModel>) -> spec_fn(StatusModel) -> bool {
    |cs: StatusModel| !(cs.irrelevant() && has_relevant_edit(s, cs.course.id))
}

/// The record without the bank it counted for, unless the student chose the
/// bank and the record is relevant.
pub open spec fn type_cleared(cs: StatusModel) -> StatusModel {
    if !cs.modified || cs.irrelevant() {
        cs.with_type(None)
    } else {
        cs
    }
}

/// The records, each without the bank it counted for unless the student chose
/// it.
pub open spec fn types_cleared(s: Seq<StatusModel>) -> Seq<StatusModel> {
    Seq::new(s.len(), |k: int| type_cleared(s[k]))
}

/// The membership list without the courses of the irrelevant records.
pub open spec fn pruned(members: Seq<MembershipModel>, s: Seq<StatusModel>) -> Seq<MembershipModel>
    decreases s.len(),
{
    if s.len() == 0 {
        members
    } else if s.last().irrelevant() {
        without_course(pruned(members, s.drop_last()), s.last().course.id)
    } else {
        pruned(members, s.drop_last())
    }
}

/// The records as they are after a reset.
pub open spec fn normalised(s: Seq<StatusModel>) -> Seq<StatusModel> {
    let by_user = s.filter(added_by_user());
    types_cleared(by_user.filter(not_superseded(by_user)))
}

/// `sorted` with `cs` put behind the last record whose semester is not later
/// than its own.
pub open spec fn inserted(sorted: Seq<StatusModel>, cs: StatusModel) -> Seq<StatusModel>
    decreases sorted.len(),
{
    if sorted.len() == 0 {
        seq![cs]
    } else if semester_ordinal(sorted.last().semester) <= semester_ordinal(cs.semester) {
        sorted.push(cs)
    } else {
        inserted(sorted.drop_last(), cs).push(sorted.last())
    }
}

/// The records by semester, earliest first; records of one semester stay in
/// the order they had.
pub open spec fn sorted_by_semester(s: Seq<StatusModel>) -> Seq<StatusModel>
    decreases s.len(),
{
    if s.len() == 0 {
        s
    } else {
        inserted(sorted_by_semester(s.drop_last()), s.last())
    }
}

/// The student took `replacement` in place of the catalog's `course_id`.
#[derive(Debug, PartialEq, Eq)]
pub struct StudentReplacement {
    pub course_id: String,
    pub replacement: String,
}

/// The mathematical value of a [`StudentReplacement`].
pub struct StudentReplacementModel {
    pub course_id: Seq<char>,
    pub replacement: Seq<char>,
}

impl View for StudentReplacement {
    type V = StudentReplacementModel;

    open spec fn view(&self) -> StudentReplacementModel {
        StudentReplacementModel { course_id: self.course_id@, replacement: self.replacement@ }
    }
}

/// The models of a sequence of notes on replacements.
pub open spec fn student_replacement_models(s: Seq<StudentReplacement>) -> Seq<
    StudentReplacementModel,
> {
    Seq::new(s.len(), |k: int| s[k]@)
}

/// The replaced course of each note, in order.
pub open spec fn replaced_ids(found: Seq<StudentReplacementModel>) -> Seq<Seq<char>> {
    Seq::new(found.len(), |k: int| found[k].course_id)
}

/// `found` with the note that `replacement` stands for `course_id`: it takes
/// the place of an earlier note on `course_id`, or is added at the end.
pub open spec fn recorded(
    found: Seq<StudentReplacementModel>,
    course_id: Seq<char>,
    replacement: Seq<char>,
) -> Seq<StudentReplacementModel> {
    let p = first_position(replaced_ids(found), course_id);
    let note = StudentReplacementModel { course_id, replacement };
    if p < found.len() {
        found.update(p, note)
    } else {
        found.push(note)
    }
}

/// `found` after the rules have been read for the student's course `id`: each
/// rule that accepts `id` is noted, in the order of the rules.
pub open spec fn noted_rules(
    found: Seq<StudentReplacementModel>,
    rules: Seq<ReplacementModel>,
    id: Seq<char>,
) -> Seq<StudentReplacementModel>
    decreases rules.len(),
{
    if rules.len() == 0 {
        found
    } else {
        let before = noted_rules(found, rules.drop_last(), id);
        if rules.last().replacements.contains(id) {
            recorded(before, rules.last().course_id, id)
        } else {
            before
        }
    }
}

/// The replacements that the records show: the records are read in order, and
/// for each the catalog's rules before the common ones. A later note on a
/// course takes the place of an earlier one.
pub open spec fn student_replacements(s: Seq<StatusModel>, catalog: CatalogModel) -> Seq<
    StudentReplacementModel,
>
    decreases s.len(),
{
    if s.len() == 0 {
        Seq::empty()
    } else {
        let before = student_replacements(s.drop_last(), catalog);
        let id = s.last().course.id;
        noted_rules(noted_rules(before, catalog.catalog_replacements, id), catalog.common_replacements, id)
    }
}

/// The course of the last rule that accepts `id` in its place.
pub open spec fn last_match(rules: Seq<ReplacementModel>, id: Seq<char>) -> Option<Seq<char>>
    decreases rules.len(),
{
    if rules.len() == 0 {
        None
    } else if rules.last().replacements.contains(id) {
        Some(rules.last().course_id)
    } else {
        last_match(rules.drop_last(), id)
    }
}

/// The record with the note on what its course stands for: the last common
/// rule that accepts it decides; where there is none, the catalog's last.
/// A record that no rule accepts is left as it is.
pub open spec fn with_replacement_msg(
    cs: StatusModel,
    catalog: CatalogModel,
    registry: Seq<CourseModel>,
) -> StatusModel {
    match last_match(catalog.common_replacements, cs.course.id) {
        Some(target) => cs.with_msg(common_replacements_text(course_or_unknown(registry, target))),
        None => match last_match(catalog.catalog_replacements, cs.course.id) {
            Some(target) => cs.with_msg(
                catalog_replacements_text(course_or_unknown(registry, target)),
            ),
            None => cs,
        },
    }
}

/// The records, each with the note on what its course stands for.
pub open spec fn with_replacement_msgs(
    s: Seq<StatusModel>,
    catalog: CatalogModel,
    registry: Seq<CourseModel>,
) -> Seq<StatusModel> {
    Seq::new(s.len(), |k: int| with_replacement_msg(s[k], catalog, registry))
}

/// The membership list after each of the replacements, in order.
pub open spec fn applied(members: Seq<MembershipModel>, found: Seq<StudentReplacementModel>) -> Seq<
    MembershipModel,
>
    decreases found.len(),
{
    if found.len() == 0 {
        members
    } else {
        replaced(applied(members, found.drop_last()), found.last().course_id, found.last().replacement)
    }
}

/// The records after preprocessing.
pub open spec fn preprocessed_statuses(
    s: Seq<StatusModel>,
    catalog: CatalogModel,
    registry: Seq<CourseModel>,
) -> Seq<StatusModel> {
    with_replacement_msgs(sorted_by_semester(normalised(s)), catalog, registry)
}

/// The catalog after preprocessing.
pub open spec fn preprocessed_catalog(s: Seq<StatusModel>, catalog: CatalogModel) -> CatalogModel {
    CatalogModel {
        course_to_bank: applied(
            pruned(catalog.course_to_bank, normalised(s)),
            student_replacements(sorted_by_semester(normalised(s)), catalog),
        ),
        ..catalog
    }
}

/// Notes that `replacement` stands for `course_id`.
fn record(found: &mut Vec<StudentReplacement>, course_id: String, replacement: String)
    ensures
        student_replacement_models(final(found)@) == recorded(
            student_replacement_models(old(found)@),
            course_id@,
            replacement@,
        ),
{
    let ghost before = student_replacement_models(found@);
    let ghost ids = replaced_ids(before);
    let mut i: usize = 0;
    while i < found.len()
        invariant
            i <= found.len(),
            *found == *old(found),
            before == student_replacement_models(found@),
            ids == replaced_ids(before),
            forall|k: int| 0 <= k < i ==> ids[k] != course_id@,
        decreases found.len() - i,
    {
        if found[i].course_id == course_id {
            proof {
                first_position_is(ids, course_id@, i as int);
            }
            found.set(i, StudentReplacement { course_id, replacement });
            assert(student_replacement_models(found@) =~= recorded(
                before,
                course_id@,
                replacement@,
            ));
            return ;
        }
        i += 1;
    }
    proof {
        first_position_is(ids, course_id@, i as int);
    }
    found.push(StudentReplacement { course_id, replacement });
    assert(student_replacement_models(found@) =~= recorded(before, course_id@, replacement@));
}

/// Reads the rules for the student's course `id`: notes each rule that
/// accepts it, and returns the course of the last such rule.
fn note_rules(found: &mut Vec<StudentReplacement>, rules: &Vec<Replacement>, id: &String) -> (out:
    Option<String>)
    ensures
        student_replacement_models(final(found)@) == noted_rules(
            student_replacement_models(old(found)@),
            replacement_models(rules@),
            id@,
        ),
        text_of(out) == last_match(replacement_models(rules@), id@),
{
    let ghost start = student_replacement_models(found@);
    let ghost all = replacement_models(rules@);
    let mut last: Option<String> = None;
    let mut k: usize = 0;
    while k < rules.len()
        invariant
            k <= rules.len(),
            all == replacement_models(rules@),
            student_replacement_models(found@) == noted_rules(start, all.take(k as int), id@),
            text_of(last) == last_match(all.take(k as int), id@),
        decreases rules.len() - k,
    {
        proof {
            assert(all.take(k + 1).drop_last() == all.take(k as int));
            assert(all.take(k + 1).last() == rules[k as int]@);
        }
        if contains_text(&rules[k].replacements, id) {
            record(found, rules[k].course_id.clone(), id.clone());
            last = Some(rules[k].course_id.clone());
        }
        k += 1;
    }
    assert(all.take(k as int) == all);
    last
}

impl DegreeStatus {
    /// Removes the records that an earlier run added: those that the student
    /// neither edited nor completed, and that have no semester.
    pub fn remove_courses_added_by_algorithm(&mut self)
        ensures
            final(self)@ == (DegreeModel {
                course_statuses: old(self)@.course_statuses.filter(added_by_user()),
                ..old(self)@
            }),
    {
        let ghost src = self@.course_statuses;
        let mut kept: Vec<CourseStatus> = Vec::new();
        let mut i: usize = 0;
        while i < self.course_statuses.len()
            invariant
                i <= self.course_statuses.len(),
                *self == *old(self),
                src == models(self.course_statuses@),
                models(kept@) == src.take(i as int).filter(added_by_user()),
            decreases self.course_statuses.len() - i,
        {
            proof {
                assert(src.take(i + 1) == src.take(i as int).push(src[i as int]));
                src.take(i as int).lemma_filter_push(src[i as int], added_by_user());
            }
            let cs = &self.course_statuses[i];
            if cs.modified || cs.completed() || cs.semester.is_some() {
                proof {
                    models_push(kept@, *cs);
                }
                let copy = cs.clone();
                proof {
                    models_push(kept@, copy);
                }
                kept.push(copy);
            }
            i += 1;
        }
        assert(src.take(i as int) == src);
        self.course_statuses = kept;
    }

    /// Whether the student has an edited, relevant record of the course `id`.
    pub fn has_relevant_edit(&self, id: &String) -> (out: bool)
        ensures
            out == has_relevant_edit(self@.course_statuses, id@),
    {
        let mut k: usize = 0;
        while k < self.course_statuses.len()
            invariant
                k <= self.course_statuses.len(),
                forall|j: int| 0 <= j < k ==> !is_relevant_edit(#[trigger] self@.course_statuses[j], id@),
            decreases self.course_statuses.len() - k,
        {
            let cs = &self.course_statuses[k];
            if cs.modified && !cs.irrelevant() && cs.course.id == *id {
                assert(is_relevant_edit(self@.course_statuses[k as int], id@));
                return true;
            }
            k += 1;
        }
        false
    }

    /// Removes the irrelevant records of courses that the student has entered
    /// again by hand.
    pub fn remove_irrelevant_courses_added_by_user(&mut self)
        ensures
            final(self)@ == (DegreeModel {
                course_statuses: old(self)@.course_statuses.filter(
                    not_superseded(old(self)@.course_statuses),
                ),
                ..old(self)@
            }),
    {
        let ghost src = self@.course_statuses;
        let mut kept: Vec<CourseStatus> = Vec::new();
        let mut i: usize = 0;
        while i < self.course_statuses.len()
            invariant
                i <= self.course_statuses.len(),
                *self == *old(self),
                src == models(self.course_statuses@),
                models(kept@) == src.take(i as int).filter(not_superseded(src)),
            decreases self.course_statuses.len() - i,
        {
            proof {
                assert(src.take(i + 1) == src.take(i as int).push(src[i as int]));
                src.take(i as int).lemma_filter_push(src[i as int], not_superseded(src));
            }
            let superseded = self.course_statuses[i].irrelevant() && self.has_relevant_edit(
                &self.course_statuses[i].course.id,
            );
            if !superseded {
                let copy = self.course_statuses[i].clone();
                proof {
                    models_push(kept@, copy);
                }
                kept.push(copy);
            }
            i += 1;
        }
        assert(src.take(i as int) == src);
        self.course_statuses = kept;
    }

    /// Forgets which bank each record counted for, but where the student chose
    /// the bank of a relevant record.
    pub fn clear_type_for_unmodified_and_irrelevant_courses(&mut self)
        ensures
            final(self)@ == (DegreeModel {
                course_statuses: types_cleared(old(self)@.course_statuses),
                ..old(self)@
            }),
    {
        let ghost src = self@.course_statuses;
        let mut i: usize = 0;
        while i < self.course_statuses.len()
            invariant
                i <= self.course_statuses.len() == src.len(),
                self@ == (DegreeModel { course_statuses: self@.course_statuses, ..old(self)@ }),
                forall|k: int| 0 <= k < i ==> #[trigger] self@.course_statuses[k] == type_cleared(src[k]),
                forall|k: int| i <= k < src.len() ==> #[trigger] self@.course_statuses[k] == src[k],
            decreases self.course_statuses.len() - i,
        {
            let ghost before = self@.course_statuses;
            if !self.course_statuses[i].modified || self.course_statuses[i].irrelevant() {
                let mut copy = self.course_statuses[i].clone();
                copy.course_type = None;
                self.course_statuses.set(i, copy);
            }
            proof {
                assert(before[i as int] == src[i as int]);
                assert(self@.course_statuses[i as int] == type_cleared(src[i as int]));
                assert forall|k: int| 0 <= k < src.len() && k != i implies #[trigger] self@.course_statuses[k]
                    == before[k] by {}
            }
            i += 1;
        }
        assert(self@.course_statuses =~= types_cleared(src));
    }

    /// Takes the courses of the irrelevant records out of the catalog's
    /// membership list.
    pub fn remove_irrelevant_courses_from_catalog(&self, catalog: &mut Catalog)
        ensures
            final(catalog)@ == (CatalogModel {
                course_to_bank: pruned(old(catalog)@.course_to_bank, self@.course_statuses),
                ..old(catalog)@
            }),
    {
        let ghost src = self@.course_statuses;
        let ghost members = catalog@.course_to_bank;
        let mut i: usize = 0;
        while i < self.course_statuses.len()
            invariant
                i <= self.course_statuses.len(),
                src == self@.course_statuses,
                catalog@ == (CatalogModel {
                    course_to_bank: pruned(members, src.take(i as int)),
                    ..old(catalog)@
                }),
            decreases self.course_statuses.len() - i,
        {
            proof {
                assert(src.take(i + 1).drop_last() == src.take(i as int));
                assert(src.take(i + 1).last() == src[i as int]);
            }
            if self.course_statuses[i].irrelevant() {
                catalog.remove_course(&self.course_statuses[i].course.id);
            }
            i += 1;
        }
        assert(src.take(i as int) == src);
    }

    /// Forgets what an earlier run derived: the requirements, the notes and the
    /// total; the records it added; the banks it chose. The catalog loses the
    /// courses of the irrelevant records.
    pub fn reset(&mut self, catalog: &mut Catalog)
        ensures
            final(self)@ == (DegreeModel {
                course_statuses: normalised(old(self)@.course_statuses),
                course_bank_requirements: Seq::empty(),
                overflow_msgs: Seq::empty(),
                total_credit: 0,
            }),
            final(catalog)@ == (CatalogModel {
                course_to_bank: pruned(
                    old(catalog)@.course_to_bank,
                    normalised(old(self)@.course_statuses),
                ),
                ..old(catalog)@
            }),
    {
        self.course_bank_requirements.clear();
        self.overflow_msgs.clear();
        self.total_credit = 0;
        assert(self@.course_bank_requirements =~= Seq::empty());
        assert(self@.overflow_msgs =~= Seq::empty());
        self.remove_courses_added_by_algorithm();
        self.remove_irrelevant_courses_added_by_user();
        self.clear_type_for_unmodified_and_irrelevant_courses();
        self.remove_irrelevant_courses_from_catalog(catalog);
    }

    /// Notes which courses of the catalog the student replaced by others, and
    /// gives each record that replaces a course the text that says so.
    pub fn get_all_student_replacements_and_set_msg(
        &mut self,
        catalog: &Catalog,
        courses: &Vec<Course>,
    ) -> (found: Vec<StudentReplacement>)
        ensures
            final(self)@ == (DegreeModel {
                course_statuses: with_replacement_msgs(
                    old(self)@.course_statuses,
                    catalog@,
                    course_models(courses@),
                ),
                ..old(self)@
            }),
            student_replacement_models(found@) == student_replacements(
                old(self)@.course_statuses,
                catalog@,
            ),
    {
        let ghost src = self@.course_statuses;
        let ghost registry = course_models(courses@);
        let mut found: Vec<StudentReplacement> = Vec::new();
        assert(student_replacement_models(found@) =~= Seq::empty());
        let mut i: usize = 0;
        while i < self.course_statuses.len()
            invariant
                i <= self.course_statuses.len() == src.len(),
                registry == course_models(courses@),
                self@ == (DegreeModel { course_statuses: self@.course_statuses, ..old(self)@ }),
                forall|k: int|
                    0 <= k < i ==> #[trigger] self@.course_statuses[k] == with_replacement_msg(
                        src[k],
                        catalog@,
                        registry,
                    ),
                forall|k: int| i <= k < src.len() ==> #[trigger] self@.course_statuses[k] == src[k],
                student_replacement_models(found@) == student_replacements(
                    src.take(i as int),
                    catalog@,
                ),
            decreases self.course_statuses.len() - i,
        {
            let ghost before = self@.course_statuses;
            proof {
                assert(src.take(i + 1).drop_last() == src.take(i as int));
                assert(src.take(i + 1).last() == src[i as int]);
                assert(before[i as int] == src[i as int]);
            }
            let id = self.course_statuses[i].course.id.clone();
            let in_catalog = note_rules(&mut found, &catalog.catalog_replacements, &id);
            let in_common = note_rules(&mut found, &catalog.common_replacements, &id);
            match in_common {
                Some(target) => {
                    let mut copy = self.course_statuses[i].clone();
                    copy.set_msg(common_replacements_msg(&lookup_course(courses, &target)));
                    self.course_statuses.set(i, copy);
                },
                None => match in_catalog {
                    Some(target) => {
                        let mut copy = self.course_statuses[i].clone();
                        copy.set_msg(catalog_replacements_msg(&lookup_course(courses, &target)));
                        self.course_statuses.set(i, copy);
                    },
                    None => {},
                },
            }
            proof {
                assert(self@.course_statuses[i as int] == with_replacement_msg(
                    src[i as int],
                    catalog@,
                    registry,
                ));
                assert forall|k: int| 0 <= k < src.len() && k != i implies #[trigger] self@.course_statuses[k]
                    == before[k] by {}
            }
            i += 1;
        }
        assert(src.take(i as int) == src);
        assert(self@.course_statuses =~= with_replacement_msgs(src, catalog@, registry));
        found
    }

    /// Where the student took a course that may stand for a course of the
    /// catalog, the student's course takes that course's place in the catalog.
    pub fn replace_student_course_with_courses_in_catalog(
        &mut self,
        catalog: &mut Catalog,
        courses: &Vec<Course>,
    )
        ensures
            final(self)@ == (DegreeModel {
                course_statuses: with_replacement_msgs(
                    old(self)@.course_statuses,
                    old(catalog)@,
                    course_models(courses@),
                ),
                ..old(self)@
            }),
            final(catalog)@ == (CatalogModel {
                course_to_bank: applied(
                    old(catalog)@.course_to_bank,
                    student_replacements(old(self)@.course_statuses, old(catalog)@),
                ),
                ..old(catalog)@
            }),
    {
        let found = self.get_all_student_replacements_and_set_msg(catalog, courses);
        let ghost notes = student_replacement_models(found@);
        let ghost members = catalog@.course_to_bank;
        let mut k: usize = 0;
        while k < found.len()
            invariant
                k <= found.len(),
                notes == student_replacement_models(found@),
                catalog@ == (CatalogModel {
                    course_to_bank: applied(members, notes.take(k as int)),
                    ..old(catalog)@
                }),
            decreases found.len() - k,
        {
            proof {
                assert(notes.take(k + 1).drop_last() == notes.take(k as int));
                assert(notes.take(k + 1).last() == found[k as int]@);
            }
            catalog.replace_courses(&found[k].course_id, &found[k].replacement);
            k += 1;
        }
        assert(notes.take(k as int) == notes);
    }

    /// Puts the records in the order of their semesters, earliest first;
    /// records of one semester, and those without one, keep their order.
    pub fn sort_by_semester(&mut self)
        ensures
            final(self)@ == (DegreeModel {
                course_statuses: sorted_by_semester(old(self)@.course_statuses),
                ..old(self)@
            }),
            in_semester_order(final(self)@.course_statuses),
            final(self)@.course_statuses.to_multiset() == old(self)@.course_statuses.to_multiset(),
    {
        proof {
            sorted_is_in_order(self@.course_statuses);
            sorted_is_permutation(self@.course_statuses);
        }
        let ghost src = self@.course_statuses;
        let mut sorted: Vec<CourseStatus> = Vec::new();
        assert(models(sorted@) =~= sorted_by_semester(src.take(0)));
        let mut i: usize = 0;
        while i < self.course_statuses.len()
            invariant
                i <= self.course_statuses.len(),
                *self == *old(self),
                src == models(self.course_statuses@),
                models(sorted@) == sorted_by_semester(src.take(i as int)),
            decreases self.course_statuses.len() - i,
        {
            proof {
                assert(src.take(i + 1).drop_last() == src.take(i as int));
                assert(src.take(i + 1).last() == src[i as int]);
            }
            let copy = self.course_statuses[i].clone();
            let key = copy.extract_semester();
            let ghost before = models(sorted@);
            let mut p: usize = sorted.len();
            proof {
                assert(before.take(p as int) == before);
                assert(inserted(before, copy@) + before.skip(p as int) =~= inserted(before, copy@));
            }
            while p > 0 && sorted[p - 1].extract_semester() > key
                invariant
                    p <= sorted.len(),
                    before == models(sorted@),
                    key == semester_ordinal(copy@.semester),
                    inserted(before, copy@) == inserted(before.take(p as int), copy@) + before.skip(
                        p as int,
                    ),
                decreases p,
            {
                proof {
                    let head = before.take(p as int);
                    assert(head.drop_last() == before.take(p - 1));
                    assert(head.last() == before[p - 1]);
                    assert(inserted(head, copy@) == inserted(before.take(p - 1), copy@).push(
                        before[p - 1],
                    ));
                    assert(inserted(before.take(p - 1), copy@).push(before[p - 1]) + before.skip(
                        p as int,
                    ) =~= inserted(before.take(p - 1), copy@) + before.skip(p - 1));
                }
                p -= 1;
            }
            proof {
                let head = before.take(p as int);
                if p > 0 {
                    assert(head.last() == before[p - 1]);
                }
                assert(inserted(head, copy@) =~= head.push(copy@));
                assert(head.push(copy@) + before.skip(p as int) =~= before.insert(p as int, copy@));
            }
            sorted.insert(p, copy);
            assert(models(sorted@) =~= before.insert(p as int, copy@));
            i += 1;
        }
        assert(src.take(i as int) == src);
        self.course_statuses = sorted;
    }

    /// Makes the report and the catalog ready for the banks to be evaluated.
    pub fn preprocess(&mut self, catalog: &mut Catalog, courses: &Vec<Course>)
        ensures
            final(self)@ == (DegreeModel {
                course_statuses: preprocessed_statuses(
                    old(self)@.course_statuses,
                    old(catalog)@,
                    course_models(courses@),
                ),
                course_bank_requirements: Seq::empty(),
                overflow_msgs: Seq::empty(),
                total_credit: 0,
            }),
            final(catalog)@ == preprocessed_catalog(old(self)@.course_statuses, old(catalog)@),
    {
        self.reset(catalog);
        self.sort_by_semester();
        let ghost pruned_catalog = catalog@;
        self.replace_student_course_with_courses_in_catalog(catalog, courses);
        proof {
            let s = sorted_by_semester(normalised(old(self)@.course_statuses));
            replacements_ignore_memberships(s, pruned_catalog, old(catalog)@, course_models(courses@));
        }
    }
}

/// Which replacements the records show, and the texts they get, depend on the
/// catalog's rules alone, not on its membership list.
pub proof fn replacements_ignore_memberships(
    s: Seq<StatusModel>,
    a: CatalogModel,
    b: CatalogModel,
    registry: Seq<CourseModel>,
)
    requires
        a.catalog_replacements == b.catalog_replacements,
        a.common_replacements == b.common_replacements,
    ensures
        student_replacements(s, a) == student_replacements(s, b),
        with_replacement_msgs(s, a, registry) == with_replacement_msgs(s, b, registry),
    decreases s.len(),
{
    if s.len() > 0 {
        replacements_ignore_memberships(s.drop_last(), a, b, registry);
    }
    assert(with_replacement_msgs(s, a, registry) =~= with_replacement_msgs(s, b, registry));
}

} // verus!
