//! What holds of preprocessing: it adds nothing, it sorts the records
//! stably, and a second round changes nothing more.

use crate::bank_rule::{relevant_total, weight};
use crate::catalog::{
    lists_each_course_once, replaced_lists_each_course_once, without_course_holds, CatalogModel,
    MembershipModel,
};
use crate::course::{semester_ordinal, CourseModel, StatusModel};
use crate::degree_status::preprocessing::{
    added_by_user, applied, has_relevant_edit, inserted, is_relevant_edit, normalised,
    not_superseded, preprocessed_catalog, preprocessed_statuses, pruned,
    replacements_ignore_memberships, sorted_by_semester, student_replacements, type_cleared,
    types_cleared, with_replacement_msgs, StudentReplacementModel,
};
use vstd::prelude::*;

verus! {

/// Putting a record in its place adds one record.
pub proof fn inserted_len(sorted: Seq<StatusModel>, cs: StatusModel)
    ensures
        inserted(sorted, cs).len() == sorted.len() + 1,
    decreases sorted.len(),
{
    if sorted.len() > 0 && !(semester_ordinal(sorted.last().semester) <= semester_ordinal(
        cs.semester,
    )) {
        inserted_len(sorted.drop_last(), cs);
    }
}

/// Sorting keeps the number of records.
pub proof fn sorted_len(s: Seq<StatusModel>)
    ensures
        sorted_by_semester(s).len() == s.len(),
    decreases s.len(),
{
    if s.len() > 0 {
        sorted_len(s.drop_last());
        inserted_len(sorted_by_semester(s.drop_last()), s.last());
    }
}

/// Preprocessing adds no record.
pub proof fn preprocessed_len(s: Seq<StatusModel>, catalog: CatalogModel, registry: Seq<CourseModel>)
    ensures
        preprocessed_statuses(s, catalog, registry).len() <= s.len(),
{
    let by_user = s.filter(added_by_user());
    s.lemma_filter_len(added_by_user());
    by_user.lemma_filter_len(not_superseded(by_user));
    sorted_len(normalised(s));
}

/// Where two lists of records agree, place by place, on which records are
/// completed and on their credit, they weigh the same.
pub proof fn same_weight(a: Seq<StatusModel>, b: Seq<StatusModel>, by_credit: bool)
    requires
        a.len() == b.len(),
        forall|k: int|
            0 <= k < a.len() ==> (#[trigger] a[k]).completed() == (#[trigger] b[k]).completed()
                && a[k].course.credit == b[k].course.credit,
    ensures
        relevant_total(a, by_credit) == relevant_total(b, by_credit),
    decreases a.len(),
{
    if a.len() > 0 {
        same_weight(a.drop_last(), b.drop_last(), by_credit);
    }
}

/// Records that are left out take their weight with them.
pub proof fn filtered_weight(s: Seq<StatusModel>, keep: spec_fn(StatusModel) -> bool, by_credit: bool)
    ensures
        relevant_total(s.filter(keep), by_credit) <= relevant_total(s, by_credit),
    decreases s.len(),
{
    if s.len() > 0 {
        let rest = s.drop_last();
        filtered_weight(rest, keep, by_credit);
        assert(s == rest.push(s.last()));
        rest.lemma_filter_push(s.last(), keep);
        if keep(s.last()) {
            assert(rest.filter(keep).push(s.last()).drop_last() == rest.filter(keep));
        }
    } else {
        s.lemma_filter_len(keep);
    }
}

/// A record put in its place adds its weight.
pub proof fn inserted_weight(sorted: Seq<StatusModel>, cs: StatusModel, by_credit: bool)
    ensures
        relevant_total(inserted(sorted, cs), by_credit) == relevant_total(sorted.push(cs), by_credit),
    decreases sorted.len(),
{
    assert(sorted.push(cs).drop_last() == sorted);
    if sorted.len() == 0 {
        assert(inserted(sorted, cs) =~= sorted.push(cs));
    } else if !(semester_ordinal(sorted.last().semester) <= semester_ordinal(cs.semester)) {
        let rest = sorted.drop_last();
        let last = sorted.last();
        inserted_weight(rest, cs, by_credit);
        assert(inserted(rest, cs).push(last).drop_last() == inserted(rest, cs));
        assert(rest.push(cs).drop_last() == rest);
        assert(relevant_total(rest.push(cs), by_credit) == relevant_total(rest, by_credit) + (if cs.completed() {
            weight(cs, by_credit)
        } else {
            0
        }));
        assert(relevant_total(sorted, by_credit) == relevant_total(rest, by_credit) + (if last.completed() {
            weight(last, by_credit)
        } else {
            0
        }));
    }
}

/// Sorting keeps the weight of the records.
pub proof fn sorted_weight(s: Seq<StatusModel>, by_credit: bool)
    ensures
        relevant_total(sorted_by_semester(s), by_credit) == relevant_total(s, by_credit),
    decreases s.len(),
{
    if s.len() > 0 {
        let rest = s.drop_last();
        sorted_weight(rest, by_credit);
        inserted_weight(sorted_by_semester(rest), s.last(), by_credit);
        assert(sorted_by_semester(rest).push(s.last()).drop_last() == sorted_by_semester(rest));
    }
}

/// Preprocessing adds no weight to the records.
pub proof fn preprocessed_weight(
    s: Seq<StatusModel>,
    catalog: CatalogModel,
    registry: Seq<CourseModel>,
    by_credit: bool,
)
    ensures
        relevant_total(preprocessed_statuses(s, catalog, registry), by_credit) <= relevant_total(
            s,
            by_credit,
        ),
{
    let by_user = s.filter(added_by_user());
    let kept = by_user.filter(not_superseded(by_user));
    filtered_weight(s, added_by_user(), by_credit);
    filtered_weight(by_user, not_superseded(by_user), by_credit);
    same_weight(types_cleared(kept), kept, by_credit);
    sorted_weight(normalised(s), by_credit);
    let sorted = sorted_by_semester(normalised(s));
    same_weight(with_replacement_msgs(sorted, catalog, registry), sorted, by_credit);
}

/// Each record of `inserted(sorted, cs)` is `cs` or a record of `sorted`.
pub proof fn inserted_holds(sorted: Seq<StatusModel>, cs: StatusModel, k: int)
    requires
        0 <= k < inserted(sorted, cs).len(),
    ensures
        inserted(sorted, cs)[k] == cs || sorted.contains(inserted(sorted, cs)[k]),
    decreases sorted.len(),
{
    if sorted.len() > 0 {
        if semester_ordinal(sorted.last().semester) <= semester_ordinal(cs.semester) {
            if k < sorted.len() {
                assert(sorted[k] == inserted(sorted, cs)[k]);
            }
        } else {
            let rest = sorted.drop_last();
            inserted_len(rest, cs);
            if k < inserted(rest, cs).len() {
                inserted_holds(rest, cs, k);
                let e = inserted(rest, cs)[k];
                if rest.contains(e) {
                    let j = choose|j: int| 0 <= j < rest.len() && rest[j] == e;
                    assert(sorted[j] == e);
                }
            } else {
                assert(sorted[sorted.len() - 1] == sorted.last());
            }
        }
    }
}

/// Sorting brings in no record: each record of the sorted list is one of the
/// list.
pub proof fn sorted_holds(s: Seq<StatusModel>, k: int)
    requires
        0 <= k < sorted_by_semester(s).len(),
    ensures
        s.contains(sorted_by_semester(s)[k]),
    decreases s.len(),
{
    if s.len() > 0 {
        let rest = s.drop_last();
        let before = sorted_by_semester(rest);
        inserted_holds(before, s.last(), k);
        let e = sorted_by_semester(s)[k];
        if e == s.last() {
            assert(s[s.len() - 1] == e);
        } else {
            let j = choose|j: int| 0 <= j < before.len() && before[j] == e;
            sorted_holds(rest, j);
            let i = choose|i: int| 0 <= i < rest.len() && rest[i] == e;
            assert(s[i] == e);
        }
    }
}

/// After preprocessing, a record counts for a bank only where the student
/// chose the bank for it, and an irrelevant record counts for none.
pub proof fn preprocessed_types(
    s: Seq<StatusModel>,
    catalog: CatalogModel,
    registry: Seq<CourseModel>,
    k: int,
)
    requires
        0 <= k < preprocessed_statuses(s, catalog, registry).len(),
    ensures
        preprocessed_statuses(s, catalog, registry)[k].course_type is Some
            ==> preprocessed_statuses(s, catalog, registry)[k].modified
            && !preprocessed_statuses(s, catalog, registry)[k].irrelevant(),
{
    let normal = normalised(s);
    let sorted = sorted_by_semester(normal);
    sorted_holds(normal, k);
    let j = choose|j: int| 0 <= j < normal.len() && normal[j] == sorted[k];
    assert(normal[j].course_type is Some ==> normal[j].modified && !normal[j].irrelevant());
}

/// Each record that a filter keeps is a record of the list, and one to keep.
pub proof fn filtered_holds(s: Seq<StatusModel>, keep: spec_fn(StatusModel) -> bool, i: int)
    requires
        0 <= i < s.filter(keep).len(),
    ensures
        keep(s.filter(keep)[i]),
        s.contains(s.filter(keep)[i]),
    decreases s.len(),
{
    if s.len() == 0 {
        s.lemma_filter_len(keep);
    } else {
        let rest = s.drop_last();
        assert(s == rest.push(s.last()));
        rest.lemma_filter_push(s.last(), keep);
        if i < rest.filter(keep).len() {
            filtered_holds(rest, keep, i);
            let e = rest.filter(keep)[i];
            let j = choose|j: int| 0 <= j < rest.len() && rest[j] == e;
            assert(s[j] == e);
        } else {
            assert(s[s.len() - 1] == s.last());
        }
    }
}

/// A filter that every record passes changes nothing.
pub proof fn filter_keeps_all(s: Seq<StatusModel>, keep: spec_fn(StatusModel) -> bool)
    requires
        forall|k: int| 0 <= k < s.len() ==> keep(#[trigger] s[k]),
    ensures
        s.filter(keep) == s,
    decreases s.len(),
{
    if s.len() == 0 {
        s.lemma_filter_len(keep);
        assert(s.filter(keep) =~= s);
    } else {
        let rest = s.drop_last();
        assert(s == rest.push(s.last()));
        rest.lemma_filter_push(s.last(), keep);
        assert forall|k: int| 0 <= k < rest.len() implies keep(#[trigger] rest[k]) by {
            assert(rest[k] == s[k]);
        }
        filter_keeps_all(rest, keep);
        assert(keep(s[s.len() - 1]));
    }
}

/// Whether a reset would change nothing: every record is the student's, none
/// is an irrelevant record of a course entered again, and none counts for a
/// bank that the student did not choose.
pub open spec fn is_normal(s: Seq<StatusModel>) -> bool {
    forall|k: int|
        0 <= k < s.len() ==> added_by_user()(#[trigger] s[k]) && not_superseded(s)(s[k])
            && type_cleared(s[k]) == s[k]
}

/// Whether the records are in the order of their semesters.
pub open spec fn in_semester_order(s: Seq<StatusModel>) -> bool {
    forall|i: int, j: int|
        0 <= i < j < s.len() ==> semester_ordinal((#[trigger] s[i]).semester) <= semester_ordinal(
            (#[trigger] s[j]).semester,
        )
}

/// A reset of records that need none changes nothing.
pub proof fn normal_is_fixed(s: Seq<StatusModel>)
    requires
        is_normal(s),
    ensures
        normalised(s) == s,
{
    filter_keeps_all(s, added_by_user());
    filter_keeps_all(s, not_superseded(s));
    assert(types_cleared(s) =~= s);
}

/// After a reset, the records need none.
pub proof fn normalised_is_normal(s: Seq<StatusModel>)
    ensures
        is_normal(normalised(s)),
{
    let by_user = s.filter(added_by_user());
    let kept = by_user.filter(not_superseded(by_user));
    let normal = normalised(s);
    assert forall|k: int| 0 <= k < normal.len() implies added_by_user()(#[trigger] normal[k])
        && not_superseded(normal)(normal[k]) && type_cleared(normal[k]) == normal[k] by {
        filtered_holds(by_user, not_superseded(by_user), k);
        let e = kept[k];
        let j = choose|j: int| 0 <= j < by_user.len() && by_user[j] == e;
        filtered_holds(s, added_by_user(), j);
        if normal[k].irrelevant() && has_relevant_edit(normal, normal[k].course.id) {
            let id = normal[k].course.id;
            let m = choose|m: int| 0 <= m < normal.len() && is_relevant_edit(#[trigger] normal[m], id);
            filtered_holds(by_user, not_superseded(by_user), m);
            let w = choose|w: int| 0 <= w < by_user.len() && by_user[w] == kept[m];
            assert(is_relevant_edit(by_user[w], id));
        }
    }
}

/// Sorting records that need no reset leaves records that need none.
pub proof fn sorted_stays_normal(s: Seq<StatusModel>)
    requires
        is_normal(s),
    ensures
        is_normal(sorted_by_semester(s)),
{
    let sorted = sorted_by_semester(s);
    assert forall|k: int| 0 <= k < sorted.len() implies added_by_user()(#[trigger] sorted[k])
        && not_superseded(sorted)(sorted[k]) && type_cleared(sorted[k]) == sorted[k] by {
        sorted_holds(s, k);
        let j = choose|j: int| 0 <= j < s.len() && s[j] == sorted[k];
        if sorted[k].irrelevant() && has_relevant_edit(sorted, sorted[k].course.id) {
            let id = sorted[k].course.id;
            let m = choose|m: int| 0 <= m < sorted.len() && is_relevant_edit(#[trigger] sorted[m], id);
            sorted_holds(s, m);
            let w = choose|w: int| 0 <= w < s.len() && s[w] == sorted[m];
            assert(is_relevant_edit(s[w], id));
        }
    }
}

/// The texts on replacements do not bear on whether records need a reset, nor
/// on their order.
pub proof fn msgs_stay_normal(s: Seq<StatusModel>, catalog: CatalogModel, registry: Seq<CourseModel>)
    ensures
        is_normal(s) ==> is_normal(with_replacement_msgs(s, catalog, registry)),
        in_semester_order(s) ==> in_semester_order(with_replacement_msgs(s, catalog, registry)),
{
    let noted = with_replacement_msgs(s, catalog, registry);
    if is_normal(s) {
        assert forall|k: int| 0 <= k < noted.len() implies added_by_user()(#[trigger] noted[k])
            && not_superseded(noted)(noted[k]) && type_cleared(noted[k]) == noted[k] by {
            assert(added_by_user()(s[k]) && not_superseded(s)(s[k]) && type_cleared(s[k]) == s[k]);
            if noted[k].irrelevant() && has_relevant_edit(noted, noted[k].course.id) {
                let id = noted[k].course.id;
                let m = choose|m: int| 0 <= m < noted.len() && is_relevant_edit(#[trigger] noted[m], id);
                assert(is_relevant_edit(s[m], id));
            }
        }
    }
    if in_semester_order(s) {
        assert forall|i: int, j: int| 0 <= i < j < noted.len() implies semester_ordinal(
            (#[trigger] noted[i]).semester,
        ) <= semester_ordinal((#[trigger] noted[j]).semester) by {
            assert(semester_ordinal(s[i].semester) <= semester_ordinal(s[j].semester));
        }
    }
}

/// A record put in its place among records in order leaves them in order.
pub proof fn inserted_in_order(sorted: Seq<StatusModel>, cs: StatusModel)
    requires
        in_semester_order(sorted),
    ensures
        in_semester_order(inserted(sorted, cs)),
    decreases sorted.len(),
{
    let out = inserted(sorted, cs);
    inserted_len(sorted, cs);
    if sorted.len() > 0 {
        let last = sorted.last();
        if semester_ordinal(last.semester) <= semester_ordinal(cs.semester) {
            assert forall|i: int, j: int| 0 <= i < j < out.len() implies semester_ordinal(
                (#[trigger] out[i]).semester,
            ) <= semester_ordinal((#[trigger] out[j]).semester) by {
                if j < sorted.len() {
                    assert(semester_ordinal(sorted[i].semester) <= semester_ordinal(sorted[j].semester));
                } else if i < sorted.len() - 1 {
                    assert(semester_ordinal(sorted[i].semester) <= semester_ordinal(
                        sorted[sorted.len() - 1].semester,
                    ));
                }
            }
        } else {
            let rest = sorted.drop_last();
            assert forall|i: int, j: int| 0 <= i < j < rest.len() implies semester_ordinal(
                (#[trigger] rest[i]).semester,
            ) <= semester_ordinal((#[trigger] rest[j]).semester) by {
                assert(semester_ordinal(sorted[i].semester) <= semester_ordinal(sorted[j].semester));
            }
            inserted_in_order(rest, cs);
            inserted_len(rest, cs);
            let before = inserted(rest, cs);
            assert forall|i: int, j: int| 0 <= i < j < out.len() implies semester_ordinal(
                (#[trigger] out[i]).semester,
            ) <= semester_ordinal((#[trigger] out[j]).semester) by {
                if j < before.len() {
                    assert(semester_ordinal(before[i].semester) <= semester_ordinal(before[j].semester));
                } else {
                    inserted_holds(rest, cs, i);
                    if before[i] != cs {
                        let w = choose|w: int| 0 <= w < rest.len() && rest[w] == before[i];
                        assert(semester_ordinal(sorted[w].semester) <= semester_ordinal(
                            sorted[sorted.len() - 1].semester,
                        ));
                    }
                }
            }
        }
    }
}

/// Sorted records are in the order of their semesters.
pub proof fn sorted_is_in_order(s: Seq<StatusModel>)
    ensures
        in_semester_order(sorted_by_semester(s)),
    decreases s.len(),
{
    if s.len() > 0 {
        sorted_is_in_order(s.drop_last());
        inserted_in_order(sorted_by_semester(s.drop_last()), s.last());
    }
}

/// Sorting records that are in order changes nothing.
pub proof fn order_is_fixed(s: Seq<StatusModel>)
    requires
        in_semester_order(s),
    ensures
        sorted_by_semester(s) == s,
    decreases s.len(),
{
    if s.len() > 0 {
        let rest = s.drop_last();
        assert forall|i: int, j: int| 0 <= i < j < rest.len() implies semester_ordinal(
            (#[trigger] rest[i]).semester,
        ) <= semester_ordinal((#[trigger] rest[j]).semester) by {
            assert(semester_ordinal(s[i].semester) <= semester_ordinal(s[j].semester));
        }
        order_is_fixed(rest);
        if rest.len() > 0 {
            assert(semester_ordinal(s[rest.len() - 1].semester) <= semester_ordinal(
                s[s.len() - 1].semester,
            ));
        }
        assert(inserted(rest, s.last()) =~= s);
    }
}

/// Preprocessing a report a second time, with nothing edited in between,
/// leaves the records as the first time left them: the same records, in the
/// same order, counting for the same banks.
pub proof fn preprocessing_is_idempotent(
    s: Seq<StatusModel>,
    catalog: CatalogModel,
    registry: Seq<CourseModel>,
)
    ensures
        preprocessed_statuses(
            preprocessed_statuses(s, catalog, registry),
            preprocessed_catalog(s, catalog),
            registry,
        ) == preprocessed_statuses(s, catalog, registry),
{
    let normal = normalised(s);
    let sorted = sorted_by_semester(normal);
    let once = with_replacement_msgs(sorted, catalog, registry);
    let second = preprocessed_catalog(s, catalog);
    normalised_is_normal(s);
    sorted_stays_normal(normal);
    sorted_is_in_order(normal);
    msgs_stay_normal(sorted, catalog, registry);
    normal_is_fixed(once);
    order_is_fixed(once);
    replacements_ignore_memberships(once, second, catalog, registry);
    assert(with_replacement_msgs(once, catalog, registry) =~= once);
}

/// A membership list that holds no course twice holds none twice after the
/// courses of the irrelevant records are taken out and the replacements are
/// made.
pub proof fn preprocessing_lists_each_course_once(s: Seq<StatusModel>, catalog: CatalogModel)
    requires
        lists_each_course_once(catalog.course_to_bank),
    ensures
        lists_each_course_once(preprocessed_catalog(s, catalog).course_to_bank),
{
    let normal = normalised(s);
    pruned_lists_each_course_once(catalog.course_to_bank, normal);
    applied_lists_each_course_once(
        pruned(catalog.course_to_bank, normal),
        student_replacements(sorted_by_semester(normal), catalog),
    );
}

/// Taking the courses of irrelevant records out of a membership list that
/// holds no course twice leaves one that holds none twice.
pub proof fn pruned_lists_each_course_once(members: Seq<MembershipModel>, s: Seq<StatusModel>)
    requires
        lists_each_course_once(members),
    ensures
        lists_each_course_once(pruned(members, s)),
    decreases s.len(),
{
    if s.len() > 0 {
        pruned_lists_each_course_once(members, s.drop_last());
        without_course_holds(pruned(members, s.drop_last()), s.last().course.id);
    }
}

/// Making replacements in a membership list that holds no course twice leaves
/// one that holds none twice.
pub proof fn applied_lists_each_course_once(
    members: Seq<MembershipModel>,
    found: Seq<StudentReplacementModel>,
)
    requires
        lists_each_course_once(members),
    ensures
        lists_each_course_once(applied(members, found)),
    decreases found.len(),
{
    if found.len() > 0 {
        applied_lists_each_course_once(members, found.drop_last());
        replaced_lists_each_course_once(
            applied(members, found.drop_last()),
            found.last().course_id,
            found.last().replacement,
        );
    }
}

/// A record put in its place is added once, and nothing else changes.
pub proof fn inserted_adds_one(sorted: Seq<StatusModel>, cs: StatusModel)
    ensures
        inserted(sorted, cs).to_multiset() == sorted.to_multiset().insert(cs),
    decreases sorted.len(),
{
    vstd::seq_lib::to_multiset_build(sorted, cs);
    if sorted.len() == 0 {
        assert(inserted(sorted, cs) =~= sorted.push(cs));
    } else if !(semester_ordinal(sorted.last().semester) <= semester_ordinal(cs.semester)) {
        let rest = sorted.drop_last();
        let last = sorted.last();
        inserted_adds_one(rest, cs);
        assert(sorted == rest.push(last));
        vstd::seq_lib::to_multiset_build(rest, last);
        vstd::seq_lib::to_multiset_build(inserted(rest, cs), last);
        assert(rest.to_multiset().insert(cs).insert(last) =~= rest.to_multiset().insert(last).insert(cs));
    }
}

/// Sorting reorders the records: the sorted list holds each record as often
/// as the list does.
pub proof fn sorted_is_permutation(s: Seq<StatusModel>)
    ensures
        sorted_by_semester(s).to_multiset() == s.to_multiset(),
    decreases s.len(),
{
    if s.len() > 0 {
        let rest = s.drop_last();
        sorted_is_permutation(rest);
        inserted_adds_one(sorted_by_semester(rest), s.last());
        assert(s == rest.push(s.last()));
        vstd::seq_lib::to_multiset_build(rest, s.last());
    }
}

/// Whether the record is of the semester with the ordinal `ordinal`.
pub open spec fn of_semester(ordinal: nat) -> spec_fn(StatusModel) -> bool {
    |cs: StatusModel| semester_ordinal(cs.semester) == ordinal
}

/// A record put in its place comes behind the records of its own semester.
pub proof fn inserted_behind_its_semester(sorted: Seq<StatusModel>, cs: StatusModel, ordinal: nat)
    ensures
        inserted(sorted, cs).filter(of_semester(ordinal)) == sorted.push(cs).filter(
            of_semester(ordinal),
        ),
    decreases sorted.len(),
{
    let keep = of_semester(ordinal);
    if sorted.len() == 0 {
        assert(inserted(sorted, cs) =~= sorted.push(cs));
    } else if !(semester_ordinal(sorted.last().semester) <= semester_ordinal(cs.semester)) {
        let rest = sorted.drop_last();
        let last = sorted.last();
        inserted_behind_its_semester(rest, cs, ordinal);
        assert(sorted == rest.push(last));
        inserted(rest, cs).lemma_filter_push(last, keep);
        rest.lemma_filter_push(cs, keep);
        rest.lemma_filter_push(last, keep);
        sorted.lemma_filter_push(cs, keep);
    }
}

/// Sorting is stable: the records of each semester stay in the order they
/// had.
pub proof fn sorted_is_stable(s: Seq<StatusModel>, ordinal: nat)
    ensures
        sorted_by_semester(s).filter(of_semester(ordinal)) == s.filter(of_semester(ordinal)),
    decreases s.len(),
{
    let keep = of_semester(ordinal);
    if s.len() > 0 {
        let rest = s.drop_last();
        let before = sorted_by_semester(rest);
        sorted_is_stable(rest, ordinal);
        inserted_behind_its_semester(before, s.last(), ordinal);
        assert(s == rest.push(s.last()));
        before.lemma_filter_push(s.last(), keep);
        rest.lemma_filter_push(s.last(), keep);
    }
}

} // verus!
