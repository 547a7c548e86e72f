//! The whole computation: the report is preprocessed, the banks are put in
//! order and evaluated one after another.

use crate::bank_rule::{
    evaluate_bank, relevant_total, relevant_total_bound, Transfer, TransferModel,
};
use crate::catalog::{
    bank_models, bank_names, clone_texts, find_bank, first_position_is, overflow_models, BankModel,
    Catalog, CourseBank, CreditOverflow, Rule,
};
use crate::course::{course_models, texts, Course};
use crate::degree_status::DegreeStatus;
use crate::degree_status::conservation::{
    conserved, conserved_bounds, counted_for_no_bank, credit_is_conserved, floors_total,
    floors_total_bound, nothing_waits_at_start, step_conserves, waiting_after_update,
};
use crate::degree_status::normal_form::preprocessed_len;
use crate::degree_status::run::{
    bank_course_list, computable, computed_run, finished, joined, modified_courses, next_bank,
    nothing, preprocessed, rule_sources, run, start, step, RunModel,
};
use crate::messages::{credit_leftovers_msg, credit_leftovers_text};
use crate::toposort::{
    check_distinct_names, check_rules_name_banks, distinct_names, find_traversal_order, has_cycle,
    is_traversal_order, on_cycle, transfer_edges, traversal_order_is_distinct, CycleError,
};
use vstd::prelude::*;

verus! {

/// Joining lists of strings joins their views.
pub proof fn texts_of_joined(a: Seq<String>, b: Seq<String>)
    ensures
        texts(a + b) == texts(a) + texts(b),
{
    assert(texts(a + b) =~= texts(a) + texts(b));
}

/// The models of what waits for each bank.
pub open spec fn transfer_models(p: Seq<Transfer>) -> Seq<TransferModel> {
    Seq::new(p.len(), |k: int| p[k]@)
}

impl DegreeStatus {
    /// The courses of the records that the student put in the bank by hand.
    pub fn get_modified_courses(&self, bank_name: &String) -> (out: Vec<String>)
        ensures
            texts(out@) == modified_courses(self@.course_statuses, bank_name@),
    {
        let ghost s = self@.course_statuses;
        let mut out: Vec<String> = Vec::new();
        assert(texts(out@) =~= Seq::empty());
        let mut i: usize = 0;
        while i < self.course_statuses.len()
            invariant
                i <= self.course_statuses.len(),
                s == self@.course_statuses,
                texts(out@) == modified_courses(s.take(i as int), bank_name@),
            decreases self.course_statuses.len() - i,
        {
            proof {
                assert(s.take(i + 1).drop_last() == s.take(i as int));
                assert(s.take(i + 1).last() == self.course_statuses[i as int]@);
            }
            let cs = &self.course_statuses[i];
            let typed = match &cs.course_type {
                Some(t) => *t == *bank_name,
                None => false,
            };
            let ghost before = texts(out@);
            if cs.modified && typed {
                out.push(cs.course.id.clone());
                assert(texts(out@) =~= before.push(cs.course.id@));
            }
            i += 1;
        }
        assert(s.take(i as int) == s);
        out
    }
}

/// The first transfer rule whose source is `name`, and the place in the order
/// of the bank that the rule names as target.
fn find_next_bank(rules: &Vec<CreditOverflow>, ordered: &Vec<CourseBank>, name: &String) -> (out:
    Option<(usize, usize)>)
    ensures
        match out {
            Some((r, d)) => r < rules.len() && d < ordered.len() && next_bank(
                overflow_models(rules@),
                bank_models(ordered@),
                name@,
            ) == Some((rules[r as int].to@, d as int)),
            None => next_bank(overflow_models(rules@), bank_models(ordered@), name@) is None,
        },
{
    let ghost sources = rule_sources(overflow_models(rules@));
    let mut r: usize = 0;
    while r < rules.len()
        invariant
            r <= rules.len(),
            sources == rule_sources(overflow_models(rules@)),
            forall|k: int| 0 <= k < r ==> sources[k] != name@,
        decreases rules.len() - r,
    {
        if rules[r].from == *name {
            proof {
                first_position_is(sources, name@, r as int);
            }
            return match find_bank(ordered, &rules[r].to) {
                Some(d) => Some((r, d)),
                None => None,
            };
        }
        r += 1;
    }
    proof {
        first_position_is(sources, name@, r as int);
    }
    None
}

/// Evaluates the banks in the order given and closes the report with the note
/// on the credit that is left over.
fn compute_status(
    status: &mut DegreeStatus,
    ordered: &Vec<CourseBank>,
    catalog: &Catalog,
    courses: &Vec<Course>,
    malag_courses: &Vec<String>,
)
    requires
        distinct_names(bank_models(ordered@)),
        old(status)@.course_bank_requirements.len() == 0,
        old(status).total_credit == 0,
        relevant_total(old(status)@.course_statuses, true) <= u64::MAX,
        relevant_total(old(status)@.course_statuses, false) <= u64::MAX,
        floors_total(bank_models(ordered@)) + u32::MAX <= u64::MAX,
    ensures
        final(status)@ == finished(
            run(
                start(old(status)@, ordered.len() as nat),
                bank_models(ordered@),
                catalog@,
                course_models(courses@),
                texts(malag_courses@),
                ordered.len() as int,
            ),
        ),
{
    let n = ordered.len();
    let ghost banks = bank_models(ordered@);
    let ghost registry = course_models(courses@);
    let ghost malag = texts(malag_courses@);
    let ghost r0 = start(status@, n as nat);
    let ghost weight_credit = relevant_total(status@.course_statuses, true);
    let ghost weight_courses = relevant_total(status@.course_statuses, false);
    let mut pending: Vec<Transfer> = Vec::new();
    let mut i: usize = 0;
    while i < n
        invariant
            i <= n,
            pending.len() == i,
            forall|k: int| 0 <= k < i ==> (#[trigger] pending[k])@ == nothing(),
        decreases n - i,
    {
        pending.push(Transfer { credit: 0, courses: 0, missing: 0 });
        i += 1;
    }
    assert(transfer_models(pending@) =~= r0.pending);
    let mut leftover: u64 = 0;
    proof {
        nothing_waits_at_start(n as nat);
        counted_for_no_bank(status@.course_statuses, true);
        counted_for_no_bank(status@.course_statuses, false);
        assert(bank_names(banks).take(0) =~= Seq::empty());
        assert(banks.take(0) =~= Seq::empty());
        assert(status@.course_bank_requirements =~= Seq::empty());
    }
    let mut k: usize = 0;
    while k < n
        invariant
            k <= n == ordered.len() == pending.len(),
            banks == bank_models(ordered@),
            registry == course_models(courses@),
            malag == texts(malag_courses@),
            distinct_names(banks),
            weight_credit <= u64::MAX,
            weight_courses <= u64::MAX,
            floors_total(banks) + u32::MAX <= u64::MAX,
            relevant_total(status@.course_statuses, true) == weight_credit,
            relevant_total(status@.course_statuses, false) == weight_courses,
            (RunModel {
                degree: status@,
                pending: transfer_models(pending@),
                leftover: leftover as nat,
            }) == run(r0, banks, catalog@, registry, malag, k as int),
            conserved(run(r0, banks, catalog@, registry, malag, k as int), banks, k as int),
        decreases n - k,
    {
        let ghost r = run(r0, banks, catalog@, registry, malag, k as int);
        let ghost after = step(r, banks, catalog@, registry, malag, k as int);
        proof {
            step_conserves(r, banks, catalog@, registry, malag, k as int);
            conserved_bounds(r, banks, k as int);
            conserved_bounds(after, banks, k + 1);
            waiting_after_update(r.pending, k as int, nothing());
            assert(banks[k as int] == ordered[k as int]@);
        }
        let bank = &ordered[k];
        let incoming = pending[k];
        assert(incoming@ == r.pending[k as int]);
        pending.set(k, Transfer { credit: 0, courses: 0, missing: 0 });
        let ghost cleared = r.pending.update(k as int, nothing());
        assert(transfer_models(pending@) =~= cleared);
        let mut list = status.get_modified_courses(&bank.name);
        let ghost chosen = list@;
        match &bank.rule {
            Rule::Malag => {
                let mut rest = clone_texts(malag_courses);
                proof {
                    texts_of_joined(chosen, rest@);
                }
                list.append(&mut rest);
            },
            _ => {
                let mut rest = catalog.get_course_list(&bank.name);
                proof {
                    texts_of_joined(chosen, rest@);
                }
                list.append(&mut rest);
            },
        }
        assert(texts(list@) == bank_course_list(status@.course_statuses, catalog@, malag, banks[k as int]));
        match find_next_bank(&catalog.credit_overflows, ordered, &bank.name) {
            Some((rule, d)) => {
                let out = evaluate_bank(
                    status,
                    bank,
                    list,
                    courses,
                    incoming,
                    Some(&catalog.credit_overflows[rule].to),
                );
                let waiting = pending[d];
                proof {
                    assert(waiting@ == cleared[d as int]);
                    assert(after.pending == cleared.update(d as int, joined(cleared[d as int], out@)));
                    waiting_after_update(after.pending, d as int, nothing());
                }
                pending.set(
                    d,
                    Transfer {
                        credit: waiting.credit + out.credit,
                        courses: waiting.courses + out.courses,
                        missing: waiting.missing + out.missing,
                    },
                );
                assert(transfer_models(pending@) =~= after.pending);
            },
            None => {
                let out = evaluate_bank(status, bank, list, courses, incoming, None);
                leftover = leftover + out.credit;
            },
        }
        k += 1;
    }
    status.overflow_msgs.push(credit_leftovers_msg(leftover));
    assert(status@.overflow_msgs =~= run(r0, banks, catalog@, registry, malag, n as int).degree.overflow_msgs.push(
        credit_leftovers_text(leftover as nat),
    ));
}

/// A student: the report, and whether it was changed since it was computed.
#[derive(Debug, PartialEq, Eq)]
pub struct UserDetails {
    pub degree_status: DegreeStatus,
    pub modified: bool,
}

/// Whether a report can be computed against the catalog.
pub fn can_compute(catalog: &Catalog, user: &UserDetails) -> (out: bool)
    ensures
        out == computable(catalog@, user.degree_status@),
{
    catalog.course_banks.len() < u32::MAX as usize && catalog.credit_overflows.len()
        < u32::MAX as usize && user.degree_status.course_statuses.len() <= u32::MAX as usize
        && check_distinct_names(&catalog.course_banks) && check_rules_name_banks(
        &catalog.course_banks,
        &catalog.credit_overflows,
    )
}

/// Computes the student's report against the catalog: the report is
/// preprocessed, the banks are put in the order of their credit transfers and
/// evaluated one after another, and the note on the credit left over closes
/// the report. Where the transfer rules run in a circle, the report stays as
/// preprocessing left it, and the error names a bank on the circle.
pub fn compute(
    catalog: Catalog,
    courses: Vec<Course>,
    malag_courses: Vec<String>,
    user: &mut UserDetails,
) -> (out: Result<(), CycleError>)
    requires
        computable(catalog@, old(user).degree_status@),
    ensures
        final(user).modified == old(user).modified,
        out is Ok <==> !has_cycle(transfer_edges(catalog@.course_banks, catalog@.credit_overflows)),
        final(user).degree_status.total_credit <= relevant_total(
            old(user).degree_status@.course_statuses,
            true,
        ),
        match out {
            Ok(_) => exists|ordered: Seq<BankModel>|
                #[trigger] is_traversal_order(
                    catalog@.course_banks,
                    catalog@.credit_overflows,
                    ordered,
                ) && final(user).degree_status@ == finished(
                    computed_run(
                        old(user).degree_status@,
                        catalog@,
                        course_models(courses@),
                        texts(malag_courses@),
                        ordered,
                    ),
                ),
            Err(e) => final(user).degree_status@ == preprocessed(
                old(user).degree_status@,
                catalog@,
                course_models(courses@),
            ) && exists|v: int|
                0 <= v < catalog.course_banks.len() && on_cycle(
                    transfer_edges(catalog@.course_banks, catalog@.credit_overflows),
                    v,
                ) && e.bank@ == #[trigger] catalog@.course_banks[v].name,
        },
{
    let mut catalog = catalog;
    let ghost given = catalog@;
    let ghost before = user.degree_status@;
    user.degree_status.preprocess(&mut catalog, &courses);
    match find_traversal_order(&catalog) {
        Ok(ordered) => {
            proof {
                let s = user.degree_status@.course_statuses;
                traversal_order_is_distinct(
                    given.course_banks,
                    given.credit_overflows,
                    bank_models(ordered@),
                );
                preprocessed_len(before.course_statuses, given, course_models(courses@));
                relevant_total_bound(s, true);
                relevant_total_bound(s, false);
                floors_total_bound(bank_models(ordered@));
                assert(s.len() * u32::MAX <= u32::MAX * u32::MAX) by (nonlinear_arith)
                    requires
                        s.len() <= u32::MAX,
                ;
                assert(bank_models(ordered@).len() * u32::MAX <= (u32::MAX - 1) * u32::MAX)
                    by (nonlinear_arith)
                    requires
                        bank_models(ordered@).len() <= u32::MAX - 1,
                ;
            }
            compute_status(&mut user.degree_status, &ordered, &catalog, &courses, &malag_courses);
            proof {
                credit_is_conserved(
                    before,
                    given,
                    course_models(courses@),
                    texts(malag_courses@),
                    bank_models(ordered@),
                );
            }
            Ok(())
        },
        Err(e) => Err(e),
    }
}

} // verus!
