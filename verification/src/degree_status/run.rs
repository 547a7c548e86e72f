//! A computation as a sequence of states: the banks are evaluated in their
//! order, and what each passes on waits for the bank that takes it.

use crate::bank_rule::{evaluated, TransferModel};
use crate::catalog::{
    bank_names, course_list, first_position, BankModel, CatalogModel, OverflowModel, RuleModel,
};
use crate::course::{CourseModel, StatusModel};
use crate::degree_status::DegreeModel;
use crate::degree_status::preprocessing::{preprocessed_catalog, preprocessed_statuses};
use crate::messages::credit_leftovers_text;
use crate::toposort::{distinct_names, rules_name_banks};
use vstd::prelude::*;

verus! {

/// The courses of the records that the student put in the bank by hand, in the
/// order of the records.
pub open spec fn modified_courses(s: Seq<StatusModel>, bank: Seq<char>) -> Seq<Seq<char>>
    decreases s.len(),
{
    if s.len() == 0 {
        Seq::empty()
    } else {
        let before = modified_courses(s.drop_last(), bank);
        if s.last().modified && s.last().course_type == Some(bank) {
            before.push(s.last().course.id)
        } else {
            before
        }
    }
}

/// The courses that count for the bank: those that the student put there by
/// hand, then those that the catalog lists for it; for the bank of the general
/// electives, the general electives take the place of the catalog's list.
pub open spec fn bank_course_list(
    s: Seq<StatusModel>,
    catalog: CatalogModel,
    malag: Seq<Seq<char>>,
    bank: BankModel,
) -> Seq<Seq<char>> {
    modified_courses(s, bank.name) + match bank.rule {
        RuleModel::Malag => malag,
        _ => course_list(catalog.course_to_bank, bank.name),
    }
}

/// The source of each transfer rule, in order.
pub open spec fn rule_sources(rules: Seq<OverflowModel>) -> Seq<Seq<char>> {
    Seq::new(rules.len(), |k: int| rules[k].from)
}

/// The bank that takes what the bank `name` passes on, and its place in the
/// order: the target of the first transfer rule whose source is `name`. There
/// is none where no rule has that source, or the target is no bank.
pub open spec fn next_bank(rules: Seq<OverflowModel>, ordered: Seq<BankModel>, name: Seq<char>) -> Option<
    (Seq<char>, int),
> {
    let r = first_position(rule_sources(rules), name);
    if r < rules.len() {
        let d = first_position(bank_names(ordered), rules[r].to);
        if d < ordered.len() {
            Some((rules[r].to, d))
        } else {
            None
        }
    } else {
        None
    }
}

/// The state of a computation: the report so far, what waits for each bank of
/// the order, and the credit that no bank takes.
pub struct RunModel {
    pub degree: DegreeModel,
    pub pending: Seq<TransferModel>,
    pub leftover: nat,
}

/// Nothing passed on.
pub open spec fn nothing() -> TransferModel {
    TransferModel { credit: 0, courses: 0, missing: 0 }
}

/// What two banks pass on, taken together.
pub open spec fn joined(a: TransferModel, b: TransferModel) -> TransferModel {
    TransferModel {
        credit: a.credit + b.credit,
        courses: a.courses + b.courses,
        missing: a.missing + b.missing,
    }
}

/// The state before the first bank.
pub open spec fn start(degree: DegreeModel, banks: nat) -> RunModel {
    RunModel { degree, pending: Seq::new(banks, |k: int| nothing()), leftover: 0 }
}

/// The state after the bank at place `k` of the order has been evaluated: it
/// takes what waited for it, and what it passes on waits for the next bank,
/// or, where there is none, its spare credit is left over.
pub open spec fn step(
    r: RunModel,
    ordered: Seq<BankModel>,
    catalog: CatalogModel,
    registry: Seq<CourseModel>,
    malag: Seq<Seq<char>>,
    k: int,
) -> RunModel {
    let bank = ordered[k];
    let list = bank_course_list(r.degree.course_statuses, catalog, malag, bank);
    let next = next_bank(catalog.credit_overflows, ordered, bank.name);
    let cleared = r.pending.update(k, nothing());
    match next {
        Some((to, d)) => {
            let (degree, out) = evaluated(r.degree, bank, list, registry, r.pending[k], Some(to));
            RunModel {
                degree,
                pending: cleared.update(d, joined(cleared[d], out)),
                leftover: r.leftover,
            }
        },
        None => {
            let (degree, out) = evaluated(r.degree, bank, list, registry, r.pending[k], None);
            RunModel { degree, pending: cleared, leftover: r.leftover + out.credit }
        },
    }
}

/// The state after the first `k` banks of the order.
pub open spec fn run(
    r: RunModel,
    ordered: Seq<BankModel>,
    catalog: CatalogModel,
    registry: Seq<CourseModel>,
    malag: Seq<Seq<char>>,
    k: int,
) -> RunModel
    decreases k,
{
    if k <= 0 {
        r
    } else {
        step(run(r, ordered, catalog, registry, malag, k - 1), ordered, catalog, registry, malag, k - 1)
    }
}

/// The report at the end: the note on the credit left over is the last one.
pub open spec fn finished(r: RunModel) -> DegreeModel {
    DegreeModel {
        overflow_msgs: r.degree.overflow_msgs.push(credit_leftovers_text(r.leftover)),
        ..r.degree
    }
}

/// Whether a report can be computed against the catalog: the banks have
/// distinct names, the transfer rules name banks, and the numbers of banks,
/// rules and records are such that the sums fit.
pub open spec fn computable(catalog: CatalogModel, degree: DegreeModel) -> bool {
    &&& catalog.course_banks.len() < u32::MAX
    &&& catalog.credit_overflows.len() < u32::MAX
    &&& degree.course_statuses.len() <= u32::MAX
    &&& distinct_names(catalog.course_banks)
    &&& rules_name_banks(catalog.course_banks, catalog.credit_overflows)
}

/// The report as preprocessing leaves it.
pub open spec fn preprocessed(
    degree: DegreeModel,
    catalog: CatalogModel,
    registry: Seq<CourseModel>,
) -> DegreeModel {
    DegreeModel {
        course_statuses: preprocessed_statuses(degree.course_statuses, catalog, registry),
        course_bank_requirements: Seq::empty(),
        overflow_msgs: Seq::empty(),
        total_credit: 0,
    }
}

/// The state after every bank of the order `ordered` has been evaluated on the
/// preprocessed report, against the preprocessed catalog.
pub open spec fn computed_run(
    degree: DegreeModel,
    catalog: CatalogModel,
    registry: Seq<CourseModel>,
    malag: Seq<Seq<char>>,
    ordered: Seq<BankModel>,
) -> RunModel {
    run(
        start(preprocessed(degree, catalog, registry), ordered.len()),
        ordered,
        preprocessed_catalog(degree.course_statuses, catalog),
        registry,
        malag,
        ordered.len() as int,
    )
}

} // verus!
