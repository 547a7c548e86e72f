//! What holds of every computation: credit and courses are moved between
//! banks and neither made nor lost, and each record counts for one bank at
//! most.

use crate::bank_rule::{
    claimed, claimed_total, claims, credit_split, evaluated, placeholder, placeholders_follow,
    relevant_total, rule_statuses, weight, with_placeholders, TransferModel,
};
use crate::catalog::{
    bank_names, first_position, first_position_found, BankModel, CatalogModel, OverflowModel,
};
use crate::course::{CourseModel, StatusModel};
use crate::degree_status::{DegreeModel, RequirementModel};
use crate::degree_status::normal_form::{preprocessed_types, preprocessed_weight};
use crate::degree_status::preprocessing::preprocessed_catalog;
use crate::degree_status::run::{
    bank_course_list, computed_run, finished, joined, modified_courses, next_bank, nothing,
    preprocessed, rule_sources, run, start, step, RunModel,
};
use crate::toposort::{
    distinct_names, is_topological_order, is_traversal_order, order_respects_transfers,
    ordered_banks, transfer_edges, traversal_order_is_distinct,
};
use vstd::prelude::*;

verus! {

/// Whether the record is completed and counts for one of the banks `names`.
pub open spec fn counts_for(cs: StatusModel, names: Seq<Seq<char>>) -> bool {
    cs.completed() && match cs.course_type {
        Some(t) => names.contains(t),
        None => false,
    }
}

/// The weight of the completed records that count for one of the banks
/// `names`.
pub open spec fn counted(s: Seq<StatusModel>, names: Seq<Seq<char>>, by_credit: bool) -> nat
    decreases s.len(),
{
    if s.len() == 0 {
        0
    } else {
        counted(s.drop_last(), names, by_credit) + if counts_for(s.last(), names) {
            weight(s.last(), by_credit)
        } else {
            0
        }
    }
}

/// The credit that the banks hold as completed.
pub open spec fn completed_total(reqs: Seq<RequirementModel>) -> nat
    decreases reqs.len(),
{
    if reqs.len() == 0 {
        0
    } else {
        completed_total(reqs.drop_last()) + reqs.last().credit_completed
    }
}

/// The credit that waits for the banks, all together.
pub open spec fn credit_waiting(p: Seq<TransferModel>) -> nat
    decreases p.len(),
{
    if p.len() == 0 {
        0
    } else {
        credit_waiting(p.drop_last()) + p.last().credit
    }
}

/// The courses that wait for the banks, all together.
pub open spec fn courses_waiting(p: Seq<TransferModel>) -> nat
    decreases p.len(),
{
    if p.len() == 0 {
        0
    } else {
        courses_waiting(p.drop_last()) + p.last().courses
    }
}

/// The missing credit that waits for the banks, all together.
pub open spec fn missing_waiting(p: Seq<TransferModel>) -> nat
    decreases p.len(),
{
    if p.len() == 0 {
        0
    } else {
        missing_waiting(p.drop_last()) + p.last().missing
    }
}

/// The credit that the banks require by themselves.
pub open spec fn floors_total(banks: Seq<BankModel>) -> nat
    decreases banks.len(),
{
    if banks.len() == 0 {
        0
    } else {
        floors_total(banks.drop_last()) + match banks.last().credit {
            Some(c) => c,
            None => 0,
        }
    }
}

/// What changes in the sums where one entry changes.
pub proof fn waiting_after_update(p: Seq<TransferModel>, i: int, v: TransferModel)
    requires
        0 <= i < p.len(),
    ensures
        credit_waiting(p.update(i, v)) == credit_waiting(p) - p[i].credit + v.credit,
        courses_waiting(p.update(i, v)) == courses_waiting(p) - p[i].courses + v.courses,
        missing_waiting(p.update(i, v)) == missing_waiting(p) - p[i].missing + v.missing,
        credit_waiting(p) >= p[i].credit,
        courses_waiting(p) >= p[i].courses,
        missing_waiting(p) >= p[i].missing,
    decreases p.len(),
{
    if i == p.len() - 1 {
        assert(p.update(i, v).drop_last() == p.drop_last());
    } else {
        waiting_after_update(p.drop_last(), i, v);
        assert(p.update(i, v).drop_last() == p.drop_last().update(i, v));
    }
}

/// Before the first bank, nothing waits for any bank.
pub proof fn nothing_waits_at_start(n: nat)
    ensures
        credit_waiting(Seq::new(n, |k: int| nothing())) == 0,
        courses_waiting(Seq::new(n, |k: int| nothing())) == 0,
        missing_waiting(Seq::new(n, |k: int| nothing())) == 0,
    decreases n,
{
    if n > 0 {
        nothing_waits_at_start((n - 1) as nat);
        assert(Seq::new(n, |k: int| nothing()).drop_last() == Seq::new(
            (n - 1) as nat,
            |k: int| nothing(),
        ));
    }
}

/// No record counts for a bank where there are no banks.
pub proof fn counted_for_no_bank(s: Seq<StatusModel>, by_credit: bool)
    ensures
        counted(s, Seq::empty(), by_credit) == 0,
    decreases s.len(),
{
    if s.len() > 0 {
        counted_for_no_bank(s.drop_last(), by_credit);
    }
}

/// The records that count for some banks weigh no more than all the completed
/// records.
pub proof fn counted_within_relevant(s: Seq<StatusModel>, names: Seq<Seq<char>>, by_credit: bool)
    ensures
        counted(s, names, by_credit) <= relevant_total(s, by_credit),
    decreases s.len(),
{
    if s.len() > 0 {
        counted_within_relevant(s.drop_last(), names, by_credit);
    }
}

/// When the bank at place `k` takes its records, what counts for the first
/// `k + 1` banks is at least what counted for the first `k` and what the bank
/// gained: no record counts twice.
pub proof fn claims_are_counted(
    s: Seq<StatusModel>,
    names: Seq<Seq<char>>,
    k: int,
    list: Seq<Seq<char>>,
    by_credit: bool,
)
    requires
        0 <= k < names.len(),
        forall|i: int, j: int| 0 <= i < j < names.len() ==> names[i] != names[j],
    ensures
        counted(claimed(s, names[k], list), names.take(k + 1), by_credit) >= counted(
            s,
            names.take(k),
            by_credit,
        ) + claimed_total(s, names[k], list, by_credit),
        relevant_total(claimed(s, names[k], list), by_credit) == relevant_total(s, by_credit),
    decreases s.len(),
{
    if s.len() > 0 {
        let bank = names[k];
        claims_are_counted(s.drop_last(), names, k, list, by_credit);
        assert(claimed(s, bank, list).drop_last() == claimed(s.drop_last(), bank, list));
        let cs = s.last();
        let after = claimed(s, bank, list).last();
        assert(names.take(k + 1)[k] == bank);
        assert(names.take(k + 1).contains(bank));
        if counts_for(cs, names.take(k)) {
            let t = cs.course_type->0;
            let j = choose|j: int| 0 <= j < names.take(k).len() && names.take(k)[j] == t;
            assert(names.take(k + 1)[j] == t);
            assert(names[j] != names[k]);
            assert(!claims(cs, bank, list));
        }
    }
}

/// Placeholders weigh nothing.
pub proof fn placeholders_weigh_nothing(
    s: Seq<StatusModel>,
    registry: Seq<CourseModel>,
    bank: Seq<char>,
    list: Seq<Seq<char>>,
    names: Seq<Seq<char>>,
    by_credit: bool,
)
    ensures
        counted(with_placeholders(s, registry, bank, list), names, by_credit) == counted(
            s,
            names,
            by_credit,
        ),
        relevant_total(with_placeholders(s, registry, bank, list), by_credit) == relevant_total(
            s,
            by_credit,
        ),
    decreases list.len(),
{
    if list.len() > 0 {
        placeholders_weigh_nothing(s, registry, bank, list.drop_last(), names, by_credit);
        let before = with_placeholders(s, registry, bank, list.drop_last());
        let added = placeholder(registry, bank, list.last());
        assert(before.push(added).drop_last() == before);
    }
}

/// What a bank holds as completed and what it passes on are what it has.
pub proof fn split_keeps_sum(floor: Option<nat>, sum: nat, missing: nat, has_next: bool)
    ensures
        credit_split(floor, sum, missing, has_next).completed + credit_split(
            floor,
            sum,
            missing,
            has_next,
        ).overflow == sum,
        credit_split(floor, sum, missing, has_next).shortfall <= match floor {
            Some(c) => c + missing,
            None => 0,
        },
{
}

/// What holds of the state after the first `k` banks of the order.
pub open spec fn conserved(r: RunModel, ordered: Seq<BankModel>, k: int) -> bool {
    let s = r.degree.course_statuses;
    let names = bank_names(ordered).take(k);
    &&& r.pending.len() == ordered.len()
    &&& r.degree.total_credit == completed_total(r.degree.course_bank_requirements)
    &&& r.degree.total_credit + credit_waiting(r.pending) + r.leftover <= counted(s, names, true)
    &&& courses_waiting(r.pending) <= counted(s, names, false)
    &&& missing_waiting(r.pending) <= floors_total(ordered.take(k))
}

/// Evaluating the next bank of the order keeps the sums within what the
/// records hold: credit and courses are moved, never made.
pub proof fn step_conserves(
    r: RunModel,
    ordered: Seq<BankModel>,
    catalog: CatalogModel,
    registry: Seq<CourseModel>,
    malag: Seq<Seq<char>>,
    k: int,
)
    requires
        0 <= k < ordered.len(),
        distinct_names(ordered),
        conserved(r, ordered, k),
    ensures
        conserved(step(r, ordered, catalog, registry, malag, k), ordered, k + 1),
        relevant_total(step(r, ordered, catalog, registry, malag, k).degree.course_statuses, true)
            == relevant_total(r.degree.course_statuses, true),
        relevant_total(step(r, ordered, catalog, registry, malag, k).degree.course_statuses, false)
            == relevant_total(r.degree.course_statuses, false),
        r.degree.total_credit + r.pending[k].credit + claimed_total(
            r.degree.course_statuses,
            ordered[k].name,
            bank_course_list(r.degree.course_statuses, catalog, malag, ordered[k]),
            true,
        ) + credit_waiting(r.pending.update(k, nothing())) + r.leftover <= relevant_total(
            r.degree.course_statuses,
            true,
        ),
        r.pending[k].courses + claimed_total(
            r.degree.course_statuses,
            ordered[k].name,
            bank_course_list(r.degree.course_statuses, catalog, malag, ordered[k]),
            false,
        ) + courses_waiting(r.pending.update(k, nothing())) <= relevant_total(
            r.degree.course_statuses,
            false,
        ),
        missing_waiting(r.pending) <= floors_total(ordered.take(k)),
        floors_total(ordered.take(k + 1)) <= floors_total(ordered),
{
    let s = r.degree.course_statuses;
    let bank = ordered[k];
    let names = bank_names(ordered);
    let list = bank_course_list(s, catalog, malag, bank);
    let next = next_bank(catalog.credit_overflows, ordered, bank.name);
    let after = step(r, ordered, catalog, registry, malag, k);
    let cleared = r.pending.update(k, nothing());
    assert(names[k] == bank.name);
    assert forall|i: int, j: int| 0 <= i < j < names.len() implies names[i] != names[j] by {
        assert(ordered[i].name != ordered[j].name);
    }
    assert(bank_names(ordered).take(k + 1) == bank_names(ordered.take(k + 1)).take(k + 1));
    claims_are_counted(s, names, k, list, true);
    claims_are_counted(s, names, k, list, false);
    let taken = claimed(s, bank.name, list);
    placeholders_weigh_nothing(taken, registry, bank.name, list, names.take(k + 1), true);
    placeholders_weigh_nothing(taken, registry, bank.name, list, names.take(k + 1), false);
    let s2 = rule_statuses(s, bank, list, registry);
    assert(after.degree.course_statuses == s2);
    counted_within_relevant(s2, names.take(k + 1), true);
    counted_within_relevant(s2, names.take(k + 1), false);
    waiting_after_update(r.pending, k, nothing());
    let sum = r.pending[k].credit + claimed_total(s, bank.name, list, true);
    split_keeps_sum(bank.credit, sum, r.pending[k].missing, next is Some);
    assert(ordered.take(k + 1).drop_last() == ordered.take(k));
    floors_total_of_prefix(ordered, k + 1);
    let reqs = r.degree.course_bank_requirements;
    match next {
        Some((to, d)) => {
            let (degree, out) = evaluated(r.degree, bank, list, registry, r.pending[k], Some(to));
            first_position_found(bank_names(ordered), to);
            waiting_after_update(cleared, d, joined(cleared[d], out));
            assert(degree.course_bank_requirements.drop_last() == reqs);
        },
        None => {
            let (degree, out) = evaluated(r.degree, bank, list, registry, r.pending[k], None);
            assert(degree.course_bank_requirements.drop_last() == reqs);
        },
    }
}

/// The first banks require no more than all of them.
pub proof fn floors_total_of_prefix(banks: Seq<BankModel>, k: int)
    requires
        0 <= k <= banks.len(),
    ensures
        floors_total(banks.take(k)) <= floors_total(banks),
    decreases banks.len(),
{
    if k == banks.len() {
        assert(banks.take(k) == banks);
    } else {
        floors_total_of_prefix(banks.drop_last(), k);
        assert(banks.drop_last().take(k) == banks.take(k));
    }
}

/// What the sums are bounded by while the banks are evaluated.
pub proof fn conserved_bounds(r: RunModel, ordered: Seq<BankModel>, k: int)
    requires
        0 <= k <= ordered.len(),
        conserved(r, ordered, k),
    ensures
        r.degree.total_credit + credit_waiting(r.pending) + r.leftover <= relevant_total(
            r.degree.course_statuses,
            true,
        ),
        courses_waiting(r.pending) <= relevant_total(r.degree.course_statuses, false),
        missing_waiting(r.pending) <= floors_total(ordered),
        completed_total(r.degree.course_bank_requirements) + r.leftover <= relevant_total(
            r.degree.course_statuses,
            true,
        ),
{
    counted_within_relevant(r.degree.course_statuses, bank_names(ordered).take(k), true);
    counted_within_relevant(r.degree.course_statuses, bank_names(ordered).take(k), false);
    floors_total_of_prefix(ordered, k);
}

/// The banks require at most their number times the largest credit.
pub proof fn floors_total_bound(banks: Seq<BankModel>)
    requires
        forall|k: int|
            0 <= k < banks.len() ==> match (#[trigger] banks[k]).credit {
                Some(c) => c <= u32::MAX,
                None => true,
            },
    ensures
        floors_total(banks) <= banks.len() * u32::MAX,
    decreases banks.len(),
{
    if banks.len() > 0 {
        floors_total_bound(banks.drop_last());
        assert((banks.len() - 1) * u32::MAX + u32::MAX == banks.len() * u32::MAX)
            by (nonlinear_arith);
    }
}

/// While the banks of an order with distinct names are evaluated one after
/// another on a report that holds no requirement and no credit yet, the
/// sums stay within what the records hold, and the records keep their weight.
pub proof fn run_conserves(
    degree: DegreeModel,
    ordered: Seq<BankModel>,
    catalog: CatalogModel,
    registry: Seq<CourseModel>,
    malag: Seq<Seq<char>>,
    k: int,
)
    requires
        distinct_names(ordered),
        degree.course_bank_requirements.len() == 0,
        degree.total_credit == 0,
        0 <= k <= ordered.len(),
    ensures
        conserved(run(start(degree, ordered.len()), ordered, catalog, registry, malag, k), ordered, k),
        relevant_total(
            run(start(degree, ordered.len()), ordered, catalog, registry, malag, k).degree.course_statuses,
            true,
        ) == relevant_total(degree.course_statuses, true),
        relevant_total(
            run(start(degree, ordered.len()), ordered, catalog, registry, malag, k).degree.course_statuses,
            false,
        ) == relevant_total(degree.course_statuses, false),
    decreases k,
{
    let r0 = start(degree, ordered.len());
    if k == 0 {
        nothing_waits_at_start(ordered.len());
        counted_for_no_bank(degree.course_statuses, true);
        counted_for_no_bank(degree.course_statuses, false);
        assert(bank_names(ordered).take(0) =~= Seq::empty());
        assert(ordered.take(0) =~= Seq::empty());
        assert(degree.course_bank_requirements =~= Seq::empty());
    } else {
        run_conserves(degree, ordered, catalog, registry, malag, k - 1);
        step_conserves(run(r0, ordered, catalog, registry, malag, k - 1), ordered, catalog, registry, malag, k - 1);
    }
}

/// Credit is moved between banks and never made: after a computation, the
/// credit that the banks hold as completed and the credit that is left over
/// are together no more than the credit of the completed records that went
/// into it. The total of the report is the credit that the banks hold.
pub proof fn credit_is_conserved(
    degree: DegreeModel,
    catalog: CatalogModel,
    registry: Seq<CourseModel>,
    malag: Seq<Seq<char>>,
    ordered: Seq<BankModel>,
)
    requires
        distinct_names(ordered),
    ensures
        completed_total(
            computed_run(degree, catalog, registry, malag, ordered).degree.course_bank_requirements,
        ) + computed_run(degree, catalog, registry, malag, ordered).leftover <= relevant_total(
            degree.course_statuses,
            true,
        ),
        finished(computed_run(degree, catalog, registry, malag, ordered)).total_credit
            == completed_total(
            finished(
                computed_run(degree, catalog, registry, malag, ordered),
            ).course_bank_requirements,
        ),
{
    let pre = preprocessed(degree, catalog, registry);
    let r = computed_run(degree, catalog, registry, malag, ordered);
    run_conserves(
        pre,
        ordered,
        preprocessed_catalog(degree.course_statuses, catalog),
        registry,
        malag,
        ordered.len() as int,
    );
    conserved_bounds(r, ordered, ordered.len() as int);
    preprocessed_weight(degree.course_statuses, catalog, registry, true);
}

/// Whether each record that counts for a bank counts for one of the banks
/// `names` or for the bank that the student chose, and no irrelevant record
/// counts for a bank.
pub open spec fn attributed(s: Seq<StatusModel>, names: Seq<Seq<char>>) -> bool {
    forall|i: int|
        0 <= i < s.len() ==> match (#[trigger] s[i]).course_type {
            Some(t) => !s[i].irrelevant() && (s[i].modified || names.contains(t)),
            None => true,
        }
}

/// Evaluating the bank at place `k` lets records count for that bank only.
pub proof fn step_attributes(
    r: RunModel,
    ordered: Seq<BankModel>,
    catalog: CatalogModel,
    registry: Seq<CourseModel>,
    malag: Seq<Seq<char>>,
    k: int,
)
    requires
        0 <= k < ordered.len(),
        attributed(r.degree.course_statuses, bank_names(ordered).take(k)),
    ensures
        attributed(
            step(r, ordered, catalog, registry, malag, k).degree.course_statuses,
            bank_names(ordered).take(k + 1),
        ),
{
    let s = r.degree.course_statuses;
    let bank = ordered[k];
    let list = bank_course_list(s, catalog, malag, bank);
    let names = bank_names(ordered);
    let taken = claimed(s, bank.name, list);
    let after = step(r, ordered, catalog, registry, malag, k).degree.course_statuses;
    assert(after == rule_statuses(s, bank, list, registry));
    placeholders_follow(taken, registry, bank.name, list);
    assert(names.take(k + 1)[k] == bank.name);
    assert forall|i: int| 0 <= i < after.len() implies match (#[trigger] after[i]).course_type {
        Some(t) => !after[i].irrelevant() && (after[i].modified || names.take(k + 1).contains(t)),
        None => true,
    } by {
        assert(names.take(k + 1).contains(bank.name));
        if i < s.len() {
            assert(after[i] == taken[i]);
            if claims(s[i], bank.name, list) {
                assert(after[i].course_type == Some(bank.name));
                assert(!s[i].irrelevant());
            } else {
                assert(after[i] == s[i]);
                match s[i].course_type {
                    Some(t) => {
                        if !s[i].modified {
                            let j = choose|j: int|
                                0 <= j < names.take(k).len() && names.take(k)[j] == t;
                            assert(names.take(k + 1)[j] == t);
                        }
                    },
                    None => {},
                }
            }
        }
    }
}

/// After preprocessing, a record counts for a bank only where the student
/// chose the bank for it.
pub proof fn preprocessed_is_attributed(
    degree: DegreeModel,
    catalog: CatalogModel,
    registry: Seq<CourseModel>,
)
    ensures
        attributed(preprocessed(degree, catalog, registry).course_statuses, Seq::empty()),
{
    let pre = preprocessed(degree, catalog, registry);
    assert forall|i: int| 0 <= i < pre.course_statuses.len() implies match (
    #[trigger] pre.course_statuses[i]).course_type {
        Some(t) => !pre.course_statuses[i].irrelevant() && (pre.course_statuses[i].modified
            || Seq::<Seq<char>>::empty().contains(t)),
        None => true,
    } by {
        preprocessed_types(degree.course_statuses, catalog, registry, i);
    }
}

/// After a computation, a record counts for a bank only where that bank is a
/// bank of the order or the student chose it, and no irrelevant record counts
/// for a bank. Among banks of distinct names, the bank is one bank.
pub proof fn records_count_for_one_bank(
    degree: DegreeModel,
    catalog: CatalogModel,
    registry: Seq<CourseModel>,
    malag: Seq<Seq<char>>,
    ordered: Seq<BankModel>,
)
    ensures
        attributed(
            finished(computed_run(degree, catalog, registry, malag, ordered)).course_statuses,
            bank_names(ordered),
        ),
        distinct_names(ordered) ==> forall|a: int, b: int|
            0 <= a < ordered.len() && 0 <= b < ordered.len() && (#[trigger] ordered[a]).name == (
            #[trigger] ordered[b]).name ==> a == b,
{
    let pre = preprocessed(degree, catalog, registry);
    let prepared = preprocessed_catalog(degree.course_statuses, catalog);
    preprocessed_is_attributed(degree, catalog, registry);
    run_attributes(pre, ordered, prepared, registry, malag, ordered.len() as int);
    assert(bank_names(ordered).take(ordered.len() as int) == bank_names(ordered));
    if distinct_names(ordered) {
        assert forall|a: int, b: int|
            0 <= a < ordered.len() && 0 <= b < ordered.len() && (#[trigger] ordered[a]).name == (
            #[trigger] ordered[b]).name implies a == b by {
            if a < b {
                assert(ordered[a].name != ordered[b].name);
            } else if b < a {
                assert(ordered[b].name != ordered[a].name);
            }
        }
    }
}

/// Evaluating the first `k` banks lets records count for those banks only.
pub proof fn run_attributes(
    degree: DegreeModel,
    ordered: Seq<BankModel>,
    catalog: CatalogModel,
    registry: Seq<CourseModel>,
    malag: Seq<Seq<char>>,
    k: int,
)
    requires
        0 <= k <= ordered.len(),
        attributed(degree.course_statuses, Seq::empty()),
    ensures
        attributed(
            run(start(degree, ordered.len()), ordered, catalog, registry, malag, k).degree.course_statuses,
            bank_names(ordered).take(k),
        ),
    decreases k,
{
    if k == 0 {
        assert(bank_names(ordered).take(0) =~= Seq::empty());
    } else {
        run_attributes(degree, ordered, catalog, registry, malag, k - 1);
        step_attributes(
            run(start(degree, ordered.len()), ordered, catalog, registry, malag, k - 1),
            ordered,
            catalog,
            registry,
            malag,
            k - 1,
        );
    }
}

/// In a traversal order of banks with distinct names, what a bank passes on
/// goes to a bank that is evaluated later.
pub proof fn transfers_go_forward(
    banks: Seq<BankModel>,
    rules: Seq<OverflowModel>,
    ordered: Seq<BankModel>,
    k: int,
)
    requires
        distinct_names(banks),
        is_traversal_order(banks, rules, ordered),
        0 <= k < ordered.len(),
    ensures
        match next_bank(rules, ordered, ordered[k].name) {
            Some((to, d)) => k < d < ordered.len(),
            None => true,
        },
{
    traversal_order_is_distinct(banks, rules, ordered);
    match next_bank(rules, ordered, ordered[k].name) {
        Some((to, d)) => {
            let order = choose|order: Seq<int>|
                #[trigger] is_topological_order(order, banks.len(), transfer_edges(banks, rules))
                    && ordered == ordered_banks(banks, order);
            let r = first_position(rule_sources(rules), ordered[k].name);
            first_position_found(rule_sources(rules), ordered[k].name);
            first_position_found(bank_names(ordered), to);
            order_respects_transfers(banks, rules, order, r, k, d);
        },
        None => {},
    }
}

/// While the banks of a traversal order are evaluated, nothing waits for a
/// bank that has been evaluated.
pub proof fn evaluated_banks_wait_for_nothing(
    degree: DegreeModel,
    banks: Seq<BankModel>,
    ordered: Seq<BankModel>,
    catalog: CatalogModel,
    registry: Seq<CourseModel>,
    malag: Seq<Seq<char>>,
    k: int,
)
    requires
        distinct_names(banks),
        is_traversal_order(banks, catalog.credit_overflows, ordered),
        0 <= k <= ordered.len(),
    ensures
        run(start(degree, ordered.len()), ordered, catalog, registry, malag, k).pending.len()
            == ordered.len(),
        forall|i: int|
            0 <= i < k ==> #[trigger] run(
                start(degree, ordered.len()),
                ordered,
                catalog,
                registry,
                malag,
                k,
            ).pending[i] == nothing(),
    decreases k,
{
    if k > 0 {
        evaluated_banks_wait_for_nothing(degree, banks, ordered, catalog, registry, malag, k - 1);
        transfers_go_forward(banks, catalog.credit_overflows, ordered, k - 1);
    }
}

/// At the end of a computation nothing waits for any bank: the credit that
/// banks passed on was taken by a bank or is left over.
pub proof fn nothing_waits_at_end(
    degree: DegreeModel,
    catalog: CatalogModel,
    registry: Seq<CourseModel>,
    malag: Seq<Seq<char>>,
    ordered: Seq<BankModel>,
)
    requires
        distinct_names(catalog.course_banks),
        is_traversal_order(catalog.course_banks, catalog.credit_overflows, ordered),
    ensures
        computed_run(degree, catalog, registry, malag, ordered).pending == Seq::new(
            ordered.len(),
            |k: int| nothing(),
        ),
{
    evaluated_banks_wait_for_nothing(
        preprocessed(degree, catalog, registry),
        catalog.course_banks,
        ordered,
        preprocessed_catalog(degree.course_statuses, catalog),
        registry,
        malag,
        ordered.len() as int,
    );
    assert(computed_run(degree, catalog, registry, malag, ordered).pending =~= Seq::new(
        ordered.len(),
        |k: int| nothing(),
    ));
}

/// A record that the student put in a bank by hand is among the bank's
/// modified courses.
pub proof fn modified_courses_hold(s: Seq<StatusModel>, bank: Seq<char>, i: int)
    requires
        0 <= i < s.len(),
        s[i].modified,
        s[i].course_type == Some(bank),
    ensures
        modified_courses(s, bank).contains(s[i].course.id),
    decreases s.len(),
{
    let rest = s.drop_last();
    let before = modified_courses(rest, bank);
    if i < s.len() - 1 {
        modified_courses_hold(rest, bank, i);
        let j = choose|j: int| 0 <= j < before.len() && before[j] == s[i].course.id;
        assert(modified_courses(s, bank)[j] == s[i].course.id);
    } else {
        assert(modified_courses(s, bank)[before.len() as int] == s[i].course.id);
    }
}

/// When the bank at place `k` takes its records from a list that holds the
/// courses that the student put in the bank, what counts for the first
/// `k + 1` banks is what counted for the first `k` and what the bank gained.
pub proof fn claims_are_counted_exactly(
    s: Seq<StatusModel>,
    names: Seq<Seq<char>>,
    k: int,
    list: Seq<Seq<char>>,
)
    requires
        0 <= k < names.len(),
        forall|i: int, j: int| 0 <= i < j < names.len() ==> names[i] != names[j],
        attributed(s, names.take(k)),
        forall|i: int|
            0 <= i < s.len() && (#[trigger] s[i]).modified && s[i].course_type == Some(names[k])
                ==> list.contains(s[i].course.id),
    ensures
        counted(claimed(s, names[k], list), names.take(k + 1), true) == counted(
            s,
            names.take(k),
            true,
        ) + claimed_total(s, names[k], list, true),
    decreases s.len(),
{
    if s.len() > 0 {
        let bank = names[k];
        let rest = s.drop_last();
        assert forall|i: int| 0 <= i < rest.len() implies match (#[trigger] rest[i]).course_type {
            Some(t) => !rest[i].irrelevant() && (rest[i].modified || names.take(k).contains(t)),
            None => true,
        } by {
            assert(rest[i] == s[i]);
        }
        assert forall|i: int|
            0 <= i < rest.len() && (#[trigger] rest[i]).modified && rest[i].course_type == Some(
                bank,
            ) implies list.contains(rest[i].course.id) by {
            assert(rest[i] == s[i]);
        }
        claims_are_counted_exactly(rest, names, k, list);
        assert(claimed(s, bank, list).drop_last() == claimed(rest, bank, list));
        let cs = s.last();
        assert(cs == s[s.len() - 1]);
        assert(names.take(k + 1)[k] == bank);
        assert(names.take(k + 1).contains(bank));
        assert(!names.take(k).contains(bank)) by {
            if names.take(k).contains(bank) {
                let j = choose|j: int| 0 <= j < names.take(k).len() && names.take(k)[j] == bank;
                assert(names[j] != names[k]);
            }
        }
        match cs.course_type {
            Some(t) => {
                if names.take(k).contains(t) {
                    let j = choose|j: int| 0 <= j < names.take(k).len() && names.take(k)[j] == t;
                    assert(names.take(k + 1)[j] == t);
                } else if names.take(k + 1).contains(t) {
                    let longer = names.take(k + 1);
                    let j = choose|j: int| 0 <= j < longer.len() && longer[j] == t;
                    if j < k {
                        assert(names.take(k)[j] == t);
                    }
                    assert(t == bank);
                }
            },
            None => {},
        }
    }
}

/// What holds of the credit after the first `k` banks of the order: what the
/// banks hold as completed, what waits and what is left over are together the
/// credit of the completed records that count for those banks.
pub open spec fn balanced(r: RunModel, ordered: Seq<BankModel>, k: int) -> bool {
    &&& r.pending.len() == ordered.len()
    &&& attributed(r.degree.course_statuses, bank_names(ordered).take(k))
    &&& r.degree.total_credit == completed_total(r.degree.course_bank_requirements)
    &&& r.degree.total_credit + credit_waiting(r.pending) + r.leftover == counted(
        r.degree.course_statuses,
        bank_names(ordered).take(k),
        true,
    )
}

/// Evaluating the next bank of the order keeps the credit balanced.
pub proof fn step_balances(
    r: RunModel,
    ordered: Seq<BankModel>,
    catalog: CatalogModel,
    registry: Seq<CourseModel>,
    malag: Seq<Seq<char>>,
    k: int,
)
    requires
        0 <= k < ordered.len(),
        distinct_names(ordered),
        balanced(r, ordered, k),
    ensures
        balanced(step(r, ordered, catalog, registry, malag, k), ordered, k + 1),
{
    let s = r.degree.course_statuses;
    let bank = ordered[k];
    let names = bank_names(ordered);
    let list = bank_course_list(s, catalog, malag, bank);
    let next = next_bank(catalog.credit_overflows, ordered, bank.name);
    let cleared = r.pending.update(k, nothing());
    assert(names[k] == bank.name);
    assert forall|i: int, j: int| 0 <= i < j < names.len() implies names[i] != names[j] by {
        assert(ordered[i].name != ordered[j].name);
    }
    assert forall|i: int|
        0 <= i < s.len() && (#[trigger] s[i]).modified && s[i].course_type == Some(
            names[k],
        ) implies list.contains(s[i].course.id) by {
        modified_courses_hold(s, bank.name, i);
        let found = modified_courses(s, bank.name);
        let j = choose|j: int| 0 <= j < found.len() && found[j] == s[i].course.id;
        assert(list[j] == s[i].course.id);
    }
    claims_are_counted_exactly(s, names, k, list);
    step_attributes(r, ordered, catalog, registry, malag, k);
    let taken = claimed(s, bank.name, list);
    placeholders_weigh_nothing(taken, registry, bank.name, list, names.take(k + 1), true);
    waiting_after_update(r.pending, k, nothing());
    let sum = r.pending[k].credit + claimed_total(s, bank.name, list, true);
    split_keeps_sum(bank.credit, sum, r.pending[k].missing, next is Some);
    let reqs = r.degree.course_bank_requirements;
    match next {
        Some((to, d)) => {
            let (degree, out) = evaluated(r.degree, bank, list, registry, r.pending[k], Some(to));
            first_position_found(bank_names(ordered), to);
            waiting_after_update(cleared, d, joined(cleared[d], out));
            assert(degree.course_bank_requirements.drop_last() == reqs);
        },
        None => {
            let (degree, out) = evaluated(r.degree, bank, list, registry, r.pending[k], None);
            assert(degree.course_bank_requirements.drop_last() == reqs);
        },
    }
}

/// Evaluating the first `k` banks of the order keeps the credit balanced.
pub proof fn run_balances(
    degree: DegreeModel,
    ordered: Seq<BankModel>,
    catalog: CatalogModel,
    registry: Seq<CourseModel>,
    malag: Seq<Seq<char>>,
    k: int,
)
    requires
        distinct_names(ordered),
        degree.course_bank_requirements.len() == 0,
        degree.total_credit == 0,
        attributed(degree.course_statuses, Seq::empty()),
        0 <= k <= ordered.len(),
    ensures
        balanced(run(start(degree, ordered.len()), ordered, catalog, registry, malag, k), ordered, k),
    decreases k,
{
    let r0 = start(degree, ordered.len());
    if k == 0 {
        nothing_waits_at_start(ordered.len());
        counted_for_no_bank(degree.course_statuses, true);
        assert(bank_names(ordered).take(0) =~= Seq::empty());
        assert(degree.course_bank_requirements =~= Seq::empty());
    } else {
        run_balances(degree, ordered, catalog, registry, malag, k - 1);
        step_balances(run(r0, ordered, catalog, registry, malag, k - 1), ordered, catalog, registry, malag, k - 1);
    }
}

/// Credit is neither made nor lost: after a computation over a traversal
/// order, the credit that the banks hold as completed and the credit that is
/// left over are together the credit of the completed records that count for
/// banks of the catalog.
pub proof fn credit_is_accounted_for(
    degree: DegreeModel,
    catalog: CatalogModel,
    registry: Seq<CourseModel>,
    malag: Seq<Seq<char>>,
    ordered: Seq<BankModel>,
)
    requires
        distinct_names(catalog.course_banks),
        is_traversal_order(catalog.course_banks, catalog.credit_overflows, ordered),
    ensures
        completed_total(
            computed_run(degree, catalog, registry, malag, ordered).degree.course_bank_requirements,
        ) + computed_run(degree, catalog, registry, malag, ordered).leftover == counted(
            computed_run(degree, catalog, registry, malag, ordered).degree.course_statuses,
            bank_names(ordered),
            true,
        ),
{
    let pre = preprocessed(degree, catalog, registry);
    let prepared = preprocessed_catalog(degree.course_statuses, catalog);
    traversal_order_is_distinct(catalog.course_banks, catalog.credit_overflows, ordered);
    preprocessed_is_attributed(degree, catalog, registry);
    run_balances(pre, ordered, prepared, registry, malag, ordered.len() as int);
    nothing_waits_at_end(degree, catalog, registry, malag, ordered);
    nothing_waits_at_start(ordered.len());
    assert(bank_names(ordered).take(ordered.len() as int) == bank_names(ordered));
}

} // verus!
