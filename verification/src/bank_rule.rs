//! How one bank is evaluated against the student's records.

use crate::catalog::{
    chain_models, contains_text, group_models, BankModel, CourseBank, GroupModel, Rule, RuleModel,
    SpecializationGroup,
};
use crate::course::{
    course_models, course_or_unknown, lookup_course, models, models_push, text_of, texts, Course,
    CourseModel, CourseState, CourseStatus, StatusModel,
};
use crate::degree_status::{DegreeModel, DegreeStatus, Requirement, RequirementModel};
use crate::messages::{
    completed_chain_msg, completed_chain_text, completed_specialization_groups_msg,
    completed_specialization_groups_text, courses_overflow_msg, courses_overflow_text,
    credit_overflow_detailed_msg, credit_overflow_detailed_text, credit_overflow_msg,
    credit_overflow_text, missing_credit_msg, missing_credit_text,
};
use crate::text::{first_true, first_true_is};
use vstd::prelude::*;

verus! {

/// What a record weighs: its credit, or one course.
pub open spec fn weight(cs: StatusModel, by_credit: bool) -> nat {
    if by_credit {
        cs.course.credit
    } else {
        1
    }
}

/// Whether the bank takes the record: the bank may count it, and its course is
/// on the bank's list.
pub open spec fn claims(cs: StatusModel, bank: Seq<char>, list: Seq<Seq<char>>) -> bool {
    cs.valid_for_bank(bank) && list.contains(cs.course.id)
}

/// The records after the bank has taken its own: each record it takes counts
/// for the bank, and the others are as before.
pub open spec fn claimed(s: Seq<StatusModel>, bank: Seq<char>, list: Seq<Seq<char>>) -> Seq<
    StatusModel,
> {
    Seq::new(
        s.len(),
        |k: int|
            if claims(s[k], bank, list) {
                s[k].with_type(Some(bank))
            } else {
                s[k]
            },
    )
}

/// What the record adds to the bank: its weight where the bank takes it and it
/// is completed.
pub open spec fn gain(cs: StatusModel, bank: Seq<char>, list: Seq<Seq<char>>, by_credit: bool) -> nat {
    if claims(cs, bank, list) && cs.completed() {
        weight(cs, by_credit)
    } else {
        0
    }
}

/// What the records add to the bank.
pub open spec fn claimed_total(
    s: Seq<StatusModel>,
    bank: Seq<char>,
    list: Seq<Seq<char>>,
    by_credit: bool,
) -> nat
    decreases s.len(),
{
    if s.len() == 0 {
        0
    } else {
        claimed_total(s.drop_last(), bank, list, by_credit) + gain(s.last(), bank, list, by_credit)
    }
}

/// The weight of the completed records that are not irrelevant.
pub open spec fn relevant_total(s: Seq<StatusModel>, by_credit: bool) -> nat
    decreases s.len(),
{
    if s.len() == 0 {
        0
    } else {
        relevant_total(s.drop_last(), by_credit) + if s.last().completed() {
            weight(s.last(), by_credit)
        } else {
            0
        }
    }
}

/// A bank gets no more than the completed records hold.
pub proof fn claimed_within_relevant(
    s: Seq<StatusModel>,
    bank: Seq<char>,
    list: Seq<Seq<char>>,
    by_credit: bool,
)
    ensures
        claimed_total(s, bank, list, by_credit) <= relevant_total(s, by_credit),
    decreases s.len(),
{
    if s.len() > 0 {
        claimed_within_relevant(s.drop_last(), bank, list, by_credit);
    }
}

/// The first records add no more to a bank than all of them.
pub proof fn claimed_total_of_prefix(
    s: Seq<StatusModel>,
    k: int,
    bank: Seq<char>,
    list: Seq<Seq<char>>,
    by_credit: bool,
)
    requires
        0 <= k <= s.len(),
    ensures
        claimed_total(s.take(k), bank, list, by_credit) <= claimed_total(s, bank, list, by_credit),
    decreases s.len(),
{
    if k == s.len() {
        assert(s.take(k) == s);
    } else {
        claimed_total_of_prefix(s.drop_last(), k, bank, list, by_credit);
        assert(s.drop_last().take(k) == s.take(k));
    }
}

/// The records weigh at most their number times the largest credit.
pub proof fn relevant_total_bound(s: Seq<StatusModel>, by_credit: bool)
    requires
        forall|k: int| 0 <= k < s.len() ==> (#[trigger] s[k]).course.credit <= u32::MAX,
    ensures
        relevant_total(s, by_credit) <= s.len() * u32::MAX,
    decreases s.len(),
{
    if s.len() > 0 {
        relevant_total_bound(s.drop_last(), by_credit);
        assert((s.len() - 1) * u32::MAX + u32::MAX == s.len() * u32::MAX) by (nonlinear_arith);
    }
}

/// The credit and the number of courses that a bank has.
#[derive(Clone, Copy, Debug, PartialEq, Eq)]
pub struct CreditInfo {
    pub sum_credit: u64,
    pub count_courses: u64,
}

/// One bank's view of a student: the bank's name, the courses that count for
/// it, the registry, and what other banks passed on to it.
pub struct BankRuleHandler<'a> {
    pub bank_name: String,
    pub course_list: Vec<String>,
    pub courses: &'a Vec<Course>,
    pub credit_overflow: u64,
    pub courses_overflow: u64,
}

/// Whether the record is a completed record of the course `id` that counts for
/// the bank.
pub open spec fn is_done(cs: StatusModel, bank: Seq<char>, id: Seq<char>) -> bool {
    cs.course.id == id && cs.course_type == Some(bank) && cs.completed()
}

/// Whether the record is a record of the course `id` that counts for the bank.
pub open spec fn is_handled(cs: StatusModel, bank: Seq<char>, id: Seq<char>) -> bool {
    cs.course.id == id && cs.course_type == Some(bank)
}

/// Whether the bank has a record of the course `id`.
pub open spec fn handled(s: Seq<StatusModel>, bank: Seq<char>, id: Seq<char>) -> bool {
    exists|k: int| 0 <= k < s.len() && is_handled(#[trigger] s[k], bank, id)
}

/// The record that stands for a course of the bank of which the student has no
/// record.
pub open spec fn placeholder(registry: Seq<CourseModel>, bank: Seq<char>, id: Seq<char>) -> StatusModel {
    StatusModel {
        state: Some(CourseState::NotComplete),
        course_type: Some(bank),
        ..StatusModel::blank(course_or_unknown(registry, id))
    }
}

/// The records with a placeholder for each course of `list` that the bank has
/// no record of, in the order of the list.
pub open spec fn with_placeholders(
    s: Seq<StatusModel>,
    registry: Seq<CourseModel>,
    bank: Seq<char>,
    list: Seq<Seq<char>>,
) -> Seq<StatusModel>
    decreases list.len(),
{
    if list.len() == 0 {
        s
    } else {
        let before = with_placeholders(s, registry, bank, list.drop_last());
        if handled(before, bank, list.last()) {
            before
        } else {
            before.push(placeholder(registry, bank, list.last()))
        }
    }
}

/// For each record, whether it is a completed record of `id` for the bank.
pub open spec fn done_flags(s: Seq<StatusModel>, bank: Seq<char>, id: Seq<char>) -> Seq<bool> {
    Seq::new(s.len(), |k: int| is_done(s[k], bank, id))
}

/// The position of the first completed record of `id` for the bank.
pub open spec fn first_done(s: Seq<StatusModel>, bank: Seq<char>, id: Seq<char>) -> int {
    first_true(done_flags(s, bank, id))
}

/// Whether the bank has a completed record of each course of the chain.
pub open spec fn chain_complete(s: Seq<StatusModel>, bank: Seq<char>, chain: Seq<Seq<char>>) -> bool {
    forall|j: int| 0 <= j < chain.len() ==> first_done(s, bank, #[trigger] chain[j]) < s.len()
}

/// The names of the courses of the chain, each as the student's first
/// completed record of it has it.
pub open spec fn chain_names(s: Seq<StatusModel>, bank: Seq<char>, chain: Seq<Seq<char>>) -> Seq<
    Seq<char>,
> {
    Seq::new(chain.len(), |j: int| s[first_done(s, bank, chain[j])].course.name)
}

/// For each chain, whether it is complete.
pub open spec fn chain_flags(s: Seq<StatusModel>, bank: Seq<char>, chains: Seq<Seq<Seq<char>>>) -> Seq<
    bool,
> {
    Seq::new(chains.len(), |c: int| chain_complete(s, bank, chains[c]))
}

/// The names of the courses of the first complete chain, if one is complete.
pub open spec fn completed_chain(
    s: Seq<StatusModel>,
    bank: Seq<char>,
    chains: Seq<Seq<Seq<char>>>,
) -> Option<Seq<Seq<char>>> {
    let c = first_true(chain_flags(s, bank, chains));
    if c < chains.len() {
        Some(chain_names(s, bank, chains[c]))
    } else {
        None
    }
}

/// The names of the groups of which the bank has every course completed, in
/// the order of the groups.
pub open spec fn completed_groups(s: Seq<StatusModel>, bank: Seq<char>, groups: Seq<GroupModel>) -> Seq<
    Seq<char>,
>
    decreases groups.len(),
{
    if groups.len() == 0 {
        Seq::empty()
    } else {
        let before = completed_groups(s, bank, groups.drop_last());
        if chain_complete(s, bank, groups.last().course_list) {
            before.push(groups.last().name)
        } else {
            before
        }
    }
}

/// The position of the first completed record of the course `id` that counts
/// for `bank`.
pub fn find_done(statuses: &Vec<CourseStatus>, bank: &String, id: &String) -> (out: Option<usize>)
    ensures
        match out {
            Some(p) => p < statuses.len() && p == first_done(models(statuses@), bank@, id@),
            None => first_done(models(statuses@), bank@, id@) == statuses.len(),
        },
{
    let ghost flags = done_flags(models(statuses@), bank@, id@);
    let mut k: usize = 0;
    while k < statuses.len()
        invariant
            k <= statuses.len(),
            flags == done_flags(models(statuses@), bank@, id@),
            forall|j: int| 0 <= j < k ==> !flags[j],
        decreases statuses.len() - k,
    {
        let cs = &statuses[k];
        let typed = match &cs.course_type {
            Some(t) => *t == *bank,
            None => false,
        };
        if typed && cs.course.id == *id && cs.completed() {
            proof {
                first_true_is(flags, k as int);
            }
            return Some(k);
        }
        k += 1;
    }
    proof {
        first_true_is(flags, k as int);
    }
    None
}

/// Whether the bank has a record of the course `id`.
pub fn is_handled_course(statuses: &Vec<CourseStatus>, bank: &String, id: &String) -> (out: bool)
    ensures
        out == handled(models(statuses@), bank@, id@),
{
    let mut k: usize = 0;
    while k < statuses.len()
        invariant
            k <= statuses.len(),
            forall|j: int| 0 <= j < k ==> !is_handled(#[trigger] models(statuses@)[j], bank@, id@),
        decreases statuses.len() - k,
    {
        let cs = &statuses[k];
        let typed = match &cs.course_type {
            Some(t) => *t == *bank,
            None => false,
        };
        if typed && cs.course.id == *id {
            assert(is_handled(models(statuses@)[k as int], bank@, id@));
            return true;
        }
        k += 1;
    }
    false
}

/// The names of the courses of the chain, where the bank has each of them
/// completed.
pub fn chain_done(statuses: &Vec<CourseStatus>, bank: &String, chain: &Vec<String>) -> (out: Option<
    Vec<String>,
>)
    ensures
        match out {
            Some(names) => chain_complete(models(statuses@), bank@, texts(chain@)) && texts(names@)
                == chain_names(models(statuses@), bank@, texts(chain@)),
            None => !chain_complete(models(statuses@), bank@, texts(chain@)),
        },
{
    let ghost s = models(statuses@);
    let ghost ids = texts(chain@);
    let mut names: Vec<String> = Vec::new();
    let mut j: usize = 0;
    while j < chain.len()
        invariant
            j <= chain.len(),
            s == models(statuses@),
            ids == texts(chain@),
            names.len() == j,
            forall|i: int| 0 <= i < j ==> first_done(s, bank@, #[trigger] ids[i]) < s.len(),
            forall|i: int|
                0 <= i < j ==> (#[trigger] names[i])@ == s[first_done(s, bank@, ids[i])].course.name,
        decreases chain.len() - j,
    {
        assert(ids[j as int] == chain[j as int]@);
        match find_done(statuses, bank, &chain[j]) {
            Some(p) => {
                names.push(statuses[p].course.name.clone());
            },
            None => {
                return None;
            },
        }
        j += 1;
    }
    assert(texts(names@) =~= chain_names(s, bank@, ids));
    Some(names)
}

impl<'a> BankRuleHandler<'a> {
    /// Takes for the bank each record that it may count and whose course is on
    /// its list, and adds up the completed ones on top of what other banks
    /// passed on.
    pub fn iterate_course_list(&self, status: &mut DegreeStatus) -> (info: CreditInfo)
        requires
            self.credit_overflow + claimed_total(
                old(status)@.course_statuses,
                self.bank_name@,
                texts(self.course_list@),
                true,
            ) <= u64::MAX,
            self.courses_overflow + claimed_total(
                old(status)@.course_statuses,
                self.bank_name@,
                texts(self.course_list@),
                false,
            ) <= u64::MAX,
        ensures
            final(status)@ == (DegreeModel {
                course_statuses: claimed(
                    old(status)@.course_statuses,
                    self.bank_name@,
                    texts(self.course_list@),
                ),
                ..old(status)@
            }),
            info.sum_credit == self.credit_overflow + claimed_total(
                old(status)@.course_statuses,
                self.bank_name@,
                texts(self.course_list@),
                true,
            ),
            info.count_courses == self.courses_overflow + claimed_total(
                old(status)@.course_statuses,
                self.bank_name@,
                texts(self.course_list@),
                false,
            ),
    {
        let ghost src = status@.course_statuses;
        let ghost bank = self.bank_name@;
        let ghost list = texts(self.course_list@);
        let mut sum_credit: u64 = self.credit_overflow;
        let mut count_courses: u64 = self.courses_overflow;
        let mut i: usize = 0;
        while i < status.course_statuses.len()
            invariant
                i <= status.course_statuses.len() == src.len(),
                bank == self.bank_name@,
                list == texts(self.course_list@),
                src == old(status)@.course_statuses,
                self.credit_overflow + claimed_total(src, bank, list, true) <= u64::MAX,
                self.courses_overflow + claimed_total(src, bank, list, false) <= u64::MAX,
                status@ == (DegreeModel { course_statuses: status@.course_statuses, ..old(status)@ }),
                forall|k: int|
                    0 <= k < i ==> #[trigger] status@.course_statuses[k] == claimed(src, bank, list)[k],
                forall|k: int| i <= k < src.len() ==> #[trigger] status@.course_statuses[k] == src[k],
                sum_credit == self.credit_overflow + claimed_total(src.take(i as int), bank, list, true),
                count_courses == self.courses_overflow + claimed_total(
                    src.take(i as int),
                    bank,
                    list,
                    false,
                ),
            decreases status.course_statuses.len() - i,
        {
            let ghost before = status@.course_statuses;
            proof {
                assert(src.take(i + 1).drop_last() == src.take(i as int));
                assert(src.take(i + 1).last() == src[i as int]);
                assert(before[i as int] == src[i as int]);
                claimed_total_of_prefix(src, i + 1, bank, list, true);
                claimed_total_of_prefix(src, i + 1, bank, list, false);
            }
            if status.course_statuses[i].valid_for_bank(&self.bank_name) && contains_text(
                &self.course_list,
                &status.course_statuses[i].course.id,
            ) {
                let mut copy = status.course_statuses[i].clone();
                copy.set_type(self.bank_name.clone());
                if copy.completed() {
                    sum_credit = sum_credit + copy.course.credit as u64;
                    count_courses = count_courses + 1;
                }
                status.course_statuses.set(i, copy);
            }
            proof {
                assert(status@.course_statuses[i as int] == claimed(src, bank, list)[i as int]);
                assert forall|k: int| 0 <= k < src.len() && k != i implies #[trigger] status@.course_statuses[k]
                    == before[k] by {}
            }
            i += 1;
        }
        assert(src.take(i as int) == src);
        assert(status@.course_statuses =~= claimed(src, bank, list));
        CreditInfo { sum_credit, count_courses }
    }

    /// Whether what was passed on to the bank and the number of records are
    /// small enough for the bank's sums to fit, whatever the records hold.
    pub fn fits(&self, status: &DegreeStatus) -> (out: bool)
        ensures
            out == (self.credit_overflow <= u32::MAX && self.courses_overflow <= u32::MAX
                && status.course_statuses.len() < u32::MAX),
            out ==> self.credit_overflow + claimed_total(
                status@.course_statuses,
                self.bank_name@,
                texts(self.course_list@),
                true,
            ) <= u64::MAX && self.courses_overflow + claimed_total(
                status@.course_statuses,
                self.bank_name@,
                texts(self.course_list@),
                false,
            ) <= u64::MAX,
    {
        let small = self.credit_overflow <= u32::MAX as u64 && self.courses_overflow
            <= u32::MAX as u64 && status.course_statuses.len() < u32::MAX as usize;
        proof {
            if small {
                let s = status@.course_statuses;
                claimed_within_relevant(s, self.bank_name@, texts(self.course_list@), true);
                claimed_within_relevant(s, self.bank_name@, texts(self.course_list@), false);
                relevant_total_bound(s, true);
                relevant_total_bound(s, false);
                assert(s.len() * u32::MAX <= (u32::MAX - 1) * u32::MAX) by (nonlinear_arith)
                    requires
                        s.len() <= u32::MAX - 1,
                ;
            }
        }
        small
    }

    /// Adds a placeholder for each course of the list that the bank has no
    /// record of.
    pub fn add_missing_courses(&self, status: &mut DegreeStatus)
        ensures
            final(status)@ == (DegreeModel {
                course_statuses: with_placeholders(
                    old(status)@.course_statuses,
                    course_models(self.courses@),
                    self.bank_name@,
                    texts(self.course_list@),
                ),
                ..old(status)@
            }),
    {
        let ghost src = status@.course_statuses;
        let ghost registry = course_models(self.courses@);
        let ghost bank = self.bank_name@;
        let ghost list = texts(self.course_list@);
        let mut j: usize = 0;
        while j < self.course_list.len()
            invariant
                j <= self.course_list.len(),
                registry == course_models(self.courses@),
                bank == self.bank_name@,
                list == texts(self.course_list@),
                status@ == (DegreeModel {
                    course_statuses: with_placeholders(src, registry, bank, list.take(j as int)),
                    ..old(status)@
                }),
            decreases self.course_list.len() - j,
        {
            proof {
                assert(list.take(j + 1).drop_last() == list.take(j as int));
                assert(list.take(j + 1).last() == self.course_list[j as int]@);
            }
            if !is_handled_course(&status.course_statuses, &self.bank_name, &self.course_list[j]) {
                let added = CourseStatus {
                    course: lookup_course(self.courses, &self.course_list[j]),
                    state: Some(CourseState::NotComplete),
                    semester: None,
                    grade: None,
                    course_type: Some(self.bank_name.clone()),
                    additional_msg: None,
                    modified: false,
                };
                proof {
                    models_push(status.course_statuses@, added);
                }
                status.course_statuses.push(added);
            }
            j += 1;
        }
        assert(list.take(j as int) == list);
    }

    /// Every course of the list is required: the bank takes its records, and
    /// each course that it has no record of gets a placeholder.
    pub fn all(&self, status: &mut DegreeStatus) -> (info: CreditInfo)
        requires
            self.credit_overflow + claimed_total(
                old(status)@.course_statuses,
                self.bank_name@,
                texts(self.course_list@),
                true,
            ) <= u64::MAX,
            self.courses_overflow + claimed_total(
                old(status)@.course_statuses,
                self.bank_name@,
                texts(self.course_list@),
                false,
            ) <= u64::MAX,
        ensures
            final(status)@ == (DegreeModel {
                course_statuses: with_placeholders(
                    claimed(old(status)@.course_statuses, self.bank_name@, texts(self.course_list@)),
                    course_models(self.courses@),
                    self.bank_name@,
                    texts(self.course_list@),
                ),
                ..old(status)@
            }),
            info.sum_credit == self.credit_overflow + claimed_total(
                old(status)@.course_statuses,
                self.bank_name@,
                texts(self.course_list@),
                true,
            ),
            info.count_courses == self.courses_overflow + claimed_total(
                old(status)@.course_statuses,
                self.bank_name@,
                texts(self.course_list@),
                false,
            ),
    {
        let info = self.iterate_course_list(status);
        self.add_missing_courses(status);
        info
    }

    /// The names of the courses of the first chain that the bank has completed.
    pub fn chain(&self, status: &DegreeStatus, chains: &Vec<Vec<String>>) -> (out: Option<Vec<String>>)
        ensures
            match out {
                Some(names) => Some(texts(names@)),
                None => None,
            } == completed_chain(status@.course_statuses, self.bank_name@, chain_models(chains@)),
    {
        let ghost s = status@.course_statuses;
        let ghost flags = chain_flags(s, self.bank_name@, chain_models(chains@));
        let mut c: usize = 0;
        while c < chains.len()
            invariant
                c <= chains.len(),
                s == status@.course_statuses,
                flags == chain_flags(s, self.bank_name@, chain_models(chains@)),
                forall|k: int| 0 <= k < c ==> !flags[k],
            decreases chains.len() - c,
        {
            assert(chain_models(chains@)[c as int] == texts(chains[c as int]@));
            match chain_done(&status.course_statuses, &self.bank_name, &chains[c]) {
                Some(names) => {
                    proof {
                        first_true_is(flags, c as int);
                    }
                    return Some(names);
                },
                None => {},
            }
            c += 1;
        }
        proof {
            first_true_is(flags, c as int);
        }
        None
    }

    /// The names of the groups that the bank has completed.
    pub fn specialization_group(&self, status: &DegreeStatus, groups: &Vec<SpecializationGroup>) -> (out:
        Vec<String>)
        ensures
            texts(out@) == completed_groups(
                status@.course_statuses,
                self.bank_name@,
                group_models(groups@),
            ),
    {
        let ghost s = status@.course_statuses;
        let ghost all = group_models(groups@);
        let mut out: Vec<String> = Vec::new();
        assert(texts(out@) =~= Seq::empty());
        let mut g: usize = 0;
        while g < groups.len()
            invariant
                g <= groups.len(),
                s == status@.course_statuses,
                all == group_models(groups@),
                texts(out@) == completed_groups(s, self.bank_name@, all.take(g as int)),
            decreases groups.len() - g,
        {
            proof {
                assert(all.take(g + 1).drop_last() == all.take(g as int));
                assert(all.take(g + 1).last() == groups[g as int]@);
            }
            let ghost before = texts(out@);
            match chain_done(&status.course_statuses, &self.bank_name, &groups[g].course_list) {
                Some(_) => {
                    out.push(groups[g].name.clone());
                    assert(texts(out@) =~= before.push(groups[g as int].name@));
                },
                None => {},
            }
            g += 1;
        }
        assert(all.take(g as int) == all);
        out
    }
}

/// What one bank passes on to another: credit and courses beyond what it
/// requires, and credit that it fell short by. Credit is in half points.
#[derive(Clone, Copy, Debug, PartialEq, Eq)]
pub struct Transfer {
    pub credit: u64,
    pub courses: u64,
    pub missing: u64,
}

/// The mathematical value of a [`Transfer`].
pub struct TransferModel {
    pub credit: nat,
    pub courses: nat,
    pub missing: nat,
}

impl View for Transfer {
    type V = TransferModel;

    open spec fn view(&self) -> TransferModel {
        TransferModel {
            credit: self.credit as nat,
            courses: self.courses as nat,
            missing: self.missing as nat,
        }
    }
}

/// How what a bank has is held against what it requires.
pub struct Split {
    pub requirement: Option<nat>,
    pub completed: nat,
    pub overflow: nat,
    pub shortfall: nat,
}

/// The credit of a bank that has `sum`: a bank that requires credit requires
/// in addition what banks before it fell short by, keeps what it requires and
/// passes on the rest. A bank that requires none passes on all it has where
/// there is a bank to take it, and keeps it where there is not.
pub open spec fn credit_split(floor: Option<nat>, sum: nat, missing: nat, has_next: bool) -> Split {
    match floor {
        Some(c) => {
            let required = c + missing;
            let completed = if sum <= required {
                sum
            } else {
                required
            };
            Split {
                requirement: Some(required),
                completed,
                overflow: (sum - completed) as nat,
                shortfall: (required - completed) as nat,
            }
        },
        None => if has_next {
            Split { requirement: None, completed: 0, overflow: sum, shortfall: 0 }
        } else {
            Split { requirement: None, completed: sum, overflow: 0, shortfall: 0 }
        },
    }
}

/// The courses of a bank that has `count`: a bank that requires a number of
/// courses keeps that many and passes on the rest.
pub open spec fn course_split(floor: Option<nat>, count: nat) -> Split {
    match floor {
        Some(n) => {
            let completed = if count <= n {
                count
            } else {
                n
            };
            Split {
                requirement: Some(n),
                completed,
                overflow: (count - completed) as nat,
                shortfall: (n - completed) as nat,
            }
        },
        None => Split { requirement: None, completed: count, overflow: 0, shortfall: 0 },
    }
}

/// The records after the bank has taken its own; a bank that requires every
/// course of its list adds placeholders for those it has no record of.
pub open spec fn rule_statuses(
    s: Seq<StatusModel>,
    bank: BankModel,
    list: Seq<Seq<char>>,
    registry: Seq<CourseModel>,
) -> Seq<StatusModel> {
    let taken = claimed(s, bank.name, list);
    match bank.rule {
        RuleModel::All => with_placeholders(taken, registry, bank.name, list),
        _ => taken,
    }
}

/// What the bank's rule has to say of the records.
pub open spec fn rule_message(s: Seq<StatusModel>, bank: BankModel) -> Option<Seq<char>> {
    match bank.rule {
        RuleModel::Chains(chains) => match completed_chain(s, bank.name, chains) {
            Some(names) => Some(completed_chain_text(names)),
            None => None,
        },
        RuleModel::SpecializationGroups(groups, needed) => Some(
            completed_specialization_groups_text(completed_groups(s, bank.name, groups), needed),
        ),
        _ => None,
    }
}

/// The notes on what the bank `from` passes on to the bank `to`.
pub open spec fn transfer_msgs(
    from: BankModel,
    to: Seq<char>,
    credit: Split,
    courses: Split,
) -> Seq<Seq<char>> {
    let first = if from.credit is None {
        seq![credit_overflow_detailed_text(from.name, to)]
    } else if credit.overflow > 0 {
        seq![credit_overflow_text(credit.overflow, from.name, to)]
    } else {
        Seq::empty()
    };
    let second = if credit.shortfall > 0 {
        first.push(missing_credit_text(credit.shortfall, from.name, to))
    } else {
        first
    };
    if courses.overflow > 0 {
        second.push(courses_overflow_text(courses.overflow, from.name, to))
    } else {
        second
    }
}

/// The report after the bank has been evaluated, and what the bank passes on.
/// `next` is the bank that takes what this one passes on, if there is one.
/// Without one, the credit beyond the requirement is still returned, and
/// nothing else is.
pub open spec fn evaluated(
    degree: DegreeModel,
    bank: BankModel,
    list: Seq<Seq<char>>,
    registry: Seq<CourseModel>,
    incoming: TransferModel,
    next: Option<Seq<char>>,
) -> (DegreeModel, TransferModel) {
    let s = degree.course_statuses;
    let after = rule_statuses(s, bank, list, registry);
    let credit = credit_split(
        bank.credit,
        incoming.credit + claimed_total(s, bank.name, list, true),
        incoming.missing,
        next is Some,
    );
    let courses = course_split(
        bank.course_floor(),
        incoming.courses + claimed_total(s, bank.name, list, false),
    );
    let requirement = RequirementModel {
        course_bank_name: bank.name,
        credit_requirement: credit.requirement,
        course_requirement: courses.requirement,
        credit_completed: credit.completed,
        course_completed: courses.completed,
        message: rule_message(after, bank),
    };
    (
        DegreeModel {
            course_statuses: after,
            course_bank_requirements: degree.course_bank_requirements.push(requirement),
            overflow_msgs: match next {
                Some(to) => degree.overflow_msgs + transfer_msgs(bank, to, credit, courses),
                None => degree.overflow_msgs,
            },
            total_credit: degree.total_credit + credit.completed,
        },
        TransferModel {
            credit: credit.overflow,
            courses: if next is Some {
                courses.overflow
            } else {
                0
            },
            missing: if next is Some {
                credit.shortfall
            } else {
                0
            },
        },
    )
}

/// Evaluates one bank: the bank takes its records, its rule is applied, what
/// it has is held against what it requires, the result is added to the
/// report, and what the bank passes on is returned.
pub fn evaluate_bank(
    status: &mut DegreeStatus,
    bank: &CourseBank,
    course_list: Vec<String>,
    courses: &Vec<Course>,
    incoming: Transfer,
    next: Option<&String>,
) -> (outgoing: Transfer)
    requires
        old(status).total_credit + incoming.credit + claimed_total(
            old(status)@.course_statuses,
            bank.name@,
            texts(course_list@),
            true,
        ) <= u64::MAX,
        incoming.courses + claimed_total(
            old(status)@.course_statuses,
            bank.name@,
            texts(course_list@),
            false,
        ) <= u64::MAX,
        incoming.missing + u32::MAX <= u64::MAX,
    ensures
        (final(status)@, outgoing@) == evaluated(
            old(status)@,
            bank@,
            texts(course_list@),
            course_models(courses@),
            incoming@,
            match next {
                Some(to) => Some(to@),
                None => None,
            },
        ),
{
    let ghost before = status@;
    let ghost list = texts(course_list@);
    let ghost to_name: Option<Seq<char>> = match next {
        Some(to) => Some(to@),
        None => None,
    };
    let handler = BankRuleHandler {
        bank_name: bank.name.clone(),
        course_list,
        courses,
        credit_overflow: incoming.credit,
        courses_overflow: incoming.courses,
    };
    let mut message: Option<String> = None;
    let info;
    match &bank.rule {
        Rule::All => {
            info = handler.all(status);
        },
        Rule::Chains(chains) => {
            info = handler.iterate_course_list(status);
            match handler.chain(status, chains) {
                Some(names) => {
                    message = Some(completed_chain_msg(names));
                },
                None => {},
            }
        },
        Rule::SpecializationGroups(groups) => {
            info = handler.iterate_course_list(status);
            let names = handler.specialization_group(status, &groups.groups_list);
            message = Some(completed_specialization_groups_msg(names, groups.groups_number));
        },
        _ => {
            info = handler.iterate_course_list(status);
        },
    }
    assert(status@.course_statuses == rule_statuses(
        before.course_statuses,
        bank@,
        list,
        course_models(courses@),
    ));
    assert(text_of(message) == rule_message(status@.course_statuses, bank@));
    let ghost credit = credit_split(
        bank@.credit,
        info.sum_credit as nat,
        incoming.missing as nat,
        next is Some,
    );
    let ghost count = course_split(bank@.course_floor(), info.count_courses as nat);
    let credit_requirement: Option<u64>;
    let credit_completed: u64;
    let credit_overflow: u64;
    let shortfall: u64;
    match bank.credit {
        Some(c) => {
            let required = c as u64 + incoming.missing;
            credit_requirement = Some(required);
            credit_completed = if info.sum_credit <= required {
                info.sum_credit
            } else {
                required
            };
            credit_overflow = info.sum_credit - credit_completed;
            shortfall = required - credit_completed;
        },
        None => {
            credit_requirement = None;
            shortfall = 0;
            if next.is_some() {
                credit_completed = 0;
                credit_overflow = info.sum_credit;
            } else {
                credit_completed = info.sum_credit;
                credit_overflow = 0;
            }
        },
    }
    let course_requirement: Option<u64>;
    let course_completed: u64;
    let courses_overflow: u64;
    match &bank.rule {
        Rule::AccumulateCourses(n) => {
            let needed = *n as u64;
            course_requirement = Some(needed);
            course_completed = if info.count_courses <= needed {
                info.count_courses
            } else {
                needed
            };
            courses_overflow = info.count_courses - course_completed;
        },
        _ => {
            course_requirement = None;
            course_completed = info.count_courses;
            courses_overflow = 0;
        },
    }
    assert(credit.overflow == credit_overflow && credit.shortfall == shortfall && credit.completed
        == credit_completed);
    assert(count.overflow == courses_overflow && count.completed == course_completed);
    let requirement = Requirement {
        course_bank_name: bank.name.clone(),
        credit_requirement,
        course_requirement,
        credit_completed,
        course_completed,
        message,
    };
    let ghost reqs = status@.course_bank_requirements;
    status.course_bank_requirements.push(requirement);
    assert(status@.course_bank_requirements =~= reqs.push(requirement@));
    status.total_credit = status.total_credit + credit_completed;
    match next {
        Some(to) => {
            let ghost msgs = status@.overflow_msgs;
            let ghost mut added: Seq<Seq<char>> = Seq::empty();
            if bank.credit.is_none() {
                status.overflow_msgs.push(
                    credit_overflow_detailed_msg(bank.name.as_str(), to.as_str()),
                );
                proof {
                    added = added.push(credit_overflow_detailed_text(bank.name@, to@));
                }
            } else if credit_overflow > 0 {
                status.overflow_msgs.push(
                    credit_overflow_msg(credit_overflow, bank.name.as_str(), to.as_str()),
                );
                proof {
                    added = added.push(credit_overflow_text(credit_overflow as nat, bank.name@, to@));
                }
            }
            assert(status@.overflow_msgs =~= msgs + added);
            if shortfall > 0 {
                status.overflow_msgs.push(
                    missing_credit_msg(shortfall, bank.name.as_str(), to.as_str()),
                );
                proof {
                    added = added.push(missing_credit_text(shortfall as nat, bank.name@, to@));
                }
            }
            assert(status@.overflow_msgs =~= msgs + added);
            if courses_overflow > 0 {
                status.overflow_msgs.push(
                    courses_overflow_msg(courses_overflow, bank.name.as_str(), to.as_str()),
                );
                proof {
                    added = added.push(courses_overflow_text(courses_overflow as nat, bank.name@, to@));
                }
            }
            assert(status@.overflow_msgs =~= msgs + added);
            assert(added == transfer_msgs(bank@, to@, credit, count));
            Transfer { credit: credit_overflow, courses: courses_overflow, missing: shortfall }
        },
        None => Transfer { credit: credit_overflow, courses: 0, missing: 0 },
    }
}

/// What a bank reports is what it counted: the records it takes count for
/// it and no others change; the credit and the courses that it holds as
/// completed or passes on are those that came in and those of the completed
/// records it takes.
pub proof fn evaluation_accounts_for_claims(
    degree: DegreeModel,
    bank: BankModel,
    list: Seq<Seq<char>>,
    registry: Seq<CourseModel>,
    incoming: TransferModel,
    next: Option<Seq<char>>,
)
    ensures
        ({
            let (after, out) = evaluated(degree, bank, list, registry, incoming, next);
            let s = degree.course_statuses;
            let report = after.course_bank_requirements.last();
            &&& after.course_statuses.len() >= s.len()
            &&& forall|i: int|
                0 <= i < s.len() ==> #[trigger] after.course_statuses[i] == if claims(
                    s[i],
                    bank.name,
                    list,
                ) {
                    s[i].with_type(Some(bank.name))
                } else {
                    s[i]
                }
            &&& forall|i: int|
                s.len() <= i < after.course_statuses.len() ==> !(
                #[trigger] after.course_statuses[i]).completed() && after.course_statuses[i].course_type
                    == Some(bank.name)
            &&& report.course_bank_name == bank.name
            &&& report.credit_completed + out.credit == incoming.credit + claimed_total(
                s,
                bank.name,
                list,
                true,
            )
            &&& report.course_completed + course_split(
                bank.course_floor(),
                incoming.courses + claimed_total(s, bank.name, list, false),
            ).overflow == incoming.courses + claimed_total(s, bank.name, list, false)
        }),
{
    let taken = claimed(degree.course_statuses, bank.name, list);
    placeholders_follow(taken, registry, bank.name, list);
}

/// Placeholders are put behind the records, are not completed, and count for
/// the bank.
pub proof fn placeholders_follow(
    s: Seq<StatusModel>,
    registry: Seq<CourseModel>,
    bank: Seq<char>,
    list: Seq<Seq<char>>,
)
    ensures
        with_placeholders(s, registry, bank, list).len() >= s.len(),
        forall|i: int| 0 <= i < s.len() ==> #[trigger] with_placeholders(s, registry, bank, list)[i] == s[i],
        forall|i: int|
            s.len() <= i < with_placeholders(s, registry, bank, list).len() ==> (
            #[trigger] with_placeholders(s, registry, bank, list)[i]).state == Some(
                CourseState::NotComplete,
            ) && with_placeholders(s, registry, bank, list)[i].course_type == Some(bank),
    decreases list.len(),
{
    if list.len() > 0 {
        placeholders_follow(s, registry, bank, list.drop_last());
    }
}

} // verus!
