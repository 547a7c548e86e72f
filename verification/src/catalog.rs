//! The requirement catalog of a degree program: its banks, which course counts
//! for which bank, which courses may stand in for others, and where credit
//! that a bank does not need may go.

use crate::course::texts;
use vstd::prelude::*;

verus! {

/// Credit and courses beyond what `from` requires count for `to`.
#[derive(Debug, PartialEq, Eq)]
pub struct CreditOverflow {
    pub from: String,
    pub to: String,
}

/// The mathematical value of a [`CreditOverflow`].
pub struct OverflowModel {
    pub from: Seq<char>,
    pub to: Seq<char>,
}

impl View for CreditOverflow {
    type V = OverflowModel;

    open spec fn view(&self) -> OverflowModel {
        OverflowModel { from: self.from@, to: self.to@ }
    }
}

/// The course `course_id` counts for the bank `bank`.
#[derive(Debug, PartialEq, Eq)]
pub struct Membership {
    pub course_id: String,
    pub bank: String,
}

/// The mathematical value of a [`Membership`].
pub struct MembershipModel {
    pub course_id: Seq<char>,
    pub bank: Seq<char>,
}

impl View for Membership {
    type V = MembershipModel;

    open spec fn view(&self) -> MembershipModel {
        MembershipModel { course_id: self.course_id@, bank: self.bank@ }
    }
}

/// Any of `replacements` may be taken in place of `course_id`.
#[derive(Debug, PartialEq, Eq)]
pub struct Replacement {
    pub course_id: String,
    pub replacements: Vec<String>,
}

/// The mathematical value of a [`Replacement`].
pub struct ReplacementModel {
    pub course_id: Seq<char>,
    pub replacements: Seq<Seq<char>>,
}

impl View for Replacement {
    type V = ReplacementModel;

    open spec fn view(&self) -> ReplacementModel {
        ReplacementModel { course_id: self.course_id@, replacements: texts(self.replacements@) }
    }
}

/// A named group of courses within a specialization bank; it is completed when
/// every course in it is.
#[derive(Debug, PartialEq, Eq)]
pub struct SpecializationGroup {
    pub name: String,
    pub course_list: Vec<String>,
}

/// The mathematical value of a [`SpecializationGroup`].
pub struct GroupModel {
    pub name: Seq<char>,
    pub course_list: Seq<Seq<char>>,
}

impl View for SpecializationGroup {
    type V = GroupModel;

    open spec fn view(&self) -> GroupModel {
        GroupModel { name: self.name@, course_list: texts(self.course_list@) }
    }
}

/// The groups of a specialization bank, and how many of them must be completed.
#[derive(Debug, PartialEq, Eq)]
pub struct SpecializationGroups {
    pub groups_list: Vec<SpecializationGroup>,
    pub groups_number: usize,
}

/// How a bank decides what counts for it.
#[derive(Debug, PartialEq, Eq)]
pub enum Rule {
    /// Every course of the bank is required.
    All,
    /// Credit is gathered from the bank's courses.
    AccumulateCredit,
    /// This many of the bank's courses are required.
    AccumulateCourses(usize),
    /// The bank's courses are the general electives.
    Malag,
    /// One of these chains of courses must be completed in full.
    Chains(Vec<Vec<String>>),
    /// Some of these groups must be completed.
    SpecializationGroups(SpecializationGroups),
}

/// The mathematical value of a [`Rule`].
pub enum RuleModel {
    All,
    AccumulateCredit,
    AccumulateCourses(nat),
    Malag,
    Chains(Seq<Seq<Seq<char>>>),
    SpecializationGroups(Seq<GroupModel>, nat),
}

/// The views of a sequence of chains.
pub open spec fn chain_models(s: Seq<Vec<String>>) -> Seq<Seq<Seq<char>>> {
    Seq::new(s.len(), |i: int| texts(s[i]@))
}

/// The models of a sequence of groups.
pub open spec fn group_models(s: Seq<SpecializationGroup>) -> Seq<GroupModel> {
    Seq::new(s.len(), |i: int| s[i]@)
}

impl View for Rule {
    type V = RuleModel;

    open spec fn view(&self) -> RuleModel {
        match self {
            Rule::All => RuleModel::All,
            Rule::AccumulateCredit => RuleModel::AccumulateCredit,
            Rule::AccumulateCourses(n) => RuleModel::AccumulateCourses(*n as nat),
            Rule::Malag => RuleModel::Malag,
            Rule::Chains(chains) => RuleModel::Chains(chain_models(chains@)),
            Rule::SpecializationGroups(groups) => RuleModel::SpecializationGroups(
                group_models(groups.groups_list@),
                groups.groups_number as nat,
            ),
        }
    }
}

/// A requirement bank. `credit`, in half points, is the credit it requires.
#[derive(Debug, PartialEq, Eq)]
pub struct CourseBank {
    pub name: String,
    pub rule: Rule,
    pub credit: Option<u32>,
}

/// The mathematical value of a [`CourseBank`].
pub struct BankModel {
    pub name: Seq<char>,
    pub rule: RuleModel,
    pub credit: Option<nat>,
}

impl BankModel {
    /// The number of courses the bank requires, if it requires a number.
    pub open spec fn course_floor(self) -> Option<nat> {
        match self.rule {
            RuleModel::AccumulateCourses(n) => Some(n),
            _ => None,
        }
    }
}

impl View for CourseBank {
    type V = BankModel;

    open spec fn view(&self) -> BankModel {
        BankModel {
            name: self.name@,
            rule: self.rule@,
            credit: match self.credit {
                Some(c) => Some(c as nat),
                None => None,
            },
        }
    }
}

/// A copy of a list of strings.
pub fn clone_texts(v: &Vec<String>) -> (out: Vec<String>)
    ensures
        texts(out@) == texts(v@),
{
    let mut out: Vec<String> = Vec::new();
    let mut i: usize = 0;
    while i < v.len()
        invariant
            i <= v.len(),
            out.len() == i,
            forall|k: int| 0 <= k < i ==> out[k]@ == v[k]@,
        decreases v.len() - i,
    {
        out.push(v[i].clone());
        i += 1;
    }
    assert(texts(out@) =~= texts(v@));
    out
}

impl Clone for SpecializationGroup {
    fn clone(&self) -> (out: Self)
        ensures
            out@ == self@,
    {
        SpecializationGroup { name: self.name.clone(), course_list: clone_texts(&self.course_list) }
    }
}

impl Clone for Rule {
    fn clone(&self) -> (out: Self)
        ensures
            out@ == self@,
    {
        match self {
            Rule::All => Rule::All,
            Rule::AccumulateCredit => Rule::AccumulateCredit,
            Rule::AccumulateCourses(n) => Rule::AccumulateCourses(*n),
            Rule::Malag => Rule::Malag,
            Rule::Chains(chains) => {
                let mut out: Vec<Vec<String>> = Vec::new();
                let mut i: usize = 0;
                while i < chains.len()
                    invariant
                        i <= chains.len(),
                        out.len() == i,
                        forall|k: int| 0 <= k < i ==> texts(out[k]@) == texts(chains[k]@),
                    decreases chains.len() - i,
                {
                    out.push(clone_texts(&chains[i]));
                    i += 1;
                }
                assert(chain_models(out@) =~= chain_models(chains@));
                Rule::Chains(out)
            },
            Rule::SpecializationGroups(groups) => {
                let mut out: Vec<SpecializationGroup> = Vec::new();
                let mut i: usize = 0;
                while i < groups.groups_list.len()
                    invariant
                        i <= groups.groups_list.len(),
                        out.len() == i,
                        forall|k: int| 0 <= k < i ==> out[k]@ == groups.groups_list[k]@,
                    decreases groups.groups_list.len() - i,
                {
                    out.push(groups.groups_list[i].clone());
                    i += 1;
                }
                assert(group_models(out@) =~= group_models(groups.groups_list@));
                Rule::SpecializationGroups(
                    SpecializationGroups { groups_list: out, groups_number: groups.groups_number },
                )
            },
        }
    }
}

impl Clone for CourseBank {
    fn clone(&self) -> (out: Self)
        ensures
            out@ == self@,
    {
        CourseBank { name: self.name.clone(), rule: self.rule.clone(), credit: self.credit }
    }
}

/// The catalog of one degree program.
#[derive(Debug, PartialEq, Eq)]
pub struct Catalog {
    pub name: String,
    pub course_banks: Vec<CourseBank>,
    pub credit_overflows: Vec<CreditOverflow>,
    /// Which bank each course counts for. A list that holds each course once
    /// keeps doing so under every change made here.
    pub course_to_bank: Vec<Membership>,
    /// The replacements that this catalog allows.
    pub catalog_replacements: Vec<Replacement>,
    /// The replacements that every catalog allows.
    pub common_replacements: Vec<Replacement>,
}

/// The mathematical value of a [`Catalog`].
pub struct CatalogModel {
    pub name: Seq<char>,
    pub course_banks: Seq<BankModel>,
    pub credit_overflows: Seq<OverflowModel>,
    pub course_to_bank: Seq<MembershipModel>,
    pub catalog_replacements: Seq<ReplacementModel>,
    pub common_replacements: Seq<ReplacementModel>,
}

/// The models of a sequence of banks.
pub open spec fn bank_models(s: Seq<CourseBank>) -> Seq<BankModel> {
    Seq::new(s.len(), |i: int| s[i]@)
}

/// The models of a sequence of transfer rules.
pub open spec fn overflow_models(s: Seq<CreditOverflow>) -> Seq<OverflowModel> {
    Seq::new(s.len(), |i: int| s[i]@)
}

/// The models of a membership list.
pub open spec fn membership_models(s: Seq<Membership>) -> Seq<MembershipModel> {
    Seq::new(s.len(), |i: int| s[i]@)
}

/// The models of a sequence of replacement rules.
pub open spec fn replacement_models(s: Seq<Replacement>) -> Seq<ReplacementModel> {
    Seq::new(s.len(), |i: int| s[i]@)
}

impl View for Catalog {
    type V = CatalogModel;

    open spec fn view(&self) -> CatalogModel {
        CatalogModel {
            name: self.name@,
            course_banks: bank_models(self.course_banks@),
            credit_overflows: overflow_models(self.credit_overflows@),
            course_to_bank: membership_models(self.course_to_bank@),
            catalog_replacements: replacement_models(self.catalog_replacements@),
            common_replacements: replacement_models(self.common_replacements@),
        }
    }
}

impl Default for Catalog {
    fn default() -> (out: Self)
        ensures
            out@ == (CatalogModel {
                name: Seq::empty(),
                course_banks: Seq::empty(),
                credit_overflows: Seq::empty(),
                course_to_bank: Seq::empty(),
                catalog_replacements: Seq::empty(),
                common_replacements: Seq::empty(),
            }),
    {
        let out = Catalog {
            name: String::new(),
            course_banks: Vec::new(),
            credit_overflows: Vec::new(),
            course_to_bank: Vec::new(),
            catalog_replacements: Vec::new(),
            common_replacements: Vec::new(),
        };
        assert(out@.course_banks =~= Seq::empty());
        assert(out@.credit_overflows =~= Seq::empty());
        assert(out@.course_to_bank =~= Seq::empty());
        assert(out@.catalog_replacements =~= Seq::empty());
        assert(out@.common_replacements =~= Seq::empty());
        out
    }
}

/// Whether `id` occurs in `ids`.
pub fn contains_text(ids: &Vec<String>, id: &String) -> (out: bool)
    ensures
        out == texts(ids@).contains(id@),
{
    let mut i: usize = 0;
    while i < ids.len()
        invariant
            i <= ids.len(),
            forall|k: int| 0 <= k < i ==> ids[k]@ != id@,
        decreases ids.len() - i,
    {
        if ids[i] == *id {
            assert(texts(ids@)[i as int] == id@);
            return true;
        }
        i += 1;
    }
    false
}

/// The names of the banks, in order.
pub open spec fn bank_names(banks: Seq<BankModel>) -> Seq<Seq<char>> {
    Seq::new(banks.len(), |k: int| banks[k].name)
}

/// The first position of `name` in `names`, or the length of `names` where it
/// does not occur.
pub open spec fn first_position(names: Seq<Seq<char>>, name: Seq<char>) -> int
    decreases names.len(),
{
    if names.len() == 0 {
        0
    } else if names[0] == name {
        0
    } else {
        1 + first_position(names.drop_first(), name)
    }
}

/// The first position of `name` lies within `names` or at its end; it holds
/// `name`, and no position before it does.
pub proof fn first_position_found(names: Seq<Seq<char>>, name: Seq<char>)
    ensures
        0 <= first_position(names, name) <= names.len(),
        first_position(names, name) < names.len() ==> names[first_position(names, name)] == name,
        forall|k: int| 0 <= k < first_position(names, name) ==> names[k] != name,
    decreases names.len(),
{
    if names.len() > 0 && names[0] != name {
        let rest = names.drop_first();
        first_position_found(rest, name);
        assert forall|k: int| 0 <= k < first_position(names, name) implies names[k] != name by {
            if k > 0 {
                assert(rest[k - 1] == names[k]);
            }
        }
    }
}

/// Where `p` is the first position that holds `name`, or the length of
/// `names` where none does, it is the first position of `name`.
pub proof fn first_position_is(names: Seq<Seq<char>>, name: Seq<char>, p: int)
    requires
        0 <= p <= names.len(),
        p < names.len() ==> names[p] == name,
        forall|k: int| 0 <= k < p ==> names[k] != name,
    ensures
        first_position(names, name) == p,
{
    first_position_found(names, name);
}

/// The position of the first bank called `name`, or the number of banks where
/// there is none.
pub open spec fn bank_position(banks: Seq<BankModel>, name: Seq<char>) -> int {
    first_position(bank_names(banks), name)
}

/// The position of the first bank called `name`.
pub fn find_bank(banks: &Vec<CourseBank>, name: &String) -> (out: Option<usize>)
    ensures
        match out {
            Some(p) => p < banks.len() && p == bank_position(bank_models(banks@), name@),
            None => bank_position(bank_models(banks@), name@) == banks.len(),
        },
{
    let mut i: usize = 0;
    while i < banks.len()
        invariant
            i <= banks.len(),
            forall|k: int| 0 <= k < i ==> bank_names(bank_models(banks@))[k] != name@,
        decreases banks.len() - i,
    {
        if banks[i].name == *name {
            proof {
                first_position_is(bank_names(bank_models(banks@)), name@, i as int);
            }
            return Some(i);
        }
        i += 1;
    }
    proof {
        first_position_is(bank_names(bank_models(banks@)), name@, i as int);
    }
    None
}

/// The courses that count for `bank`, in the order of the membership list.
pub open spec fn course_list(members: Seq<MembershipModel>, bank: Seq<char>) -> Seq<Seq<char>>
    decreases members.len(),
{
    if members.len() == 0 {
        Seq::empty()
    } else {
        let rest = course_list(members.drop_last(), bank);
        if members.last().bank == bank {
            rest.push(members.last().course_id)
        } else {
            rest
        }
    }
}

/// The membership list without the entries of the course `id`.
pub open spec fn without_course(members: Seq<MembershipModel>, id: Seq<char>) -> Seq<
    MembershipModel,
>
    decreases members.len(),
{
    if members.len() == 0 {
        Seq::empty()
    } else {
        let rest = without_course(members.drop_last(), id);
        if members.last().course_id == id {
            rest
        } else {
            rest.push(members.last())
        }
    }
}

/// Whether the membership list holds an entry of the course `id`.
pub open spec fn lists_course(members: Seq<MembershipModel>, id: Seq<char>) -> bool {
    exists|k: int| 0 <= k < members.len() && #[trigger] members[k].course_id == id
}

/// The membership list with every entry of `from` made an entry of `to`.
pub open spec fn renamed(members: Seq<MembershipModel>, from: Seq<char>, to: Seq<char>) -> Seq<
    MembershipModel,
> {
    Seq::new(
        members.len(),
        |k: int|
            if members[k].course_id == from {
                MembershipModel { course_id: to, bank: members[k].bank }
            } else {
                members[k]
            },
    )
}

/// The membership list after the student's course `substitute` has taken the
/// place of the catalog's course `target`: `substitute` counts for the bank
/// that `target` counted for, and for no other; `target` counts for none.
/// Where the list has no entry of `target`, nothing changes.
pub open spec fn replaced(
    members: Seq<MembershipModel>,
    target: Seq<char>,
    substitute: Seq<char>,
) -> Seq<MembershipModel> {
    if lists_course(members, target) && target != substitute {
        renamed(without_course(members, substitute), target, substitute)
    } else {
        members
    }
}

impl Catalog {
    /// The courses that count for the bank `name`.
    pub fn get_course_list(&self, name: &String) -> (out: Vec<String>)
        ensures
            texts(out@) == course_list(self@.course_to_bank, name@),
    {
        let mut out: Vec<String> = Vec::new();
        let mut i: usize = 0;
        let ghost members = self@.course_to_bank;
        while i < self.course_to_bank.len()
            invariant
                i <= self.course_to_bank.len(),
                members == self@.course_to_bank,
                texts(out@) == course_list(members.take(i as int), name@),
            decreases self.course_to_bank.len() - i,
        {
            proof {
                assert(members.take(i + 1).drop_last() == members.take(i as int));
                assert(members.take(i + 1).last() == self.course_to_bank[i as int]@);
            }
            let ghost before = texts(out@);
            if self.course_to_bank[i].bank == *name {
                out.push(self.course_to_bank[i].course_id.clone());
                assert(texts(out@) == before.push(self.course_to_bank[i as int].course_id@));
            }
            i += 1;
        }
        assert(members.take(i as int) == members);
        out
    }

    /// The first bank called `name`.
    pub fn get_course_bank_by_name(&self, name: &String) -> (out: Option<&CourseBank>)
        ensures
            match out {
                Some(bank) => {
                    let p = bank_position(self@.course_banks, name@);
                    p < self.course_banks.len() && *bank == self.course_banks[p]
                },
                None => bank_position(self@.course_banks, name@) == self.course_banks.len(),
            },
    {
        match find_bank(&self.course_banks, name) {
            Some(p) => Some(&self.course_banks[p]),
            None => None,
        }
    }

    /// Whether some entry of the membership list is of the course `id`.
    pub fn lists_course(&self, id: &String) -> (out: bool)
        ensures
            out == lists_course(self@.course_to_bank, id@),
    {
        let mut i: usize = 0;
        while i < self.course_to_bank.len()
            invariant
                i <= self.course_to_bank.len(),
                forall|k: int| 0 <= k < i ==> self@.course_to_bank[k].course_id != id@,
            decreases self.course_to_bank.len() - i,
        {
            if self.course_to_bank[i].course_id == *id {
                assert(self@.course_to_bank[i as int].course_id == id@);
                return true;
            }
            i += 1;
        }
        false
    }

    /// Takes the course `id` out of the membership list.
    pub fn remove_course(&mut self, id: &String)
        ensures
            final(self)@ == (CatalogModel {
                course_to_bank: without_course(old(self)@.course_to_bank, id@),
                ..old(self)@
            }),
    {
        let mut kept: Vec<Membership> = Vec::new();
        let mut i: usize = 0;
        let ghost members = self@.course_to_bank;
        while i < self.course_to_bank.len()
            invariant
                i <= self.course_to_bank.len(),
                *self == *old(self),
                members == self@.course_to_bank,
                membership_models(kept@) == without_course(members.take(i as int), id@),
            decreases self.course_to_bank.len() - i,
        {
            proof {
                assert(members.take(i + 1).drop_last() == members.take(i as int));
                assert(members.take(i + 1).last() == self.course_to_bank[i as int]@);
            }
            let ghost before = membership_models(kept@);
            if !(self.course_to_bank[i].course_id == *id) {
                let entry = Membership {
                    course_id: self.course_to_bank[i].course_id.clone(),
                    bank: self.course_to_bank[i].bank.clone(),
                };
                kept.push(entry);
                assert(membership_models(kept@) == before.push(self.course_to_bank[i as int]@));
            }
            i += 1;
        }
        assert(members.take(i as int) == members);
        self.course_to_bank = kept;
    }

    /// Lets the student's course `replacement` take the place of `course_id`.
    pub fn replace_courses(&mut self, course_id: &String, replacement: &String)
        ensures
            final(self)@ == (CatalogModel {
                course_to_bank: replaced(old(self)@.course_to_bank, course_id@, replacement@),
                ..old(self)@
            }),
    {
        if !self.lists_course(course_id) || *course_id == *replacement {
            return ;
        }
        self.remove_course(replacement);
        let ghost pruned = self@.course_to_bank;
        let mut i: usize = 0;
        while i < self.course_to_bank.len()
            invariant
                i <= self.course_to_bank.len(),
                self.course_to_bank.len() == pruned.len(),
                self@ == (CatalogModel { course_to_bank: self@.course_to_bank, ..old(self)@ }),
                forall|k: int|
                    0 <= k < i ==> self@.course_to_bank[k] == renamed(
                        pruned,
                        course_id@,
                        replacement@,
                    )[k],
                forall|k: int| i <= k < pruned.len() ==> self@.course_to_bank[k] == pruned[k],
            decreases self.course_to_bank.len() - i,
        {
            let ghost before = self@.course_to_bank;
            if self.course_to_bank[i].course_id == *course_id {
                let entry = Membership {
                    course_id: replacement.clone(),
                    bank: self.course_to_bank[i].bank.clone(),
                };
                self.course_to_bank.set(i, entry);
            }
            proof {
                let want = renamed(pruned, course_id@, replacement@);
                assert(self@.course_to_bank[i as int] == want[i as int]);
                assert forall|k: int| 0 <= k < pruned.len() && k != i implies #[trigger] self@.course_to_bank[k]
                    == before[k] by {}
            }
            i += 1;
        }
        assert(self@.course_to_bank =~= renamed(pruned, course_id@, replacement@));
    }
}

/// Whether the membership list holds no course twice.
pub open spec fn lists_each_course_once(members: Seq<MembershipModel>) -> bool {
    forall|i: int, j: int|
        0 <= i < j < members.len() ==> (#[trigger] members[i]).course_id != (
        #[trigger] members[j]).course_id
}

/// What is left when a course is taken out: entries of the list, none of them
/// of that course; and a list that held no course twice still holds none
/// twice.
pub proof fn without_course_holds(members: Seq<MembershipModel>, id: Seq<char>)
    ensures
        forall|k: int|
            0 <= k < without_course(members, id).len() ==> (#[trigger] without_course(
                members,
                id,
            )[k]).course_id != id && members.contains(without_course(members, id)[k]),
        lists_each_course_once(members) ==> lists_each_course_once(without_course(members, id)),
    decreases members.len(),
{
    if members.len() > 0 {
        let rest = members.drop_last();
        let last = members.last();
        let before = without_course(rest, id);
        let out = without_course(members, id);
        without_course_holds(rest, id);
        assert forall|k: int| 0 <= k < out.len() implies (#[trigger] out[k]).course_id != id
            && members.contains(out[k]) by {
            if k < before.len() {
                let j = choose|j: int| 0 <= j < rest.len() && rest[j] == before[k];
                assert(members[j] == out[k]);
            } else {
                assert(members[members.len() - 1] == out[k]);
            }
        }
        if lists_each_course_once(members) {
            assert forall|i: int, j: int| 0 <= i < j < rest.len() implies (#[trigger] rest[i]).course_id
                != (#[trigger] rest[j]).course_id by {
                assert(members[i].course_id != members[j].course_id);
            }
            assert forall|i: int, j: int| 0 <= i < j < out.len() implies (#[trigger] out[i]).course_id
                != (#[trigger] out[j]).course_id by {
                if j < before.len() {
                    assert(before[i].course_id != before[j].course_id);
                } else {
                    let w = choose|w: int| 0 <= w < rest.len() && rest[w] == before[i];
                    assert(members[w].course_id != members[members.len() - 1].course_id);
                }
            }
        }
    }
}

/// A list that holds no course twice holds none twice after a replacement.
pub proof fn replaced_lists_each_course_once(
    members: Seq<MembershipModel>,
    target: Seq<char>,
    substitute: Seq<char>,
)
    requires
        lists_each_course_once(members),
    ensures
        lists_each_course_once(replaced(members, target, substitute)),
{
    if lists_course(members, target) && target != substitute {
        let left = without_course(members, substitute);
        let out = renamed(left, target, substitute);
        without_course_holds(members, substitute);
        assert forall|i: int, j: int| 0 <= i < j < out.len() implies (#[trigger] out[i]).course_id
            != (#[trigger] out[j]).course_id by {
            assert(left[i].course_id != left[j].course_id);
            assert(left[i].course_id != substitute);
            assert(left[j].course_id != substitute);
        }
    }
}

} // verus!
