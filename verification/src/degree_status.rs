//! The report on a student's degree: the course records, what each bank
//! requires and has, and the notes on credit that moved between banks.

use crate::course::{models, text_of, texts, CourseStatus, StatusModel};
use vstd::prelude::*;

pub mod compute;
pub mod conservation;
pub mod normal_form;
pub mod preprocessing;
pub mod run;

verus! {

/// What one bank requires and what the student has of it. Credit is in half
/// points.
#[derive(Debug, PartialEq, Eq)]
pub struct Requirement {
    pub course_bank_name: String,
    pub credit_requirement: Option<u64>,
    pub course_requirement: Option<u64>,
    pub credit_completed: u64,
    pub course_completed: u64,
    pub message: Option<String>,
}

/// The mathematical value of a [`Requirement`].
pub struct RequirementModel {
    pub course_bank_name: Seq<char>,
    pub credit_requirement: Option<nat>,
    pub course_requirement: Option<nat>,
    pub credit_completed: nat,
    pub course_completed: nat,
    pub message: Option<Seq<char>>,
}

/// An optional amount as a natural number.
pub open spec fn amount_of(o: Option<u64>) -> Option<nat> {
    match o {
        Some(v) => Some(v as nat),
        None => None,
    }
}

impl View for Requirement {
    type V = RequirementModel;

    open spec fn view(&self) -> RequirementModel {
        RequirementModel {
            course_bank_name: self.course_bank_name@,
            credit_requirement: amount_of(self.credit_requirement),
            course_requirement: amount_of(self.course_requirement),
            credit_completed: self.credit_completed as nat,
            course_completed: self.course_completed as nat,
            message: text_of(self.message),
        }
    }
}

/// The models of a sequence of requirements.
pub open spec fn requirement_models(s: Seq<Requirement>) -> Seq<RequirementModel> {
    Seq::new(s.len(), |i: int| s[i]@)
}

/// The report. `total_credit` is in half points.
#[derive(Debug, PartialEq, Eq)]
pub struct DegreeStatus {
    pub course_statuses: Vec<CourseStatus>,
    pub course_bank_requirements: Vec<Requirement>,
    pub overflow_msgs: Vec<String>,
    pub total_credit: u64,
}

/// The mathematical value of a [`DegreeStatus`].
pub struct DegreeModel {
    pub course_statuses: Seq<StatusModel>,
    pub course_bank_requirements: Seq<RequirementModel>,
    pub overflow_msgs: Seq<Seq<char>>,
    pub total_credit: nat,
}

impl View for DegreeStatus {
    type V = DegreeModel;

    open spec fn view(&self) -> DegreeModel {
        DegreeModel {
            course_statuses: models(self.course_statuses@),
            course_bank_requirements: requirement_models(self.course_bank_requirements@),
            overflow_msgs: texts(self.overflow_msgs@),
            total_credit: self.total_credit as nat,
        }
    }
}

impl Default for DegreeStatus {
    fn default() -> (out: Self)
        ensures
            out@ == (DegreeModel {
                course_statuses: Seq::empty(),
                course_bank_requirements: Seq::empty(),
                overflow_msgs: Seq::empty(),
                total_credit: 0,
            }),
    {
        let out = DegreeStatus {
            course_statuses: Vec::new(),
            course_bank_requirements: Vec::new(),
            overflow_msgs: Vec::new(),
            total_credit: 0,
        };
        assert(out@.course_statuses =~= Seq::empty());
        assert(out@.course_bank_requirements =~= Seq::empty());
        assert(out@.overflow_msgs =~= Seq::empty());
        out
    }
}

} // verus!
