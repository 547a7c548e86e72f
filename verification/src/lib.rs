//! A degree audit engine. It reads the grade sheet of a student, fits the
//! student's records and the catalog of a degree program to each other, puts
//! the requirement banks of the catalog in the order of their credit transfers
//! and evaluates each bank in that order.
//!
//! Credit is counted in half points throughout. Every type has a model, and
//! the contracts of the functions speak of the models:
//!
//! - [`parser`] reads a grade sheet into course records;
//! - [`course`] and [`catalog`] hold the records and the catalog;
//! - [`degree_status`] holds the report, its preprocessing and the whole
//!   computation, with what is proved of both;
//! - [`toposort`] orders the banks;
//! - [`bank_rule`] evaluates one bank;
//! - [`messages`] holds the texts of the report, and [`text`] what they and
//!   the parser share.

pub mod bank_rule;
pub mod catalog;
pub mod course;
pub mod degree_status;
pub mod messages;
pub mod parser;
pub mod text;
pub mod toposort;
