//! The compatibility harness's own logic: classifying a package's run,
//! exclusions, the report, and the corpus layout rules.
pub mod run;
pub mod exclusions;
pub mod sexp;
pub mod report;
pub mod corpus;
pub mod report_scope;
pub mod report_unmatched;
