//! Reconciliation of a raw photo-survey tree with its graded counterpart.
//!
//! The library holds the decisions: rule normalisation, identity extraction,
//! pairing of survey folders, image identity, winner selection and report
//! rows. Walking directories, reading metadata and writing files is left to
//! the caller, which hands the library plain values.

pub mod text;
pub mod rules;
pub mod identity;
pub mod reconcile;
pub mod pairing;
pub mod report;
pub mod run;
