//! The core of a quest server: the ledger of completed tasks, the evaluation
//! of who is eligible for the rewards of a quest or an achievement, and the
//! signing of the claims that a minting contract honours.
//!
//! A task-specific check finds that an address has done what a task asks and
//! has the completion written to the ledger ([`verifiers`], [`ledger`]). A
//! claim looks up the definition ([`quest`]), asks the ledger whether every
//! required task is completed ([`eligibility`]), and has each reward signed
//! ([`signer`], over the hash and signature scheme in [`stark`]); it returns
//! all the rewards or one error ([`claim`]). Addresses, keys and hashes are
//! field elements ([`felt`], as text in [`hex`]). What users are shown of
//! tasks and quizzes is made in [`tasks`] and [`quiz`].

pub mod claim;
pub mod eligibility;
pub mod felt;
pub mod hex;
pub mod ledger;
pub mod quest;
pub mod quiz;
pub mod signer;
pub mod stark;
pub mod tasks;
pub mod verifiers;
