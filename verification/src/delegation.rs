//! Delegation: tokens that carry a scope from hop to hop, and can only narrow it.

pub mod action;
pub mod biscuit;
pub mod datalog;
pub mod hop;
pub mod laws;
pub mod outcomes;
pub mod plan;
pub mod reading;
pub mod rules;
pub mod scope;
pub mod token;

pub use crate::approval::{
    ApprovalEvidence, ApproverDirectory, ApproverEntry, ConsumedApprovals, Gate,
};
pub use crate::delegation::action::Action;
pub use crate::delegation::hop::{ChainEntry, DelegationChain, Hop};
pub use crate::delegation::scope::Scope;
pub use crate::intent::{
    AlignmentEvidence, AlignmentPolicy, AlignmentVerdict, IntentStatement, Judgement,
};
pub use crate::delegation::token::{DelegationToken, DelegationTokenWire};
