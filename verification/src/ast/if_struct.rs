//! A conditional given as its branches, each with its own condition, and an optional
//! final branch.
use vstd::prelude::*;

use crate::ast::{Block, Expr};

verus! {

/// The branches of a conditional, and the branch taken when no condition holds.
#[derive(Debug)]
pub struct IfStruct {
    pub branches: Vec<Branch>,
    pub else_branch: Option<Box<Branch>>,
}

/// A condition and the block it guards.
#[derive(Debug)]
pub struct Branch {
    pub condition: Box<Expr>,
    pub block: Block,
}

} // verus!
