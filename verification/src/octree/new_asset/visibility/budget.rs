//! A limit on how many octree nodes a visibility pass takes.
use crate::octree::new_asset::hierarchy::HierarchyNodeData;
use crate::octree::new_asset::node::{NodeData, OctreeNode};
use vstd::prelude::*;

verus! {

/// Why a node could not be added to a budget.
#[derive(Clone, Debug, PartialEq, Eq, Structural)]
pub enum BudgetError {
    /// The budget is used up.
    NoBudgetLeft,
}

impl BudgetError {
    /// The error's message.
    pub fn message(&self) -> (s: &'static str)
        ensures
            s@ == "Budget for octree hierarchy has been reached."@,
    {
        "Budget for octree hierarchy has been reached."
    }
}

/// A budget that visible nodes are charged to, made from its settings; for users to
/// implement.
pub trait OctreeHierarchyBudget<H: HierarchyNodeData, T: NodeData>: Sized {
    /// What a budget is made from.
    type Settings;

    /// A budget made from `settings`.
    fn new(settings: Self::Settings) -> Self;

    /// Whether `node` fits in what is left.
    fn check(&self, node: &OctreeNode<H, T>) -> bool;

    /// Charges `node` to the budget, or fails when nothing is left.
    fn add_node(&mut self, node: &OctreeNode<H, T>) -> Result<(), BudgetError>;
}

} // verus!
