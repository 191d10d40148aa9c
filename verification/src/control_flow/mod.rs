use vstd::prelude::*;

pub mod cfg;
pub mod tree;
pub mod tree_edit;
pub mod tree_query;
pub mod tree_graft;
pub mod graph;
pub mod slices;
pub mod travel;
pub mod text;

verus! {

/// Which branch of a node a child hangs from.
#[derive(Debug, Clone, Copy, PartialEq, Eq, Structural)]
pub enum Branch {
    True,
    False,
    Next,
}

/// What a node of the control flow stands for.
#[derive(Debug, Clone, Copy, PartialEq, Eq, Structural)]
pub enum NodeType {
    Plain,
    Back,
    Break,
    Loop,
    SetVar,
    If,
}

/// What an edge of the control flow graph stands for.
#[derive(Debug, Clone, Copy, PartialEq, Eq, Structural)]
pub enum EdgeType {
    Plain,
    Break,
    LoopEnter,
    LoopExit,
    Back,
    If,
}

} // verus!
