use vstd::prelude::*;

verus! {

/// A structural address locating a node within an expression tree: the
/// ordered sequence of segments on the route from the root to the node.
pub type Path = Vec<Seg>;

/// One step of a path: which child was entered at an internal node.
#[derive(Debug, Clone, Copy, PartialEq, Eq)]
pub enum Seg {
    Not,
    IfCond,
    IfCons,
    ChainN(usize),
    RecordRef,
    ForeachList,
    ForeachBody,
}

} // verus!
