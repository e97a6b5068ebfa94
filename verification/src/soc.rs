//! Target in-memory structures: the built diagram (`Bdd`), its levels and
//! nodes with resolved optional edges, and the diagram collection (`System`).

use vstd::prelude::*;

verus! {

/// A built node: its identity and its two resolved edge slots. An absent
/// slot is an explicit `None`, never a sentinel value.
#[derive(Clone, Copy, Debug)]
pub struct Node {
    pub id: usize,
    pub e0: Option<usize>,
    pub e1: Option<usize>,
}

/// A built level: the stripped left-hand side, as unsigned variable indices
/// in input order, and the level's nodes.
#[derive(Debug)]
pub struct Level {
    pub lhs: Vec<u64>,
    pub nodes: Vec<Node>,
}

/// A built diagram: an ordered sequence of levels and a monotonically
/// increasing `next_id` counter for future node allocation.
#[derive(Debug)]
pub struct Bdd {
    pub id: usize,
    pub nvar: usize,
    pub levels: Vec<Level>,
    pub next_id: usize,
}

/// The largest node identity in a node sequence, 0 when it is empty.
pub open spec fn spec_max_node_id(s: Seq<Node>) -> nat
    decreases s.len(),
{
    if s.len() == 0 {
        0
    } else if s.last().id as nat > spec_max_node_id(s.drop_last()) {
        s.last().id as nat
    } else {
        spec_max_node_id(s.drop_last())
    }
}

/// The largest node identity across all levels, 0 when there is no node.
pub open spec fn spec_max_bdd_id(levels: Seq<Level>) -> nat
    decreases levels.len(),
{
    if levels.len() == 0 {
        0
    } else if spec_max_node_id(levels.last().nodes@) > spec_max_bdd_id(levels.drop_last()) {
        spec_max_node_id(levels.last().nodes@)
    } else {
        spec_max_bdd_id(levels.drop_last())
    }
}

/// No edge slot of any node in the sequence holds the sentinel identity 0.
pub open spec fn spec_no_zero_edges_nodes(s: Seq<Node>) -> bool {
    forall|j: int|
        0 <= j < s.len() ==> (s[j].e0 != Some(0usize) && s[j].e1 != Some(0usize))
}

/// No edge slot anywhere in the diagram holds the sentinel identity 0.
pub open spec fn spec_no_zero_edges(levels: Seq<Level>) -> bool {
    forall|i: int| 0 <= i < levels.len() ==> spec_no_zero_edges_nodes(#[trigger] levels[i].nodes@)
}

/// The diagram's allocation counter is one past its largest node identity.
pub open spec fn spec_next_id_ok(b: Bdd) -> bool {
    b.next_id == spec_max_bdd_id(b.levels@) + 1
}

/// Some node of the level has the given identity.
pub open spec fn spec_level_has_id(l: Level, t: usize) -> bool {
    exists|m: int| 0 <= m < l.nodes@.len() && l.nodes@[m].id == t
}

/// The index of the first level at or after position `k` holding a node
/// with the given identity.
pub open spec fn spec_first_level_from(levels: Seq<Level>, t: usize, k: int) -> Option<int>
    decreases levels.len() - k,
{
    if k < 0 || k >= levels.len() {
        None
    } else if spec_level_has_id(levels[k], t) {
        Some(k)
    } else {
        spec_first_level_from(levels, t, k + 1)
    }
}

/// The index of the first level holding a node with the given identity.
pub open spec fn spec_first_level_with(levels: Seq<Level>, t: usize) -> Option<int> {
    spec_first_level_from(levels, t, 0)
}

/// What can go wrong while building a diagram collection from its
/// specification.
#[derive(Clone, Copy, PartialEq, Eq, Debug)]
pub enum BuildError {
    /// A level's left-hand side holds a negative entry other than the `-1`
    /// sign sentinel; such an entry is not a variable index.
    NegativeLhsEntry { bdd: usize, level: usize },
    /// The identity space is exhausted: no fresh node identity can be
    /// allocated above the largest one in use.
    IdOverflow { bdd: usize },
    /// An edge leaving a node of the given level points at an identity that
    /// is not declared at any deeper level.
    MissingTarget { bdd: usize, level: usize, target: usize },
    /// A diagram's variable count does not match the collection's.
    NvarMismatch { system_nvar: usize, bdd_nvar: usize },
}

/// A collection of built diagrams sharing one variable count.
#[derive(Debug)]
pub struct System {
    pub nvar: usize,
    pub bdds: Vec<Bdd>,
}

impl System {
    /// Create an empty collection with variable count 0.
    pub fn new() -> (r: System)
        ensures
            r.nvar == 0,
            r.bdds@ == Seq::<Bdd>::empty(),
    {
        System { nvar: 0, bdds: Vec::new() }
    }

    /// Set the collection's shared variable count.
    pub fn set_nvar(&mut self, nvar: usize)
        ensures
            final(self).nvar == nvar,
            final(self).bdds@ == old(self).bdds@,
    {
        self.nvar = nvar;
    }

    /// Append a diagram. Fails, leaving the collection unchanged, exactly
    /// when the diagram's variable count does not match the collection's.
    pub fn push_bdd(&mut self, bdd: Bdd) -> (r: Result<(), BuildError>)
        ensures
            bdd.nvar == old(self).nvar ==> r is Ok && final(self).nvar == old(self).nvar
                && final(self).bdds@ == old(self).bdds@.push(bdd),
            bdd.nvar != old(self).nvar ==> r is Err && *final(self) == *old(self),
    {
        if bdd.nvar != self.nvar {
            return Err(BuildError::NvarMismatch { system_nvar: self.nvar, bdd_nvar: bdd.nvar });
        }
        self.bdds.push(bdd);
        Ok(())
    }
}

} // verus!
