//! Specification model: the intermediate structures produced by the text
//! parser and consumed by the diagram builder.

use vstd::prelude::*;

verus! {

/// Identity of a node or of a diagram. The value 0 is overloaded: it is a
/// potentially legitimate node identity, and, when it stands in an edge slot
/// of a `NodeSpec`, the sentinel meaning "this edge slot is absent".
#[derive(Clone, Copy, PartialEq, Eq, Structural, Debug)]
pub struct Id(pub usize);

impl Id {
    /// Wrap a raw non-negative integer as an identity.
    pub fn new(id: usize) -> (r: Id)
        ensures
            r.0 == id,
    {
        Id(id)
    }
}

/// Blueprint of one diagram node: its identity and the raw targets of its
/// two outgoing edges, where target 0 means "no edge".
#[derive(Clone, Copy, PartialEq, Eq, Structural, Debug)]
pub struct NodeSpec {
    pub id: Id,
    pub e0: Id,
    pub e1: Id,
}

/// The node with its two edge targets exchanged.
pub open spec fn spec_flip_node(n: NodeSpec) -> NodeSpec {
    NodeSpec { id: n.id, e0: n.e1, e1: n.e0 }
}

/// Every node of the sequence with its two edge targets exchanged.
pub open spec fn spec_flip_nodes(s: Seq<NodeSpec>) -> Seq<NodeSpec> {
    s.map_values(|n: NodeSpec| spec_flip_node(n))
}

impl NodeSpec {
    /// Create a new `NodeSpec`.
    pub fn new(id: Id, e0: Id, e1: Id) -> (r: NodeSpec)
        ensures
            r == (NodeSpec { id, e0, e1 }),
    {
        NodeSpec { id, e0, e1 }
    }

    /// Swap the values of `e0` and `e1`, flipping the edges of the node.
    pub fn flip_edge(&mut self)
        ensures
            *final(self) == spec_flip_node(*old(self)),
    {
        let save = self.e0;
        self.e0 = self.e1;
        self.e1 = save;
    }
}

/// The left-hand side with every `-1` sign sentinel removed, order of the
/// remaining entries kept.
pub open spec fn spec_strip_lhs(s: Seq<i64>) -> Seq<i64>
    decreases s.len(),
{
    if s.len() == 0 {
        Seq::empty()
    } else if s.last() == -1 {
        spec_strip_lhs(s.drop_last())
    } else {
        spec_strip_lhs(s.drop_last()).push(s.last())
    }
}

/// How many `-1` sign sentinels the left-hand side holds.
pub open spec fn spec_count_minus_one(s: Seq<i64>) -> nat
    decreases s.len(),
{
    if s.len() == 0 {
        0
    } else if s.last() == -1 {
        spec_count_minus_one(s.drop_last()) + 1
    } else {
        spec_count_minus_one(s.drop_last())
    }
}

/// A stripped left-hand side never holds the sentinel `-1`.
pub proof fn lemma_strip_lhs_no_minus_one(s: Seq<i64>)
    ensures
        forall|i: int| 0 <= i < spec_strip_lhs(s).len() ==> spec_strip_lhs(s)[i] != -1,
    decreases s.len(),
{
    if s.len() > 0 {
        lemma_strip_lhs_no_minus_one(s.drop_last());
        if s.last() != -1 {
            let stripped = spec_strip_lhs(s.drop_last());
            assert(forall|i: int|
                0 <= i < spec_strip_lhs(s).len() - 1 ==> spec_strip_lhs(s)[i] == stripped[i]);
        }
    }
}

/// Specification of one diagram level: `lhs` encodes a linear Boolean
/// expression as a sequence of variable indices (an XOR-sum), with `-1`
/// entries acting as sign sentinels that normalization strips; `rhs` holds
/// the level's nodes.
#[derive(Debug)]
pub struct LevelSpec {
    pub lhs: Vec<i64>,
    pub rhs: Vec<NodeSpec>,
}

/// The node sequence of a level after normalization: flipped when the level
/// held an odd number of `-1` sentinels, unchanged otherwise.
pub open spec fn spec_norm_rhs(lhs: Seq<i64>, rhs: Seq<NodeSpec>) -> Seq<NodeSpec> {
    if spec_count_minus_one(lhs) % 2 == 1 {
        spec_flip_nodes(rhs)
    } else {
        rhs
    }
}

impl LevelSpec {
    /// Create a new `LevelSpec`.
    pub fn new(lhs: Vec<i64>, rhs: Vec<NodeSpec>) -> (r: LevelSpec)
        ensures
            r.lhs@ == lhs@,
            r.rhs@ == rhs@,
    {
        LevelSpec { lhs, rhs }
    }

    /// Remove each value in `lhs` equal to `-1`. If the number of removed
    /// entries is odd, flip the edges of every node in `rhs`.
    pub fn remove_minus_one(&mut self)
        ensures
            final(self).lhs@ == spec_strip_lhs(old(self).lhs@),
            forall|i: int|
                0 <= i < final(self).lhs@.len() ==> final(self).lhs@[i] != -1,
            final(self).rhs@ == spec_norm_rhs(old(self).lhs@, old(self).rhs@),
            spec_count_minus_one(old(self).lhs@) % 2 == 0 ==> final(self).rhs@ == old(
                self,
            ).rhs@,
    {
        let mut kept: Vec<i64> = Vec::new();
        let mut removed: usize = 0;
        let mut i: usize = 0;
        while i < self.lhs.len()
            invariant
                i <= self.lhs@.len(),
                removed <= i,
                kept@ == spec_strip_lhs(self.lhs@.take(i as int)),
                removed == spec_count_minus_one(self.lhs@.take(i as int)),
                self.lhs@ == old(self).lhs@,
                self.rhs@ == old(self).rhs@,
            decreases self.lhs@.len() - i,
        {
            let v = self.lhs[i];
            proof {
                assert(self.lhs@.take(i + 1 as int).drop_last() =~= self.lhs@.take(i as int));
                assert(self.lhs@.take(i + 1 as int).last() == v);
            }
            if v == -1 {
                removed = removed + 1;
            } else {
                kept.push(v);
            }
            i = i + 1;
        }
        proof {
            assert(self.lhs@.take(self.lhs@.len() as int) =~= self.lhs@);
            lemma_strip_lhs_no_minus_one(old(self).lhs@);
        }
        self.lhs = kept;
        if removed % 2 != 0 {
            self.flip_nodes_edges();
        }
    }

    /// Flip the edges of every node in `rhs`.
    pub fn flip_nodes_edges(&mut self)
        ensures
            final(self).lhs@ == old(self).lhs@,
            final(self).rhs@ == spec_flip_nodes(old(self).rhs@),
    {
        let mut i: usize = 0;
        while i < self.rhs.len()
            invariant
                i <= self.rhs@.len(),
                self.rhs@.len() == old(self).rhs@.len(),
                self.lhs@ == old(self).lhs@,
                forall|k: int|
                    0 <= k < i ==> self.rhs@[k] == spec_flip_node(old(self).rhs@[k]),
                forall|k: int| i <= k < self.rhs@.len() ==> self.rhs@[k] == old(self).rhs@[k],
            decreases self.rhs@.len() - i,
        {
            self.rhs[i].flip_edge();
            i = i + 1;
        }
        proof {
            assert(self.rhs@ =~= spec_flip_nodes(old(self).rhs@));
        }
    }
}

/// Specification of one diagram: its identity and its levels in order.
#[derive(Debug)]
pub struct BddSpec {
    pub id: Id,
    pub levels: Vec<LevelSpec>,
}

impl BddSpec {
    /// Create a new `BddSpec`.
    pub fn new(id: Id, levels: Vec<LevelSpec>) -> (r: BddSpec)
        ensures
            r.id == id,
            r.levels@ == levels@,
    {
        BddSpec { id, levels }
    }
}

/// Specification of a whole system of diagrams: the shared variable count
/// and the diagrams in input order.
#[derive(Debug)]
pub struct SystemSpec {
    pub nvar: usize,
    pub bdds: Vec<BddSpec>,
}

impl SystemSpec {
    /// Create a new `SystemSpec`.
    pub fn new(nvar: usize, bdds: Vec<BddSpec>) -> (r: SystemSpec)
        ensures
            r.nvar == nvar,
            r.bdds@ == bdds@,
    {
        SystemSpec { nvar, bdds }
    }
}

/// Mathematical view of a level specification.
pub ghost struct LevelSpecV {
    pub lhs: Seq<i64>,
    pub rhs: Seq<NodeSpec>,
}

/// Mathematical view of a diagram specification.
pub ghost struct BddSpecV {
    pub id: Id,
    pub levels: Seq<LevelSpecV>,
}

/// Mathematical view of a system specification.
pub ghost struct SystemSpecV {
    pub nvar: usize,
    pub bdds: Seq<BddSpecV>,
}

impl View for LevelSpec {
    type V = LevelSpecV;

    open spec fn view(&self) -> LevelSpecV {
        LevelSpecV { lhs: self.lhs@, rhs: self.rhs@ }
    }
}

impl View for BddSpec {
    type V = BddSpecV;

    open spec fn view(&self) -> BddSpecV {
        BddSpecV { id: self.id, levels: self.levels@.map_values(|l: LevelSpec| l@) }
    }
}

impl View for SystemSpec {
    type V = SystemSpecV;

    open spec fn view(&self) -> SystemSpecV {
        SystemSpecV { nvar: self.nvar, bdds: self.bdds@.map_values(|b: BddSpec| b@) }
    }
}

} // verus!
