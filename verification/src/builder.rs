//! Diagram builder: turns a `SystemSpec` into a validated `System`,
//! repairing duplicate diagram identifiers, normalizing sign-sentinel
//! parity, and eliminating edges that skip over intermediate levels.

use vstd::prelude::*;

use crate::model::{
    BddSpec, LevelSpec, NodeSpec, SystemSpec, spec_count_minus_one, spec_norm_rhs,
    spec_strip_lhs,
};
use crate::soc::{
    Bdd, BuildError, Level, Node, System, spec_first_level_from, spec_first_level_with,
    spec_level_has_id, spec_max_bdd_id, spec_max_node_id, spec_next_id_ok, spec_no_zero_edges,
    spec_no_zero_edges_nodes,
};

verus! {

/// Every left-hand-side entry is a variable index or the `-1` sentinel.
pub open spec fn spec_lhs_entries_ok(levels: Seq<LevelSpec>) -> bool {
    forall|i: int, j: int|
        0 <= i < levels.len() && 0 <= j < levels[i].lhs@.len() ==> levels[i].lhs@[j] >= -1
}

/// The largest node identity named by a node-specification sequence.
pub open spec fn spec_max_rhs_id(s: Seq<NodeSpec>) -> nat
    decreases s.len(),
{
    if s.len() == 0 {
        0
    } else if s.last().id.0 as nat > spec_max_rhs_id(s.drop_last()) {
        s.last().id.0 as nat
    } else {
        spec_max_rhs_id(s.drop_last())
    }
}

/// The largest node identity named anywhere in a diagram specification.
pub open spec fn spec_max_levels_id(levels: Seq<LevelSpec>) -> nat
    decreases levels.len(),
{
    if levels.len() == 0 {
        0
    } else if spec_max_rhs_id(levels.last().rhs@) > spec_max_levels_id(levels.drop_last()) {
        spec_max_rhs_id(levels.last().rhs@)
    } else {
        spec_max_levels_id(levels.drop_last())
    }
}

/// The built form of one (already normalized) node specification: raw edge
/// value 0 becomes an absent slot, any other value a materialized edge.
pub open spec fn spec_built_node(n: NodeSpec) -> Node {
    Node {
        id: n.id.0,
        e0: if n.e0.0 == 0 {
            None
        } else {
            Some(n.e0.0)
        },
        e1: if n.e1.0 == 0 {
            None
        } else {
            Some(n.e1.0)
        },
    }
}

/// The built level is exactly what the level specification prescribes:
/// stripped unsigned left-hand side, and the normalized nodes with their
/// raw edge values resolved into optional edges.
pub open spec fn spec_level_built_exact(lv: Level, ls: LevelSpec) -> bool {
    &&& lv.lhs@ == spec_strip_lhs(ls.lhs@).map_values(|x: i64| x as u64)
    &&& lv.nodes@ == spec_norm_rhs(ls.lhs@, ls.rhs@).map_values(|n: NodeSpec| spec_built_node(n))
}

/// The built level declares at least the specified nodes, in order.
pub open spec fn spec_level_ids_prefix(lv: Level, ls: LevelSpec) -> bool {
    &&& lv.nodes@.len() >= ls.rhs@.len()
    &&& forall|j: int| 0 <= j < ls.rhs@.len() ==> lv.nodes@[j].id == ls.rhs@[j].id.0
}

/// Some node of the specified level carries the given identity.
pub open spec fn spec_rhs_has_id(ls: LevelSpec, t: usize) -> bool {
    exists|m: int| 0 <= m < ls.rhs@.len() && ls.rhs@[m].id.0 == t
}

/// The index of the first specified level at or after position `k` that
/// declares the given identity.
pub open spec fn spec_first_spec_level_from(levels: Seq<LevelSpec>, t: usize, k: int) -> Option<
    int,
>
    decreases levels.len() - k,
{
    if k < 0 || k >= levels.len() {
        None
    } else if spec_rhs_has_id(levels[k], t) {
        Some(k)
    } else {
        spec_first_spec_level_from(levels, t, k + 1)
    }
}

/// A raw edge leaving a node of level `i - 1` either is absent or points at
/// an identity first declared exactly at level `i`.
pub open spec fn spec_edge_adjacent(levels: Seq<LevelSpec>, i: int, t: usize) -> bool {
    t == 0 || spec_first_spec_level_from(levels, t, 0) == Some(i)
}

/// Within the range that jumping-edge elimination visits, every edge spans
/// exactly one level of depth: elimination then inserts nothing.
pub open spec fn spec_targets_adjacent(levels: Seq<LevelSpec>) -> bool {
    forall|i: int, j: int|
        1 <= i < levels.len() - 2 && 0 <= j < levels[i - 1].rhs@.len()
            ==> spec_edge_adjacent(levels, i, (#[trigger] levels[i - 1].rhs@[j]).e0.0)
            && spec_edge_adjacent(levels, i, levels[i - 1].rhs@[j].e1.0)
}

/// Built-side counterpart of `spec_targets_adjacent`.
pub open spec fn spec_built_edge_adjacent(levels: Seq<Level>, i: int, e: Option<usize>) -> bool {
    match e {
        None => true,
        Some(t) => spec_first_level_with(levels, t) == Some(i),
    }
}

/// Within the visited range, every materialized edge of the built diagram
/// targets an identity first found at the very next level.
pub open spec fn spec_built_adjacent(levels: Seq<Level>) -> bool {
    forall|i: int, j: int|
        1 <= i < levels.len() - 2 && 0 <= j < levels[i - 1].nodes@.len()
            ==> spec_built_edge_adjacent(levels, i, (#[trigger] levels[i - 1].nodes@[j]).e0)
            && spec_built_edge_adjacent(levels, i, levels[i - 1].nodes@[j].e1)
}

/// A diagram specification on which the builder is bound to succeed: all
/// left-hand-side entries are indices or sentinels, a fresh identity can
/// still be allocated, and no edge in the visited range jumps a level.
pub open spec fn spec_bdd_buildable(s: BddSpec) -> bool {
    &&& spec_lhs_entries_ok(s.levels@)
    &&& spec_max_levels_id(s.levels@) < usize::MAX as nat
    &&& spec_targets_adjacent(s.levels@)
}

/// The built diagram's levels are exactly what the specification
/// prescribes, with the allocation counter one past the largest node
/// identity; the diagram's own identity is left aside (the collection
/// builder may overwrite it).
pub open spec fn spec_levels_built_exact(b: Bdd, s: BddSpec, nvar: usize) -> bool {
    &&& b.nvar == nvar
    &&& b.levels@.len() == s.levels@.len()
    &&& b.next_id == spec_max_levels_id(s.levels@) + 1
    &&& forall|i: int|
        0 <= i < s.levels@.len() ==> spec_level_built_exact(b.levels@[i], s.levels@[i])
}

/// The built diagram is exactly what the specification prescribes.
pub open spec fn spec_bdd_built_exact(b: Bdd, s: BddSpec, nvar: usize) -> bool {
    &&& b.id == s.id.0
    &&& spec_levels_built_exact(b, s, nvar)
}

/// Two node sequences with pointwise equal identities have the same
/// largest identity.
proof fn lemma_max_node_id_same_ids(a: Seq<Node>, b: Seq<Node>)
    requires
        a.len() == b.len(),
        forall|j: int| 0 <= j < a.len() ==> a[j].id == b[j].id,
    ensures
        spec_max_node_id(a) == spec_max_node_id(b),
    decreases a.len(),
{
    if a.len() > 0 {
        lemma_max_node_id_same_ids(a.drop_last(), b.drop_last());
    }
}

/// Appending a node whose identity dominates the whole diagram makes that
/// identity the diagram's largest.
proof fn lemma_max_bdd_id_push(levels: Seq<Level>, i: int, l2: Level, n: Node)
    requires
        0 <= i < levels.len(),
        l2.nodes@ == levels[i].nodes@.push(n),
        n.id as nat >= spec_max_bdd_id(levels),
    ensures
        spec_max_bdd_id(levels.update(i, l2)) == n.id as nat,
    decreases levels.len(),
{
    assert(l2.nodes@.last() == n);
    assert(l2.nodes@.drop_last() =~= levels[i].nodes@);
    if i == levels.len() - 1 {
        assert(levels.update(i, l2).drop_last() =~= levels.drop_last());
        assert(levels.update(i, l2).last() == l2);
    } else {
        assert(levels.update(i, l2).drop_last() =~= levels.drop_last().update(i, l2));
        assert(levels.update(i, l2).last() == levels.last());
        lemma_max_bdd_id_push(levels.drop_last(), i, l2, n);
    }
}

/// Replacing a level by one with pointwise equal node identities keeps the
/// diagram's largest identity.
proof fn lemma_max_bdd_id_same(levels: Seq<Level>, i: int, l2: Level)
    requires
        0 <= i < levels.len(),
        l2.nodes@.len() == levels[i].nodes@.len(),
        forall|j: int| 0 <= j < l2.nodes@.len() ==> l2.nodes@[j].id == levels[i].nodes@[j].id,
    ensures
        spec_max_bdd_id(levels.update(i, l2)) == spec_max_bdd_id(levels),
    decreases levels.len(),
{
    if i == levels.len() - 1 {
        assert(levels.update(i, l2).drop_last() =~= levels.drop_last());
        assert(levels.update(i, l2).last() == l2);
        lemma_max_node_id_same_ids(l2.nodes@, levels[i].nodes@);
    } else {
        assert(levels.update(i, l2).drop_last() =~= levels.drop_last().update(i, l2));
        assert(levels.update(i, l2).last() == levels.last());
        lemma_max_bdd_id_same(levels.drop_last(), i, l2);
    }
}

/// Whether some node of the level carries the given identity.
fn level_contains(l: &Level, t: usize) -> (r: bool)
    ensures
        r == spec_level_has_id(*l, t),
{
    let mut m: usize = 0;
    while m < l.nodes.len()
        invariant
            m <= l.nodes@.len(),
            forall|m2: int| 0 <= m2 < m ==> l.nodes@[m2].id != t,
        decreases l.nodes@.len() - m,
    {
        if l.nodes[m].id == t {
            return true;
        }
        m = m + 1;
    }
    false
}

/// The first level holding a node with the given identity, if any.
fn find_level_of(levels: &Vec<Level>, t: usize) -> (r: Option<usize>)
    ensures
        match r {
            Some(k) => k < levels@.len() && spec_first_level_with(levels@, t) == Some(k as int),
            None => spec_first_level_with(levels@, t) is None,
        },
{
    let mut k: usize = 0;
    while k < levels.len()
        invariant
            k <= levels@.len(),
            spec_first_level_from(levels@, t, 0) == spec_first_level_from(levels@, t, k as int),
        decreases levels@.len() - k,
    {
        if level_contains(&levels[k], t) {
            return Some(k);
        }
        k = k + 1;
    }
    None
}

/// Insert passthrough nodes so that, over the visited interior range, no
/// edge spans more than one level of depth: for each level `i` strictly
/// between the first and the last two, an edge from level `i - 1` whose
/// target lies deeper than level `i` is redirected to a fresh node at level
/// `i` whose two edges both lead to the original target.
///
/// When every visited edge is already adjacent the diagram comes back
/// unchanged. An edge whose target is not declared at any deeper level is
/// an invariant violation and aborts the pass.
#[verifier::loop_isolation(false)]
fn eliminate_jumping_edges(bdd: &mut Bdd) -> (r: Result<(), BuildError>)
    requires
        old(bdd).levels@.len() > 2,
        spec_no_zero_edges(old(bdd).levels@),
        spec_next_id_ok(*old(bdd)),
    ensures
        final(bdd).id == old(bdd).id,
        final(bdd).nvar == old(bdd).nvar,
        final(bdd).levels@.len() == old(bdd).levels@.len(),
        forall|i: int|
            0 <= i < old(bdd).levels@.len() ==> (#[trigger] final(bdd).levels@[i]).lhs@ == old(
                bdd,
            ).levels@[i].lhs@,
        forall|i: int|
            0 <= i < old(bdd).levels@.len() ==> final(bdd).levels@[i].nodes@.len() >= (
            #[trigger] old(bdd).levels@[i]).nodes@.len(),
        forall|i: int, j: int|
            0 <= i < old(bdd).levels@.len() && 0 <= j < old(bdd).levels@[i].nodes@.len()
                ==> (#[trigger] final(bdd).levels@[i].nodes@[j]).id == old(
                bdd,
            ).levels@[i].nodes@[j].id,
        r is Ok ==> spec_no_zero_edges(final(bdd).levels@) && spec_next_id_ok(*final(bdd)),
        r matches Err(e) ==> e is IdOverflow || e is MissingTarget,
        spec_built_adjacent(old(bdd).levels@) ==> r is Ok && *final(bdd) == *old(bdd),
{
    let ghost orig = *bdd;
    let mut err: Option<BuildError> = None;
    let nlevels = bdd.levels.len();
    let mut i: usize = 1;
    while i < nlevels - 2 && err.is_none()
        invariant
            1 <= i <= nlevels - 2,
            nlevels == bdd.levels@.len(),
            bdd.id == orig.id,
            bdd.nvar == orig.nvar,
            spec_no_zero_edges(bdd.levels@),
            spec_next_id_ok(*bdd),
            forall|i2: int|
                0 <= i2 < nlevels ==> (#[trigger] bdd.levels@[i2]).lhs@ == orig.levels@[i2].lhs@,
            forall|i2: int|
                0 <= i2 < nlevels ==> bdd.levels@[i2].nodes@.len() >= (
                #[trigger] orig.levels@[i2]).nodes@.len(),
            forall|i2: int, j2: int|
                0 <= i2 < nlevels && 0 <= j2 < orig.levels@[i2].nodes@.len()
                    ==> (#[trigger] bdd.levels@[i2].nodes@[j2]).id == orig.levels@[i2].nodes@[j2].id,
            err matches Some(e) ==> e is IdOverflow || e is MissingTarget,
            spec_built_adjacent(orig.levels@) ==> *bdd == orig && err is None,
        decreases nlevels - 2 - i,
    {
        let mut j: usize = 0;
        while j < bdd.levels[i - 1].nodes.len() && err.is_none()
            invariant
                1 <= i < nlevels - 2,
                nlevels == bdd.levels@.len(),
                j <= bdd.levels@[i - 1 as int].nodes@.len(),
                bdd.id == orig.id,
                bdd.nvar == orig.nvar,
                spec_no_zero_edges(bdd.levels@),
                spec_next_id_ok(*bdd),
                forall|i2: int|
                    0 <= i2 < nlevels ==> (#[trigger] bdd.levels@[i2]).lhs@
                        == orig.levels@[i2].lhs@,
                forall|i2: int|
                    0 <= i2 < nlevels ==> bdd.levels@[i2].nodes@.len() >= (
                    #[trigger] orig.levels@[i2]).nodes@.len(),
                forall|i2: int, j2: int|
                    0 <= i2 < nlevels && 0 <= j2 < orig.levels@[i2].nodes@.len()
                        ==> (#[trigger] bdd.levels@[i2].nodes@[j2]).id
                        == orig.levels@[i2].nodes@[j2].id,
                err matches Some(e) ==> e is IdOverflow || e is MissingTarget,
                spec_built_adjacent(orig.levels@) ==> *bdd == orig && err is None && j
                    <= orig.levels@[i - 1 as int].nodes@.len(),
            decreases bdd.levels@[i - 1 as int].nodes@.len() - j,
        {
            let n = bdd.levels[i - 1].nodes[j];
            if let Some(t) = n.e0 {
                match find_level_of(&bdd.levels, t) {
                    Some(k) if k == i => {},
                    Some(k) if k > i => {
                        if bdd.next_id == usize::MAX {
                            err = Some(BuildError::IdOverflow { bdd: bdd.id });
                        } else {
                            let nid = bdd.next_id;
                            let ghost pre = bdd.levels@;
                            bdd.next_id = nid + 1;
                            bdd.levels[i].nodes.push(Node { id: nid, e0: Some(t), e1: Some(t) });
                            proof {
                                lemma_max_bdd_id_push(
                                    pre,
                                    i as int,
                                    bdd.levels@[i as int],
                                    Node { id: nid, e0: Some(t), e1: Some(t) },
                                );
                            }
                            let ghost pre2 = bdd.levels@;
                            bdd.levels[i - 1].nodes[j].e0 = Some(nid);
                            proof {
                                lemma_max_bdd_id_same(pre2, i - 1, bdd.levels@[i - 1 as int]);
                            }
                        }
                    },
                    _ => {
                        err = Some(
                            BuildError::MissingTarget { bdd: bdd.id, level: i - 1, target: t },
                        );
                    },
                }
            }
            if err.is_none() {
                let n1 = bdd.levels[i - 1].nodes[j];
                if let Some(t) = n1.e1 {
                    match find_level_of(&bdd.levels, t) {
                        Some(k) if k == i => {},
                        Some(k) if k > i => {
                            if bdd.next_id == usize::MAX {
                                err = Some(BuildError::IdOverflow { bdd: bdd.id });
                            } else {
                                let nid = bdd.next_id;
                                let ghost pre = bdd.levels@;
                                bdd.next_id = nid + 1;
                                bdd.levels[i].nodes.push(
                                    Node { id: nid, e0: Some(t), e1: Some(t) },
                                );
                                proof {
                                    lemma_max_bdd_id_push(
                                        pre,
                                        i as int,
                                        bdd.levels@[i as int],
                                        Node { id: nid, e0: Some(t), e1: Some(t) },
                                    );
                                }
                                let ghost pre2 = bdd.levels@;
                                bdd.levels[i - 1].nodes[j].e1 = Some(nid);
                                proof {
                                    lemma_max_bdd_id_same(pre2, i - 1, bdd.levels@[i - 1 as int]);
                                }
                            }
                        },
                        _ => {
                            err = Some(
                                BuildError::MissingTarget { bdd: bdd.id, level: i - 1, target: t },
                            );
                        },
                    }
                }
            }
            j = j + 1;
        }
        i = i + 1;
    }
    match err {
        None => Ok(()),
        Some(e) => Err(e),
    }
}

/// A built node sequence carries the same identities as the specification
/// sequence it was made from, so their largest identities agree.
proof fn lemma_max_node_vs_rhs(nodes: Seq<Node>, rhs: Seq<NodeSpec>)
    requires
        nodes.len() == rhs.len(),
        forall|j: int| 0 <= j < nodes.len() ==> nodes[j].id == rhs[j].id.0,
    ensures
        spec_max_node_id(nodes) == spec_max_rhs_id(rhs),
    decreases nodes.len(),
{
    if nodes.len() > 0 {
        lemma_max_node_vs_rhs(nodes.drop_last(), rhs.drop_last());
    }
}

/// Built levels carrying the specified identities level by level give the
/// diagram the same largest identity as its specification.
proof fn lemma_max_bdd_vs_levels(levels: Seq<Level>, specs: Seq<LevelSpec>)
    requires
        levels.len() == specs.len(),
        forall|i: int|
            0 <= i < levels.len() ==> (#[trigger] levels[i]).nodes@.len() == specs[i].rhs@.len(),
        forall|i: int, j: int|
            0 <= i < levels.len() && 0 <= j < levels[i].nodes@.len()
                ==> (#[trigger] levels[i].nodes@[j]).id == specs[i].rhs@[j].id.0,
    ensures
        spec_max_bdd_id(levels) == spec_max_levels_id(specs),
    decreases levels.len(),
{
    if levels.len() > 0 {
        lemma_max_node_vs_rhs(levels.last().nodes@, specs.last().rhs@);
        lemma_max_bdd_vs_levels(levels.drop_last(), specs.drop_last());
    }
}

/// A level whose nodes carry the specified identities holds a given
/// identity exactly when its specification declares it.
proof fn lemma_has_id_agree(l: Level, ls: LevelSpec, t: usize)
    requires
        l.nodes@.len() == ls.rhs@.len(),
        forall|j: int| 0 <= j < l.nodes@.len() ==> l.nodes@[j].id == ls.rhs@[j].id.0,
    ensures
        spec_level_has_id(l, t) == spec_rhs_has_id(ls, t),
{
    if spec_level_has_id(l, t) {
        let m = choose|m: int| 0 <= m < l.nodes@.len() && l.nodes@[m].id == t;
        assert(ls.rhs@[m].id.0 == t);
    }
    if spec_rhs_has_id(ls, t) {
        let m = choose|m: int| 0 <= m < ls.rhs@.len() && ls.rhs@[m].id.0 == t;
        assert(l.nodes@[m].id == t);
    }
}

/// Built levels carrying the specified identities find any identity at the
/// same first level as the specification does.
proof fn lemma_first_level_agree(levels: Seq<Level>, specs: Seq<LevelSpec>, t: usize, k: int)
    requires
        levels.len() == specs.len(),
        forall|i: int|
            0 <= i < levels.len() ==> (#[trigger] levels[i]).nodes@.len() == specs[i].rhs@.len(),
        forall|i: int, j: int|
            0 <= i < levels.len() && 0 <= j < levels[i].nodes@.len()
                ==> (#[trigger] levels[i].nodes@[j]).id == specs[i].rhs@[j].id.0,
        0 <= k,
    ensures
        spec_first_level_from(levels, t, k) == spec_first_spec_level_from(specs, t, k),
    decreases levels.len() - k,
{
    if k < levels.len() {
        lemma_has_id_agree(levels[k], specs[k], t);
        if !spec_level_has_id(levels[k], t) {
            lemma_first_level_agree(levels, specs, t, k + 1);
        }
    }
}

/// Normalization keeps a level's node identities in place; each node's pair
/// of raw edge targets is either kept or exchanged.
proof fn lemma_norm_rhs_shape(lhs: Seq<i64>, rhs: Seq<NodeSpec>)
    ensures
        spec_norm_rhs(lhs, rhs).len() == rhs.len(),
        forall|j: int|
            0 <= j < rhs.len() ==> (#[trigger] spec_norm_rhs(lhs, rhs)[j]).id == rhs[j].id,
        forall|j: int|
            0 <= j < rhs.len() ==> ((#[trigger] spec_norm_rhs(lhs, rhs)[j]).e0 == rhs[j].e0
                && spec_norm_rhs(lhs, rhs)[j].e1 == rhs[j].e1) || (spec_norm_rhs(lhs, rhs)[j].e0
                == rhs[j].e1 && spec_norm_rhs(lhs, rhs)[j].e1 == rhs[j].e0),
{
}

/// From a `BddSpec` and a variable count, build a `Bdd` following the
/// specification: the left-hand sides are stripped of their `-1` sentinels
/// (an odd count flipping the level's edges), raw edge value 0 becomes an
/// absent edge slot, the allocation counter is set one past the largest
/// node identity, and edges that skip over an interior level are eliminated
/// by inserting passthrough nodes.
///
/// A left-hand-side entry below `-1` and an exhausted identity space are
/// rejected; so is an interior edge whose target is declared at no deeper
/// level. On a specification whose visited edges are all adjacent the
/// result is exact, level by level.
pub fn build_bdd_from_spec(spec: &BddSpec, nvar: usize) -> (r: Result<Bdd, BuildError>)
    ensures
        (!spec_lhs_entries_ok(spec.levels@)) <==> (r matches Err(e) && e is NegativeLhsEntry),
        (spec_lhs_entries_ok(spec.levels@) && spec_max_levels_id(spec.levels@) == usize::MAX
            as nat) ==> (r matches Err(e) && e is IdOverflow),
        spec_bdd_buildable(*spec) ==> (r matches Ok(b) && spec_bdd_built_exact(b, *spec, nvar)),
        r matches Ok(b) ==> b.id == spec.id.0 && b.nvar == nvar && b.levels@.len()
            == spec.levels@.len() && spec_no_zero_edges(b.levels@) && spec_next_id_ok(b) && (
        forall|i: int|
            0 <= i < spec.levels@.len() ==> (#[trigger] b.levels@[i]).lhs@ == spec_strip_lhs(
                spec.levels@[i].lhs@,
            ).map_values(|x: i64| x as u64)) && (forall|i: int|
            0 <= i < spec.levels@.len() ==> spec_level_ids_prefix(
                #[trigger] b.levels@[i],
                spec.levels@[i],
            )),
{
    // reject left-hand sides holding a negative entry other than the sentinel
    let mut i: usize = 0;
    while i < spec.levels.len()
        invariant
            i <= spec.levels@.len(),
            forall|i2: int, j2: int|
                0 <= i2 < i && 0 <= j2 < spec.levels@[i2].lhs@.len() ==> spec.levels@[i2].lhs@[j2]
                    >= -1,
        decreases spec.levels@.len() - i,
    {
        let mut j: usize = 0;
        while j < spec.levels[i].lhs.len()
            invariant
                i < spec.levels@.len(),
                j <= spec.levels@[i as int].lhs@.len(),
                forall|j2: int| 0 <= j2 < j ==> spec.levels@[i as int].lhs@[j2] >= -1,
            decreases spec.levels@[i as int].lhs@.len() - j,
        {
            if spec.levels[i].lhs[j] < -1 {
                return Err(BuildError::NegativeLhsEntry { bdd: spec.id.0, level: i });
            }
            j = j + 1;
        }
        i = i + 1;
    }
    assert(spec_lhs_entries_ok(spec.levels@));
    // the largest node identity named anywhere in the specification
    let mut max_id: usize = 0;
    let mut i: usize = 0;
    while i < spec.levels.len()
        invariant
            i <= spec.levels@.len(),
            max_id as nat == spec_max_levels_id(spec.levels@.take(i as int)),
        decreases spec.levels@.len() - i,
    {
        let mut level_max: usize = 0;
        let rhs = &spec.levels[i].rhs;
        let mut j: usize = 0;
        while j < rhs.len()
            invariant
                j <= rhs@.len(),
                level_max as nat == spec_max_rhs_id(rhs@.take(j as int)),
            decreases rhs@.len() - j,
        {
            proof {
                assert(rhs@.take(j + 1).drop_last() =~= rhs@.take(j as int));
            }
            if rhs[j].id.0 > level_max {
                level_max = rhs[j].id.0;
            }
            j = j + 1;
        }
        proof {
            assert(rhs@.take(rhs@.len() as int) =~= rhs@);
            assert(spec.levels@.take(i + 1).drop_last() =~= spec.levels@.take(i as int));
        }
        if level_max > max_id {
            max_id = level_max;
        }
        i = i + 1;
    }
    proof {
        assert(spec.levels@.take(spec.levels@.len() as int) =~= spec.levels@);
    }
    if max_id == usize::MAX {
        return Err(BuildError::IdOverflow { bdd: spec.id.0 });
    }
    // create the levels: stripped unsigned left-hand sides and nodes with
    // resolved optional edges, flipped when the sentinel count was odd
    let mut levels: Vec<Level> = Vec::new();
    let mut i: usize = 0;
    while i < spec.levels.len()
        invariant
            i <= spec.levels@.len(),
            levels@.len() == i,
            spec_lhs_entries_ok(spec.levels@),
            forall|k: int|
                0 <= k < i ==> spec_level_built_exact(#[trigger] levels@[k], spec.levels@[k]),
        decreases spec.levels@.len() - i,
    {
        let ls = &spec.levels[i];
        let mut lhs: Vec<u64> = Vec::new();
        let mut removed: usize = 0;
        let mut j: usize = 0;
        while j < ls.lhs.len()
            invariant
                j <= ls.lhs@.len(),
                removed <= j,
                forall|j2: int| 0 <= j2 < ls.lhs@.len() ==> ls.lhs@[j2] >= -1,
                lhs@ == spec_strip_lhs(ls.lhs@.take(j as int)).map_values(|x: i64| x as u64),
                removed == spec_count_minus_one(ls.lhs@.take(j as int)),
            decreases ls.lhs@.len() - j,
        {
            let v = ls.lhs[j];
            proof {
                assert(ls.lhs@.take(j + 1).drop_last() =~= ls.lhs@.take(j as int));
                assert(ls.lhs@.take(j + 1).last() == v);
            }
            if v == -1 {
                removed = removed + 1;
            } else {
                lhs.push(v as u64);
                proof {
                    assert(spec_strip_lhs(ls.lhs@.take(j + 1)).map_values(|x: i64| x as u64)
                        =~= spec_strip_lhs(ls.lhs@.take(j as int)).map_values(
                        |x: i64| x as u64,
                    ).push(v as u64));
                }
            }
            j = j + 1;
        }
        proof {
            assert(ls.lhs@.take(ls.lhs@.len() as int) =~= ls.lhs@);
        }
        let flip = removed % 2 != 0;
        let mut nodes: Vec<Node> = Vec::new();
        let mut j: usize = 0;
        while j < ls.rhs.len()
            invariant
                j <= ls.rhs@.len(),
                nodes@.len() == j,
                flip == (spec_count_minus_one(ls.lhs@) % 2 == 1),
                forall|k: int|
                    0 <= k < j ==> nodes@[k] == spec_built_node(
                        #[trigger] spec_norm_rhs(ls.lhs@, ls.rhs@)[k],
                    ),
            decreases ls.rhs@.len() - j,
        {
            let n = &ls.rhs[j];
            let (a, c) = if flip {
                (n.e1, n.e0)
            } else {
                (n.e0, n.e1)
            };
            let e0 = if a.0 == 0 {
                None
            } else {
                Some(a.0)
            };
            let e1 = if c.0 == 0 {
                None
            } else {
                Some(c.0)
            };
            nodes.push(Node { id: n.id.0, e0, e1 });
            j = j + 1;
        }
        proof {
            lemma_norm_rhs_shape(ls.lhs@, ls.rhs@);
            assert(nodes@ =~= spec_norm_rhs(ls.lhs@, ls.rhs@).map_values(
                |n: NodeSpec| spec_built_node(n),
            ));
        }
        levels.push(Level { lhs, nodes });
        i = i + 1;
    }
    let mut bdd = Bdd { id: spec.id.0, nvar, levels, next_id: max_id + 1 };
    proof {
        assert forall|i2: int| 0 <= i2 < spec.levels@.len() implies (
        #[trigger] bdd.levels@[i2]).nodes@.len() == spec.levels@[i2].rhs@.len() by {
            lemma_norm_rhs_shape(spec.levels@[i2].lhs@, spec.levels@[i2].rhs@);
        }
        assert forall|i2: int, j2: int|
            0 <= i2 < spec.levels@.len() && 0 <= j2 < bdd.levels@[i2].nodes@.len() implies (
        #[trigger] bdd.levels@[i2].nodes@[j2]).id == spec.levels@[i2].rhs@[j2].id.0 by {
            lemma_norm_rhs_shape(spec.levels@[i2].lhs@, spec.levels@[i2].rhs@);
        }
        lemma_max_bdd_vs_levels(bdd.levels@, spec.levels@);
        assert forall|i2: int| 0 <= i2 < bdd.levels@.len() implies spec_no_zero_edges_nodes(
            #[trigger] bdd.levels@[i2].nodes@,
        ) by {
            lemma_norm_rhs_shape(spec.levels@[i2].lhs@, spec.levels@[i2].rhs@);
        }
    }
    let ghost first_built = bdd;
    proof {
        if spec_targets_adjacent(spec.levels@) {
            assert forall|i2: int, j2: int|
                1 <= i2 < bdd.levels@.len() - 2 && 0 <= j2 < bdd.levels@[i2 - 1].nodes@.len()
                implies spec_built_edge_adjacent(
                bdd.levels@,
                i2,
                (#[trigger] bdd.levels@[i2 - 1].nodes@[j2]).e0,
            ) && spec_built_edge_adjacent(bdd.levels@, i2, bdd.levels@[i2 - 1].nodes@[j2].e1) by {
                lemma_norm_rhs_shape(spec.levels@[i2 - 1].lhs@, spec.levels@[i2 - 1].rhs@);
                let sn = spec.levels@[i2 - 1].rhs@[j2];
                assert(spec_edge_adjacent(spec.levels@, i2, sn.e0.0));
                assert(spec_edge_adjacent(spec.levels@, i2, sn.e1.0));
                if bdd.levels@[i2 - 1].nodes@[j2].e0 is Some {
                    let t = bdd.levels@[i2 - 1].nodes@[j2].e0.unwrap();
                    lemma_first_level_agree(bdd.levels@, spec.levels@, t, 0);
                }
                if bdd.levels@[i2 - 1].nodes@[j2].e1 is Some {
                    let t = bdd.levels@[i2 - 1].nodes@[j2].e1.unwrap();
                    lemma_first_level_agree(bdd.levels@, spec.levels@, t, 0);
                }
            }
            assert(spec_built_adjacent(bdd.levels@));
        }
    }
    // eliminate edges that skip over an interior level
    if bdd.levels.len() > 2 {
        let res = eliminate_jumping_edges(&mut bdd);
        match res {
            Ok(()) => {},
            Err(e) => {
                return Err(e);
            },
        }
    }
    Ok(bdd)
}

/// Two diagram specifications in the sequence state the same identity.
pub open spec fn spec_has_dup_ids(bdds: Seq<BddSpec>) -> bool {
    exists|i: int, j: int| 0 <= i < j < bdds.len() && bdds[i].id.0 == bdds[j].id.0
}

/// Whether any two diagram specifications state the same identity.
fn has_duplicate_ids(bdds: &Vec<BddSpec>) -> (r: bool)
    ensures
        r == spec_has_dup_ids(bdds@),
{
    let mut i: usize = 0;
    while i < bdds.len()
        invariant
            i <= bdds@.len(),
            forall|a: int, b: int|
                0 <= a < b < bdds@.len() && a < i ==> (#[trigger] bdds@[a].id.0) != (
                #[trigger] bdds@[b].id.0),
        decreases bdds@.len() - i,
    {
        let mut j: usize = i + 1;
        while j < bdds.len()
            invariant
                i < j,
                j <= bdds@.len(),
                i < bdds@.len(),
                forall|b: int| i < b < j ==> bdds@[i as int].id.0 != (#[trigger] bdds@[b].id.0),
            decreases bdds@.len() - j,
        {
            if bdds[i].id.0 == bdds[j].id.0 {
                return true;
            }
            j = j + 1;
        }
        i = i + 1;
    }
    false
}

/// Every diagram of the collection satisfies what a successful build
/// promises of it, against its specification and the shared variable count.
pub open spec fn spec_system_built_ok(sys: System, spec: SystemSpec) -> bool {
    &&& sys.nvar == spec.nvar
    &&& sys.bdds@.len() == spec.bdds@.len()
    &&& (spec_has_dup_ids(spec.bdds@) ==> forall|i: int|
        0 <= i < sys.bdds@.len() ==> (#[trigger] sys.bdds@[i]).id == i)
    &&& (!spec_has_dup_ids(spec.bdds@) ==> forall|i: int|
        0 <= i < sys.bdds@.len() ==> (#[trigger] sys.bdds@[i]).id == spec.bdds@[i].id.0)
    &&& forall|i: int| 0 <= i < sys.bdds@.len() ==> (#[trigger] sys.bdds@[i]).nvar == spec.nvar
    &&& forall|i: int|
        0 <= i < sys.bdds@.len() ==> spec_no_zero_edges((#[trigger] sys.bdds@[i]).levels@)
    &&& forall|i: int| 0 <= i < sys.bdds@.len() ==> spec_next_id_ok(#[trigger] sys.bdds@[i])
    &&& forall|i: int|
        0 <= i < sys.bdds@.len() ==> (#[trigger] sys.bdds@[i]).levels@.len()
            == spec.bdds@[i].levels@.len()
    &&& forall|i: int, k: int|
        0 <= i < sys.bdds@.len() && 0 <= k < spec.bdds@[i].levels@.len()
            ==> (#[trigger] sys.bdds@[i].levels@[k]).lhs@ == spec_strip_lhs(
            spec.bdds@[i].levels@[k].lhs@,
        ).map_values(|x: i64| x as u64)
    &&& forall|i: int, k: int|
        0 <= i < sys.bdds@.len() && 0 <= k < spec.bdds@[i].levels@.len() ==> spec_level_ids_prefix(
            #[trigger] sys.bdds@[i].levels@[k],
            spec.bdds@[i].levels@[k],
        )
}

/// From a `SystemSpec`, build a `System` following the specifications: an
/// empty collection takes the specified variable count and every diagram is
/// built and appended in input order. If the stated diagram identities are
/// not unique, every diagram instead takes its 0-based position as its
/// identity.
pub fn build_system_from_spec(spec: &SystemSpec) -> (r: Result<System, BuildError>)
    ensures
        r matches Ok(sys) ==> spec_system_built_ok(sys, *spec),
        (forall|i: int| 0 <= i < spec.bdds@.len() ==> spec_bdd_buildable(#[trigger] spec.bdds@[i]))
            ==> (r matches Ok(sys) && forall|i: int|
            0 <= i < spec.bdds@.len() ==> spec_levels_built_exact(
                #[trigger] sys.bdds@[i],
                spec.bdds@[i],
                spec.nvar,
            )),
{
    let mut system = System::new();
    system.set_nvar(spec.nvar);
    let dup = has_duplicate_ids(&spec.bdds);
    let mut i: usize = 0;
    while i < spec.bdds.len()
        invariant
            i <= spec.bdds@.len(),
            system.nvar == spec.nvar,
            system.bdds@.len() == i,
            dup == spec_has_dup_ids(spec.bdds@),
            dup ==> forall|k: int| 0 <= k < i ==> (#[trigger] system.bdds@[k]).id == k,
            !dup ==> forall|k: int|
                0 <= k < i ==> (#[trigger] system.bdds@[k]).id == spec.bdds@[k].id.0,
            forall|k: int| 0 <= k < i ==> (#[trigger] system.bdds@[k]).nvar == spec.nvar,
            forall|k: int|
                0 <= k < i ==> spec_no_zero_edges((#[trigger] system.bdds@[k]).levels@),
            forall|k: int| 0 <= k < i ==> spec_next_id_ok(#[trigger] system.bdds@[k]),
            forall|k: int|
                0 <= k < i ==> (#[trigger] system.bdds@[k]).levels@.len()
                    == spec.bdds@[k].levels@.len(),
            forall|k: int, m: int|
                0 <= k < i && 0 <= m < spec.bdds@[k].levels@.len()
                    ==> (#[trigger] system.bdds@[k].levels@[m]).lhs@ == spec_strip_lhs(
                    spec.bdds@[k].levels@[m].lhs@,
                ).map_values(|x: i64| x as u64),
            forall|k: int, m: int|
                0 <= k < i && 0 <= m < spec.bdds@[k].levels@.len() ==> spec_level_ids_prefix(
                    #[trigger] system.bdds@[k].levels@[m],
                    spec.bdds@[k].levels@[m],
                ),
            (forall|k: int|
                0 <= k < spec.bdds@.len() ==> spec_bdd_buildable(#[trigger] spec.bdds@[k]))
                ==> forall|k: int|
                0 <= k < i ==> spec_levels_built_exact(
                    #[trigger] system.bdds@[k],
                    spec.bdds@[k],
                    spec.nvar,
                ),
        decreases spec.bdds@.len() - i,
    {
        match build_bdd_from_spec(&spec.bdds[i], spec.nvar) {
            Ok(b) => {
                let mut b = b;
                if dup {
                    b.id = i;
                }
                match system.push_bdd(b) {
                    Ok(()) => {},
                    Err(e) => {
                        return Err(e);
                    },
                }
            },
            Err(e) => {
                return Err(e);
            },
        }
        i = i + 1;
    }
    Ok(system)
}

} // verus!
