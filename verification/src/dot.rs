//! Visualization emitter: renders one diagram as a rank-structured
//! graph-description text for an external layout renderer. Helper label
//! nodes form an invisible chain, one per level; each level's real nodes
//! are grouped on one rank as unlabeled points; the last node of the last
//! level is the terminal, drawn as a box labeled `T`; `e0` edges are
//! dashed, `e1` edges solid, absent edges not drawn.

use vstd::prelude::*;
use vstd::string::StringExecFns;

use crate::numtext::{push_dec, spec_dec_chars};
use crate::soc::{Bdd, Level, Node};

verus! {

/// A non-empty left-hand side rendered as `x<i> + x<j> + ...`.
pub open spec fn spec_dot_label_ne(lhs: Seq<u64>) -> Seq<char>
    decreases lhs.len(),
{
    if lhs.len() == 0 {
        Seq::empty()
    } else if lhs.len() == 1 {
        "x"@ + spec_dec_chars(lhs[0] as nat)
    } else {
        spec_dot_label_ne(lhs.drop_last()) + " + x"@ + spec_dec_chars(lhs.last() as nat)
    }
}

/// A level's label: its expression, or `0` when no variable is present.
pub open spec fn spec_dot_label(lhs: Seq<u64>) -> Seq<char> {
    if lhs.len() == 0 {
        "0"@
    } else {
        spec_dot_label_ne(lhs)
    }
}

/// The invisible label chain from level `i` on, covering every level but
/// the last.
pub open spec fn spec_dot_chain(levels: Seq<Level>, i: int) -> Seq<char>
    decreases levels.len() - i,
{
    if i < 0 || i > levels.len() - 2 {
        Seq::empty()
    } else {
        "\""@ + spec_dec_chars(i as nat) + ". "@ + spec_dot_label(levels[i].lhs@) + "\" -> "@
            + spec_dot_chain(levels, i + 1)
    }
}

/// The point-shaped entries of one rank group, one per node.
pub open spec fn spec_dot_rank_nodes(nodes: Seq<Node>) -> Seq<char>
    decreases nodes.len(),
{
    if nodes.len() == 0 {
        Seq::empty()
    } else {
        spec_dot_rank_nodes(nodes.drop_last()) + "\""@ + spec_dec_chars(nodes.last().id as nat)
            + "\" [label = \"\"; shape = point; width = 0.06];\n"@
    }
}

/// The rank groups from level `i` on, covering every level but the last.
pub open spec fn spec_dot_ranks(levels: Seq<Level>, i: int) -> Seq<char>
    decreases levels.len() - i,
{
    if i < 0 || i > levels.len() - 2 {
        Seq::empty()
    } else {
        "{ rank = same; \""@ + spec_dec_chars(i as nat) + ". "@ + spec_dot_label(levels[i].lhs@)
            + "\";\n"@ + spec_dot_rank_nodes(levels[i].nodes@) + "}\n"@ + spec_dot_ranks(
            levels,
            i + 1,
        )
    }
}

/// One node's rendered edges: the `e0` edge dashed, the `e1` edge solid,
/// absent slots rendering nothing.
pub open spec fn spec_dot_node_edges(n: Node) -> Seq<char> {
    (match n.e0 {
        Some(t) => "\""@ + spec_dec_chars(n.id as nat) + "\" -> \""@ + spec_dec_chars(t as nat)
            + "\" [style = dashed];\n"@,
        None => Seq::empty(),
    }) + (match n.e1 {
        Some(t) => "\""@ + spec_dec_chars(n.id as nat) + "\" -> \""@ + spec_dec_chars(t as nat)
            + "\";\n"@,
        None => Seq::empty(),
    })
}

/// The rendered edges of a level's nodes, in order.
pub open spec fn spec_dot_level_edges(nodes: Seq<Node>) -> Seq<char>
    decreases nodes.len(),
{
    if nodes.len() == 0 {
        Seq::empty()
    } else {
        spec_dot_level_edges(nodes.drop_last()) + spec_dot_node_edges(nodes.last())
    }
}

/// The rendered edges of every level, in order.
pub open spec fn spec_dot_edges(levels: Seq<Level>) -> Seq<char>
    decreases levels.len(),
{
    if levels.len() == 0 {
        Seq::empty()
    } else {
        spec_dot_edges(levels.drop_last()) + spec_dot_level_edges(levels.last().nodes@)
    }
}

/// The identity of the diagram's terminal node: the last node of the last
/// level.
pub open spec fn spec_terminal_id(b: Bdd) -> nat {
    b.levels@.last().nodes@.last().id as nat
}

/// The whole graph-description text for one diagram.
pub open spec fn spec_dot_text(b: Bdd) -> Seq<char> {
    "digraph \"DD\" {\n"@ + "center = true;\n"@ + "edge [dir = none];\n"@
        + "{ node [shape = plaintext];\n"@ + "edge [style = invis];\n"@
        + "\"CONST NODES\" [style = invis];\n"@ + spec_dot_chain(b.levels@, 0)
        + "\"CONST NODES\";\n}\n"@ + spec_dot_ranks(b.levels@, 0)
        + "{ rank = same; \"CONST NODES\";\n"@ + "{ node [shape = box]; \""@ + spec_dec_chars(
        spec_terminal_id(b),
    ) + "\";\n"@ + "}\n"@ + "}\n"@ + spec_dot_edges(b.levels@) + "\""@ + spec_dec_chars(
        spec_terminal_id(b),
    ) + "\" [label = \"T\"];\n"@ + "}\n"@
}

/// Append a level's label to the output text.
fn push_label(out: &mut String, lhs: &Vec<u64>)
    ensures
        final(out)@ == old(out)@ + spec_dot_label(lhs@),
{
    if lhs.len() == 0 {
        out.append("0");
        return ;
    }
    let mut j: usize = 0;
    while j < lhs.len()
        invariant
            j <= lhs@.len(),
            out@ == old(out)@ + spec_dot_label_ne(lhs@.take(j as int)),
        decreases lhs@.len() - j,
    {
        if j == 0 {
            out.append("x");
        } else {
            out.append(" + x");
        }
        push_dec(out, lhs[j]);
        proof {
            assert(lhs@.take(j + 1).drop_last() =~= lhs@.take(j as int));
            assert(out@ =~= old(out)@ + spec_dot_label_ne(lhs@.take(j + 1)));
        }
        j = j + 1;
    }
    proof {
        assert(lhs@.take(lhs@.len() as int) =~= lhs@);
    }
}

/// Render one diagram as graph-description text. The diagram must have at
/// least two levels and a node on its last level: the renderer draws the
/// level chain up to the second-to-last level and needs a terminal node.
#[verifier::rlimit(50)]
pub fn to_dot_format(b: &Bdd) -> (out: String)
    requires
        b.levels@.len() >= 2,
        b.levels@.last().nodes@.len() >= 1,
    ensures
        out@ == spec_dot_text(*b),
{
    let nlevels = b.levels.len();
    let terminal = b.levels[nlevels - 1].nodes[b.levels[nlevels - 1].nodes.len() - 1].id;
    let mut out = String::new();
    out.append("digraph \"DD\" {\n");
    out.append("center = true;\n");
    out.append("edge [dir = none];\n");
    out.append("{ node [shape = plaintext];\n");
    out.append("edge [style = invis];\n");
    out.append("\"CONST NODES\" [style = invis];\n");
    let ghost pre_chain = out@;
    let mut i: usize = 0;
    while i < nlevels - 1
        invariant
            nlevels == b.levels@.len(),
            nlevels >= 2,
            0 <= i <= nlevels - 1,
            pre_chain + spec_dot_chain(b.levels@, 0) == out@ + spec_dot_chain(
                b.levels@,
                i as int,
            ),
        decreases nlevels - 1 - i,
    {
        out.append("\"");
        push_dec(&mut out, i as u64);
        out.append(". ");
        push_label(&mut out, &b.levels[i].lhs);
        out.append("\" -> ");
        proof {
            assert(pre_chain + spec_dot_chain(b.levels@, 0) =~= out@ + spec_dot_chain(
                b.levels@,
                i + 1,
            ));
        }
        i = i + 1;
    }
    proof {
        assert(out@ =~= pre_chain + spec_dot_chain(b.levels@, 0));
    }
    out.append("\"CONST NODES\";\n}\n");
    let ghost pre_ranks = out@;
    let mut i: usize = 0;
    while i < nlevels - 1
        invariant
            nlevels == b.levels@.len(),
            nlevels >= 2,
            0 <= i <= nlevels - 1,
            pre_ranks + spec_dot_ranks(b.levels@, 0) == out@ + spec_dot_ranks(
                b.levels@,
                i as int,
            ),
        decreases nlevels - 1 - i,
    {
        out.append("{ rank = same; \"");
        push_dec(&mut out, i as u64);
        out.append(". ");
        push_label(&mut out, &b.levels[i].lhs);
        out.append("\";\n");
        let nodes = &b.levels[i].nodes;
        let ghost pre_nodes = out@;
        let mut j: usize = 0;
        while j < nodes.len()
            invariant
                j <= nodes@.len(),
                out@ == pre_nodes + spec_dot_rank_nodes(nodes@.take(j as int)),
            decreases nodes@.len() - j,
        {
            out.append("\"");
            push_dec(&mut out, nodes[j].id as u64);
            out.append("\" [label = \"\"; shape = point; width = 0.06];\n");
            proof {
                assert(nodes@.take(j + 1).drop_last() =~= nodes@.take(j as int));
                assert(out@ =~= pre_nodes + spec_dot_rank_nodes(nodes@.take(j + 1)));
            }
            j = j + 1;
        }
        proof {
            assert(nodes@.take(nodes@.len() as int) =~= nodes@);
        }
        out.append("}\n");
        proof {
            assert(pre_ranks + spec_dot_ranks(b.levels@, 0) =~= out@ + spec_dot_ranks(
                b.levels@,
                i + 1,
            ));
        }
        i = i + 1;
    }
    proof {
        assert(out@ =~= pre_ranks + spec_dot_ranks(b.levels@, 0));
    }
    out.append("{ rank = same; \"CONST NODES\";\n");
    out.append("{ node [shape = box]; \"");
    push_dec(&mut out, terminal as u64);
    out.append("\";\n");
    out.append("}\n");
    out.append("}\n");
    let ghost pre_edges = out@;
    let mut i: usize = 0;
    while i < nlevels
        invariant
            nlevels == b.levels@.len(),
            i <= nlevels,
            out@ == pre_edges + spec_dot_edges(b.levels@.take(i as int)),
        decreases nlevels - i,
    {
        let nodes = &b.levels[i].nodes;
        let ghost pre_lv = out@;
        let mut j: usize = 0;
        while j < nodes.len()
            invariant
                j <= nodes@.len(),
                out@ == pre_lv + spec_dot_level_edges(nodes@.take(j as int)),
            decreases nodes@.len() - j,
        {
            let n = nodes[j];
            if let Some(t) = n.e0 {
                out.append("\"");
                push_dec(&mut out, n.id as u64);
                out.append("\" -> \"");
                push_dec(&mut out, t as u64);
                out.append("\" [style = dashed];\n");
            }
            if let Some(t) = n.e1 {
                out.append("\"");
                push_dec(&mut out, n.id as u64);
                out.append("\" -> \"");
                push_dec(&mut out, t as u64);
                out.append("\";\n");
            }
            proof {
                assert(nodes@.take(j + 1).drop_last() =~= nodes@.take(j as int));
                assert(out@ =~= pre_lv + spec_dot_level_edges(nodes@.take(j + 1)));
            }
            j = j + 1;
        }
        proof {
            assert(nodes@.take(nodes@.len() as int) =~= nodes@);
            assert(b.levels@.take(i + 1).drop_last() =~= b.levels@.take(i as int));
            assert(out@ =~= pre_edges + spec_dot_edges(b.levels@.take(i + 1)));
        }
        i = i + 1;
    }
    proof {
        assert(b.levels@.take(b.levels@.len() as int) =~= b.levels@);
    }
    out.append("\"");
    push_dec(&mut out, terminal as u64);
    out.append("\" [label = \"T\"];\n");
    out.append("}\n");
    proof {
        assert(out@ =~= spec_dot_text(*b));
    }
    out
}

} // verus!
