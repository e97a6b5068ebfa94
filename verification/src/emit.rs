//! Text emitter: renders a built diagram, or a whole collection, in the
//! same line-oriented grammar that the parser reads.

use vstd::prelude::*;
use vstd::string::StringExecFns;

use crate::numtext::{push_dec, spec_dec_chars};
use crate::soc::{Bdd, Level, Node, System};

verus! {

/// The raw value of an edge slot: the target identity, or the sentinel 0
/// for an absent edge.
pub open spec fn spec_edge_val(e: Option<usize>) -> nat {
    match e {
        None => 0,
        Some(t) => t as nat,
    }
}

/// A level's left-hand side rendered as decimal entries joined with `+`,
/// no leading sign before the first entry.
pub open spec fn spec_lhs_text(lhs: Seq<u64>) -> Seq<char>
    decreases lhs.len(),
{
    if lhs.len() == 0 {
        Seq::empty()
    } else if lhs.len() == 1 {
        spec_dec_chars(lhs[0] as nat)
    } else {
        spec_lhs_text(lhs.drop_last()) + "+"@ + spec_dec_chars(lhs.last() as nat)
    }
}

/// One node rendered as `(<id>;<e0-or-0>,<e1-or-0>)`.
pub open spec fn spec_node_text(n: Node) -> Seq<char> {
    "("@ + spec_dec_chars(n.id as nat) + ";"@ + spec_dec_chars(spec_edge_val(n.e0)) + ","@
        + spec_dec_chars(spec_edge_val(n.e1)) + ")"@
}

/// A level's nodes rendered one after the other, no separator.
pub open spec fn spec_nodes_text(s: Seq<Node>) -> Seq<char>
    decreases s.len(),
{
    if s.len() == 0 {
        Seq::empty()
    } else {
        spec_nodes_text(s.drop_last()) + spec_node_text(s.last())
    }
}

/// One level rendered as its left-hand side, `:`, its nodes, and `|` with a
/// line break.
pub open spec fn spec_level_text(l: Level) -> Seq<char> {
    spec_lhs_text(l.lhs@) + ":"@ + spec_nodes_text(l.nodes@) + "|"@ + "\n"@
}

/// The levels rendered in order.
pub open spec fn spec_levels_text(levels: Seq<Level>) -> Seq<char>
    decreases levels.len(),
{
    if levels.len() == 0 {
        Seq::empty()
    } else {
        spec_levels_text(levels.drop_last()) + spec_level_text(levels.last())
    }
}

/// A whole diagram rendered: header line `<id> <level-count>`, the levels,
/// and the closing `---` line.
pub open spec fn spec_bdd_text(b: Bdd) -> Seq<char> {
    spec_dec_chars(b.id as nat) + " "@ + spec_dec_chars(b.levels@.len() as nat) + "\n"@
        + spec_levels_text(b.levels@) + "---"@ + "\n"@
}

/// Append one level's rendering to the output text.
#[verifier::rlimit(50)]
fn push_level_text(out: &mut String, l: &Level)
    ensures
        final(out)@ == old(out)@ + spec_level_text(*l),
{
    let mut j: usize = 0;
    while j < l.lhs.len()
        invariant
            j <= l.lhs@.len(),
            out@ == old(out)@ + spec_lhs_text(l.lhs@.take(j as int)),
        decreases l.lhs@.len() - j,
    {
        if j != 0 {
            out.append("+");
        }
        push_dec(out, l.lhs[j]);
        proof {
            assert(l.lhs@.take(j + 1).drop_last() =~= l.lhs@.take(j as int));
            assert(out@ =~= old(out)@ + spec_lhs_text(l.lhs@.take(j + 1)));
        }
        j = j + 1;
    }
    proof {
        assert(l.lhs@.take(l.lhs@.len() as int) =~= l.lhs@);
    }
    out.append(":");
    let ghost mid = out@;
    let mut j: usize = 0;
    while j < l.nodes.len()
        invariant
            j <= l.nodes@.len(),
            out@ == mid + spec_nodes_text(l.nodes@.take(j as int)),
        decreases l.nodes@.len() - j,
    {
        let n = l.nodes[j];
        out.append("(");
        push_dec(out, n.id as u64);
        out.append(";");
        let e0 = match n.e0 {
            Some(t) => t,
            None => 0,
        };
        push_dec(out, e0 as u64);
        out.append(",");
        let e1 = match n.e1 {
            Some(t) => t,
            None => 0,
        };
        push_dec(out, e1 as u64);
        out.append(")");
        proof {
            assert(l.nodes@.take(j + 1).drop_last() =~= l.nodes@.take(j as int));
            assert(out@ =~= mid + spec_nodes_text(l.nodes@.take(j + 1)));
        }
        j = j + 1;
    }
    proof {
        assert(l.nodes@.take(l.nodes@.len() as int) =~= l.nodes@);
    }
    out.append("|");
    out.append("\n");
    proof {
        assert(out@ =~= old(out)@ + spec_level_text(*l));
    }
}

/// Render one diagram in the text grammar.
pub fn bdd_to_text(b: &Bdd) -> (out: String)
    ensures
        out@ == spec_bdd_text(*b),
{
    let mut out = String::new();
    push_dec(&mut out, b.id as u64);
    out.append(" ");
    push_dec(&mut out, b.levels.len() as u64);
    out.append("\n");
    let ghost mid = out@;
    let mut i: usize = 0;
    while i < b.levels.len()
        invariant
            i <= b.levels@.len(),
            out@ == mid + spec_levels_text(b.levels@.take(i as int)),
        decreases b.levels@.len() - i,
    {
        push_level_text(&mut out, &b.levels[i]);
        proof {
            assert(b.levels@.take(i + 1).drop_last() =~= b.levels@.take(i as int));
            assert(out@ =~= mid + spec_levels_text(b.levels@.take(i + 1)));
        }
        i = i + 1;
    }
    proof {
        assert(b.levels@.take(b.levels@.len() as int) =~= b.levels@);
    }
    out.append("---");
    out.append("\n");
    proof {
        assert(out@ =~= spec_bdd_text(*b));
    }
    out
}

/// The identities of the collection's diagrams, in storage order.
pub open spec fn spec_ids_of(bdds: Seq<Bdd>) -> Seq<usize> {
    bdds.map_values(|b: Bdd| b.id)
}

/// Whether the sequence is ordered, smallest first.
pub open spec fn spec_sorted(s: Seq<usize>) -> bool {
    forall|a: int, b: int| 0 <= a < b < s.len() ==> s[a] <= s[b]
}

/// The value inserted in order into an already ordered sequence, after any
/// equal entries.
pub open spec fn spec_insert_sorted(s: Seq<usize>, x: usize) -> Seq<usize>
    decreases s.len(),
{
    if s.len() == 0 {
        seq![x]
    } else if x >= s.last() {
        s.push(x)
    } else {
        spec_insert_sorted(s.drop_last(), x).push(s.last())
    }
}

/// The sequence reordered smallest first by repeated ordered insertion.
pub open spec fn spec_sort_ids(s: Seq<usize>) -> Seq<usize>
    decreases s.len(),
{
    if s.len() == 0 {
        Seq::empty()
    } else {
        spec_insert_sorted(spec_sort_ids(s.drop_last()), s.last())
    }
}

/// Inserting at the position the probe found is the ordered insertion.
proof fn lemma_insert_at(s: Seq<usize>, x: usize, p: int)
    requires
        spec_sorted(s),
        0 <= p <= s.len(),
        p == 0 || s[p - 1] <= x,
        p == s.len() || s[p] > x,
    ensures
        spec_insert_sorted(s, x) == s.insert(p, x),
        spec_sorted(s.insert(p, x)),
    decreases s.len(),
{
    if p == s.len() {
        if s.len() == 0 {
            assert(spec_insert_sorted(s, x) =~= s.insert(p, x));
        } else {
            assert(x >= s.last());
            assert(s.push(x) =~= s.insert(p, x));
        }
    } else {
        assert(s[p] > x);
        assert(s.last() >= s[p]);
        lemma_insert_at(s.drop_last(), x, p);
        assert(spec_insert_sorted(s.drop_last(), x).push(s.last()) =~= s.insert(p, x));
    }
    assert forall|a: int, b: int| 0 <= a < b < s.insert(p, x).len() implies s.insert(p, x)[a]
        <= s.insert(p, x)[b] by {}
}

/// The diagram identities in ascending order.
fn sorted_ids(bdds: &Vec<Bdd>) -> (r: Vec<usize>)
    ensures
        r@ == spec_sort_ids(spec_ids_of(bdds@)),
        spec_sorted(r@),
{
    let mut out: Vec<usize> = Vec::new();
    let mut i: usize = 0;
    while i < bdds.len()
        invariant
            i <= bdds@.len(),
            out@ == spec_sort_ids(spec_ids_of(bdds@.take(i as int))),
            spec_sorted(out@),
        decreases bdds@.len() - i,
    {
        let x = bdds[i].id;
        let mut p: usize = out.len();
        while p > 0 && out[p - 1] > x
            invariant
                p <= out@.len(),
                forall|k: int| p <= k < out@.len() ==> out@[k] > x,
            decreases p,
        {
            p = p - 1;
        }
        proof {
            lemma_insert_at(out@, x, p as int);
        }
        out.insert(p, x);
        proof {
            assert(spec_ids_of(bdds@.take(i + 1)).drop_last() =~= spec_ids_of(
                bdds@.take(i as int),
            ));
            assert(spec_ids_of(bdds@.take(i + 1)).last() == x);
        }
        i = i + 1;
    }
    proof {
        assert(bdds@.take(bdds@.len() as int) =~= bdds@);
    }
    out
}

/// The first diagram of the sequence, at or after position `k`, carrying
/// the given identity.
pub open spec fn spec_first_bdd_from(bdds: Seq<Bdd>, id: usize, k: int) -> Option<Bdd>
    decreases bdds.len() - k,
{
    if k < 0 || k >= bdds.len() {
        None
    } else if bdds[k].id == id {
        Some(bdds[k])
    } else {
        spec_first_bdd_from(bdds, id, k + 1)
    }
}

/// The first diagram carrying the given identity, if any.
fn find_bdd<'a>(bdds: &'a Vec<Bdd>, id: usize) -> (r: Option<&'a Bdd>)
    ensures
        match r {
            Some(b) => spec_first_bdd_from(bdds@, id, 0) == Some(*b),
            None => spec_first_bdd_from(bdds@, id, 0) is None,
        },
{
    let mut k: usize = 0;
    while k < bdds.len()
        invariant
            k <= bdds@.len(),
            spec_first_bdd_from(bdds@, id, 0) == spec_first_bdd_from(bdds@, id, k as int),
        decreases bdds@.len() - k,
    {
        if bdds[k].id == id {
            return Some(&bdds[k]);
        }
        k = k + 1;
    }
    None
}

/// The diagrams named by the identity list, rendered one after the other;
/// an identity carried by no diagram renders nothing.
pub open spec fn spec_bdds_text_by_ids(bdds: Seq<Bdd>, ids: Seq<usize>) -> Seq<char>
    decreases ids.len(),
{
    if ids.len() == 0 {
        Seq::empty()
    } else {
        spec_bdds_text_by_ids(bdds, ids.drop_last()) + match spec_first_bdd_from(
            bdds,
            ids.last(),
            0,
        ) {
            Some(b) => spec_bdd_text(b),
            None => Seq::empty(),
        }
    }
}

/// A whole collection rendered: header line `<nvar> <diagram-count>`, then
/// every diagram in ascending identity order.
pub open spec fn spec_system_text(sys: System) -> Seq<char> {
    spec_dec_chars(sys.nvar as nat) + " "@ + spec_dec_chars(sys.bdds@.len() as nat) + "\n"@
        + spec_bdds_text_by_ids(sys.bdds@, spec_sort_ids(spec_ids_of(sys.bdds@)))
}

/// Render a whole collection in the text grammar, diagrams in ascending
/// identity order.
pub fn system_to_text(sys: &System) -> (out: String)
    ensures
        out@ == spec_system_text(*sys),
{
    let mut out = String::new();
    push_dec(&mut out, sys.nvar as u64);
    out.append(" ");
    push_dec(&mut out, sys.bdds.len() as u64);
    out.append("\n");
    let ghost mid = out@;
    let ids = sorted_ids(&sys.bdds);
    let mut k: usize = 0;
    while k < ids.len()
        invariant
            k <= ids@.len(),
            out@ == mid + spec_bdds_text_by_ids(sys.bdds@, ids@.take(k as int)),
        decreases ids@.len() - k,
    {
        match find_bdd(&sys.bdds, ids[k]) {
            Some(b) => {
                let t = bdd_to_text(b);
                out.append(t.as_str());
            },
            None => {},
        }
        proof {
            assert(ids@.take(k + 1).drop_last() =~= ids@.take(k as int));
            assert(out@ =~= mid + spec_bdds_text_by_ids(sys.bdds@, ids@.take(k + 1)));
        }
        k = k + 1;
    }
    proof {
        assert(ids@.take(ids@.len() as int) =~= ids@);
    }
    out
}

} // verus!
