//! Text parser: turns raw text in the line-oriented grammar into a
//! `SystemSpec`. Whitespace (spaces and tabs, not newlines) around
//! individual integers is insignificant; line breaks, bare or with a
//! carriage return, terminate the header and each level; a leading `+`
//! before a left-hand-side entry only separates entries. Declared counts in
//! headers are descriptive and not validated. Text that the grammar does
//! not match in full is rejected; no partial result is returned.

use vstd::prelude::*;
use vstd::string::StrSliceExecFns;

use crate::emit::{
    spec_bdd_text, spec_bdds_text_by_ids, spec_edge_val, spec_first_bdd_from, spec_ids_of,
    spec_insert_sorted, spec_level_text, spec_levels_text, spec_lhs_text, spec_node_text,
    spec_nodes_text, spec_sort_ids, spec_system_text,
};
use crate::soc::System;
use crate::soc::Bdd;
use crate::soc::Level;
use crate::builder::spec_built_node;
use crate::model::{
    BddSpec, BddSpecV, Id, LevelSpec, LevelSpecV, NodeSpec, SystemSpec, SystemSpecV,
    spec_count_minus_one, spec_norm_rhs, spec_strip_lhs,
};
use crate::soc::{Node, spec_no_zero_edges_nodes};
use crate::numtext::{char_digit, spec_char_digit, spec_dec_chars, spec_is_digit};

verus! {

/// The first position at or after `p` that holds no space or tab.
pub open spec fn sp_ws(t: Seq<char>, p: int) -> int
    decreases t.len() - p,
{
    if p < 0 || p >= t.len() || !(t[p] == ' ' || t[p] == '\t') {
        p
    } else {
        sp_ws(t, p + 1)
    }
}

/// The first position at or after `p` that holds no decimal digit.
pub open spec fn sp_digits_end(t: Seq<char>, p: int) -> int
    decreases t.len() - p,
{
    if p < 0 || p >= t.len() || !spec_is_digit(t[p]) {
        p
    } else {
        sp_digits_end(t, p + 1)
    }
}

/// The numeric value of the digit run `t[p..e)`.
pub open spec fn sp_digits_val(t: Seq<char>, p: int, e: int) -> nat
    decreases e - p,
{
    if p >= e {
        0
    } else {
        sp_digits_val(t, p, e - 1) * 10 + spec_char_digit(t[e - 1])
    }
}

/// An unsigned integer with insignificant whitespace around it: at least
/// one digit, its value at most `usize::MAX`.
pub open spec fn sp_usize(t: Seq<char>, p: int) -> Option<(int, usize)> {
    let p1 = sp_ws(t, p);
    let e = sp_digits_end(t, p1);
    if e == p1 {
        None
    } else {
        let v = sp_digits_val(t, p1, e);
        if v > usize::MAX as nat {
            None
        } else {
            Some((sp_ws(t, e), v as usize))
        }
    }
}

/// A possibly negative integer with insignificant whitespace around it: an
/// optional `-`, then at least one digit, the value within `i64` range.
pub open spec fn sp_i64(t: Seq<char>, p: int) -> Option<(int, i64)> {
    let p1 = sp_ws(t, p);
    if 0 <= p1 < t.len() && t[p1] == '-' {
        let e = sp_digits_end(t, p1 + 1);
        if e == p1 + 1 {
            None
        } else {
            let v = sp_digits_val(t, p1 + 1, e);
            if v > i64::MAX as nat + 1 {
                None
            } else {
                Some((sp_ws(t, e), (0 - v as int) as i64))
            }
        }
    } else {
        let e = sp_digits_end(t, p1);
        if e == p1 {
            None
        } else {
            let v = sp_digits_val(t, p1, e);
            if v > i64::MAX as nat {
                None
            } else {
                Some((sp_ws(t, e), v as i64))
            }
        }
    }
}

/// One left-hand-side entry: an optional separating `+`, then an integer.
pub open spec fn sp_var(t: Seq<char>, p: int) -> Option<(int, i64)> {
    let p1 = if 0 <= p < t.len() && t[p] == '+' {
        p + 1
    } else {
        p
    };
    sp_i64(t, p1)
}

/// As many left-hand-side entries as match, and where they end.
pub open spec fn sp_lhs(t: Seq<char>, p: int) -> (int, Seq<i64>)
    decreases t.len() - p,
{
    match sp_var(t, p) {
        Some((p2, v)) => {
            if p < p2 <= t.len() {
                let (pe, rest) = sp_lhs(t, p2);
                (pe, seq![v] + rest)
            } else {
                (p, Seq::empty())
            }
        },
        None => (p, Seq::empty()),
    }
}

/// One node: `(<id>;<e0>,<e1>)`, each identity an unsigned integer.
pub open spec fn sp_node(t: Seq<char>, p: int) -> Option<(int, NodeSpec)> {
    if 0 <= p < t.len() && t[p] == '(' {
        match sp_usize(t, p + 1) {
            Some((p2, id)) => if 0 <= p2 < t.len() && t[p2] == ';' {
                match sp_usize(t, p2 + 1) {
                    Some((p3, e0)) => if 0 <= p3 < t.len() && t[p3] == ',' {
                        match sp_usize(t, p3 + 1) {
                            Some((p4, e1)) => if 0 <= p4 < t.len() && t[p4] == ')' {
                                Some(
                                    (p4 + 1, NodeSpec { id: Id(id), e0: Id(e0), e1: Id(e1) }),
                                )
                            } else {
                                None
                            },
                            None => None,
                        }
                    } else {
                        None
                    },
                    None => None,
                }
            } else {
                None
            },
            None => None,
        }
    } else {
        None
    }
}

/// As many nodes as match, and where they end.
pub open spec fn sp_rhs(t: Seq<char>, p: int) -> (int, Seq<NodeSpec>)
    decreases t.len() - p,
{
    match sp_node(t, p) {
        Some((p2, n)) => {
            if p < p2 <= t.len() {
                let (pe, rest) = sp_rhs(t, p2);
                (pe, seq![n] + rest)
            } else {
                (p, Seq::empty())
            }
        },
        None => (p, Seq::empty()),
    }
}

/// An optional line break: `\n` or `\r\n`.
pub open spec fn sp_lb(t: Seq<char>, p: int) -> int {
    if 0 <= p < t.len() && t[p] == '\n' {
        p + 1
    } else if 0 <= p && p + 1 < t.len() && t[p] == '\r' && t[p + 1] == '\n' {
        p + 2
    } else {
        p
    }
}

/// One level: entries, `:`, nodes, `|`, and an optional line break.
pub open spec fn sp_level(t: Seq<char>, p: int) -> Option<(int, LevelSpecV)> {
    let (p1, lhs) = sp_lhs(t, p);
    if 0 <= p1 < t.len() && t[p1] == ':' {
        let (p2, rhs) = sp_rhs(t, p1 + 1);
        if 0 <= p2 < t.len() && t[p2] == '|' {
            Some((sp_lb(t, p2 + 1), LevelSpecV { lhs, rhs }))
        } else {
            None
        }
    } else {
        None
    }
}

/// As many levels as match, and where they end.
pub open spec fn sp_levels(t: Seq<char>, p: int) -> (int, Seq<LevelSpecV>)
    decreases t.len() - p,
{
    match sp_level(t, p) {
        Some((p2, l)) => {
            if p < p2 <= t.len() {
                let (pe, rest) = sp_levels(t, p2);
                (pe, seq![l] + rest)
            } else {
                (p, Seq::empty())
            }
        },
        None => (p, Seq::empty()),
    }
}

/// One diagram: a header line `<id> <level-count>` (the count descriptive
/// only), the levels, and a closing `---` line.
pub open spec fn sp_bdd(t: Seq<char>, p: int) -> Option<(int, BddSpecV)> {
    match sp_usize(t, p) {
        Some((p1, id)) => match sp_usize(t, p1) {
            Some((p2, _nlevels)) => {
                let p3 = sp_lb(t, p2);
                let (p4, levels) = sp_levels(t, p3);
                if 0 <= p4 && p4 + 3 <= t.len() && t[p4] == '-' && t[p4 + 1] == '-' && t[p4 + 2]
                    == '-' {
                    Some((sp_lb(t, p4 + 3), BddSpecV { id: Id(id), levels }))
                } else {
                    None
                }
            },
            None => None,
        },
        None => None,
    }
}

/// As many diagrams as match, and where they end.
pub open spec fn sp_bdds(t: Seq<char>, p: int) -> (int, Seq<BddSpecV>)
    decreases t.len() - p,
{
    match sp_bdd(t, p) {
        Some((p2, b)) => {
            if p < p2 <= t.len() {
                let (pe, rest) = sp_bdds(t, p2);
                (pe, seq![b] + rest)
            } else {
                (p, Seq::empty())
            }
        },
        None => (p, Seq::empty()),
    }
}

/// A whole file: a header line `<nvar> <diagram-count>` (the count
/// descriptive only) and the diagrams. The grammar must consume the text in
/// full.
pub open spec fn sp_file(t: Seq<char>) -> Option<SystemSpecV> {
    match sp_usize(t, 0) {
        Some((p1, nvar)) => match sp_usize(t, p1) {
            Some((p2, _count)) => {
                let p3 = sp_lb(t, p2);
                let (p4, bdds) = sp_bdds(t, p3);
                if p4 == t.len() {
                    Some(SystemSpecV { nvar, bdds })
                } else {
                    None
                }
            },
            None => None,
        },
        None => None,
    }
}

/// Skip spaces and tabs.
fn skip_ws(s: &str, len: usize, p: usize) -> (r: usize)
    requires
        len == s@.len(),
        p <= len,
    ensures
        r as int == sp_ws(s@, p as int),
        p <= r <= len,
{
    let mut q = p;
    while q < len && (s.get_char(q) == ' ' || s.get_char(q) == '\t')
        invariant
            p <= q <= len,
            len == s@.len(),
            sp_ws(s@, p as int) == sp_ws(s@, q as int),
        decreases len - q,
    {
        q = q + 1;
    }
    q
}

/// Scan a run of decimal digits: where it ends, its value, and whether the
/// value exceeds what a 64-bit word holds.
fn scan_number(s: &str, len: usize, p: usize) -> (r: (usize, u64, bool))
    requires
        len == s@.len(),
        p <= len,
    ensures
        r.0 as int == sp_digits_end(s@, p as int),
        p <= r.0 <= len,
        !r.2 ==> r.1 as nat == sp_digits_val(s@, p as int, r.0 as int),
        r.2 ==> sp_digits_val(s@, p as int, r.0 as int) > u64::MAX as nat,
{
    let mut q = p;
    let mut val: u64 = 0;
    let mut of = false;
    while q < len && char_digit(s.get_char(q)) < 10
        invariant
            p <= q <= len,
            len == s@.len(),
            sp_digits_end(s@, p as int) == sp_digits_end(s@, q as int),
            !of ==> val as nat == sp_digits_val(s@, p as int, q as int),
            of ==> sp_digits_val(s@, p as int, q as int) > u64::MAX as nat,
        decreases len - q,
    {
        let d = char_digit(s.get_char(q));
        if !of {
            if val > u64::MAX / 10 || (val == u64::MAX / 10 && d > u64::MAX % 10) {
                of = true;
            } else {
                val = val * 10 + d;
            }
        }
        q = q + 1;
    }
    (q, val, of)
}

/// Parse an unsigned integer, whitespace around it skipped.
fn parse_usize_at(s: &str, len: usize, p: usize) -> (r: Option<(usize, usize)>)
    requires
        len == s@.len(),
        p <= len,
    ensures
        match r {
            Some((p2, v)) => sp_usize(s@, p as int) == Some((p2 as int, v)) && p < p2 <= len,
            None => sp_usize(s@, p as int) is None,
        },
{
    let p1 = skip_ws(s, len, p);
    let (e, v, of) = scan_number(s, len, p1);
    if e == p1 {
        return None;
    }
    if of || v > usize::MAX as u64 {
        return None;
    }
    let p2 = skip_ws(s, len, e);
    Some((p2, v as usize))
}

/// Parse a possibly negative integer, whitespace around it skipped.
fn parse_i64_at(s: &str, len: usize, p: usize) -> (r: Option<(usize, i64)>)
    requires
        len == s@.len(),
        p <= len,
    ensures
        match r {
            Some((p2, v)) => sp_i64(s@, p as int) == Some((p2 as int, v)) && p < p2 <= len,
            None => sp_i64(s@, p as int) is None,
        },
{
    let p1 = skip_ws(s, len, p);
    if p1 < len && s.get_char(p1) == '-' {
        let (e, v, of) = scan_number(s, len, p1 + 1);
        if e == p1 + 1 {
            return None;
        }
        if of || v > 9223372036854775808u64 {
            return None;
        }
        let x: i64 = if v == 9223372036854775808u64 {
            i64::MIN
        } else {
            -(v as i64)
        };
        let p2 = skip_ws(s, len, e);
        Some((p2, x))
    } else {
        let (e, v, of) = scan_number(s, len, p1);
        if e == p1 {
            return None;
        }
        if of || v > i64::MAX as u64 {
            return None;
        }
        let p2 = skip_ws(s, len, e);
        Some((p2, v as i64))
    }
}

/// Parse one left-hand-side entry: an optional `+`, then an integer.
fn parse_var_at(s: &str, len: usize, p: usize) -> (r: Option<(usize, i64)>)
    requires
        len == s@.len(),
        p <= len,
    ensures
        match r {
            Some((p2, v)) => sp_var(s@, p as int) == Some((p2 as int, v)) && p < p2 <= len,
            None => sp_var(s@, p as int) is None,
        },
{
    let p1 = if p < len && s.get_char(p) == '+' {
        p + 1
    } else {
        p
    };
    parse_i64_at(s, len, p1)
}

/// Parse as many left-hand-side entries as match.
fn parse_lhs_at(s: &str, len: usize, p: usize) -> (r: (usize, Vec<i64>))
    requires
        len == s@.len(),
        p <= len,
    ensures
        sp_lhs(s@, p as int) == (r.0 as int, r.1@),
        p <= r.0 <= len,
{
    let mut q = p;
    let mut acc: Vec<i64> = Vec::new();
    let mut done = false;
    while !done
        invariant
            p <= q <= len,
            len == s@.len(),
            sp_lhs(s@, p as int).0 == sp_lhs(s@, q as int).0,
            sp_lhs(s@, p as int).1 == acc@ + sp_lhs(s@, q as int).1,
            done ==> sp_lhs(s@, q as int) == (q as int, Seq::<i64>::empty()),
        decreases len - q, (if done { 0int } else { 1int }),
    {
        match parse_var_at(s, len, q) {
            Some((p2, v)) => {
                acc.push(v);
                proof {
                    assert(sp_lhs(s@, p as int).1 =~= acc@ + sp_lhs(s@, p2 as int).1);
                }
                q = p2;
            },
            None => {
                done = true;
            },
        }
    }
    (q, acc)
}

/// Parse one node.
fn parse_node_at(s: &str, len: usize, p: usize) -> (r: Option<(usize, NodeSpec)>)
    requires
        len == s@.len(),
        p <= len,
    ensures
        match r {
            Some((p2, n)) => sp_node(s@, p as int) == Some((p2 as int, n)) && p < p2 <= len,
            None => sp_node(s@, p as int) is None,
        },
{
    if !(p < len && s.get_char(p) == '(') {
        return None;
    }
    let (p2, id) = match parse_usize_at(s, len, p + 1) {
        Some(x) => x,
        None => {
            return None;
        },
    };
    if !(p2 < len && s.get_char(p2) == ';') {
        return None;
    }
    let (p3, e0) = match parse_usize_at(s, len, p2 + 1) {
        Some(x) => x,
        None => {
            return None;
        },
    };
    if !(p3 < len && s.get_char(p3) == ',') {
        return None;
    }
    let (p4, e1) = match parse_usize_at(s, len, p3 + 1) {
        Some(x) => x,
        None => {
            return None;
        },
    };
    if !(p4 < len && s.get_char(p4) == ')') {
        return None;
    }
    Some((p4 + 1, NodeSpec::new(Id::new(id), Id::new(e0), Id::new(e1))))
}

/// Parse as many nodes as match.
fn parse_rhs_at(s: &str, len: usize, p: usize) -> (r: (usize, Vec<NodeSpec>))
    requires
        len == s@.len(),
        p <= len,
    ensures
        sp_rhs(s@, p as int) == (r.0 as int, r.1@),
        p <= r.0 <= len,
{
    let mut q = p;
    let mut acc: Vec<NodeSpec> = Vec::new();
    let mut done = false;
    while !done
        invariant
            p <= q <= len,
            len == s@.len(),
            sp_rhs(s@, p as int).0 == sp_rhs(s@, q as int).0,
            sp_rhs(s@, p as int).1 == acc@ + sp_rhs(s@, q as int).1,
            done ==> sp_rhs(s@, q as int) == (q as int, Seq::<NodeSpec>::empty()),
        decreases len - q, (if done { 0int } else { 1int }),
    {
        match parse_node_at(s, len, q) {
            Some((p2, n)) => {
                acc.push(n);
                proof {
                    assert(sp_rhs(s@, p as int).1 =~= acc@ + sp_rhs(s@, p2 as int).1);
                }
                q = p2;
            },
            None => {
                done = true;
            },
        }
    }
    (q, acc)
}

/// Consume an optional line break.
fn parse_lb_at(s: &str, len: usize, p: usize) -> (r: usize)
    requires
        len == s@.len(),
        p <= len,
    ensures
        r as int == sp_lb(s@, p as int),
        p <= r <= len,
{
    if p < len && s.get_char(p) == '\n' {
        p + 1
    } else if p < len && p + 1 < len && s.get_char(p) == '\r' && s.get_char(p + 1) == '\n' {
        p + 2
    } else {
        p
    }
}

/// Parse one level.
fn parse_level_at(s: &str, len: usize, p: usize) -> (r: Option<(usize, LevelSpec)>)
    requires
        len == s@.len(),
        p <= len,
    ensures
        match r {
            Some((p2, l)) => sp_level(s@, p as int) == Some((p2 as int, l@)) && p < p2 <= len,
            None => sp_level(s@, p as int) is None,
        },
{
    let (p1, lhs) = parse_lhs_at(s, len, p);
    if !(p1 < len && s.get_char(p1) == ':') {
        return None;
    }
    let (p2, rhs) = parse_rhs_at(s, len, p1 + 1);
    if !(p2 < len && s.get_char(p2) == '|') {
        return None;
    }
    let pe = parse_lb_at(s, len, p2 + 1);
    Some((pe, LevelSpec::new(lhs, rhs)))
}

/// Parse as many levels as match.
fn parse_levels_at(s: &str, len: usize, p: usize) -> (r: (usize, Vec<LevelSpec>))
    requires
        len == s@.len(),
        p <= len,
    ensures
        sp_levels(s@, p as int).0 == r.0 as int,
        sp_levels(s@, p as int).1 == r.1@.map_values(|l: LevelSpec| l@),
        p <= r.0 <= len,
{
    let mut q = p;
    let mut acc: Vec<LevelSpec> = Vec::new();
    let mut done = false;
    while !done
        invariant
            p <= q <= len,
            len == s@.len(),
            sp_levels(s@, p as int).0 == sp_levels(s@, q as int).0,
            sp_levels(s@, p as int).1 == acc@.map_values(|l: LevelSpec| l@) + sp_levels(
                s@,
                q as int,
            ).1,
            done ==> sp_levels(s@, q as int) == (q as int, Seq::<LevelSpecV>::empty()),
        decreases len - q, (if done { 0int } else { 1int }),
    {
        match parse_level_at(s, len, q) {
            Some((p2, l)) => {
                acc.push(l);
                proof {
                    assert(sp_levels(s@, p as int).1 =~= acc@.map_values(|l: LevelSpec| l@)
                        + sp_levels(s@, p2 as int).1);
                }
                q = p2;
            },
            None => {
                done = true;
            },
        }
    }
    (q, acc)
}

/// Parse one diagram.
fn parse_bdd_at(s: &str, len: usize, p: usize) -> (r: Option<(usize, BddSpec)>)
    requires
        len == s@.len(),
        p <= len,
    ensures
        match r {
            Some((p2, b)) => sp_bdd(s@, p as int) == Some((p2 as int, b@)) && p < p2 <= len,
            None => sp_bdd(s@, p as int) is None,
        },
{
    let (p1, id) = match parse_usize_at(s, len, p) {
        Some(x) => x,
        None => {
            return None;
        },
    };
    let (p2, _nlevels) = match parse_usize_at(s, len, p1) {
        Some(x) => x,
        None => {
            return None;
        },
    };
    let p3 = parse_lb_at(s, len, p2);
    let (p4, levels) = parse_levels_at(s, len, p3);
    if !(len >= 3 && p4 <= len - 3 && s.get_char(p4) == '-' && s.get_char(p4 + 1) == '-'
        && s.get_char(p4 + 2) == '-') {
        return None;
    }
    let pe = parse_lb_at(s, len, p4 + 3);
    Some((pe, BddSpec::new(Id::new(id), levels)))
}

/// Parse as many diagrams as match.
fn parse_bdds_at(s: &str, len: usize, p: usize) -> (r: (usize, Vec<BddSpec>))
    requires
        len == s@.len(),
        p <= len,
    ensures
        sp_bdds(s@, p as int).0 == r.0 as int,
        sp_bdds(s@, p as int).1 == r.1@.map_values(|b: BddSpec| b@),
        p <= r.0 <= len,
{
    let mut q = p;
    let mut acc: Vec<BddSpec> = Vec::new();
    let mut done = false;
    while !done
        invariant
            p <= q <= len,
            len == s@.len(),
            sp_bdds(s@, p as int).0 == sp_bdds(s@, q as int).0,
            sp_bdds(s@, p as int).1 == acc@.map_values(|b: BddSpec| b@) + sp_bdds(
                s@,
                q as int,
            ).1,
            done ==> sp_bdds(s@, q as int) == (q as int, Seq::<BddSpecV>::empty()),
        decreases len - q, (if done { 0int } else { 1int }),
    {
        match parse_bdd_at(s, len, q) {
            Some((p2, b)) => {
                acc.push(b);
                proof {
                    assert(sp_bdds(s@, p as int).1 =~= acc@.map_values(|b: BddSpec| b@)
                        + sp_bdds(s@, p2 as int).1);
                }
                q = p2;
            },
            None => {
                done = true;
            },
        }
    }
    (q, acc)
}

/// Parse a whole file into a `SystemSpec`. Text that the grammar does not
/// match in full is rejected; no partial result is returned.
pub fn parse_system_spec(s: &str) -> (r: Option<SystemSpec>)
    ensures
        match r {
            Some(sys) => sp_file(s@) == Some(sys@),
            None => sp_file(s@) is None,
        },
{
    let len = s.unicode_len();
    let (p1, nvar) = match parse_usize_at(s, len, 0) {
        Some(x) => x,
        None => {
            return None;
        },
    };
    let (p2, _count) = match parse_usize_at(s, len, p1) {
        Some(x) => x,
        None => {
            return None;
        },
    };
    let p3 = parse_lb_at(s, len, p2);
    let (p4, bdds) = parse_bdds_at(s, len, p3);
    if p4 != len {
        return None;
    }
    Some(SystemSpec::new(nvar, bdds))
}

/// Every character of a decimal rendering is a digit, and the rendering is
/// never empty.
proof fn lemma_dec_chars_are_digits(n: nat)
    ensures
        spec_dec_chars(n).len() >= 1,
        forall|i: int| 0 <= i < spec_dec_chars(n).len() ==> spec_is_digit(spec_dec_chars(n)[i]),
    decreases n,
{
    if n >= 10 {
        lemma_dec_chars_are_digits(n / 10);
        assert(forall|i: int|
            0 <= i < spec_dec_chars(n).len() - 1 ==> spec_dec_chars(n)[i] == spec_dec_chars(
                n / 10,
            )[i]);
    }
}

/// A digit run bounded by a non-digit, or by the end of the text, ends
/// exactly at that bound.
proof fn lemma_digits_end_region(t: Seq<char>, p: int, e: int)
    requires
        0 <= p <= e <= t.len(),
        forall|i: int| p <= i < e ==> spec_is_digit(t[i]),
        e == t.len() || !spec_is_digit(t[e]),
    ensures
        sp_digits_end(t, p) == e,
    decreases e - p,
{
    if p < e {
        lemma_digits_end_region(t, p + 1, e);
    }
}

/// A region of the text that carries the decimal rendering of a number has
/// that number as its digit-run value.
proof fn lemma_digits_val_region(t: Seq<char>, p: int, n: nat)
    requires
        0 <= p,
        p + spec_dec_chars(n).len() <= t.len(),
        t.subrange(p, p + spec_dec_chars(n).len() as int) == spec_dec_chars(n),
    ensures
        sp_digits_val(t, p, p + spec_dec_chars(n).len() as int) == n,
    decreases n,
{
    let d = spec_dec_chars(n);
    let e = p + d.len() as int;
    vstd::arithmetic::div_mod::lemma_fundamental_div_mod(n as int, 10);
    if n < 10 {
        assert(t[p] == d[0]);
        assert(sp_digits_val(t, p, e) == sp_digits_val(t, p, p) * 10 + spec_char_digit(t[e - 1]));
    } else {
        let dq = spec_dec_chars(n / 10);
        assert(t.subrange(p, e - 1) =~= dq) by {
            assert(forall|i: int| 0 <= i < d.len() - 1 ==> d[i] == dq[i]);
        }
        lemma_digits_val_region(t, p, n / 10);
        assert(t[e - 1] == d[d.len() - 1]);
        assert(sp_digits_val(t, p, e) == sp_digits_val(t, p, e - 1) * 10 + spec_char_digit(
            t[e - 1],
        ));
    }
}

/// Round-trip of a numeral: parsing the decimal rendering of a number gives
/// the number back. At position `p` the text carries exactly the rendering,
/// bounded by the end of the text or by a character that is neither a digit
/// nor insignificant whitespace; the unsigned-integer parser then succeeds,
/// returns the number, and stops right after it. This is the numeral link
/// of the emit-then-reparse round trip.
pub proof fn lemma_number_round_trip(t: Seq<char>, p: int, n: nat)
    requires
        n <= usize::MAX as nat,
        0 <= p,
        p + spec_dec_chars(n).len() <= t.len(),
        t.subrange(p, p + spec_dec_chars(n).len() as int) == spec_dec_chars(n),
        ({
            let e = p + spec_dec_chars(n).len() as int;
            e == t.len() || (!spec_is_digit(t[e]) && t[e] != ' ' && t[e] != '\t')
        }),
    ensures
        sp_usize(t, p) == Some((p + spec_dec_chars(n).len() as int, n as usize)),
{
    let d = spec_dec_chars(n);
    let e = p + d.len() as int;
    lemma_dec_chars_are_digits(n);
    assert(forall|i: int| p <= i < e ==> t[i] == d[i - p]);
    assert(forall|i: int| p <= i < e ==> spec_is_digit(t[i]));
    assert(spec_is_digit(t[p]));
    assert(sp_ws(t, p) == p);
    lemma_digits_end_region(t, p, e);
    lemma_digits_val_region(t, p, n);
    assert(sp_ws(t, e) == e);
}

/// The specification that re-parsing a built node's rendering yields: the
/// same identity, each edge slot back as its raw value with the sentinel 0
/// standing for an absent slot.
pub open spec fn spec_unbuild_node(n: Node) -> NodeSpec {
    NodeSpec { id: Id(n.id), e0: Id(spec_edge_val(n.e0) as usize), e1: Id(spec_edge_val(n.e1) as usize) }
}

/// Round-trip of one node: parsing the emitter's rendering of a built node
/// gives back a specification carrying the node's identity and its raw edge
/// values, the sentinel 0 standing for an absent slot, and stops right
/// after the closing parenthesis. This is the node link of the
/// emit-then-reparse round trip.
#[verifier::rlimit(60)]
pub proof fn lemma_node_round_trip(t: Seq<char>, p: int, n: Node)
    requires
        0 <= p,
        p + spec_node_text(n).len() <= t.len(),
        t.subrange(p, p + spec_node_text(n).len() as int) == spec_node_text(n),
    ensures
        sp_node(t, p) == Some((p + spec_node_text(n).len() as int, spec_unbuild_node(n))),
{
    reveal_strlit("(");
    reveal_strlit(";");
    reveal_strlit(",");
    reveal_strlit(")");
    let d0 = spec_dec_chars(n.id as nat);
    let d1 = spec_dec_chars(spec_edge_val(n.e0));
    let d2 = spec_dec_chars(spec_edge_val(n.e1));
    let l = spec_node_text(n).len() as int;
    let q0 = p + 1;
    let q1 = q0 + d0.len();
    let q2 = q1 + 1;
    let q3 = q2 + d1.len();
    let q4 = q3 + 1;
    let q5 = q4 + d2.len();
    assert(l == 4 + d0.len() + d1.len() + d2.len());
    assert(forall|i: int| p <= i < p + l ==> t[i] == spec_node_text(n)[i - p]);
    assert(t[p] == '(');
    assert(t[q1] == ';');
    assert(t[q3] == ',');
    assert(t[q5] == ')');
    assert(t.subrange(q0, q1 as int) =~= d0);
    assert(t.subrange(q2, q3 as int) =~= d1);
    assert(t.subrange(q4, q5 as int) =~= d2);
    lemma_number_round_trip(t, q0, n.id as nat);
    lemma_number_round_trip(t, q2, spec_edge_val(n.e0));
    lemma_number_round_trip(t, q4, spec_edge_val(n.e1));
    assert(q5 + 1 == p + l);
}

/// A node sequence's rendering is its first node's rendering followed by
/// the rest's.
proof fn lemma_nodes_text_first(s: Seq<Node>)
    requires
        s.len() > 0,
    ensures
        spec_nodes_text(s) == spec_node_text(s[0]) + spec_nodes_text(s.drop_first()),
    decreases s.len(),
{
    if s.len() == 1 {
        assert(s.drop_last() =~= Seq::<Node>::empty());
        assert(s.drop_first() =~= Seq::<Node>::empty());
        assert(spec_nodes_text(s) =~= spec_node_text(s[0]) + spec_nodes_text(s.drop_first()));
    } else {
        lemma_nodes_text_first(s.drop_last());
        assert(s.drop_last()[0] == s[0]);
        assert(s.drop_last().drop_first() =~= s.drop_first().drop_last());
        assert(s.drop_first().last() == s.last());
        assert(spec_nodes_text(s) =~= spec_node_text(s[0]) + spec_nodes_text(s.drop_first()));
    }
}

/// Every node's rendering is at least seven characters long.
proof fn lemma_node_text_len(n: Node)
    ensures
        spec_node_text(n).len() >= 7,
{
    reveal_strlit("(");
    reveal_strlit(";");
    reveal_strlit(",");
    reveal_strlit(")");
    lemma_dec_chars_are_digits(n.id as nat);
    lemma_dec_chars_are_digits(spec_edge_val(n.e0));
    lemma_dec_chars_are_digits(spec_edge_val(n.e1));
}

/// Round-trip of a node list: parsing the emitter's rendering of a level's
/// nodes, bounded by any character that opens no node, gives back every
/// node in order, as `lemma_node_round_trip` states for each one. This is
/// the node-list link of the emit-then-reparse round trip.
#[verifier::rlimit(100)]
pub proof fn lemma_nodes_round_trip(t: Seq<char>, p: int, s: Seq<Node>)
    requires
        0 <= p,
        p + spec_nodes_text(s).len() <= t.len(),
        t.subrange(p, p + spec_nodes_text(s).len() as int) == spec_nodes_text(s),
        ({
            let e = p + spec_nodes_text(s).len() as int;
            e == t.len() || t[e] != '('
        }),
    ensures
        sp_rhs(t, p) == (
            p + spec_nodes_text(s).len() as int,
            s.map_values(|n: Node| spec_unbuild_node(n)),
        ),
    decreases s.len(),
{
    reveal_strlit("(");
    let e = p + spec_nodes_text(s).len() as int;
    if s.len() == 0 {
        assert(spec_nodes_text(s).len() == 0);
        assert(sp_node(t, p) is None);
        assert(s.map_values(|n: Node| spec_unbuild_node(n)) =~= Seq::<NodeSpec>::empty());
    } else {
        lemma_nodes_text_first(s);
        let n0 = s[0];
        let l0 = spec_node_text(n0).len() as int;
        lemma_node_text_len(n0);
        assert(forall|i: int| p <= i < e ==> t[i] == spec_nodes_text(s)[i - p]);
        assert(t.subrange(p, p + l0) =~= spec_node_text(n0));
        lemma_node_round_trip(t, p, n0);
        let rest = s.drop_first();
        assert(t.subrange(p + l0, e) =~= spec_nodes_text(rest)) by {
            assert(forall|i: int|
                0 <= i < spec_nodes_text(rest).len() ==> spec_nodes_text(s)[l0 + i]
                    == spec_nodes_text(rest)[i]);
        }
        lemma_nodes_round_trip(t, p + l0, rest);
        assert(s.map_values(|n: Node| spec_unbuild_node(n)) =~= seq![spec_unbuild_node(n0)]
            + rest.map_values(|n: Node| spec_unbuild_node(n)));
    }
}

/// Like `lemma_number_round_trip`, for the signed-entry parser on an
/// unsigned numeral within range.
proof fn lemma_number_round_trip_i64(t: Seq<char>, p: int, n: nat)
    requires
        n <= i64::MAX as nat,
        0 <= p,
        p + spec_dec_chars(n).len() <= t.len(),
        t.subrange(p, p + spec_dec_chars(n).len() as int) == spec_dec_chars(n),
        ({
            let e = p + spec_dec_chars(n).len() as int;
            e == t.len() || (!spec_is_digit(t[e]) && t[e] != ' ' && t[e] != '\t')
        }),
    ensures
        sp_i64(t, p) == Some((p + spec_dec_chars(n).len() as int, n as i64)),
{
    let d = spec_dec_chars(n);
    let e = p + d.len() as int;
    lemma_dec_chars_are_digits(n);
    assert(forall|i: int| p <= i < e ==> t[i] == d[i - p]);
    assert(forall|i: int| p <= i < e ==> spec_is_digit(t[i]));
    assert(spec_is_digit(t[p]));
    assert(t[p] != '-');
    assert(sp_ws(t, p) == p);
    lemma_digits_end_region(t, p, e);
    lemma_digits_val_region(t, p, n);
    assert(sp_ws(t, e) == e);
}

/// The `+`-led continuation of a rendered left-hand side: one `+` and one
/// numeral per remaining entry.
pub open spec fn spec_lhs_text_tail(s: Seq<u64>) -> Seq<char>
    decreases s.len(),
{
    if s.len() == 0 {
        Seq::empty()
    } else {
        spec_lhs_text_tail(s.drop_last()) + "+"@ + spec_dec_chars(s.last() as nat)
    }
}

/// A non-empty rendered left-hand side is its first numeral followed by the
/// `+`-led continuation.
proof fn lemma_lhs_text_first(s: Seq<u64>)
    requires
        s.len() > 0,
    ensures
        spec_lhs_text(s) == spec_dec_chars(s[0] as nat) + spec_lhs_text_tail(s.drop_first()),
    decreases s.len(),
{
    if s.len() == 1 {
        assert(s.drop_first() =~= Seq::<u64>::empty());
        assert(spec_lhs_text(s) =~= spec_dec_chars(s[0] as nat) + spec_lhs_text_tail(
            s.drop_first(),
        ));
    } else {
        lemma_lhs_text_first(s.drop_last());
        assert(s.drop_last()[0] == s[0]);
        assert(s.drop_last().drop_first() =~= s.drop_first().drop_last());
        assert(s.drop_first().last() == s.last());
        assert(spec_lhs_text(s) =~= spec_dec_chars(s[0] as nat) + spec_lhs_text_tail(
            s.drop_first(),
        ));
    }
}

/// A non-empty continuation is one `+`-led numeral followed by the rest.
proof fn lemma_lhs_tail_first(s: Seq<u64>)
    requires
        s.len() > 0,
    ensures
        spec_lhs_text_tail(s) == "+"@ + spec_dec_chars(s[0] as nat) + spec_lhs_text_tail(
            s.drop_first(),
        ),
    decreases s.len(),
{
    if s.len() == 1 {
        assert(s.drop_first() =~= Seq::<u64>::empty());
        assert(s.drop_last() =~= Seq::<u64>::empty());
        assert(spec_lhs_text_tail(Seq::<u64>::empty()) =~= Seq::<char>::empty());
        assert(spec_lhs_text_tail(s) =~= "+"@ + spec_dec_chars(s[0] as nat) + spec_lhs_text_tail(
            s.drop_first(),
        ));
    } else {
        lemma_lhs_tail_first(s.drop_last());
        assert(s.drop_last()[0] == s[0]);
        assert(s.drop_last().drop_first() =~= s.drop_first().drop_last());
        assert(s.drop_first().last() == s.last());
        assert(spec_lhs_text_tail(s.drop_first()) == spec_lhs_text_tail(
            s.drop_first().drop_last(),
        ) + "+"@ + spec_dec_chars(s.drop_first().last() as nat));
        assert(spec_lhs_text_tail(s) =~= "+"@ + spec_dec_chars(s[0] as nat)
            + spec_lhs_text_tail(s.drop_first()));
    }
}

/// A character that bounds a rendered left-hand side: it can open no
/// further entry and is no insignificant whitespace.
pub open spec fn spec_lhs_bound(c: char) -> bool {
    !spec_is_digit(c) && c != '+' && c != '-' && c != ' ' && c != '\t'
}

/// Round trip of a continuation: parsing `+`-led numerals bounded by a
/// character that opens no entry gives back every entry in order.
#[verifier::rlimit(100)]
proof fn lemma_lhs_tail_round_trip(t: Seq<char>, p: int, s: Seq<u64>)
    requires
        0 <= p,
        p + spec_lhs_text_tail(s).len() <= t.len(),
        t.subrange(p, p + spec_lhs_text_tail(s).len() as int) == spec_lhs_text_tail(s),
        forall|k: int| 0 <= k < s.len() ==> s[k] <= i64::MAX as u64,
        ({
            let e = p + spec_lhs_text_tail(s).len() as int;
            e == t.len() || spec_lhs_bound(t[e])
        }),
    ensures
        sp_lhs(t, p) == (
            p + spec_lhs_text_tail(s).len() as int,
            s.map_values(|x: u64| x as i64),
        ),
    decreases s.len(),
{
    reveal_strlit("+");
    let e = p + spec_lhs_text_tail(s).len() as int;
    if s.len() == 0 {
        assert(sp_var(t, p) is None);
        assert(s.map_values(|x: u64| x as i64) =~= Seq::<i64>::empty());
    } else {
        lemma_lhs_tail_first(s);
        let v0 = s[0];
        let d0 = spec_dec_chars(v0 as nat);
        lemma_dec_chars_are_digits(v0 as nat);
        assert(forall|i: int| p <= i < e ==> t[i] == spec_lhs_text_tail(s)[i - p]);
        assert(t[p] == '+');
        assert(t.subrange(p + 1, p + 1 + d0.len()) =~= d0);
        let rest = s.drop_first();
        let q = p + 1 + d0.len() as int;
        assert(t.subrange(q, e) =~= spec_lhs_text_tail(rest)) by {
            assert(forall|i: int|
                0 <= i < spec_lhs_text_tail(rest).len() ==> spec_lhs_text_tail(s)[1 + d0.len()
                    + i] == spec_lhs_text_tail(rest)[i]);
        }
        if rest.len() == 0 {
            assert(q == e);
        } else {
            lemma_lhs_tail_first(rest);
            assert(t[q] == '+');
        }
        lemma_number_round_trip_i64(t, p + 1, v0 as nat);
        assert(sp_var(t, p) == Some((q, v0 as i64)));
        lemma_lhs_tail_round_trip(t, q, rest);
        assert(s.map_values(|x: u64| x as i64) =~= seq![v0 as i64] + rest.map_values(
            |x: u64| x as i64,
        ));
    }
}

/// Round trip of a left-hand side: parsing the emitter's rendering of a
/// level's stripped entries, bounded by a character that opens no entry,
/// gives back every entry in order. This is the expression link of the
/// emit-then-reparse round trip.
#[verifier::rlimit(100)]
pub proof fn lemma_lhs_round_trip(t: Seq<char>, p: int, s: Seq<u64>)
    requires
        0 <= p,
        p + spec_lhs_text(s).len() <= t.len(),
        t.subrange(p, p + spec_lhs_text(s).len() as int) == spec_lhs_text(s),
        forall|k: int| 0 <= k < s.len() ==> s[k] <= i64::MAX as u64,
        ({
            let e = p + spec_lhs_text(s).len() as int;
            e == t.len() || spec_lhs_bound(t[e])
        }),
    ensures
        sp_lhs(t, p) == (p + spec_lhs_text(s).len() as int, s.map_values(|x: u64| x as i64)),
{
    reveal_strlit("+");
    let e = p + spec_lhs_text(s).len() as int;
    if s.len() == 0 {
        assert(sp_var(t, p) is None);
        assert(s.map_values(|x: u64| x as i64) =~= Seq::<i64>::empty());
    } else {
        lemma_lhs_text_first(s);
        let v0 = s[0];
        let d0 = spec_dec_chars(v0 as nat);
        lemma_dec_chars_are_digits(v0 as nat);
        assert(forall|i: int| p <= i < e ==> t[i] == spec_lhs_text(s)[i - p]);
        assert(spec_is_digit(t[p]));
        assert(t[p] != '+');
        assert(t.subrange(p, p + d0.len()) =~= d0);
        let rest = s.drop_first();
        let q = p + d0.len() as int;
        assert(t.subrange(q, e) =~= spec_lhs_text_tail(rest)) by {
            assert(forall|i: int|
                0 <= i < spec_lhs_text_tail(rest).len() ==> spec_lhs_text(s)[d0.len() + i]
                    == spec_lhs_text_tail(rest)[i]);
        }
        if rest.len() == 0 {
            assert(q == e);
        } else {
            lemma_lhs_tail_first(rest);
            assert(t[q] == '+');
        }
        lemma_number_round_trip_i64(t, p, v0 as nat);
        assert(sp_var(t, p) == Some((q, v0 as i64)));
        lemma_lhs_tail_round_trip(t, q, rest);
        assert(s.map_values(|x: u64| x as i64) =~= seq![v0 as i64] + rest.map_values(
            |x: u64| x as i64,
        ));
    }
}

/// The specification view that re-parsing a built level's rendering yields.
pub open spec fn spec_unbuild_level(l: Level) -> LevelSpecV {
    LevelSpecV {
        lhs: l.lhs@.map_values(|x: u64| x as i64),
        rhs: l.nodes@.map_values(|n: Node| spec_unbuild_node(n)),
    }
}

/// Round trip of one level: parsing the emitter's rendering of a built
/// level gives back its stripped entries and its nodes, as the entry and
/// node links state, and stops right after the level's line break. This is
/// the level link of the emit-then-reparse round trip. The entries must fit
/// the signed type the parser reads them into.
#[verifier::rlimit(60)]
pub proof fn lemma_level_round_trip(t: Seq<char>, p: int, l: Level)
    requires
        0 <= p,
        p + spec_level_text(l).len() <= t.len(),
        t.subrange(p, p + spec_level_text(l).len() as int) == spec_level_text(l),
        forall|k: int| 0 <= k < l.lhs@.len() ==> l.lhs@[k] <= i64::MAX as u64,
    ensures
        sp_level(t, p) == Some((p + spec_level_text(l).len() as int, spec_unbuild_level(l))),
{
    reveal_strlit(":");
    reveal_strlit("|");
    reveal_strlit("\n");
    reveal_strlit("(");
    let lt = spec_lhs_text(l.lhs@);
    let nt = spec_nodes_text(l.nodes@);
    let len = spec_level_text(l).len() as int;
    let q1 = p + lt.len() as int;
    let q2 = q1 + 1;
    let q3 = q2 + nt.len() as int;
    assert(len == lt.len() + 1 + nt.len() + 2);
    assert(forall|i: int| p <= i < p + len ==> t[i] == spec_level_text(l)[i - p]);
    assert(t[q1] == ':');
    assert(t[q3] == '|');
    assert(t[q3 + 1] == '\n');
    assert(t.subrange(p, q1) =~= lt);
    assert(t.subrange(q2, q3) =~= nt);
    assert(spec_lhs_bound(':'));
    lemma_lhs_round_trip(t, p, l.lhs@);
    assert(sp_lhs(t, p) == (q1, l.lhs@.map_values(|x: u64| x as i64)));
    assert(t[q2 + nt.len()] != '(');
    lemma_nodes_round_trip(t, q2, l.nodes@);
    assert(sp_rhs(t, q2) == (q3, l.nodes@.map_values(|n: Node| spec_unbuild_node(n))));
    assert(sp_lb(t, q3 + 1) == q3 + 2);
    assert(q3 + 2 == p + len);
}

/// A level sequence's rendering is its first level's rendering followed by
/// the rest's.
proof fn lemma_levels_text_first(s: Seq<Level>)
    requires
        s.len() > 0,
    ensures
        spec_levels_text(s) == spec_level_text(s[0]) + spec_levels_text(s.drop_first()),
    decreases s.len(),
{
    if s.len() == 1 {
        assert(s.drop_first() =~= Seq::<Level>::empty());
        assert(s.drop_last() =~= Seq::<Level>::empty());
        assert(spec_levels_text(Seq::<Level>::empty()) =~= Seq::<char>::empty());
        assert(spec_levels_text(s) =~= spec_level_text(s[0]) + spec_levels_text(s.drop_first()));
    } else {
        lemma_levels_text_first(s.drop_last());
        assert(s.drop_last()[0] == s[0]);
        assert(s.drop_last().drop_first() =~= s.drop_first().drop_last());
        assert(s.drop_first().last() == s.last());
        assert(spec_levels_text(s.drop_first()) == spec_levels_text(s.drop_first().drop_last())
            + spec_level_text(s.drop_first().last()));
        assert(spec_levels_text(s) =~= spec_level_text(s[0]) + spec_levels_text(s.drop_first()));
    }
}

/// A level's rendering is never empty.
proof fn lemma_level_text_len(l: Level)
    ensures
        spec_level_text(l).len() >= 3,
{
    reveal_strlit(":");
    reveal_strlit("|");
    reveal_strlit("\n");
}

/// Every left-hand-side entry of every level fits the signed type the
/// parser reads entries into.
pub open spec fn spec_lhs_fits(levels: Seq<Level>) -> bool {
    forall|i: int, k: int|
        0 <= i < levels.len() && 0 <= k < levels[i].lhs@.len() ==> (#[trigger] levels[i].lhs@[k])
            <= i64::MAX as u64
}

/// Round trip of a level list: parsing the emitter's rendering of a
/// diagram's levels, bounded by text that opens no further level, gives
/// back every level in order.
#[verifier::rlimit(100)]
pub proof fn lemma_levels_round_trip(t: Seq<char>, p: int, s: Seq<Level>)
    requires
        0 <= p,
        p + spec_levels_text(s).len() <= t.len(),
        t.subrange(p, p + spec_levels_text(s).len() as int) == spec_levels_text(s),
        spec_lhs_fits(s),
        sp_level(t, p + spec_levels_text(s).len() as int) is None,
    ensures
        sp_levels(t, p) == (
            p + spec_levels_text(s).len() as int,
            s.map_values(|l: Level| spec_unbuild_level(l)),
        ),
    decreases s.len(),
{
    let e = p + spec_levels_text(s).len() as int;
    if s.len() == 0 {
        assert(s.map_values(|l: Level| spec_unbuild_level(l)) =~= Seq::<LevelSpecV>::empty());
    } else {
        lemma_levels_text_first(s);
        let l0 = s[0];
        let lt0 = spec_level_text(l0);
        lemma_level_text_len(l0);
        assert(forall|i: int| p <= i < e ==> t[i] == spec_levels_text(s)[i - p]);
        assert(t.subrange(p, p + lt0.len()) =~= lt0);
        lemma_level_round_trip(t, p, l0);
        let rest = s.drop_first();
        let q = p + lt0.len() as int;
        assert(t.subrange(q, e) =~= spec_levels_text(rest)) by {
            assert(forall|i: int|
                0 <= i < spec_levels_text(rest).len() ==> spec_levels_text(s)[lt0.len() + i]
                    == spec_levels_text(rest)[i]);
        }
        lemma_levels_round_trip(t, q, rest);
        assert(s.map_values(|l: Level| spec_unbuild_level(l)) =~= seq![spec_unbuild_level(l0)]
            + rest.map_values(|l: Level| spec_unbuild_level(l)));
    }
}

/// The specification view that re-parsing a built diagram's rendering
/// yields.
pub open spec fn spec_unbuild_bdd(b: Bdd) -> BddSpecV {
    BddSpecV { id: Id(b.id), levels: b.levels@.map_values(|l: Level| spec_unbuild_level(l)) }
}

/// Like `lemma_number_round_trip`, for a numeral whose one trailing space
/// the parser eats before stopping at a digit.
proof fn lemma_number_space_round_trip(t: Seq<char>, p: int, n: nat)
    requires
        n <= usize::MAX as nat,
        0 <= p,
        p + spec_dec_chars(n).len() + 2 <= t.len(),
        t.subrange(p, p + spec_dec_chars(n).len() as int) == spec_dec_chars(n),
        t[p + spec_dec_chars(n).len() as int] == ' ',
        spec_is_digit(t[p + spec_dec_chars(n).len() as int + 1]),
    ensures
        sp_usize(t, p) == Some((p + spec_dec_chars(n).len() + 1, n as usize)),
{
    let d = spec_dec_chars(n);
    let e = p + d.len() as int;
    lemma_dec_chars_are_digits(n);
    assert(forall|i: int| p <= i < e ==> t[i] == d[i - p]);
    assert(forall|i: int| p <= i < e ==> spec_is_digit(t[i]));
    assert(spec_is_digit(t[p]));
    assert(sp_ws(t, p) == p);
    lemma_digits_end_region(t, p, e);
    lemma_digits_val_region(t, p, n);
    assert(t[e + 1] != ' ' && t[e + 1] != '\t');
    assert(sp_ws(t, e + 1) == e + 1);
    assert(sp_ws(t, e) == e + 1);
}

/// Round trip of one diagram: parsing the emitter's rendering of a built
/// diagram gives back its identity and, through the level, node and entry
/// links, every level in order, and stops right after the closing line.
/// This is the diagram link of the emit-then-reparse round trip.
#[verifier::rlimit(100)]
pub proof fn lemma_bdd_round_trip(t: Seq<char>, p: int, b: Bdd)
    requires
        0 <= p,
        p + spec_bdd_text(b).len() <= t.len(),
        t.subrange(p, p + spec_bdd_text(b).len() as int) == spec_bdd_text(b),
        spec_lhs_fits(b.levels@),
        b.levels@.len() <= usize::MAX,
    ensures
        sp_bdd(t, p) == Some((p + spec_bdd_text(b).len() as int, spec_unbuild_bdd(b))),
{
    reveal_strlit(" ");
    reveal_strlit("\n");
    reveal_strlit("---");
    let d0 = spec_dec_chars(b.id as nat);
    let nl = b.levels@.len() as nat;
    let d1 = spec_dec_chars(nl);
    let lt = spec_levels_text(b.levels@);
    let len = spec_bdd_text(b).len() as int;
    let q1 = p + d0.len() + 1;
    let q2 = q1 + d1.len() as int;
    let q3 = q2 + 1;
    let q4 = q3 + lt.len() as int;
    assert(len == d0.len() + 1 + d1.len() + 1 + lt.len() + 4);
    assert(forall|i: int| p <= i < p + len ==> t[i] == spec_bdd_text(b)[i - p]);
    lemma_dec_chars_are_digits(nl);
    assert(t[p + d0.len()] == ' ');
    assert(t[q1] == d1[0] && spec_is_digit(t[q1]));
    assert(t[q2] == '\n');
    assert(t[q4] == '-');
    assert(t[q4 + 1] == '-');
    assert(t[q4 + 2] == '-');
    assert(t[q4 + 3] == '\n');
    assert(t.subrange(p, p + d0.len() as int) =~= d0);
    lemma_number_space_round_trip(t, p, b.id as nat);
    assert(sp_usize(t, p) == Some((q1, b.id)));
    assert(t.subrange(q1, q2) =~= d1);
    lemma_number_round_trip(t, q1, nl);
    assert(sp_usize(t, q1) == Some((q2, nl as usize)));
    assert(sp_lb(t, q2) == q3);
    assert(t.subrange(q3, q4) =~= lt);
    assert(sp_level(t, q4) is None) by {
        assert(sp_ws(t, q4) == q4);
        assert(sp_digits_end(t, q4 + 1) == q4 + 1);
        assert(sp_var(t, q4) is None);
        assert(sp_lhs(t, q4) == (q4 as int, Seq::<i64>::empty()));
    }
    lemma_levels_round_trip(t, q3, b.levels@);
    assert(sp_lb(t, q4 + 3) == q4 + 4);
    assert(q4 + 4 == p + len);
}

/// The diagrams' renderings, one after the other in storage order.
pub open spec fn spec_bdds_cat(bdds: Seq<Bdd>) -> Seq<char>
    decreases bdds.len(),
{
    if bdds.len() == 0 {
        Seq::empty()
    } else {
        spec_bdds_cat(bdds.drop_last()) + spec_bdd_text(bdds.last())
    }
}

/// Identities in strictly ascending storage order.
pub open spec fn spec_ids_ascending(bdds: Seq<Bdd>) -> bool {
    forall|a: int, b: int| 0 <= a < b < bdds.len() ==> bdds[a].id < bdds[b].id
}

/// Ordered insertion after the largest entry only appends.
proof fn lemma_sort_of_sorted(s: Seq<usize>)
    requires
        forall|a: int, b: int| 0 <= a < b < s.len() ==> s[a] < s[b],
    ensures
        spec_sort_ids(s) == s,
    decreases s.len(),
{
    if s.len() > 0 {
        lemma_sort_of_sorted(s.drop_last());
        if s.len() == 1 {
            assert(spec_insert_sorted(s.drop_last(), s.last()) =~= s);
        } else {
            assert(s.drop_last().last() <= s.last());
            assert(spec_insert_sorted(s.drop_last(), s.last()) =~= s.drop_last().push(s.last()));
            assert(s.drop_last().push(s.last()) =~= s);
        }
    }
}

/// With strictly ascending identities, the first diagram carrying a stored
/// identity is the one that stores it.
proof fn lemma_find_own_id(bdds: Seq<Bdd>, k: int, j: int)
    requires
        spec_ids_ascending(bdds),
        0 <= j <= k < bdds.len(),
    ensures
        spec_first_bdd_from(bdds, bdds[k].id, j) == Some(bdds[k]),
    decreases k - j,
{
    if j < k {
        lemma_find_own_id(bdds, k, j + 1);
    }
}

/// With strictly ascending identities, rendering by sorted identity lookup
/// is rendering in storage order.
proof fn lemma_by_ids_is_cat(bdds: Seq<Bdd>, m: int)
    requires
        spec_ids_ascending(bdds),
        0 <= m <= bdds.len(),
    ensures
        spec_bdds_text_by_ids(bdds, spec_ids_of(bdds).take(m)) == spec_bdds_cat(bdds.take(m)),
    decreases m,
{
    let ids = spec_ids_of(bdds);
    if m == 0 {
        assert(ids.take(0) =~= Seq::<usize>::empty());
        assert(bdds.take(0) =~= Seq::<Bdd>::empty());
    } else {
        lemma_by_ids_is_cat(bdds, m - 1);
        assert(ids.take(m).drop_last() =~= ids.take(m - 1));
        assert(ids.take(m).last() == bdds[m - 1].id);
        lemma_find_own_id(bdds, m - 1, 0);
        assert(bdds.take(m).drop_last() =~= bdds.take(m - 1));
        assert(bdds.take(m).last() == bdds[m - 1]);
    }
}

/// Round trip of a diagram list: parsing the renderings of built diagrams,
/// laid end to end and bounded by text that opens no diagram, gives back
/// every diagram in order.
#[verifier::rlimit(100)]
proof fn lemma_bdds_round_trip(t: Seq<char>, p: int, s: Seq<Bdd>)
    requires
        0 <= p,
        p + spec_bdds_cat(s).len() <= t.len(),
        t.subrange(p, p + spec_bdds_cat(s).len() as int) == spec_bdds_cat(s),
        forall|i: int| 0 <= i < s.len() ==> spec_lhs_fits((#[trigger] s[i]).levels@),
        forall|i: int| 0 <= i < s.len() ==> (#[trigger] s[i]).levels@.len() <= usize::MAX,
        sp_bdd(t, p + spec_bdds_cat(s).len() as int) is None,
    ensures
        sp_bdds(t, p) == (
            p + spec_bdds_cat(s).len() as int,
            s.map_values(|b: Bdd| spec_unbuild_bdd(b)),
        ),
    decreases s.len(),
{
    let e = p + spec_bdds_cat(s).len() as int;
    if s.len() == 0 {
        assert(s.map_values(|b: Bdd| spec_unbuild_bdd(b)) =~= Seq::<BddSpecV>::empty());
    } else {
        // front-first form of the storage-order concatenation
        assert(spec_bdds_cat(s) == spec_bdd_text(s[0]) + spec_bdds_cat(s.drop_first())) by {
            lemma_bdds_cat_first(s);
        }
        let b0 = s[0];
        let bt0 = spec_bdd_text(b0);
        assert(bt0.len() >= 1) by {
            lemma_dec_chars_are_digits(b0.id as nat);
        }
        assert(forall|i: int| p <= i < e ==> t[i] == spec_bdds_cat(s)[i - p]);
        assert(t.subrange(p, p + bt0.len()) =~= bt0);
        lemma_bdd_round_trip(t, p, b0);
        let rest = s.drop_first();
        let q = p + bt0.len() as int;
        assert(t.subrange(q, e) =~= spec_bdds_cat(rest)) by {
            assert(forall|i: int|
                0 <= i < spec_bdds_cat(rest).len() ==> spec_bdds_cat(s)[bt0.len() + i]
                    == spec_bdds_cat(rest)[i]);
        }
        lemma_bdds_round_trip(t, q, rest);
        assert(s.map_values(|b: Bdd| spec_unbuild_bdd(b)) =~= seq![spec_unbuild_bdd(b0)]
            + rest.map_values(|b: Bdd| spec_unbuild_bdd(b)));
    }
}

/// A diagram sequence's rendering is its first diagram's rendering followed
/// by the rest's.
proof fn lemma_bdds_cat_first(s: Seq<Bdd>)
    requires
        s.len() > 0,
    ensures
        spec_bdds_cat(s) == spec_bdd_text(s[0]) + spec_bdds_cat(s.drop_first()),
    decreases s.len(),
{
    if s.len() == 1 {
        assert(s.drop_first() =~= Seq::<Bdd>::empty());
        assert(s.drop_last() =~= Seq::<Bdd>::empty());
        assert(spec_bdds_cat(Seq::<Bdd>::empty()) =~= Seq::<char>::empty());
        assert(spec_bdds_cat(s) =~= spec_bdd_text(s[0]) + spec_bdds_cat(s.drop_first()));
    } else {
        lemma_bdds_cat_first(s.drop_last());
        assert(s.drop_last()[0] == s[0]);
        assert(s.drop_last().drop_first() =~= s.drop_first().drop_last());
        assert(s.drop_first().last() == s.last());
        assert(spec_bdds_cat(s.drop_first()) == spec_bdds_cat(s.drop_first().drop_last())
            + spec_bdd_text(s.drop_first().last()));
        assert(spec_bdds_cat(s) =~= spec_bdd_text(s[0]) + spec_bdds_cat(s.drop_first()));
    }
}

/// With strictly ascending identities the rendering of a collection is its
/// header followed by the diagrams' renderings in storage order.
proof fn lemma_system_text_shape(sys: System)
    requires
        spec_ids_ascending(sys.bdds@),
    ensures
        spec_system_text(sys) == spec_dec_chars(sys.nvar as nat) + " "@ + spec_dec_chars(
            sys.bdds@.len() as nat,
        ) + "\n"@ + spec_bdds_cat(sys.bdds@),
{
    let ids = spec_ids_of(sys.bdds@);
    assert(forall|a: int, b: int| 0 <= a < b < ids.len() ==> ids[a] < ids[b]);
    lemma_sort_of_sorted(ids);
    assert(ids.take(ids.len() as int) =~= ids);
    assert(sys.bdds@.take(sys.bdds@.len() as int) =~= sys.bdds@);
    lemma_by_ids_is_cat(sys.bdds@, sys.bdds@.len() as int);
}

/// Round trip of a whole collection: for a collection whose diagram
/// identities ascend strictly in storage order, parsing the emitter's
/// rendering succeeds and gives back the variable count and, through the
/// diagram, level, node and entry links, every diagram in order. Rebuilding
/// that result reconstructs the same per-level identities and edge targets,
/// as the builder's own contract states of it.
#[verifier::rlimit(100)]
pub proof fn lemma_system_round_trip(sys: System)
    requires
        spec_ids_ascending(sys.bdds@),
        forall|i: int| 0 <= i < sys.bdds@.len() ==> spec_lhs_fits((#[trigger] sys.bdds@[i]).levels@),
        forall|i: int| 0 <= i < sys.bdds@.len() ==> (#[trigger] sys.bdds@[i]).levels@.len()
            <= usize::MAX,
        sys.bdds@.len() <= usize::MAX,
    ensures
        sp_file(spec_system_text(sys)) == Some(
            SystemSpecV {
                nvar: sys.nvar,
                bdds: sys.bdds@.map_values(|b: Bdd| spec_unbuild_bdd(b)),
            },
        ),
{
    reveal_strlit(" ");
    reveal_strlit("\n");
    let t = spec_system_text(sys);
    let d0 = spec_dec_chars(sys.nvar as nat);
    let nb = sys.bdds@.len() as nat;
    let d1 = spec_dec_chars(nb);
    let ct = spec_bdds_cat(sys.bdds@);
    lemma_system_text_shape(sys);
    let q1 = d0.len() as int + 1;
    let q2 = q1 + d1.len() as int;
    let q3 = q2 + 1;
    let e = q3 + ct.len() as int;
    assert(t.len() == e);
    lemma_dec_chars_are_digits(sys.nvar as nat);
    lemma_dec_chars_are_digits(nb);
    assert(t[d0.len() as int] == ' ');
    assert(t[q1] == d1[0] && spec_is_digit(t[q1]));
    assert(t[q2] == '\n');
    assert(t.subrange(0, d0.len() as int) =~= d0);
    lemma_number_space_round_trip(t, 0, sys.nvar as nat);
    assert(sp_usize(t, 0) == Some((q1, sys.nvar)));
    assert(t.subrange(q1, q2) =~= d1);
    lemma_number_round_trip(t, q1, nb);
    assert(sp_usize(t, q1) == Some((q2, nb as usize)));
    assert(sp_lb(t, q2) == q3);
    assert(t.subrange(q3, e) =~= ct);
    assert(sp_bdd(t, e) is None) by {
        assert(sp_ws(t, e) == e);
        assert(sp_digits_end(t, e) == e);
        assert(sp_usize(t, e) is None);
    }
    lemma_bdds_round_trip(t, q3, sys.bdds@);
}

/// A sequence without the sentinel strips to itself.
proof fn lemma_strip_identity(s: Seq<i64>)
    requires
        forall|k: int| 0 <= k < s.len() ==> s[k] != -1,
    ensures
        spec_strip_lhs(s) == s,
        spec_count_minus_one(s) == 0,
    decreases s.len(),
{
    if s.len() > 0 {
        lemma_strip_identity(s.drop_last());
        assert(spec_strip_lhs(s) =~= s);
    }
}

/// Rebuilding what re-parsing yields reconstructs the level: no entry of a
/// built level is the sentinel, so normalization strips nothing and flips
/// nothing, and resolving the raw edge values gives back every slot as it
/// was. Together with `lemma_system_round_trip` and the builder's own
/// exactness clause this closes the emit-then-reparse-then-rebuild round
/// trip, level by level.
pub proof fn lemma_rebuild_level(l: Level)
    requires
        spec_no_zero_edges_nodes(l.nodes@),
        forall|k: int| 0 <= k < l.lhs@.len() ==> (#[trigger] l.lhs@[k]) <= i64::MAX as u64,
    ensures
        ({
            let u = spec_unbuild_level(l);
            &&& spec_count_minus_one(u.lhs) == 0
            &&& spec_strip_lhs(u.lhs).map_values(|x: i64| x as u64) == l.lhs@
            &&& spec_norm_rhs(u.lhs, u.rhs).map_values(|n: NodeSpec| spec_built_node(n))
                == l.nodes@
        }),
{
    let u = spec_unbuild_level(l);
    assert(forall|k: int| 0 <= k < u.lhs.len() ==> u.lhs[k] != -1);
    lemma_strip_identity(u.lhs);
    assert(spec_strip_lhs(u.lhs).map_values(|x: i64| x as u64) =~= l.lhs@);
    assert(spec_norm_rhs(u.lhs, u.rhs) == u.rhs);
    assert(spec_norm_rhs(u.lhs, u.rhs).map_values(|n: NodeSpec| spec_built_node(n))
        =~= l.nodes@);
}

} // verus!
