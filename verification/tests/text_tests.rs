use crush::builder::build_system_from_spec;
use crush::dot::to_dot_format;
use crush::emit::{bdd_to_text, system_to_text};
use crush::model::{BddSpec, Id, LevelSpec, NodeSpec};
use crush::parser::parse_system_spec;
use crush::soc::{Bdd, Level, Node, System};

fn node(id: usize, e0: usize, e1: usize) -> NodeSpec {
    NodeSpec::new(Id::new(id), Id::new(e0), Id::new(e1))
}

#[test]
fn end_to_end_scenario() {
    let text = "2 1\n0 2\n1+2:(0;0,0)(1;0,0)|\n-1:(2;0,0)|\n---\n";
    let spec = parse_system_spec(text).unwrap();
    assert_eq!(spec.nvar, 2);
    assert_eq!(spec.bdds.len(), 1);
    assert_eq!(spec.bdds[0].id.0, 0);
    assert_eq!(spec.bdds[0].levels.len(), 2);
    assert_eq!(spec.bdds[0].levels[0].lhs, vec![1, 2]);
    assert_eq!(spec.bdds[0].levels[0].rhs.len(), 2);
    assert_eq!(spec.bdds[0].levels[0].rhs[0].id.0, 0);
    assert_eq!(spec.bdds[0].levels[0].rhs[1].id.0, 1);
    assert_eq!(spec.bdds[0].levels[1].lhs, vec![-1]);
    assert_eq!(spec.bdds[0].levels[1].rhs[0].id.0, 2);

    let sys = build_system_from_spec(&spec).unwrap();
    assert_eq!(sys.nvar, 2);
    assert_eq!(sys.bdds.len(), 1);
    let b = &sys.bdds[0];
    assert_eq!(b.id, 0);
    assert_eq!(b.levels.len(), 2);
    assert_eq!(b.levels[0].lhs, vec![1, 2]);
    assert_eq!(b.levels[1].lhs, Vec::<u64>::new());
    // the flip forced by the odd sentinel count is a no-op on (0, 0)
    let n2 = b.levels[1].nodes[0];
    assert_eq!(n2.id, 2);
    assert_eq!(n2.e0, None);
    assert_eq!(n2.e1, None);
    for l in &b.levels {
        for n in &l.nodes {
            assert_ne!(n.e0, Some(0));
            assert_ne!(n.e1, Some(0));
        }
    }
}

#[test]
fn parse_rejects_malformed_text() {
    assert!(parse_system_spec("").is_none());
    assert!(parse_system_spec("x").is_none());
    // missing closing parenthesis leaves unconsumed text
    assert!(parse_system_spec("2 1\n0 1\n1:(0;0,0|\n---\n").is_none());
    // a number too large for the identity type
    assert!(parse_system_spec("99999999999999999999999 1\n").is_none());
}

#[test]
fn parse_accepts_crlf_and_spaces() {
    let text = "2 1\r\n0 2\r\n 1 + 2 :( 0 ; 0 , 0 )|\r\n-1:(2;0,0)|\r\n---\r\n";
    let spec = parse_system_spec(text).unwrap();
    assert_eq!(spec.bdds[0].levels[0].lhs, vec![1, 2]);
    assert_eq!(spec.bdds[0].levels[1].lhs, vec![-1]);
}

#[test]
fn parse_empty_system() {
    let spec = parse_system_spec("0 0\n").unwrap();
    assert_eq!(spec.nvar, 0);
    assert_eq!(spec.bdds.len(), 0);
}

#[test]
fn bdd_text_exact() {
    let b = Bdd {
        id: 10,
        nvar: 2,
        levels: vec![
            Level { lhs: vec![1, 2], nodes: vec![Node { id: 1, e0: None, e1: Some(2) }] },
            Level { lhs: vec![], nodes: vec![Node { id: 2, e0: None, e1: None }] },
        ],
        next_id: 3,
    };
    let t = bdd_to_text(&b);
    assert_eq!(t, "10 2\n1+2:(1;0,2)|\n:(2;0,0)|\n---\n");
}

#[test]
fn system_text_sorts_by_id() {
    let b0 = Bdd { id: 4, nvar: 1, levels: vec![], next_id: 1 };
    let b1 = Bdd { id: 2, nvar: 1, levels: vec![], next_id: 1 };
    let sys = System { nvar: 1, bdds: vec![b0, b1] };
    let t = system_to_text(&sys);
    assert_eq!(t, "1 2\n2 0\n---\n4 0\n---\n");
}

#[test]
fn round_trip_preserves_structure() {
    // unique diagram ids, no reindex: emit, re-parse, rebuild, compare
    let text = "3 2\n0 2\n1+2:(1;0,3)(2;3,0)|\n3:(3;0,0)|\n---\n5 2\n2:(1;0,2)|\n:(2;0,0)|\n---\n";
    let spec = parse_system_spec(text).unwrap();
    let sys = build_system_from_spec(&spec).unwrap();
    let emitted = system_to_text(&sys);
    let spec2 = parse_system_spec(&emitted).unwrap();
    let sys2 = build_system_from_spec(&spec2).unwrap();
    assert_eq!(sys.nvar, sys2.nvar);
    assert_eq!(sys.bdds.len(), sys2.bdds.len());
    for (a, b) in sys.bdds.iter().zip(sys2.bdds.iter()) {
        assert_eq!(a.id, b.id);
        assert_eq!(a.next_id, b.next_id);
        assert_eq!(a.levels.len(), b.levels.len());
        for (la, lb) in a.levels.iter().zip(b.levels.iter()) {
            assert_eq!(la.lhs, lb.lhs);
            let ids_a: Vec<usize> = la.nodes.iter().map(|n| n.id).collect();
            let ids_b: Vec<usize> = lb.nodes.iter().map(|n| n.id).collect();
            assert_eq!(ids_a, ids_b);
            for (na, nb) in la.nodes.iter().zip(lb.nodes.iter()) {
                assert_eq!(na.e0, nb.e0);
                assert_eq!(na.e1, nb.e1);
            }
        }
    }
}

#[test]
fn visualization_scenario() {
    // one node whose e1 targets the terminal node: exactly one solid edge,
    // no dashed edge, and the terminal carries the label T
    let spec = BddSpec::new(
        Id::new(0),
        vec![
            LevelSpec::new(vec![1], vec![node(1, 0, 2)]),
            LevelSpec::new(vec![], vec![node(2, 0, 0)]),
        ],
    );
    let sys = build_system_from_spec(&crush::model::SystemSpec::new(1, vec![spec])).unwrap();
    let dot = to_dot_format(&sys.bdds[0]);
    assert_eq!(dot.matches("[style = dashed]").count(), 0);
    assert_eq!(dot.matches("\"1\" -> \"2\";\n").count(), 1);
    assert!(dot.contains("\"2\" [label = \"T\"];\n"));
}

#[test]
fn dot_format_structure() {
    let b = Bdd {
        id: 0,
        nvar: 2,
        levels: vec![
            Level { lhs: vec![1, 2], nodes: vec![Node { id: 1, e0: Some(2), e1: None }] },
            Level { lhs: vec![], nodes: vec![Node { id: 2, e0: None, e1: None }] },
        ],
        next_id: 3,
    };
    let dot = to_dot_format(&b);
    assert!(dot.starts_with("digraph \"DD\" {\n"));
    assert!(dot.ends_with("}\n"));
    // the label chain names the expression of the first level
    assert!(dot.contains("\"0. x1 + x2\" -> "));
    // an empty expression is labeled 0
    assert!(!dot.contains("\"1. \""));
    // the e0 edge is dashed
    assert_eq!(dot.matches("\"1\" -> \"2\" [style = dashed];\n").count(), 1);
    // the point-shaped real node of the first rank
    assert!(dot.contains("\"1\" [label = \"\"; shape = point; width = 0.06];\n"));
    assert!(dot.contains("{ rank = same; \"CONST NODES\";\n"));
    assert!(dot.contains("{ node [shape = box]; \"2\";\n"));
}
