use crush::model::{BddSpec, Id, LevelSpec, NodeSpec, SystemSpec};

#[test]
fn node_spec_new_and_flip() {
    let mut n = NodeSpec::new(Id::new(5), Id::new(3), Id::new(4));
    assert_eq!(n.id.0, 5);
    assert_eq!(n.e0.0, 3);
    assert_eq!(n.e1.0, 4);
    n.flip_edge();
    assert_eq!(n.id.0, 5);
    assert_eq!(n.e0.0, 4);
    assert_eq!(n.e1.0, 3);
}

#[test]
fn remove_minus_one_strips_sentinels() {
    // no -1 entry survives normalization, whatever the input
    let mut l = LevelSpec::new(
        vec![-1, 3, -1, 7, -1],
        vec![NodeSpec::new(Id::new(1), Id::new(2), Id::new(3))],
    );
    l.remove_minus_one();
    assert_eq!(l.lhs, vec![3, 7]);
    assert!(l.lhs.iter().all(|x| *x != -1));
}

#[test]
fn remove_minus_one_odd_count_flips() {
    // lhs = [-1], one node (5; 3, 4): one sentinel removed, so the edges flip
    let mut l = LevelSpec::new(vec![-1], vec![NodeSpec::new(Id::new(5), Id::new(3), Id::new(4))]);
    l.remove_minus_one();
    assert_eq!(l.lhs, Vec::<i64>::new());
    assert_eq!(l.rhs[0].id.0, 5);
    assert_eq!(l.rhs[0].e0.0, 4);
    assert_eq!(l.rhs[0].e1.0, 3);
}

#[test]
fn remove_minus_one_even_count_keeps_edges() {
    let mut l = LevelSpec::new(
        vec![-1, 2, -1],
        vec![NodeSpec::new(Id::new(5), Id::new(3), Id::new(4))],
    );
    l.remove_minus_one();
    assert_eq!(l.lhs, vec![2]);
    assert_eq!(l.rhs[0].e0.0, 3);
    assert_eq!(l.rhs[0].e1.0, 4);
}

#[test]
fn flip_nodes_edges_flips_all() {
    let mut l = LevelSpec::new(
        vec![1],
        vec![
            NodeSpec::new(Id::new(1), Id::new(2), Id::new(3)),
            NodeSpec::new(Id::new(4), Id::new(0), Id::new(6)),
        ],
    );
    l.flip_nodes_edges();
    assert_eq!(l.rhs[0].e0.0, 3);
    assert_eq!(l.rhs[0].e1.0, 2);
    assert_eq!(l.rhs[1].e0.0, 6);
    assert_eq!(l.rhs[1].e1.0, 0);
}

#[test]
fn spec_constructors_keep_fields() {
    let b = BddSpec::new(Id::new(9), vec![LevelSpec::new(vec![1], vec![])]);
    assert_eq!(b.id.0, 9);
    assert_eq!(b.levels.len(), 1);
    let s = SystemSpec::new(4, vec![b]);
    assert_eq!(s.nvar, 4);
    assert_eq!(s.bdds.len(), 1);
}
