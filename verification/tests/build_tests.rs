use crush::builder::{build_bdd_from_spec, build_system_from_spec};
use crush::model::{BddSpec, Id, LevelSpec, NodeSpec, SystemSpec};
use crush::soc::{Bdd, BuildError, System};

fn node(id: usize, e0: usize, e1: usize) -> NodeSpec {
    NodeSpec::new(Id::new(id), Id::new(e0), Id::new(e1))
}

#[test]
fn duplicate_ids_reindex_all() {
    // two diagram specs with stated ids 7 and 7: built ids are 0 and 1
    let spec = SystemSpec::new(
        1,
        vec![
            BddSpec::new(Id::new(7), vec![LevelSpec::new(vec![1], vec![node(1, 0, 0)])]),
            BddSpec::new(Id::new(7), vec![LevelSpec::new(vec![1], vec![node(2, 0, 0)])]),
        ],
    );
    let sys = build_system_from_spec(&spec).unwrap();
    assert_eq!(sys.bdds.len(), 2);
    assert_eq!(sys.bdds[0].id, 0);
    assert_eq!(sys.bdds[1].id, 1);
    // original order kept: the first diagram is the one holding node 1
    assert_eq!(sys.bdds[0].levels[0].nodes[0].id, 1);
    assert_eq!(sys.bdds[1].levels[0].nodes[0].id, 2);
}

#[test]
fn unique_ids_kept() {
    let spec = SystemSpec::new(
        1,
        vec![
            BddSpec::new(Id::new(7), vec![]),
            BddSpec::new(Id::new(3), vec![]),
        ],
    );
    let sys = build_system_from_spec(&spec).unwrap();
    assert_eq!(sys.bdds[0].id, 7);
    assert_eq!(sys.bdds[1].id, 3);
    assert_eq!(sys.nvar, 1);
}

#[test]
fn zero_edge_never_materialized() {
    let spec = BddSpec::new(
        Id::new(0),
        vec![
            LevelSpec::new(vec![1], vec![node(1, 0, 2)]),
            LevelSpec::new(vec![], vec![node(2, 0, 0)]),
        ],
    );
    let b = build_bdd_from_spec(&spec, 1).unwrap();
    assert_eq!(b.levels[0].nodes[0].e0, None);
    assert_eq!(b.levels[0].nodes[0].e1, Some(2));
    assert_eq!(b.levels[1].nodes[0].e0, None);
    assert_eq!(b.levels[1].nodes[0].e1, None);
}

#[test]
fn next_id_is_one_past_max() {
    let spec = BddSpec::new(
        Id::new(0),
        vec![
            LevelSpec::new(vec![1], vec![node(4, 0, 9)]),
            LevelSpec::new(vec![], vec![node(9, 0, 0)]),
        ],
    );
    let b = build_bdd_from_spec(&spec, 1).unwrap();
    assert_eq!(b.next_id, 10);
}

#[test]
fn next_id_of_empty_diagram_is_one() {
    let spec = BddSpec::new(Id::new(0), vec![]);
    let b = build_bdd_from_spec(&spec, 1).unwrap();
    assert_eq!(b.next_id, 1);
    assert_eq!(b.levels.len(), 0);
}

#[test]
fn odd_sentinel_count_flips_built_edges() {
    let spec = BddSpec::new(
        Id::new(0),
        vec![
            LevelSpec::new(vec![-1, 1], vec![node(1, 0, 2)]),
            LevelSpec::new(vec![], vec![node(2, 0, 0)]),
        ],
    );
    let b = build_bdd_from_spec(&spec, 1).unwrap();
    assert_eq!(b.levels[0].lhs, vec![1]);
    // the raw pair (0, 2) is flipped to (2, 0) before edges resolve
    assert_eq!(b.levels[0].nodes[0].e0, Some(2));
    assert_eq!(b.levels[0].nodes[0].e1, None);
}

#[test]
fn negative_lhs_entry_rejected() {
    let spec = BddSpec::new(Id::new(3), vec![LevelSpec::new(vec![-2], vec![])]);
    let r = build_bdd_from_spec(&spec, 1);
    assert_eq!(r.unwrap_err(), BuildError::NegativeLhsEntry { bdd: 3, level: 0 });
}

#[test]
fn exhausted_id_space_rejected() {
    let spec = BddSpec::new(
        Id::new(2),
        vec![LevelSpec::new(vec![1], vec![node(usize::MAX, 0, 0)])],
    );
    let r = build_bdd_from_spec(&spec, 1);
    assert_eq!(r.unwrap_err(), BuildError::IdOverflow { bdd: 2 });
}

#[test]
fn missing_target_rejected() {
    // four levels so that the interior range is visited; node 1 points at an
    // identity declared nowhere
    let spec = BddSpec::new(
        Id::new(5),
        vec![
            LevelSpec::new(vec![1], vec![node(1, 0, 99)]),
            LevelSpec::new(vec![2], vec![node(2, 0, 0)]),
            LevelSpec::new(vec![3], vec![node(3, 0, 0)]),
            LevelSpec::new(vec![], vec![node(4, 0, 0)]),
        ],
    );
    let r = build_bdd_from_spec(&spec, 3);
    assert_eq!(r.unwrap_err(), BuildError::MissingTarget { bdd: 5, level: 0, target: 99 });
}

#[test]
fn jumping_edge_gets_bridged() {
    // node 1 at level 0 jumps over level 1 to node 3 at level 2: a fresh
    // passthrough node appears at level 1 with both edges to the target
    let spec = BddSpec::new(
        Id::new(0),
        vec![
            LevelSpec::new(vec![1], vec![node(1, 0, 3)]),
            LevelSpec::new(vec![2], vec![node(2, 0, 3)]),
            LevelSpec::new(vec![3], vec![node(3, 0, 4)]),
            LevelSpec::new(vec![], vec![node(4, 0, 0)]),
        ],
    );
    let b = build_bdd_from_spec(&spec, 3).unwrap();
    // next_id before bridging is 5; the bridge takes 5 and bumps it to 6
    assert_eq!(b.levels[1].nodes.len(), 2);
    let bridge = b.levels[1].nodes[1];
    assert_eq!(bridge.id, 5);
    assert_eq!(bridge.e0, Some(3));
    assert_eq!(bridge.e1, Some(3));
    assert_eq!(b.levels[0].nodes[0].e1, Some(5));
    assert_eq!(b.next_id, 6);
}

#[test]
fn push_bdd_checks_variable_count() {
    let mut sys = System::new();
    sys.set_nvar(2);
    let b = Bdd { id: 0, nvar: 3, levels: vec![], next_id: 1 };
    let r = sys.push_bdd(b);
    assert_eq!(r.unwrap_err(), BuildError::NvarMismatch { system_nvar: 2, bdd_nvar: 3 });
    let b2 = Bdd { id: 0, nvar: 2, levels: vec![], next_id: 1 };
    assert!(sys.push_bdd(b2).is_ok());
    assert_eq!(sys.bdds.len(), 1);
}
