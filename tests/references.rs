use turbopack::context::Asset;
use turbopack::graph::{top_references, AssetGraph, AssetReference, ReferenceKind, TOP_REFERENCES};
use turbopack::path::AbsoluteSystemPathBuf;

fn asset(path: &str) -> Asset {
    Asset::new(AbsoluteSystemPathBuf::parse(path), vec![])
}

fn m(target: usize) -> AssetReference {
    AssetReference { kind: ReferenceKind::Module, target }
}

fn graph() -> AssetGraph {
    AssetGraph {
        assets: vec![asset("/a.js"), asset("/b.js"), asset("/c.js"), asset("/d.js"), asset("/e.js")],
        references: vec![
            vec![m(1), m(2), m(3)],
            vec![m(2), m(3), m(3)],
            vec![m(3)],
            vec![AssetReference { kind: ReferenceKind::TypesOnly, target: 4 }],
            vec![m(0)],
        ],
    }
}

#[test]
fn back_references_count_distinct_reached_referrers() {
    let by = graph().compute_back_references(0);
    assert_eq!(by.len(), 5);
    assert_eq!(by[0], Vec::<usize>::new());
    assert_eq!(by[1], vec![0]);
    let mut two = by[2].clone();
    two.sort();
    assert_eq!(two, vec![0, 1]);
    let mut three = by[3].clone();
    three.sort();
    assert_eq!(three, vec![0, 1, 2]);
    assert_eq!(by[4], Vec::<usize>::new());
}

#[test]
fn most_referenced_orders_by_count() {
    let top = graph().most_referenced(0);
    assert_eq!(top, vec![(3, 3), (2, 2), (1, 1)]);
}

#[test]
fn top_references_keeps_the_largest() {
    let by: Vec<Vec<usize>> = vec![
        vec![1],
        vec![1, 2, 3],
        vec![],
        vec![1, 2],
        vec![4, 5, 6, 7],
        vec![9],
        vec![1, 2],
        vec![3, 4, 5],
    ];
    let top = top_references(&by, TOP_REFERENCES);
    assert_eq!(TOP_REFERENCES, 5);
    assert_eq!(top.len(), 5);
    assert_eq!(&top[..3], &[4, 1, 7]);
    let mut rest = top[3..].to_vec();
    rest.sort();
    assert_eq!(rest, vec![3, 6]);
    assert_eq!(top_references(&by, 0), Vec::<usize>::new());
    assert_eq!(top_references(&vec![vec![], vec![]], 5), Vec::<usize>::new());
}
