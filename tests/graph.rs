use turbopack::context::Asset;
use turbopack::graph::{emit_asset_into_dir, AssetGraph, AssetReference, ReferenceKind};
use turbopack::path::AbsoluteSystemPathBuf;

fn asset(path: &str) -> Asset {
    Asset::new(AbsoluteSystemPathBuf::parse(path), vec![])
}

fn edge(kind: ReferenceKind, target: usize) -> AssetReference {
    AssetReference { kind, target }
}

#[test]
fn empty_json_writes_nothing_outside() {
    let g = AssetGraph { assets: vec![asset("/a.json")], references: vec![vec![]] };
    assert_eq!(g.all_referenced_assets(0), Vec::<usize>::new());
    assert_eq!(g.emit_with_completion(0, &AbsoluteSystemPathBuf::parse("/out")).len(), 0);
    assert_eq!(g.emit(0), vec![0]);
}

#[test]
fn emit_containment_and_cycles() {
    let g = AssetGraph {
        assets: vec![
            asset("/out/index.js"),
            asset("/out/chunk.js"),
            asset("/src/other.js"),
            asset("/out/types.d.ts"),
            asset("/out/unreached.js"),
        ],
        references: vec![
            vec![edge(ReferenceKind::Module, 1), edge(ReferenceKind::TypesOnly, 3)],
            vec![edge(ReferenceKind::Module, 2), edge(ReferenceKind::Module, 0)],
            vec![edge(ReferenceKind::Module, 1)],
            vec![],
            vec![edge(ReferenceKind::Module, 0)],
        ],
    };
    assert_eq!(g.all_referenced_assets(0), vec![1]);
    let mut all = g.emit(0);
    all.sort();
    assert_eq!(all, vec![0, 1, 2]);
    let mut written = g.emit_with_completion(0, &AbsoluteSystemPathBuf::parse("/out"));
    written.sort();
    assert_eq!(written, vec![0, 1]);
    assert_eq!(g.emit_with_completion(0, &AbsoluteSystemPathBuf::parse("/out/index.js")).len(), 0);
}

#[test]
fn asset_into_dir_only_strictly_inside() {
    let out = AbsoluteSystemPathBuf::parse("/out");
    assert!(emit_asset_into_dir(&asset("/out/a.js"), &out));
    assert!(!emit_asset_into_dir(&asset("/out"), &out));
    assert!(!emit_asset_into_dir(&asset("/outer/a.js"), &out));
}
