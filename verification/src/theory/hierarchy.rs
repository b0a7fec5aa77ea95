//! World transforms go down the hierarchy, parent before child.

use crate::alg::vec3::Vec3;
use crate::components::transform::{
    descendants_refreshed, forest, fresh, lemma_parent_link, lemma_root_is_composed, parents_of,
    reaches, TransformView,
};
use vstd::prelude::*;

verus! {

/// What the cache of a fresh node holds: its world matrix is its parent's
/// world matrix times its own local matrix, and its world position is where
/// that matrix sends the origin.
pub proof fn lemma_fresh_is_composed(nodes: Seq<TransformView>, d: int)
    requires
        fresh(nodes, d),
        nodes[d].parent is Some,
    ensures
        nodes[d].cached_transform == nodes[nodes[d].parent.unwrap() as int].cached_transform.mul(
            nodes[d].local_matrix(),
        ),
        nodes[d].position == nodes[d].cached_transform.mul_point(Vec3::zero()),
        nodes[d].scale == nodes[d].cached_transform.to_scale(),
        nodes[d].orientation == nodes[d].cached_transform.to_rotation_raw(
            nodes[d].scale,
        ).to_quat(),
{
    nodes[d].cached_transform.lemma_image_of_origin();
}

/// After the caches below `root` were rebuilt, every child of `root` or of
/// one of its descendants has the world matrix of its parent times its own
/// local matrix: no child was derived from a stale parent.
pub proof fn lemma_parent_before_child(
    before: Seq<TransformView>,
    after: Seq<TransformView>,
    depth: Seq<nat>,
    bound: nat,
    root: int,
    d: int,
)
    requires
        forest(before, depth, bound),
        descendants_refreshed(before, after, depth, root),
        0 <= root < before.len(),
        0 <= d < before.len(),
        d != root,
        reaches(parents_of(before), depth, d, root),
    ensures
        after[d].parent == before[d].parent,
        after[d].parent is Some,
        after[d].cached_transform == after[after[d].parent.unwrap() as int].cached_transform.mul(
            before[d].local_matrix(),
        ),
        after[d].position == after[d].cached_transform.mul_point(Vec3::zero()),
{
    assert(after[d].same_authoring(before[d]));
    assert(fresh(after, d));
    lemma_fresh_is_composed(after, d);
}

/// A chain of three: `leaf` under `mid` under `root`, which has no parent.
/// After the caches below `root` were rebuilt, the world matrix of `leaf` is
/// the product of the three local matrices, and the world position of `leaf`
/// is where that product sends the origin.
pub proof fn lemma_chain_of_three(
    before: Seq<TransformView>,
    after: Seq<TransformView>,
    depth: Seq<nat>,
    bound: nat,
    root: int,
    mid: int,
    leaf: int,
)
    requires
        forest(before, depth, bound),
        descendants_refreshed(before, after, depth, root),
        0 <= root < before.len(),
        0 <= mid < before.len(),
        0 <= leaf < before.len(),
        before[root].parent is None,
        before[mid].parent == Some(root as usize),
        before[leaf].parent == Some(mid as usize),
    ensures
        after[mid].cached_transform == before[root].local_matrix().mul(
            before[mid].local_matrix(),
        ),
        after[leaf].cached_transform == before[root].local_matrix().mul(
            before[mid].local_matrix(),
        ).mul(before[leaf].local_matrix()),
        after[leaf].position == before[root].local_matrix().mul(before[mid].local_matrix()).mul(
            before[leaf].local_matrix(),
        ).mul_point(Vec3::zero()),
{
    let parents = parents_of(before);
    lemma_root_is_composed(before, depth, bound, root);
    lemma_parent_link(before, depth, bound, mid);
    lemma_parent_link(before, depth, bound, leaf);
    assert(reaches(parents, depth, root, root));
    assert(reaches(parents, depth, mid, root));
    assert(reaches(parents, depth, leaf, root));
    assert(after[root] == before[root]);
    lemma_parent_before_child(before, after, depth, bound, root, mid);
    lemma_parent_before_child(before, after, depth, bound, root, leaf);
}

} // verus!
