//! Spatial transforms in a parent/child hierarchy, with cached world values.

use super::Component;
use crate::alg::mat4::Mat4;
use crate::alg::quat::Quat;
use crate::alg::vec3::Vec3;
use crate::entity::Handle;
use vstd::prelude::*;

verus! {

/// The transform of one entity. The `local_` fields are authored relative to
/// the parent, or to the world where there is none; the others cache the
/// world-space values that the last update derived from `cached_transform`.
pub struct Transform {
    pub position: Vec3,
    pub local_position: Vec3,
    pub orientation: Quat,
    pub local_orientation: Quat,
    pub scale: Vec3,
    pub local_scale: Vec3,
    pub parent: Option<usize>,
    pub children: Vec<usize>,
    pub cached_transform: Mat4,
}

/// The mathematical value of a `Transform`.
pub ghost struct TransformView {
    pub position: Vec3,
    pub local_position: Vec3,
    pub orientation: Quat,
    pub local_orientation: Quat,
    pub scale: Vec3,
    pub local_scale: Vec3,
    pub parent: Option<usize>,
    pub children: Seq<usize>,
    pub cached_transform: Mat4,
}

impl View for Transform {
    type V = TransformView;

    open spec fn view(&self) -> TransformView {
        TransformView {
            position: self.position,
            local_position: self.local_position,
            orientation: self.orientation,
            local_orientation: self.local_orientation,
            scale: self.scale,
            local_scale: self.local_scale,
            parent: self.parent,
            children: self.children@,
            cached_transform: self.cached_transform,
        }
    }
}

impl TransformView {
    /// A transform at the origin, unrotated and unscaled, outside any hierarchy.
    pub open spec fn blank() -> TransformView {
        TransformView {
            position: Vec3::zero(),
            local_position: Vec3::zero(),
            orientation: Quat::id(),
            local_orientation: Quat::id(),
            scale: Vec3::one(),
            local_scale: Vec3::one(),
            parent: None,
            children: Seq::empty(),
            cached_transform: Mat4::id(),
        }
    }

    /// The matrix of the authored, local values.
    pub open spec fn local_matrix(self) -> Mat4 {
        Mat4::transform(self.local_position, self.local_orientation, self.local_scale)
    }

    /// The transform with its cache rebuilt under a parent whose world matrix
    /// is `parent_matrix`: the world matrix is the parent's times the local
    /// one; the scale is read off it first, then the rotation from the
    /// columns divided by that scale, and the position from the translation
    /// column.
    pub open spec fn refreshed(self, parent_matrix: Mat4) -> TransformView {
        let world = parent_matrix.mul(self.local_matrix());
        let scale = world.to_scale();
        TransformView {
            position: world.translation(),
            orientation: world.to_rotation_raw(scale).to_quat(),
            scale,
            cached_transform: world,
            ..self
        }
    }

    /// The transform with the world matrix of a root rebuilt from the local
    /// values; a transform under a parent is left as it is.
    pub open spec fn recomposed(self) -> TransformView {
        if self.parent is None {
            TransformView { cached_transform: self.local_matrix(), ..self }
        } else {
            self
        }
    }

    /// Both transforms have the same authored values and the same place in
    /// the hierarchy; they may differ in what they cache.
    pub open spec fn same_authoring(self, other: TransformView) -> bool {
        &&& self.local_position == other.local_position
        &&& self.local_orientation == other.local_orientation
        &&& self.local_scale == other.local_scale
        &&& self.parent == other.parent
        &&& self.children == other.children
    }

    /// The transform after its position was written.
    pub open spec fn with_position(self, position: Vec3) -> TransformView {
        TransformView { position, local_position: position, ..self }.recomposed()
    }

    /// The transform after its orientation was written.
    pub open spec fn with_orientation(self, orientation: Quat) -> TransformView {
        TransformView { orientation, local_orientation: orientation, ..self }.recomposed()
    }

    /// The transform after its scale was written.
    pub open spec fn with_scale(self, scale: Vec3) -> TransformView {
        TransformView { scale, local_scale: scale, ..self }.recomposed()
    }
}

impl Transform {
    /// A blank transform, with room for `child_hint` children.
    pub fn blank(child_hint: usize) -> (r: Transform)
        ensures
            r@ == TransformView::blank(),
    {
        Transform {
            position: Vec3::zero(),
            local_position: Vec3::zero(),
            orientation: Quat::id(),
            local_orientation: Quat::id(),
            scale: Vec3::one(),
            local_scale: Vec3::one(),
            parent: None,
            children: Vec::with_capacity(child_hint),
            cached_transform: Mat4::id(),
        }
    }

    /// Rebuilds the cached world values under a parent whose world matrix is
    /// `parent_matrix`.
    pub fn update_cached(&mut self, parent_matrix: Mat4)
        ensures
            final(self)@ == old(self)@.refreshed(parent_matrix),
    {
        let world = parent_matrix.mul(
            Mat4::transform(self.local_position, self.local_orientation, self.local_scale),
        );
        let scale = world.to_scale();
        self.scale = scale;
        self.orientation = world.to_rotation_raw(scale).to_quat();
        self.position = world.translation();
        self.cached_transform = world;
    }

    /// Rebuilds the world matrix from the local values where there is no
    /// parent.
    fn recompose(&mut self)
        ensures
            final(self)@ == old(self)@.recomposed(),
    {
        if self.parent.is_none() {
            self.cached_transform = Mat4::transform(
                self.local_position,
                self.local_orientation,
                self.local_scale,
            );
        }
    }
}

/// The parent of every node, in index order.
pub open spec fn parents_of(nodes: Seq<TransformView>) -> Seq<Option<usize>> {
    Seq::new(nodes.len(), |i: int| nodes[i].parent)
}

/// The nodes form a forest: parents and children lie in range and agree with
/// each other, and `depth` ranks every node strictly below its parent, so that
/// no chain of parents returns to its start. The world matrix of a node
/// without parent is its local matrix.
#[verifier::opaque]
pub open spec fn forest(nodes: Seq<TransformView>, depth: Seq<nat>, bound: nat) -> bool {
    &&& nodes.len() <= usize::MAX
    &&& depth.len() == nodes.len()
    &&& forall|i: int| 0 <= i < nodes.len() ==> #[trigger] depth[i] <= bound
    &&& forall|i: int|
        0 <= i < nodes.len() ==> match (#[trigger] nodes[i]).parent {
            Some(p) => {
                &&& p < nodes.len()
                &&& depth[p as int] < depth[i]
                &&& nodes[p as int].children.contains(i as usize)
            },
            None => true,
        }
    &&& forall|i: int, k: int|
        0 <= i < nodes.len() && 0 <= k < nodes[i].children.len() ==> {
            let c = #[trigger] nodes[i].children[k];
            c < nodes.len() && nodes[c as int].parent == Some(i as usize)
        }
    &&& forall|i: int|
        0 <= i < nodes.len() && (#[trigger] nodes[i]).parent is None
            ==> nodes[i].cached_transform == nodes[i].local_matrix()
}

/// `to` is `from` or one of its ancestors.
pub open spec fn reaches(parents: Seq<Option<usize>>, depth: Seq<nat>, from: int, to: int) -> bool
    decreases depth[from],
{
    from == to || (0 <= from < parents.len() && match parents[from] {
        Some(p) => depth[p as int] < depth[from] && reaches(parents, depth, p as int, to),
        None => false,
    })
}

/// Node `d` holds exactly what a refresh under its parent's present world
/// matrix gives; a root is always fresh.
pub open spec fn fresh(nodes: Seq<TransformView>, d: int) -> bool {
    match nodes[d].parent {
        Some(p) => nodes[d] == nodes[d].refreshed(nodes[p as int].cached_transform),
        None => true,
    }
}

/// What rebuilding the caches below `root` comes to: every proper descendant
/// of `root` is fresh, in a state where its parent is fresh too; nothing else
/// has changed, and nothing authored has changed anywhere.
pub open spec fn descendants_refreshed(
    before: Seq<TransformView>,
    after: Seq<TransformView>,
    depth: Seq<nat>,
    root: int,
) -> bool {
    &&& after.len() == before.len()
    &&& forall|j: int|
        0 <= j < before.len() ==> (#[trigger] after[j]).same_authoring(before[j])
    &&& forall|d: int|
        0 <= d < before.len() && d != root && #[trigger] reaches(
            parents_of(before),
            depth,
            d,
            root,
        ) ==> fresh(after, d)
    &&& forall|j: int|
        0 <= j < before.len() && (j == root || !#[trigger] reaches(
            parents_of(before),
            depth,
            j,
            root,
        )) ==> after[j] == before[j]
}

/// Node `d` lies under one of the first `k` of `children`.
pub open spec fn under_first(
    parents: Seq<Option<usize>>,
    depth: Seq<nat>,
    children: Seq<usize>,
    k: int,
    d: int,
) -> bool {
    exists|j: int| 0 <= j < k && reaches(parents, depth, d, #[trigger] children[j] as int)
}

/// The nodes after `child`, a root, was put under `parent`.
pub open spec fn attached(nodes: Seq<TransformView>, child: int, parent: int) -> Seq<
    TransformView,
> {
    let linked = nodes.update(
        child,
        TransformView { parent: Some(parent as usize), ..nodes[child] },
    );
    linked.update(
        parent,
        TransformView { children: linked[parent].children.push(child as usize), ..linked[parent] },
    )
}

/// Why two entities could not be made parent and child.
#[derive(Clone, Copy, Debug, PartialEq, Eq, Structural)]
pub enum HierarchyError {
    /// The child already has a parent.
    HasParent,
    /// The child is the parent itself or one of its ancestors.
    Cycle,
}

/// Whether `child` may go under `parent`: not where it has a parent already,
/// and not where it is `parent` or an ancestor of `parent`.
pub open spec fn link_verdict(nodes: Seq<TransformView>, depth: Seq<nat>, child: int, parent: int)
    -> Result<(), HierarchyError> {
    if nodes[child].parent is Some {
        Err(HierarchyError::HasParent)
    } else if reaches(parents_of(nodes), depth, parent, child) {
        Err(HierarchyError::Cycle)
    } else {
        Ok(())
    }
}

/// A forest stays one when a node is replaced by one with the same parent and
/// the same children.
pub proof fn lemma_forest_keeps_links(
    nodes: Seq<TransformView>,
    depth: Seq<nat>,
    bound: nat,
    i: int,
    node: TransformView,
)
    requires
        forest(nodes, depth, bound),
        0 <= i < nodes.len(),
        node.parent == nodes[i].parent,
        node.children == nodes[i].children,
        node.parent is None ==> node.cached_transform == node.local_matrix(),
    ensures
        forest(nodes.update(i, node), depth, bound),
{
    reveal(forest);
    let after = nodes.update(i, node);
    assert forall|j: int| 0 <= j < after.len() implies match (#[trigger] after[j]).parent {
        Some(p) => {
            &&& p < after.len()
            &&& depth[p as int] < depth[j]
            &&& after[p as int].children.contains(j as usize)
        },
        None => true,
    } by {
        assert(after[j].parent == nodes[j].parent);
        if let Some(p) = nodes[j].parent {
            assert(after[p as int].children == nodes[p as int].children);
        }
    }
    assert forall|j: int, k: int|
        0 <= j < after.len() && 0 <= k < after[j].children.len() implies {
        let c = #[trigger] after[j].children[k];
        c < after.len() && after[c as int].parent == Some(j as usize)
    } by {
        assert(after[j].children == nodes[j].children);
        let c = nodes[j].children[k];
        assert(after[c as int].parent == nodes[c as int].parent);
    }
}

/// A forest stays one when a node without parent and children is added.
pub proof fn lemma_forest_grows(nodes: Seq<TransformView>, depth: Seq<nat>, bound: nat)
    requires
        forest(nodes, depth, bound),
        nodes.len() < usize::MAX,
    ensures
        forest(nodes.push(TransformView::blank()), depth.push(0), bound),
{
    reveal(forest);
    Mat4::lemma_blank_is_identity();
    let after = nodes.push(TransformView::blank());
    let ranked = depth.push(0);
    assert forall|j: int| 0 <= j < after.len() implies match (#[trigger] after[j]).parent {
        Some(p) => {
            &&& p < after.len()
            &&& ranked[p as int] < ranked[j]
            &&& after[p as int].children.contains(j as usize)
        },
        None => true,
    } by {
        if j < nodes.len() {
            assert(after[j] == nodes[j]);
            if let Some(p) = nodes[j].parent {
                assert(after[p as int] == nodes[p as int]);
            }
        }
    }
    assert forall|j: int, k: int|
        0 <= j < after.len() && 0 <= k < after[j].children.len() implies {
        let c = #[trigger] after[j].children[k];
        c < after.len() && ranked.len() == after.len() && after[c as int].parent == Some(
            j as usize,
        )
    } by {
        assert(j < nodes.len());
        assert(after[j] == nodes[j]);
        let c = nodes[j].children[k];
        assert(after[c as int] == nodes[c as int]);
    }
}

/// Rebuilding a cache twice under the same matrix gives what the first
/// rebuilding gave.
pub proof fn lemma_refreshed_again(node: TransformView, parent_matrix: Mat4)
    ensures
        node.refreshed(parent_matrix).refreshed(parent_matrix) == node.refreshed(parent_matrix),
{
}

/// An ancestor never ranks above its descendant.
pub proof fn lemma_reaches_depth(parents: Seq<Option<usize>>, depth: Seq<nat>, from: int, to: int)
    requires
        reaches(parents, depth, from, to),
    ensures
        depth[to] <= depth[from],
    decreases depth[from],
{
    if from != to {
        lemma_reaches_depth(parents, depth, parents[from].unwrap() as int, to);
    }
}

/// Whoever reaches a node reaches its parent too.
pub proof fn lemma_reaches_parent(
    parents: Seq<Option<usize>>,
    depth: Seq<nat>,
    from: int,
    to: int,
    above: int,
)
    requires
        reaches(parents, depth, from, to),
        0 <= to < parents.len(),
        parents[to] == Some(above as usize),
        0 <= above <= usize::MAX,
        depth[above] < depth[to],
    ensures
        reaches(parents, depth, from, above),
    decreases depth[from],
{
    if from != to {
        lemma_reaches_parent(parents, depth, parents[from].unwrap() as int, to, above);
    } else {
        assert(reaches(parents, depth, above, above));
    }
}

/// A proper descendant of `root` is a child of `root` or lies under one.
pub proof fn lemma_descendant_under_child(
    nodes: Seq<TransformView>,
    depth: Seq<nat>,
    bound: nat,
    root: int,
    d: int,
)
    requires
        forest(nodes, depth, bound),
        0 <= root < nodes.len(),
        0 <= d < nodes.len(),
        d != root,
        reaches(parents_of(nodes), depth, d, root),
    ensures
        under_first(
            parents_of(nodes),
            depth,
            nodes[root].children,
            nodes[root].children.len() as int,
            d,
        ),
    decreases depth[d],
{
    reveal(forest);
    let parents = parents_of(nodes);
    let p = parents[d].unwrap() as int;
    assert(nodes[d].parent == Some(p as usize));
    if p == root {
        assert(nodes[root].children.contains(d as usize));
        let k = choose|k: int|
            0 <= k < nodes[root].children.len() && nodes[root].children[k] == d as usize;
        assert(reaches(parents, depth, d, nodes[root].children[k] as int));
    } else {
        lemma_descendant_under_child(nodes, depth, bound, root, p);
        let k = choose|k: int|
            0 <= k < nodes[root].children.len() && reaches(
                parents,
                depth,
                p,
                #[trigger] nodes[root].children[k] as int,
            );
        assert(reaches(parents, depth, d, nodes[root].children[k] as int));
    }
}

/// What a forest says of the `k`-th child of `index`.
pub proof fn lemma_child_link(
    nodes: Seq<TransformView>,
    depth: Seq<nat>,
    bound: nat,
    index: int,
    k: int,
)
    requires
        forest(nodes, depth, bound),
        0 <= index < nodes.len(),
        0 <= k < nodes[index].children.len(),
    ensures
        nodes.len() <= usize::MAX,
        nodes[index].children[k] < nodes.len(),
        nodes[index].children[k] != index,
        nodes[nodes[index].children[k] as int].parent == Some(index as usize),
        parents_of(nodes)[nodes[index].children[k] as int] == Some(index as usize),
        depth[index] < depth[nodes[index].children[k] as int] <= bound,
{
    reveal(forest);
    let c = nodes[index].children[k];
    assert(nodes[c as int].parent == Some(index as usize));
}

/// What a forest says of the parent of `d`.
pub proof fn lemma_parent_link(nodes: Seq<TransformView>, depth: Seq<nat>, bound: nat, d: int)
    requires
        forest(nodes, depth, bound),
        0 <= d < nodes.len(),
        nodes[d].parent is Some,
    ensures
        nodes.len() <= usize::MAX,
        parents_of(nodes).len() == nodes.len(),
        nodes[d].parent.unwrap() < nodes.len(),
        parents_of(nodes)[d] == nodes[d].parent,
        depth[nodes[d].parent.unwrap() as int] < depth[d],
{
    reveal(forest);
}

/// In a forest the world matrix of a node without parent is its local matrix.
pub proof fn lemma_root_is_composed(
    nodes: Seq<TransformView>,
    depth: Seq<nat>,
    bound: nat,
    root: int,
)
    requires
        forest(nodes, depth, bound),
        0 <= root < nodes.len(),
        nodes[root].parent is None,
    ensures
        nodes[root].cached_transform == nodes[root].local_matrix(),
{
    reveal(forest);
}

/// What one round of `update_children` adds: once the `k`-th child of `index`
/// was refreshed and its descendants after it, everything under the first
/// `k + 1` children is fresh and everything else is as it was.
proof fn lemma_child_done(
    before: Seq<TransformView>,
    start: Seq<TransformView>,
    middle: Seq<TransformView>,
    end: Seq<TransformView>,
    depth: Seq<nat>,
    bound: nat,
    index: int,
    k: int,
)
    requires
        forest(before, depth, bound),
        start.len() == before.len(),
        middle.len() == before.len(),
        end.len() == before.len(),
        0 <= index < before.len(),
        0 <= k < before[index].children.len(),
        forall|j: int| 0 <= j < before.len() ==> (#[trigger] start[j]).same_authoring(before[j]),
        forall|d: int|
            0 <= d < before.len() && #[trigger] under_first(
                parents_of(before),
                depth,
                before[index].children,
                k,
                d,
            ) ==> fresh(start, d),
        forall|j: int|
            0 <= j < before.len() && !#[trigger] under_first(
                parents_of(before),
                depth,
                before[index].children,
                k,
                j,
            ) ==> start[j] == before[j],
        middle == start.update(
            before[index].children[k] as int,
            start[before[index].children[k] as int].refreshed(start[index].cached_transform),
        ),
        parents_of(middle) == parents_of(before),
        descendants_refreshed(middle, end, depth, before[index].children[k] as int),
    ensures
        forall|j: int| 0 <= j < before.len() ==> (#[trigger] end[j]).same_authoring(before[j]),
        forall|d: int|
            0 <= d < before.len() && #[trigger] under_first(
                parents_of(before),
                depth,
                before[index].children,
                k + 1,
                d,
            ) ==> fresh(end, d),
        forall|j: int|
            0 <= j < before.len() && !#[trigger] under_first(
                parents_of(before),
                depth,
                before[index].children,
                k + 1,
                j,
            ) ==> end[j] == before[j],
{
    let parents = parents_of(before);
    let children = before[index].children;
    let child = children[k] as int;
    lemma_child_link(before, depth, bound, index, k);
    assert(reaches(parents, depth, child, child));
    assert(!reaches(parents, depth, index, child)) by {
        if reaches(parents, depth, index, child) {
            lemma_reaches_depth(parents, depth, index, child);
        }
    }
    assert(end[child] == middle[child]);
    assert(end[index] == middle[index]);
    assert forall|j: int| 0 <= j < before.len() implies (#[trigger] end[j]).same_authoring(
        before[j],
    ) by {
        assert(end[j].same_authoring(middle[j]));
        assert(start[j].same_authoring(before[j]));
    }
    assert forall|d: int|
        0 <= d < before.len() && #[trigger] under_first(
            parents,
            depth,
            children,
            k + 1,
            d,
        ) implies fresh(end, d) by {
        if reaches(parents, depth, d, child) {
            if d == child {
                assert(start[child].same_authoring(before[child]));
                lemma_refreshed_again(start[child], start[index].cached_transform);
            }
        } else {
            let j = choose|j: int|
                0 <= j < k + 1 && reaches(parents, depth, d, #[trigger] children[j] as int);
            assert(j < k);
            assert(under_first(parents, depth, children, k, d));
            assert(fresh(start, d));
            assert(end[d] == middle[d]);
            assert(d != child);
            assert(middle[d] == start[d]);
            assert(start[d].same_authoring(before[d]));
            if before[d].parent is Some {
                lemma_parent_link(before, depth, bound, d);
                let q = before[d].parent.unwrap() as int;
                assert(!reaches(parents, depth, q, child));
                assert(q != child);
                assert(end[q] == middle[q]);
                assert(middle[q] == start[q]);
            }
        }
    }
    assert forall|j: int|
        0 <= j < before.len() && !#[trigger] under_first(
            parents,
            depth,
            children,
            k + 1,
            j,
        ) implies end[j] == before[j] by {
        if reaches(parents, depth, j, child) {
            assert(reaches(parents, depth, j, children[k] as int));
        }
        if under_first(parents, depth, children, k, j) {
            let w = choose|w: int|
                0 <= w < k && reaches(parents, depth, j, #[trigger] children[w] as int);
            assert(reaches(parents, depth, j, children[w] as int));
        }
        assert(j != child);
        assert(end[j] == middle[j]);
        assert(middle[j] == start[j]);
    }
}

/// What `update_children` has reached when all children are done.
proof fn lemma_children_done(
    before: Seq<TransformView>,
    end: Seq<TransformView>,
    depth: Seq<nat>,
    bound: nat,
    index: int,
)
    requires
        forest(before, depth, bound),
        end.len() == before.len(),
        0 <= index < before.len(),
        forall|d: int|
            0 <= d < before.len() && under_first(
                parents_of(before),
                depth,
                before[index].children,
                before[index].children.len() as int,
                d,
            ) ==> fresh(end, d),
        forall|j: int|
            0 <= j < before.len() && !under_first(
                parents_of(before),
                depth,
                before[index].children,
                before[index].children.len() as int,
                j,
            ) ==> end[j] == before[j],
        forall|j: int| 0 <= j < before.len() ==> (#[trigger] end[j]).same_authoring(before[j]),
    ensures
        descendants_refreshed(before, end, depth, index),
{
    let parents = parents_of(before);
    let children = before[index].children;
    assert forall|d: int|
        0 <= d < before.len() && d != index && reaches(parents, depth, d, index) implies fresh(
        end,
        d,
    ) by {
        lemma_descendant_under_child(before, depth, bound, index, d);
    }
    assert forall|j: int|
        0 <= j < before.len() && (j == index || !reaches(
            parents,
            depth,
            j,
            index,
        )) implies end[j] == before[j] by {
        if under_first(parents, depth, children, children.len() as int, j) {
            let w = choose|w: int|
                0 <= w < children.len() && reaches(
                    parents,
                    depth,
                    j,
                    #[trigger] children[w] as int,
                );
            let e = children[w] as int;
            lemma_child_link(before, depth, bound, index, w);
            lemma_reaches_parent(parents, depth, j, e, index);
            if j == index {
                lemma_reaches_depth(parents, depth, index, e);
            }
        }
    }
}

/// Putting the root `child` under `parent`, which does not lie under it,
/// leaves a forest, with the ranks under `child` raised above that of `parent`.
proof fn lemma_attach(
    before: Seq<TransformView>,
    depth: Seq<nat>,
    bound: nat,
    child: int,
    parent: int,
)
    requires
        forest(before, depth, bound),
        0 <= child < before.len(),
        0 <= parent < before.len(),
        before[child].parent is None,
        !reaches(parents_of(before), depth, parent, child),
    ensures
        forest(
            attached(before, child, parent),
            raised(parents_of(before), depth, child, parent),
            bound + depth[parent] + 1,
        ),
{
    reveal(forest);
    let parents = parents_of(before);
    let after = attached(before, child, parent);
    let ranked = raised(parents, depth, child, parent);
    assert(reaches(parents, depth, child, child));
    assert(child != parent);
    assert forall|i: int| 0 <= i < after.len() implies match (#[trigger] after[i]).parent {
        Some(q) => {
            &&& q < after.len()
            &&& ranked[q as int] < ranked[i]
            &&& after[q as int].children.contains(i as usize)
        },
        None => true,
    } by {
        if i == child {
            assert(after[parent].children[before[parent].children.len() as int] == child as usize);
        } else if let Some(q) = before[i].parent {
            assert(before[q as int].children.contains(i as usize));
            let k = choose|k: int|
                0 <= k < before[q as int].children.len() && before[q as int].children[k]
                    == i as usize;
            assert(after[q as int].children[k] == i as usize);
            assert(parents[i] == Some(q));
            assert(reaches(parents, depth, i, child) == reaches(parents, depth, q as int, child));
        }
    }
    assert forall|i: int, k: int|
        0 <= i < after.len() && 0 <= k < after[i].children.len() implies {
        let e = #[trigger] after[i].children[k];
        e < after.len() && after[e as int].parent == Some(i as usize)
    } by {
        if i == parent && k == before[parent].children.len() {
        } else {
            let e = before[i].children[k];
            assert(before[e as int].parent == Some(i as usize));
            assert(e != child);
        }
    }
}

/// The ranks after `child` went under `parent`: every node under `child`
/// rises by the rank of `parent` and one.
pub open spec fn raised(parents: Seq<Option<usize>>, depth: Seq<nat>, child: int, parent: int)
    -> Seq<nat> {
    Seq::new(
        depth.len(),
        |j: int|
            if reaches(parents, depth, j, child) {
                depth[j] + depth[parent] + 1
            } else {
                depth[j]
            },
    )
}

/// The transforms of all entities, one slot for each registered index.
pub struct Manager {
    instances: Vec<Transform>,
    depth: Ghost<Seq<nat>>,
    bound: Ghost<nat>,
}

impl View for Manager {
    type V = Seq<TransformView>;

    closed spec fn view(&self) -> Seq<TransformView> {
        Seq::new(self.instances@.len(), |i: int| self.instances@[i]@)
    }
}

impl Manager {
    /// A rank for every node that rises from parent to child.
    pub closed spec fn depths(&self) -> Seq<nat> {
        self.depth@
    }

    /// A number that no rank exceeds.
    pub closed spec fn depth_bound(&self) -> nat {
        self.bound@
    }

    /// The hierarchy is a forest.
    pub open spec fn wf(&self) -> bool {
        forest(self@, self.depths(), self.depth_bound())
    }

    /// An empty manager with room for `hint` transforms.
    pub fn new(hint: usize) -> (r: Manager)
        ensures
            r.wf(),
            r@ == Seq::<TransformView>::empty(),
    {
        let r = Manager {
            instances: Vec::with_capacity(hint),
            depth: Ghost(Seq::empty()),
            bound: Ghost(0),
        };
        proof {
            reveal(forest);
            assert(r@ =~= Seq::<TransformView>::empty());
        }
        r
    }

    /// Writes position, orientation and scale of a registered entity. The
    /// values are taken as authored: they become the local values and, at
    /// once, the cached world values, which is exact for an entity without a
    /// parent; the world matrix of such an entity is rebuilt from them.
    pub fn set(&mut self, entity: Handle, position: Vec3, orientation: Quat, scale: Vec3)
        requires
            old(self).wf(),
            entity.slot() < old(self)@.len(),
        ensures
            final(self).wf(),
            final(self).depths() == old(self).depths(),
            final(self).depth_bound() == old(self).depth_bound(),
            final(self)@ == old(self)@.update(
                entity.slot(),
                old(self)@[entity.slot()].with_position(position).with_orientation(
                    orientation,
                ).with_scale(scale),
            ),
    {
        let i = entity.get_index() as usize;
        let ghost before = self@;
        let slot = &mut self.instances[i];
        slot.position = position;
        slot.local_position = position;
        slot.orientation = orientation;
        slot.local_orientation = orientation;
        slot.scale = scale;
        slot.local_scale = scale;
        slot.recompose();
        proof {
            let written = before[i as int].with_position(position).with_orientation(
                orientation,
            ).with_scale(scale);
            assert(self@ =~= before.update(i as int, written));
            lemma_forest_keeps_links(before, self.depths(), self.depth_bound(), i as int, written);
        }
    }

    /// The cached world position, orientation and scale of a registered entity.
    pub fn get(&self, entity: Handle) -> (r: (Vec3, Quat, Vec3))
        requires
            entity.slot() < self@.len(),
        ensures
            r.0 == self@[entity.slot()].position,
            r.1 == self@[entity.slot()].orientation,
            r.2 == self@[entity.slot()].scale,
    {
        let i = entity.get_index() as usize;
        (self.instances[i].position, self.instances[i].orientation, self.instances[i].scale)
    }

    /// The cached world position of a registered entity.
    pub fn get_position(&self, entity: Handle) -> (r: Vec3)
        requires
            entity.slot() < self@.len(),
        ensures
            r == self@[entity.slot()].position,
    {
        self.get_position_raw(entity.get_index() as usize)
    }

    /// The cached world orientation of a registered entity.
    pub fn get_orientation(&self, entity: Handle) -> (r: Quat)
        requires
            entity.slot() < self@.len(),
        ensures
            r == self@[entity.slot()].orientation,
    {
        self.get_orientation_raw(entity.get_index() as usize)
    }

    /// The cached world scale of a registered entity.
    pub fn get_scale(&self, entity: Handle) -> (r: Vec3)
        requires
            entity.slot() < self@.len(),
        ensures
            r == self@[entity.slot()].scale,
    {
        let i = entity.get_index() as usize;
        self.instances[i].scale
    }

    /// Writes the position of a registered entity, as `set` does.
    pub fn set_position(&mut self, entity: Handle, position: Vec3)
        requires
            old(self).wf(),
            entity.slot() < old(self)@.len(),
        ensures
            final(self).wf(),
            final(self).depths() == old(self).depths(),
            final(self).depth_bound() == old(self).depth_bound(),
            final(self)@ == old(self)@.update(
                entity.slot(),
                old(self)@[entity.slot()].with_position(position),
            ),
    {
        self.set_position_raw(entity.get_index() as usize, position);
    }

    /// Writes the orientation of a registered entity, as `set` does.
    pub fn set_orientation(&mut self, entity: Handle, orientation: Quat)
        requires
            old(self).wf(),
            entity.slot() < old(self)@.len(),
        ensures
            final(self).wf(),
            final(self).depths() == old(self).depths(),
            final(self).depth_bound() == old(self).depth_bound(),
            final(self)@ == old(self)@.update(
                entity.slot(),
                old(self)@[entity.slot()].with_orientation(orientation),
            ),
    {
        self.set_orientation_raw(entity.get_index() as usize, orientation);
    }

    /// Writes the scale of a registered entity, as `set` does.
    pub fn set_scale(&mut self, entity: Handle, scale: Vec3)
        requires
            old(self).wf(),
            entity.slot() < old(self)@.len(),
        ensures
            final(self).wf(),
            final(self).depths() == old(self).depths(),
            final(self).depth_bound() == old(self).depth_bound(),
            final(self)@ == old(self)@.update(
                entity.slot(),
                old(self)@[entity.slot()].with_scale(scale),
            ),
    {
        let i = entity.get_index() as usize;
        let ghost before = self@;
        let slot = &mut self.instances[i];
        slot.scale = scale;
        slot.local_scale = scale;
        slot.recompose();
        proof {
            let written = before[i as int].with_scale(scale);
            assert(self@ =~= before.update(i as int, written));
            lemma_forest_keeps_links(before, self.depths(), self.depth_bound(), i as int, written);
        }
    }

    /// Makes `parent` the parent of `child`, both registered. It is refused,
    /// and nothing changes, where `child` has a parent already or where the
    /// link would close a cycle. No cache is rebuilt.
    pub fn parent(&mut self, child: Handle, parent: Handle) -> (r: Result<(), HierarchyError>)
        requires
            old(self).wf(),
            child.slot() < old(self)@.len(),
            parent.slot() < old(self)@.len(),
        ensures
            final(self).wf(),
            r == link_verdict(old(self)@, old(self).depths(), child.slot(), parent.slot()),
            r is Ok ==> final(self)@ == attached(old(self)@, child.slot(), parent.slot()),
            r is Err ==> final(self)@ == old(self)@,
            r is Err ==> final(self).depths() == old(self).depths(),
    {
        let c = child.get_index() as usize;
        let p = parent.get_index() as usize;
        let ghost before = self@;
        let ghost parents = parents_of(before);
        let ghost depth = self.depths();
        assert(before[c as int] == self.instances@[c as int]@);
        if self.instances[c].parent.is_some() {
            return Err(HierarchyError::HasParent);
        }
        let mut cursor = p;
        let mut found = cursor == c;
        let mut at_root = false;
        while !found && !at_root
            invariant
                self.wf(),
                self@ == before,
                self.depths() == depth,
                parents == parents_of(before),
                cursor < before.len(),
                c < before.len(),
                reaches(parents, depth, p as int, c as int) == reaches(
                    parents,
                    depth,
                    cursor as int,
                    c as int,
                ),
                found == (cursor == c),
                at_root ==> before[cursor as int].parent is None,
            decreases depth[cursor as int], if at_root { 0nat } else { 1nat },
        {
            proof {
                reveal(forest);
            }
            assert(before[cursor as int] == self.instances@[cursor as int]@);
            assert(parents[cursor as int] == before[cursor as int].parent);
            match self.instances[cursor].parent {
                Some(above) => {
                    cursor = above;
                    found = cursor == c;
                },
                None => {
                    at_root = true;
                },
            }
        }
        if found {
            return Err(HierarchyError::Cycle);
        }
        assert(parents[cursor as int] == before[cursor as int].parent);
        assert(!reaches(parents, depth, p as int, c as int));
        let link = &mut self.instances[c];
        link.parent = Some(p);
        let host = &mut self.instances[p];
        host.children.push(c);
        proof {
            lemma_attach(before, depth, self.bound@, c as int, p as int);
            self.depth@ = raised(parents, depth, c as int, p as int);
            self.bound@ = self.bound@ + depth[p as int] + 1;
            assert(self@ =~= attached(before, c as int, p as int));
        }
        Ok(())
    }

    /// Rebuilds the cached world values of an entity from its parent's world
    /// matrix and its own local values. The entity must have a parent.
    pub fn update_cached(&mut self, entity: Handle)
        requires
            old(self).wf(),
            entity.slot() < old(self)@.len(),
            old(self)@[entity.slot()].parent is Some,
        ensures
            final(self).wf(),
            final(self).depths() == old(self).depths(),
            final(self).depth_bound() == old(self).depth_bound(),
            final(self)@ == old(self)@.update(
                entity.slot(),
                old(self)@[entity.slot()].refreshed(
                    old(self)@[old(self)@[entity.slot()].parent.unwrap() as int].cached_transform,
                ),
            ),
    {
        self.update_cached_raw(entity.get_index() as usize);
    }

    /// Rebuilds the caches of all descendants of an entity, each after its
    /// parent, so that none is derived from a stale world matrix. The entity
    /// itself is not touched; its world matrix is taken as it is.
    pub fn update_children(&mut self, entity: Handle)
        requires
            old(self).wf(),
            entity.slot() < old(self)@.len(),
        ensures
            final(self).wf(),
            final(self).depths() == old(self).depths(),
            final(self).depth_bound() == old(self).depth_bound(),
            descendants_refreshed(
                old(self)@,
                final(self)@,
                old(self).depths(),
                entity.slot(),
            ),
    {
        self.update_children_raw(entity.get_index() as usize);
    }

    // The functions below take a dense index in place of a handle. They are
    // for components that keep their entities at the same indices, and stay
    // inside the crate.

    /// The cached world position in slot `index`.
    pub(crate) fn get_position_raw(&self, index: usize) -> (r: Vec3)
        requires
            index < self@.len(),
        ensures
            r == self@[index as int].position,
    {
        self.instances[index].position
    }

    /// The cached world orientation in slot `index`.
    pub(crate) fn get_orientation_raw(&self, index: usize) -> (r: Quat)
        requires
            index < self@.len(),
        ensures
            r == self@[index as int].orientation,
    {
        self.instances[index].orientation
    }

    /// Writes the position in slot `index`.
    pub(crate) fn set_position_raw(&mut self, index: usize, value: Vec3)
        requires
            old(self).wf(),
            index < old(self)@.len(),
        ensures
            final(self).wf(),
            final(self).depths() == old(self).depths(),
            final(self).depth_bound() == old(self).depth_bound(),
            final(self)@ == old(self)@.update(
                index as int,
                old(self)@[index as int].with_position(value),
            ),
    {
        let ghost before = self@;
        let slot = &mut self.instances[index];
        slot.position = value;
        slot.local_position = value;
        slot.recompose();
        proof {
            let written = before[index as int].with_position(value);
            assert(self@ =~= before.update(index as int, written));
            lemma_forest_keeps_links(
                before,
                self.depths(),
                self.depth_bound(),
                index as int,
                written,
            );
        }
    }

    /// Writes the orientation in slot `index`.
    pub(crate) fn set_orientation_raw(&mut self, index: usize, value: Quat)
        requires
            old(self).wf(),
            index < old(self)@.len(),
        ensures
            final(self).wf(),
            final(self).depths() == old(self).depths(),
            final(self).depth_bound() == old(self).depth_bound(),
            final(self)@ == old(self)@.update(
                index as int,
                old(self)@[index as int].with_orientation(value),
            ),
    {
        let ghost before = self@;
        let slot = &mut self.instances[index];
        slot.orientation = value;
        slot.local_orientation = value;
        slot.recompose();
        proof {
            let written = before[index as int].with_orientation(value);
            assert(self@ =~= before.update(index as int, written));
            lemma_forest_keeps_links(
                before,
                self.depths(),
                self.depth_bound(),
                index as int,
                written,
            );
        }
    }

    /// `update_cached` by dense index.
    pub(crate) fn update_cached_raw(&mut self, index: usize)
        requires
            old(self).wf(),
            index < old(self)@.len(),
            old(self)@[index as int].parent is Some,
        ensures
            final(self).wf(),
            final(self).depths() == old(self).depths(),
            final(self).depth_bound() == old(self).depth_bound(),
            final(self)@ == old(self)@.update(
                index as int,
                old(self)@[index as int].refreshed(
                    old(self)@[old(self)@[index as int].parent.unwrap() as int].cached_transform,
                ),
            ),
    {
        let ghost before = self@;
        assert(before[index as int] == self.instances@[index as int]@);
        let above = self.instances[index].parent.unwrap();
        proof {
            reveal(forest);
        }
        assert(before[above as int] == self.instances@[above as int]@);
        let parent_matrix = self.instances[above].cached_transform;
        let slot = &mut self.instances[index];
        slot.update_cached(parent_matrix);
        proof {
            let written = before[index as int].refreshed(parent_matrix);
            assert(self@ =~= before.update(index as int, written));
            lemma_forest_keeps_links(
                before,
                self.depths(),
                self.depth_bound(),
                index as int,
                written,
            );
        }
    }

    /// `update_children` by dense index.
    pub(crate) fn update_children_raw(&mut self, index: usize)
        requires
            old(self).wf(),
            index < old(self)@.len(),
        ensures
            final(self).wf(),
            final(self).depths() == old(self).depths(),
            final(self).depth_bound() == old(self).depth_bound(),
            descendants_refreshed(
                old(self)@,
                final(self)@,
                old(self).depths(),
                index as int,
            ),
        decreases old(self).depth_bound() - old(self).depths()[index as int],
    {
        let ghost before = self@;
        let ghost parents = parents_of(before);
        let ghost depth = self.depths();
        let ghost bound = self.depth_bound();
        let ghost children = before[index as int].children;
        assert(before[index as int] == self.instances@[index as int]@);
        let count = self.instances[index].children.len();
        let mut k: usize = 0;
        while k < count
            invariant
                self.wf(),
                self.depths() == depth,
                self.depth_bound() == bound,
                depth == old(self).depths(),
                bound == old(self).depth_bound(),
                before == old(self)@,
                forest(before, depth, bound),
                self@.len() == before.len(),
                index < before.len(),
                children == before[index as int].children,
                parents == parents_of(before),
                count == children.len(),
                k <= count,
                forall|j: int|
                    0 <= j < before.len() ==> (#[trigger] self@[j]).same_authoring(before[j]),
                forall|d: int|
                    0 <= d < before.len() && under_first(parents, depth, children, k as int, d)
                        ==> fresh(self@, d),
                forall|j: int|
                    0 <= j < before.len() && !under_first(parents, depth, children, k as int, j)
                        ==> self@[j] == before[j],
            decreases count - k,
        {
            let ghost start = self@;
            assert(start[index as int] == self.instances@[index as int]@);
            assert(start[index as int].same_authoring(before[index as int]));
            let child = self.instances[index].children[k];
            proof {
                assert(child == children[k as int]);
                lemma_child_link(before, depth, bound, index as int, k as int);
                assert(start[child as int].same_authoring(before[child as int]));
            }
            self.update_cached_raw(child);
            let ghost middle = self@;
            proof {
                assert(parents_of(middle) =~= parents) by {
                    assert forall|j: int| 0 <= j < before.len() implies middle[j].parent
                        == before[j].parent by {
                        assert(start[j].same_authoring(before[j]));
                    }
                }
            }
            self.update_children_raw(child);
            proof {
                lemma_child_done(
                    before,
                    start,
                    middle,
                    self@,
                    depth,
                    bound,
                    index as int,
                    k as int,
                );
            }
            k += 1;
        }
        proof {
            lemma_children_done(before, self@, depth, bound, index as int);
        }
    }
}

impl Component for Manager {
    open spec fn valid(&self) -> bool {
        self.wf()
    }

    open spec fn slots(&self) -> nat {
        self@.len()
    }

    /// New slots hold blank transforms.
    fn register(&mut self, entity: Handle)
        ensures
            forall|i: int| 0 <= i < old(self)@.len() ==> final(self)@[i] == old(self)@[i],
            forall|i: int|
                old(self)@.len() <= i < final(self)@.len() ==> final(self)@[i]
                    == TransformView::blank(),
    {
        let i = entity.get_index() as usize;
        while i >= self.instances.len()
            invariant
                self.wf(),
                old(self)@.len() <= self@.len(),
                self@.len() <= old(self)@.len() || self@.len() <= i + 1,
                forall|j: int| 0 <= j < old(self)@.len() ==> self@[j] == old(self)@[j],
                forall|j: int|
                    old(self)@.len() <= j < self@.len() ==> self@[j] == TransformView::blank(),
            decreases i + 1 - self.instances.len(),
        {
            let ghost before = self@;
            self.instances.push(Transform::blank(0));
            proof {
                assert(before.len() + 1 == self.instances.len());
                lemma_forest_grows(before, self.depth@, self.bound@);
                self.depth@ = self.depth@.push(0);
                assert(self@ =~= before.push(TransformView::blank()));
            }
        }
    }

    fn count(&self) -> (n: usize) {
        self.instances.len()
    }
}

} // verus!
