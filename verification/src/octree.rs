//! The spatial index: an octree over a triangle set, answering
//! nearest-ray-intersection queries. Space is split eight ways per
//! level; a triangle's index is handed to every octant child whose
//! box its own bounding box overlaps (and kept at the node if none
//! does), so a query that folds over the tree sees every triangle
//! and returns the smallest intersection parameter in the whole set.

use vstd::prelude::*;
use crate::fx::divi;
use crate::vec3::Vec3;
use crate::aabb::Aabb;
use crate::tri::Triangle;

verus! {

/// One octree node: a box, the indices kept at this node, and the
/// child nodes (none for a leaf).
pub struct Node {
    pub bounds: Aabb,
    pub items: Vec<usize>,
    pub children: Vec<Node>,
}

/// Whether index `i` occurs somewhere in the subtree.
pub open spec fn node_contains(n: Node, i: usize) -> bool
    decreases n,
{
    n.items@.contains(i) || exists|j: int|
        0 <= j < n.children@.len() && node_contains(#[trigger] n.children@[j], i)
}

/// Every index in the subtree addresses a triangle.
pub open spec fn node_idx_ok(n: Node, len: int) -> bool
    decreases n,
{
    (forall|k: int| 0 <= k < n.items@.len() ==> (#[trigger] n.items@[k]) < len) && (forall|j: int|
        0 <= j < n.children@.len() ==> node_idx_ok(#[trigger] n.children@[j], len))
}

/// A nearest-hit candidate is a real hit: the index addresses a
/// triangle and the parameter is that triangle's hit parameter.
pub open spec fn cand_valid(c: Option<(usize, i64)>, tris: Seq<Triangle>, o: Vec3, d: Vec3) -> bool {
    match c {
        None => true,
        Some((j, t)) => j < tris.len() && tris[j as int].spec_ray_hit(o, d) == Some(t as int),
    }
}

/// `c` is at least as close as any hit among the subtree's triangles.
pub open spec fn cand_beats_node(
    c: Option<(usize, i64)>,
    n: Node,
    tris: Seq<Triangle>,
    o: Vec3,
    d: Vec3,
) -> bool {
    forall|i: usize|
        i < tris.len() && node_contains(n, i) && (#[trigger] tris[i as int].spec_ray_hit(o, d))
            is Some ==> c is Some && c->Some_0.1 <= tris[i as int].spec_ray_hit(o, d)->Some_0
}

/// The octree: it owns its triangle set and its node tree.
pub struct Octree {
    pub triangles: Vec<Triangle>,
    pub root: Node,
}

/// How deep the recursive split may go.
pub const MAX_DEPTH: u32 = 8;

/// Up to this many triangles a node is kept as a leaf.
pub const LEAF_SIZE: usize = 16;

impl Octree {
    /// The octree's bookkeeping: every tree index addresses a
    /// triangle, every triangle index occurs in the tree, and all
    /// triangles lie in the representable volume.
    pub open spec fn wf(self) -> bool {
        &&& node_idx_ok(self.root, self.triangles@.len() as int)
        &&& forall|i: usize| i < self.triangles@.len() ==> #[trigger] node_contains(self.root, i)
        &&& forall|i: int| 0 <= i < self.triangles@.len() ==> (#[trigger] self.triangles@[i]).wf()
    }

    /// Builds the index over the given triangles: the root box is the
    /// union of the triangle bounds, and space is split eight ways per
    /// level until a node's population or the depth budget runs out.
    pub fn build(triangles: Vec<Triangle>) -> (r: Octree)
        requires
            forall|i: int| 0 <= i < triangles@.len() ==> (#[trigger] triangles@[i]).wf(),
        ensures
            r.wf(),
            r.triangles == triangles,
    {
        let mut root_box = Aabb::empty();
        let mut i: usize = 0;
        while i < triangles.len()
            invariant
                i <= triangles@.len(),
                forall|k: int| 0 <= k < triangles@.len() ==> (#[trigger] triangles@[k]).wf(),
                i > 0 ==> root_box.min.small() && root_box.max.small(),
                i == 0 ==> root_box == Aabb::spec_empty(),
            decreases triangles@.len() - i,
        {
            let t = &triangles[i];
            let tb = t.bounds();
            root_box = if i == 0 {
                tb
            } else {
                Aabb {
                    min: Vec3 {
                        x: if tb.min.x < root_box.min.x { tb.min.x } else { root_box.min.x },
                        y: if tb.min.y < root_box.min.y { tb.min.y } else { root_box.min.y },
                        z: if tb.min.z < root_box.min.z { tb.min.z } else { root_box.min.z },
                    },
                    max: Vec3 {
                        x: if tb.max.x > root_box.max.x { tb.max.x } else { root_box.max.x },
                        y: if tb.max.y > root_box.max.y { tb.max.y } else { root_box.max.y },
                        z: if tb.max.z > root_box.max.z { tb.max.z } else { root_box.max.z },
                    },
                }
            };
            i = i + 1;
        }
        if triangles.len() == 0 {
            let root = Node { bounds: root_box, items: Vec::new(), children: Vec::new() };
            return Octree { triangles, root };
        }
        let mut idxs: Vec<usize> = Vec::new();
        let mut j: usize = 0;
        while j < triangles.len()
            invariant
                j <= triangles@.len(),
                idxs@.len() == j,
                forall|k: int| 0 <= k < j ==> (#[trigger] idxs@[k]) == k,
            decreases triangles@.len() - j,
        {
            idxs.push(j);
            j = j + 1;
        }
        proof {
            assert forall|i2: usize| i2 < triangles@.len() implies idxs@.contains(i2) by {
                assert(idxs@[i2 as int] == i2);
            }
        }
        let root = build_node(&triangles, idxs, root_box, MAX_DEPTH);
        Octree { triangles, root }
    }

    /// The triangle nearest along the ray, with the parameter at
    /// which the ray meets it: the smallest hit parameter of any
    /// triangle in the index, and `None` exactly when the ray meets
    /// none (always so for an empty index or a zero direction).
    pub fn ray_intersection_target_and_parameter(
        &self,
        ray_origin: Vec3,
        ray_direction: Vec3,
    ) -> (r: Option<(usize, i64)>)
        requires
            self.wf(),
            ray_origin.ok(),
            ray_direction.ok(),
        ensures
            cand_valid(r, self.triangles@, ray_origin, ray_direction),
            r is None ==> forall|i: usize|
                i < self.triangles@.len() ==> (#[trigger] self.triangles@[i as int]).spec_ray_hit(
                    ray_origin,
                    ray_direction,
                ) is None,
            forall|i: usize|
                i < self.triangles@.len() && (#[trigger] self.triangles@[i as int]).spec_ray_hit(
                    ray_origin,
                    ray_direction,
                ) is Some ==> r is Some && r->Some_0.1 <= self.triangles@[i as int].spec_ray_hit(
                    ray_origin,
                    ray_direction,
                )->Some_0,
    {
        let r = query_node(&self.root, &self.triangles, ray_origin, ray_direction, None);
        proof {
            assert forall|i: usize|
                i < self.triangles@.len() && (#[trigger] self.triangles@[i as int]).spec_ray_hit(
                    ray_origin,
                    ray_direction,
                ) is Some implies r is Some && r->Some_0.1 <= self.triangles@[i as int].spec_ray_hit(
                ray_origin,
                ray_direction,
            )->Some_0 by {
                assert(node_contains(self.root, i));
                assert(cand_beats_node(r, self.root, self.triangles@, ray_origin, ray_direction));
            }
        }
        r
    }
}

/// Builds a subtree over the given indices: a leaf when small enough
/// or out of depth; otherwise each index goes to every octant child
/// whose box overlaps that triangle's bounds, or stays at this node
/// if none does.
fn build_node(tris: &Vec<Triangle>, idxs: Vec<usize>, bounds: Aabb, depth: u32) -> (r: Node)
    requires
        forall|k: int| 0 <= k < idxs@.len() ==> (#[trigger] idxs@[k]) < tris@.len(),
        forall|i: int| 0 <= i < tris@.len() ==> (#[trigger] tris@[i]).wf(),
        bounds.min.small(),
        bounds.max.small(),
    ensures
        node_idx_ok(r, tris@.len() as int),
        forall|i: usize| node_contains(r, i) <==> idxs@.contains(i),
    decreases depth,
{
    proof {
        broadcast use vstd::seq_lib::lemma_seq_contains_after_push;
    }
    if depth == 0 || idxs.len() <= LEAF_SIZE {
        let r = Node { bounds, items: idxs, children: Vec::new() };
        return r;
    }
    let mid = Vec3 {
        x: divi((bounds.min.x + bounds.max.x) as i128, 2) as i64,
        y: divi((bounds.min.y + bounds.max.y) as i128, 2) as i64,
        z: divi((bounds.min.z + bounds.max.z) as i128, 2) as i64,
    };
    proof {
        crate::vec3::lemma_div_floor_small(bounds.min.x + bounds.max.x, 2);
        crate::vec3::lemma_div_floor_small(bounds.min.y + bounds.max.y, 2);
        crate::vec3::lemma_div_floor_small(bounds.min.z + bounds.max.z, 2);
    }
    let mut boxes: Vec<Aabb> = Vec::new();
    let mut bi: usize = 0;
    while bi < 8
        invariant
            boxes@.len() == bi,
            bi <= 8,
            mid.small(),
            bounds.min.small(),
            bounds.max.small(),
            forall|k: int|
                0 <= k < bi ==> (#[trigger] boxes@[k]).min.small() && boxes@[k].max.small(),
        decreases 8 - bi,
    {
        let lo = Vec3 {
            x: if bi % 2 == 0 { bounds.min.x } else { mid.x },
            y: if (bi / 2) % 2 == 0 { bounds.min.y } else { mid.y },
            z: if (bi / 4) % 2 == 0 { bounds.min.z } else { mid.z },
        };
        let hi = Vec3 {
            x: if bi % 2 == 0 { mid.x } else { bounds.max.x },
            y: if (bi / 2) % 2 == 0 { mid.y } else { bounds.max.y },
            z: if (bi / 4) % 2 == 0 { mid.z } else { bounds.max.z },
        };
        boxes.push(Aabb { min: lo, max: hi });
        bi = bi + 1;
    }
    let mut l0: Vec<usize> = Vec::new();
    let mut l1: Vec<usize> = Vec::new();
    let mut l2: Vec<usize> = Vec::new();
    let mut l3: Vec<usize> = Vec::new();
    let mut l4: Vec<usize> = Vec::new();
    let mut l5: Vec<usize> = Vec::new();
    let mut l6: Vec<usize> = Vec::new();
    let mut l7: Vec<usize> = Vec::new();
    let mut keep: Vec<usize> = Vec::new();
    let mut p: usize = 0;
    while p < idxs.len()
        invariant
            p <= idxs@.len(),
            boxes@.len() == 8,
            forall|k: int| 0 <= k < idxs@.len() ==> (#[trigger] idxs@[k]) < tris@.len(),
            forall|i: int| 0 <= i < tris@.len() ==> (#[trigger] tris@[i]).wf(),
            subset_of(l0@, idxs@.take(p as int)),
            subset_of(l1@, idxs@.take(p as int)),
            subset_of(l2@, idxs@.take(p as int)),
            subset_of(l3@, idxs@.take(p as int)),
            subset_of(l4@, idxs@.take(p as int)),
            subset_of(l5@, idxs@.take(p as int)),
            subset_of(l6@, idxs@.take(p as int)),
            subset_of(l7@, idxs@.take(p as int)),
            subset_of(keep@, idxs@.take(p as int)),
            forall|i: usize|
                idxs@.take(p as int).contains(i) ==> keep@.contains(i) || l0@.contains(i)
                    || l1@.contains(i) || l2@.contains(i) || l3@.contains(i) || l4@.contains(i)
                    || l5@.contains(i) || l6@.contains(i) || l7@.contains(i),
        decreases idxs@.len() - p,
    {
        proof {
            broadcast use vstd::seq_lib::lemma_seq_contains_after_push;
        }
        let i = idxs[p];
        let tb = tris[i].bounds();
        let mut placed = false;
        if tb.overlaps(&boxes[0]) {
            l0.push(i);
            placed = true;
        }
        if tb.overlaps(&boxes[1]) {
            l1.push(i);
            placed = true;
        }
        if tb.overlaps(&boxes[2]) {
            l2.push(i);
            placed = true;
        }
        if tb.overlaps(&boxes[3]) {
            l3.push(i);
            placed = true;
        }
        if tb.overlaps(&boxes[4]) {
            l4.push(i);
            placed = true;
        }
        if tb.overlaps(&boxes[5]) {
            l5.push(i);
            placed = true;
        }
        if tb.overlaps(&boxes[6]) {
            l6.push(i);
            placed = true;
        }
        if tb.overlaps(&boxes[7]) {
            l7.push(i);
            placed = true;
        }
        if !placed {
            keep.push(i);
        }
        proof {
            assert(idxs@.take(p + 1int).drop_last() == idxs@.take(p as int));
            assert(idxs@.take(p + 1int).last() == idxs@[p as int]);
        }
        p = p + 1;
    }
    proof {
        assert(idxs@.take(idxs@.len() as int) == idxs@);
    }
    let c0 = build_node(tris, l0, boxes[0], depth - 1);
    let c1 = build_node(tris, l1, boxes[1], depth - 1);
    let c2 = build_node(tris, l2, boxes[2], depth - 1);
    let c3 = build_node(tris, l3, boxes[3], depth - 1);
    let c4 = build_node(tris, l4, boxes[4], depth - 1);
    let c5 = build_node(tris, l5, boxes[5], depth - 1);
    let c6 = build_node(tris, l6, boxes[6], depth - 1);
    let c7 = build_node(tris, l7, boxes[7], depth - 1);
    let ghost gl = seq![c0, c1, c2, c3, c4, c5, c6, c7];
    let mut children: Vec<Node> = Vec::new();
    children.push(c0);
    children.push(c1);
    children.push(c2);
    children.push(c3);
    children.push(c4);
    children.push(c5);
    children.push(c6);
    children.push(c7);
    proof {
        assert(children@ =~= gl);
    }
    let r = Node { bounds, items: keep, children };
    proof {
        assert forall|i: usize| node_contains(r, i) implies idxs@.contains(i) by {
            if !r.items@.contains(i) {
                let j = choose|j: int|
                    0 <= j < r.children@.len() && node_contains(#[trigger] r.children@[j], i);
            }
        }
        assert forall|i: usize| idxs@.contains(i) implies node_contains(r, i) by {
            {
                if keep@.contains(i) {
                    assert(node_contains(r, i));
                } else {
                    if l0@.contains(i) {
                        assert(node_contains(r.children@[0], i));
                    } else if l1@.contains(i) {
                        assert(node_contains(r.children@[1], i));
                    } else if l2@.contains(i) {
                        assert(node_contains(r.children@[2], i));
                    } else if l3@.contains(i) {
                        assert(node_contains(r.children@[3], i));
                    } else if l4@.contains(i) {
                        assert(node_contains(r.children@[4], i));
                    } else if l5@.contains(i) {
                        assert(node_contains(r.children@[5], i));
                    } else if l6@.contains(i) {
                        assert(node_contains(r.children@[6], i));
                    } else {
                        assert(node_contains(r.children@[7], i));
                    }
                }
            }
        }
    }
    r
}

/// Every element of `s` occurs in `within`.
pub open spec fn subset_of(s: Seq<usize>, within: Seq<usize>) -> bool {
    forall|m: int| 0 <= m < s.len() ==> within.contains(#[trigger] s[m])
}

/// Folds the subtree's hits into the running candidate: the result is
/// a real hit, no farther than the candidate, no farther than any hit
/// in the subtree, and either the candidate itself or from the
/// subtree.
fn query_node(
    node: &Node,
    tris: &Vec<Triangle>,
    o: Vec3,
    d: Vec3,
    best: Option<(usize, i64)>,
) -> (r: Option<(usize, i64)>)
    requires
        node_idx_ok(*node, tris@.len() as int),
        forall|i: int| 0 <= i < tris@.len() ==> (#[trigger] tris@[i]).wf(),
        o.ok(),
        d.ok(),
        cand_valid(best, tris@, o, d),
    ensures
        cand_valid(r, tris@, o, d),
        best is Some ==> r is Some && r->Some_0.1 <= best->Some_0.1,
        cand_beats_node(r, *node, tris@, o, d),
        r is Some ==> best == Some(r->Some_0) || node_contains(*node, r->Some_0.0),
    decreases *node,
{
    let mut cur = best;
    let mut k: usize = 0;
    while k < node.items.len()
        invariant
            k <= node.items@.len(),
            node_idx_ok(*node, tris@.len() as int),
            forall|i: int| 0 <= i < tris@.len() ==> (#[trigger] tris@[i]).wf(),
            o.ok(),
            d.ok(),
            cand_valid(cur, tris@, o, d),
            best is Some ==> cur is Some && cur->Some_0.1 <= best->Some_0.1,
            forall|m: int|
                0 <= m < k && (#[trigger] tris@[node.items@[m] as int].spec_ray_hit(o, d)) is Some
                    ==> cur is Some && cur->Some_0.1 <= tris@[node.items@[m] as int].spec_ray_hit(
                    o,
                    d,
                )->Some_0,
            cur is Some ==> best == Some(cur->Some_0) || node.items@.contains(cur->Some_0.0),
        decreases node.items@.len() - k,
    {
        let i = node.items[k];
        match tris[i].ray_intersection_parameter(o, d) {
            Some(t) => {
                let take = match cur {
                    Some(c) => t < c.1,
                    None => true,
                };
                if take {
                    cur = Some((i, t));
                }
            },
            None => {},
        }
        k = k + 1;
    }
    let mut c: usize = 0;
    while c < node.children.len()
        invariant
            c <= node.children@.len(),
            node_idx_ok(*node, tris@.len() as int),
            forall|i: int| 0 <= i < tris@.len() ==> (#[trigger] tris@[i]).wf(),
            o.ok(),
            d.ok(),
            cand_valid(cur, tris@, o, d),
            best is Some ==> cur is Some && cur->Some_0.1 <= best->Some_0.1,
            forall|m: int|
                0 <= m < node.items@.len() && (#[trigger] tris@[node.items@[m] as int].spec_ray_hit(
                    o,
                    d,
                )) is Some ==> cur is Some && cur->Some_0.1
                    <= tris@[node.items@[m] as int].spec_ray_hit(o, d)->Some_0,
            forall|q: int|
                0 <= q < c ==> cand_beats_node(cur, #[trigger] node.children@[q], tris@, o, d),
            cur is Some ==> best == Some(cur->Some_0) || node_contains(*node, cur->Some_0.0),
        decreases node.children@.len() - c,
    {
        cur = query_node(&node.children[c], tris, o, d, cur);
        c = c + 1;
    }
    proof {
        assert forall|i: usize|
            i < tris@.len() && node_contains(*node, i) && (#[trigger] tris@[i as int].spec_ray_hit(
                o,
                d,
            )) is Some implies cur is Some && cur->Some_0.1 <= tris@[i as int].spec_ray_hit(
            o,
            d,
        )->Some_0 by {
            if node.items@.contains(i) {
                let m = choose|m: int| 0 <= m < node.items@.len() && node.items@[m] == i;
            } else {
                let j = choose|j: int|
                    0 <= j < node.children@.len() && node_contains(#[trigger] node.children@[j], i);
                assert(cand_beats_node(cur, node.children@[j], tris@, o, d));
            }
        }
    }
    cur
}

} // verus!
