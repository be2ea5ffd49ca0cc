//! A bounding-volume hierarchy: a flat preorder array of nodes built
//! top-down by median split on the widest centroid axis, traversed
//! iteratively with an explicit stack.

use vstd::prelude::*;
use vstd::seq_lib::group_to_multiset_ensures;
use crate::fixed::{ONE, abs_i};
use crate::vec3::Vec3;
use crate::ray::{Ray, ray_wf};
use crate::aabb::{AABB, aabb_wf, merge_spec, slab_hit, slab_tmin};
use crate::hitable::{HitRecord, hit_ok};
use crate::primitive::{Primitive, prim_wf, prim_hit_t, prim_bbox_spec, lemma_prim_hit_shrink};
use crate::hitable_list::all_wf;

verus! {

/// What follows a node: an interior node knows the size of its left
/// subtree, a leaf the index of its primitive.
#[derive(Clone, Copy, PartialEq, Eq, Structural, Debug)]
pub enum NodeKind {
    Bin { left_length: usize },
    Tip { hitable: usize },
}

#[derive(Clone, Copy, PartialEq, Eq, Structural, Debug)]
pub struct Node {
    pub bbox: AABB,
    pub next: NodeKind,
}

/// The tree a preorder node array encodes, carried as ghost state.
pub enum BvhShape {
    Tip { item: int },
    Bin { left: Box<BvhShape>, right: Box<BvhShape> },
}

pub open spec fn shape_size(s: BvhShape) -> nat
    decreases s,
{
    match s {
        BvhShape::Tip { .. } => 1,
        BvhShape::Bin { left, right } => 1 + shape_size(*left) + shape_size(*right),
    }
}

pub open spec fn shape_leaves(s: BvhShape) -> nat
    decreases s,
{
    match s {
        BvhShape::Tip { .. } => 1,
        BvhShape::Bin { left, right } => shape_leaves(*left) + shape_leaves(*right),
    }
}

/// The primitive indices under a subtree.
pub open spec fn shape_items(s: BvhShape) -> Seq<int>
    decreases s,
{
    match s {
        BvhShape::Tip { item } => seq![item],
        BvhShape::Bin { left, right } => shape_items(*left) + shape_items(*right),
    }
}

/// A preorder array encodes a tree at a position: a leaf's node carries
/// its primitive's box; an interior node carries the length of its left
/// subtree, its children at the adjacent positions, and the merge of
/// their boxes.
pub open spec fn shape_wf(nodes: Seq<Node>, items: Seq<Primitive>, at: int, s: BvhShape) -> bool
    decreases s,
{
    match s {
        BvhShape::Tip { item } => {
            &&& 0 <= at < nodes.len()
            &&& 0 <= item < items.len()
            &&& nodes[at].next == (NodeKind::Tip { hitable: item as usize })
            &&& nodes[at].bbox == prim_bbox_spec(items[item])
            &&& aabb_wf(nodes[at].bbox)
        },
        BvhShape::Bin { left, right } => {
            &&& 0 <= at < nodes.len()
            &&& at + shape_size(s) <= nodes.len()
            &&& nodes[at].next == (NodeKind::Bin { left_length: shape_size(*left) as usize })
            &&& shape_wf(nodes, items, at + 1, *left)
            &&& shape_wf(nodes, items, at + 1 + shape_size(*left), *right)
            &&& nodes[at].bbox == merge_spec(
                nodes[at + 1].bbox,
                nodes[at + 1 + shape_size(*left)].bbox,
            )
            &&& aabb_wf(nodes[at].bbox)
        },
    }
}

/// A preorder tree of `n` leaves occupies exactly `2 n - 1` nodes.
pub proof fn lemma_shape_size_leaves(s: BvhShape)
    ensures
        shape_size(s) == 2 * shape_leaves(s) - 1,
        shape_leaves(s) >= 1,
        shape_items(s).len() == shape_leaves(s),
    decreases s,
{
    match s {
        BvhShape::Tip { .. } => {},
        BvhShape::Bin { left, right } => {
            lemma_shape_size_leaves(*left);
            lemma_shape_size_leaves(*right);
        },
    }
}

/// Encoding only reads the nodes inside the subtree's range, so any
/// array agreeing there encodes the same tree.
pub proof fn lemma_shape_wf_frame(
    n1: Seq<Node>,
    n2: Seq<Node>,
    items: Seq<Primitive>,
    at: int,
    s: BvhShape,
)
    requires
        shape_wf(n1, items, at, s),
        n2.len() >= at + shape_size(s),
        forall|i: int| at <= i < at + shape_size(s) ==> n1[i] == n2[i],
    ensures
        shape_wf(n2, items, at, s),
    decreases s,
{
    match s {
        BvhShape::Tip { .. } => {},
        BvhShape::Bin { left, right } => {
            lemma_shape_size_leaves(*left);
            lemma_shape_size_leaves(*right);
            lemma_shape_wf_frame(n1, n2, items, at + 1, *left);
            lemma_shape_wf_frame(n1, n2, items, at + 1 + shape_size(*left), *right);
        },
    }
}

/// An auxiliary record of one primitive during construction: its
/// centroid, its original index, and its box.
#[derive(Clone, Copy, PartialEq, Eq, Structural, Debug)]
pub struct Stat {
    pub cx: i64,
    pub cy: i64,
    pub cz: i64,
    pub idx: usize,
    pub bbox: AABB,
}

pub open spec fn stat_key_spec(s: Stat, axis: u8) -> i64 {
    if axis == 0 {
        s.cx
    } else if axis == 1 {
        s.cy
    } else {
        s.cz
    }
}

fn stat_key(s: &Stat, axis: u8) -> (r: i64)
    ensures
        r == stat_key_spec(*s, axis),
{
    if axis == 0 {
        s.cx
    } else if axis == 1 {
        s.cy
    } else {
        s.cz
    }
}

/// One valid record: it points at a primitive, carries its box, and
/// its centroid components are in the coordinate range.
pub open spec fn stat_entry_ok(st: Stat, items: Seq<Primitive>) -> bool {
    &&& st.idx < items.len()
    &&& st.bbox == prim_bbox_spec(items[st.idx as int])
    &&& aabb_wf(st.bbox)
    &&& abs_i(st.cx as int) <= 0x10_0000_0000
    &&& abs_i(st.cy as int) <= 0x10_0000_0000
    &&& abs_i(st.cz as int) <= 0x10_0000_0000
}

/// Whether every record points at a primitive and carries its box.
pub open spec fn stats_ok(stats: Seq<Stat>, items: Seq<Primitive>) -> bool {
    forall|q: int| 0 <= q < stats.len() ==> stat_entry_ok(#[trigger] stats[q], items)
}

/// Relies on pdqselect::select_by_key, whose quickselect reorders the
/// slice between `lo` and `hi` so that the record at `lo + k` is in its
/// sorted position by the chosen axis key: everything before it
/// compares no greater, everything after no smaller, and the slice
/// keeps exactly the same records. The rest of the vector is untouched.
#[verifier::external_body]
fn select_stats(stats: &mut Vec<Stat>, lo: usize, hi: usize, k: usize, axis: u8)
    requires
        lo <= hi <= old(stats)@.len(),
        k < hi - lo,
    ensures
        final(stats)@.len() == old(stats)@.len(),
        forall|i: int| 0 <= i < lo as int ==> final(stats)@[i] == old(stats)@[i],
        forall|i: int|
            hi as int <= i < old(stats)@.len() ==> final(stats)@[i] == old(stats)@[i],
        final(stats)@.subrange(lo as int, hi as int).to_multiset() == old(stats)@.subrange(
            lo as int,
            hi as int,
        ).to_multiset(),
        forall|i: int|
            lo as int <= i < lo + k ==> stat_key_spec(#[trigger] final(stats)@[i], axis)
                <= stat_key_spec(final(stats)@[lo + k], axis),
        forall|i: int|
            lo + k < i < hi as int ==> stat_key_spec(#[trigger] final(stats)@[i], axis)
                >= stat_key_spec(final(stats)@[lo + k], axis),
{
    pdqselect::select_by_key(&mut stats[lo..hi], k, |s| stat_key(s, axis));
}

/// An element of either half is an element of the concatenation.
proof fn lemma_concat_contains(a: Seq<int>, b: Seq<int>, x: int)
    requires
        a.contains(x) || b.contains(x),
    ensures
        (a + b).contains(x),
{
    if a.contains(x) {
        let i = choose|i: int| 0 <= i < a.len() && a[i] == x;
        assert((a + b)[i] == x);
    } else {
        let i = choose|i: int| 0 <= i < b.len() && b[i] == x;
        assert((a + b)[a.len() + i] == x);
    }
}

/// Build the preorder array for the records in `[lo, hi)`: a single
/// record becomes a leaf; otherwise the records are partitioned about
/// the median of the widest centroid axis, the two halves built
/// recursively, and the interior node backfilled with the merged box
/// and the left subtree's length.
fn build_range(
    stats: &mut Vec<Stat>,
    lo: usize,
    hi: usize,
    nodes: &mut Vec<Node>,
    Ghost(items): Ghost<Seq<Primitive>>,
) -> (res: (AABB, Ghost<BvhShape>))
    requires
        lo < hi <= old(stats)@.len(),
        old(stats)@.len() <= 0x2000_0000,
        stats_ok(old(stats)@, items),
        old(nodes)@.len() + 2 * (hi - lo) <= 0x4000_0000,
    ensures
        final(stats)@.len() == old(stats)@.len(),
        stats_ok(final(stats)@, items),
        forall|i: int| 0 <= i < lo as int ==> final(stats)@[i] == old(stats)@[i],
        forall|i: int|
            hi as int <= i < old(stats)@.len() ==> final(stats)@[i] == old(stats)@[i],
        final(stats)@.subrange(lo as int, hi as int).to_multiset() == old(stats)@.subrange(
            lo as int,
            hi as int,
        ).to_multiset(),
        final(nodes)@.len() == old(nodes)@.len() + 2 * (hi - lo) - 1,
        forall|i: int| 0 <= i < old(nodes)@.len() ==> final(nodes)@[i] == old(nodes)@[i],
        shape_wf(final(nodes)@, items, old(nodes)@.len() as int, res.1@),
        shape_size(res.1@) == 2 * (hi - lo) - 1,
        shape_leaves(res.1@) == hi - lo,
        res.0 == final(nodes)@[old(nodes)@.len() as int].bbox,
        forall|q: int|
            lo as int <= q < hi as int ==> shape_items(res.1@).contains(
                final(stats)@[q].idx as int,
            ),
    decreases hi - lo,
{
    let ghost at = nodes@.len() as int;
    if hi - lo == 1 {
        let st = stats[lo];
        nodes.push(Node { bbox: st.bbox, next: NodeKind::Tip { hitable: st.idx } });
        let ghost sh = BvhShape::Tip { item: st.idx as int };
        proof {
            assert(shape_items(sh)[0] == st.idx as int);
        }
        (st.bbox, Ghost(sh))
    } else {
        proof {
            assert(stat_entry_ok(stats@[lo as int], items));
        }
        let mut min_x = stats[lo].cx;
        let mut min_y = stats[lo].cy;
        let mut min_z = stats[lo].cz;
        let mut max_x = stats[lo].cx;
        let mut max_y = stats[lo].cy;
        let mut max_z = stats[lo].cz;
        let mut k = lo + 1;
        while k < hi
            invariant
                lo < hi <= stats@.len(),
                lo < k,
                abs_i(min_x as int) <= 0x10_0000_0000,
                abs_i(min_y as int) <= 0x10_0000_0000,
                abs_i(min_z as int) <= 0x10_0000_0000,
                abs_i(max_x as int) <= 0x10_0000_0000,
                abs_i(max_y as int) <= 0x10_0000_0000,
                abs_i(max_z as int) <= 0x10_0000_0000,
                stats_ok(stats@, items),
            decreases hi - k,
        {
            let c = stats[k];
            proof {
                assert(stat_entry_ok(stats@[k as int], items));
            }
            if c.cx < min_x {
                min_x = c.cx;
            }
            if c.cy < min_y {
                min_y = c.cy;
            }
            if c.cz < min_z {
                min_z = c.cz;
            }
            if c.cx > max_x {
                max_x = c.cx;
            }
            if c.cy > max_y {
                max_y = c.cy;
            }
            if c.cz > max_z {
                max_z = c.cz;
            }
            k = k + 1;
        }
        let width_x = max_x - min_x;
        let width_y = max_y - min_y;
        let width_z = max_z - min_z;
        let mut axis: u8 = 0;
        if width_y > width_x {
            axis = 1;
        }
        let wxy = if width_x > width_y {
            width_x
        } else {
            width_y
        };
        if width_z > wxy {
            axis = 2;
        }
        let half = (hi - lo) / 2;
        let mid = lo + half;
        let ghost stats0 = stats@;
        select_stats(stats, lo, hi, half, axis);
        let ghost stats1 = stats@;
        proof {
            lemma_stats_ok_preserved(stats0, stats1, items, lo as int, hi as int);
        }
        let pos = nodes.len();
        nodes.push(Node { bbox: AABB::empty(), next: NodeKind::Bin { left_length: 0 } });
        let (lb, Ghost(lsh)) = build_range(stats, lo, mid, nodes, Ghost(items));
        let ghost stats2 = stats@;
        let ghost nodes2 = nodes@;
        let (rb, Ghost(rsh)) = build_range(stats, mid, hi, nodes, Ghost(items));
        let ghost stats3 = stats@;
        let ghost nodes3 = nodes@;
        let bb = lb.merge(rb);
        let left_length = 2 * (mid - lo) - 1;
        proof {
            lemma_shape_size_leaves(lsh);
            lemma_shape_size_leaves(rsh);
        }
        nodes[pos] = Node { bbox: bb, next: NodeKind::Bin { left_length } };
        let ghost sh = BvhShape::Bin { left: Box::new(lsh), right: Box::new(rsh) };
        proof {
            lemma_shape_wf_frame(nodes2, nodes@, items, pos + 1 as int, lsh);
            lemma_shape_wf_frame(nodes3, nodes@, items, pos + 1 + shape_size(lsh) as int, rsh);
            assert(shape_wf(nodes@, items, at, sh));
            lemma_split_multisets(stats0, stats1, stats2, stats3, lo as int, mid as int, hi as int);
            assert forall|q: int| lo as int <= q < hi as int implies shape_items(sh).contains(
                stats3[q].idx as int,
            ) by {
                if q < mid as int {
                    assert(stats3[q] == stats2[q]);
                    lemma_concat_contains(
                        shape_items(lsh),
                        shape_items(rsh),
                        stats3[q].idx as int,
                    );
                } else {
                    lemma_concat_contains(
                        shape_items(lsh),
                        shape_items(rsh),
                        stats3[q].idx as int,
                    );
                }
            }
        }
        (bb, Ghost(sh))
    }
}

/// Reordering a subrange while fixing the rest keeps every record valid.
proof fn lemma_stats_ok_preserved(
    s0: Seq<Stat>,
    s1: Seq<Stat>,
    items: Seq<Primitive>,
    lo: int,
    hi: int,
)
    requires
        stats_ok(s0, items),
        s0.len() == s1.len(),
        0 <= lo <= hi <= s0.len(),
        forall|i: int| 0 <= i < lo ==> s1[i] == s0[i],
        forall|i: int| hi <= i < s0.len() ==> s1[i] == s0[i],
        s1.subrange(lo, hi).to_multiset() == s0.subrange(lo, hi).to_multiset(),
    ensures
        stats_ok(s1, items),
{
    broadcast use group_to_multiset_ensures;

    assert forall|q: int| 0 <= q < s1.len() implies stat_entry_ok(#[trigger] s1[q], items) by {
        if lo <= q < hi {
            let sub1 = s1.subrange(lo, hi);
            let sub0 = s0.subrange(lo, hi);
            assert(sub1[q - lo] == s1[q]);
            assert(sub1.contains(s1[q]));
            assert(sub1.to_multiset().count(s1[q]) > 0);
            assert(sub0.to_multiset().count(s1[q]) > 0);
            assert(sub0.contains(s1[q]));
            let w = choose|w: int| 0 <= w < sub0.len() && sub0[w] == s1[q];
            assert(s0[lo + w] == s1[q]);
        }
    }
}

/// The subrange multisets compose across the selection and the two
/// recursive builds.
proof fn lemma_split_multisets(
    s0: Seq<Stat>,
    s1: Seq<Stat>,
    s2: Seq<Stat>,
    s3: Seq<Stat>,
    lo: int,
    mid: int,
    hi: int,
)
    requires
        0 <= lo < mid < hi <= s0.len(),
        s0.len() == s1.len() && s1.len() == s2.len() && s2.len() == s3.len(),
        s1.subrange(lo, hi).to_multiset() == s0.subrange(lo, hi).to_multiset(),
        s2.subrange(lo, mid).to_multiset() == s1.subrange(lo, mid).to_multiset(),
        forall|i: int| mid <= i < s1.len() ==> s2[i] == s1[i],
        s3.subrange(mid, hi).to_multiset() == s2.subrange(mid, hi).to_multiset(),
        forall|i: int| 0 <= i < mid ==> s3[i] == s2[i],
    ensures
        s3.subrange(lo, hi).to_multiset() == s0.subrange(lo, hi).to_multiset(),
{
    assert(s2.subrange(mid, hi) =~= s1.subrange(mid, hi));
    assert(s3.subrange(lo, mid) =~= s2.subrange(lo, mid));
    assert(s1.subrange(lo, hi) =~= s1.subrange(lo, mid) + s1.subrange(mid, hi));
    assert(s3.subrange(lo, hi) =~= s3.subrange(lo, mid) + s3.subrange(mid, hi));
    vstd::seq_lib::lemma_multiset_commutative(s1.subrange(lo, mid), s1.subrange(mid, hi));
    vstd::seq_lib::lemma_multiset_commutative(s3.subrange(lo, mid), s3.subrange(mid, hi));
    assert(s3.subrange(lo, hi).to_multiset() =~= s1.subrange(lo, hi).to_multiset());
}

/// Whether one node's box admits every intersection of every primitive
/// below it: whenever a primitive under the subtree is hit within an
/// interval, the slab test on the node's box reports a hit on that
/// interval. This is the geometric conservativeness that construction
/// aims at; the traversal theorem takes it as its premise.
pub open spec fn covers_node(
    nodes: Seq<Node>,
    items: Seq<Primitive>,
    at: int,
    s: BvhShape,
    r: Ray,
    t_min: int,
) -> bool {
    forall|k: int, tt: int|
        0 <= k < shape_items(s).len() ==> ((#[trigger] prim_hit_t(
            items[shape_items(s)[k]],
            r,
            t_min,
            tt,
        )) is Some ==> slab_hit(nodes[at].bbox, r, t_min, tt))
}

/// Conservativeness of a whole subtree.
pub open spec fn covers(
    nodes: Seq<Node>,
    items: Seq<Primitive>,
    at: int,
    s: BvhShape,
    r: Ray,
    t_min: int,
) -> bool
    decreases s,
{
    &&& covers_node(nodes, items, at, s, r, t_min)
    &&& match s {
        BvhShape::Tip { .. } => true,
        BvhShape::Bin { left, right } => {
            &&& covers(nodes, items, at + 1, *left, r, t_min)
            &&& covers(nodes, items, at + 1 + shape_size(*left), *right, r, t_min)
        },
    }
}

/// Conservativeness of the whole hierarchy against one ray.
pub open spec fn bvh_covers(b: BVH, r: Ray, t_min: int) -> bool {
    match b.shape@ {
        Option::None => true,
        Option::Some(s) => covers(b.nodes@, b.items@, 0, s, r, t_min),
    }
}

/// A primitive index still waiting under some subtree of the stack.
pub open spec fn on_stack(shapes: Seq<BvhShape>, j: int) -> bool {
    exists|k: int| 0 <= k < shapes.len() && #[trigger] shape_items(shapes[k]).contains(j)
}

/// A primitive whose full-interval intersection can no longer beat the
/// closest hit found.
pub open spec fn settled(
    items: Seq<Primitive>,
    r: Ray,
    t_min: int,
    t_max: int,
    cur: int,
    j: int,
) -> bool {
    match prim_hit_t(items[j], r, t_min, t_max) {
        Some(t) => t >= cur,
        None => true,
    }
}

/// An element of a concatenation is an element of one half.
proof fn lemma_concat_contains_split(a: Seq<int>, b: Seq<int>, x: int)
    requires
        (a + b).contains(x),
    ensures
        a.contains(x) || b.contains(x),
{
    let i = choose|i: int| 0 <= i < (a + b).len() && (a + b)[i] == x;
    if i < a.len() {
        assert(a[i] == x);
    } else {
        assert(b[i - a.len()] == x);
    }
}

/// The bounding-volume hierarchy: the flat node array, the primitives
/// the leaves point into, and the ghost tree that justifies both.
pub struct BVH {
    pub nodes: Vec<Node>,
    pub items: Vec<Primitive>,
    pub shape: Ghost<Option<BvhShape>>,
}

/// The box the hierarchy reports: the root node's, or the empty box
/// when there are no nodes.
pub open spec fn bvh_box(b: BVH) -> AABB {
    if b.nodes@.len() == 0 {
        crate::aabb::empty_aabb()
    } else {
        b.nodes@[0].bbox
    }
}

pub open spec fn bvh_wf(b: BVH) -> bool {
    &&& all_wf(b.items@)
    &&& match b.shape@ {
        Option::None => b.items@.len() == 0 && b.nodes@.len() == 0,
        Option::Some(s) => {
            &&& shape_wf(b.nodes@, b.items@, 0, s)
            &&& shape_size(s) == b.nodes@.len()
            &&& shape_leaves(s) == b.items@.len()
            &&& forall|j: int| 0 <= j < b.items@.len() ==> shape_items(s).contains(j)
        },
    }
}

impl BVH {
    /// Build the hierarchy over a set of primitives. The node array is
    /// preorder, and for `n` primitives holds exactly `2 n - 1` nodes.
    /// The count cap keeps the node vector indexable and the build's
    /// width arithmetic inside a 32-bit address space.
    pub fn initialize(items: Vec<Primitive>) -> (b: BVH)
        requires
            all_wf(items@),
            items@.len() <= 0x2000_0000,
        ensures
            bvh_wf(b),
            b.items@ == items@,
            items@.len() == 0 ==> b.nodes@.len() == 0,
            items@.len() >= 1 ==> b.nodes@.len() == 2 * items@.len() - 1,
    {
        let mut stats: Vec<Stat> = Vec::new();
        let mut i: usize = 0;
        while i < items.len()
            invariant
                i <= items@.len(),
                all_wf(items@),
                items@.len() <= 0x2000_0000,
                stats@.len() == i as int,
                stats_ok(stats@, items@),
                forall|q: int| 0 <= q < i as int ==> (#[trigger] stats@[q]).idx == q,
            decreases items@.len() - i,
        {
            let c = items[i].centroid();
            let bb = items[i].bbox();
            stats.push(Stat { cx: c.x, cy: c.y, cz: c.z, idx: i, bbox: bb });
            i = i + 1;
        }
        let mut nodes: Vec<Node> = Vec::new();
        if items.len() == 0 {
            return BVH { nodes, items, shape: Ghost(Option::None) };
        }
        let ghost stats0 = stats@;
        let n = items.len();
        let (_bb, Ghost(sh)) = build_range(&mut stats, 0, n, &mut nodes, Ghost(items@));
        proof {
            broadcast use group_to_multiset_ensures;

            lemma_shape_size_leaves(sh);
            assert(stats0.subrange(0, n as int) =~= stats0);
            assert(stats@.subrange(0, n as int) =~= stats@);
            assert forall|j: int| 0 <= j < items@.len() implies shape_items(sh).contains(j) by {
                let st0 = stats0[j];
                assert(stats0.contains(st0));
                assert(stats0.to_multiset().count(st0) > 0);
                assert(stats@.to_multiset().count(st0) > 0);
                assert(stats@.contains(st0));
                let q = choose|q: int| 0 <= q < stats@.len() && stats@[q] == st0;
                assert(shape_items(sh).contains(stats@[q].idx as int));
            }
        }
        BVH { nodes, items, shape: Ghost(Option::Some(sh)) }
    }

    /// The box of the whole hierarchy: the root's, or the empty box.
    pub fn bbox(&self) -> (b: AABB)
        requires
            bvh_wf(*self),
        ensures
            b == bvh_box(*self),
            aabb_wf(b),
    {
        if self.nodes.len() == 0 {
            AABB::empty()
        } else {
            proof {
                lemma_root_box_wf(self.nodes@, self.items@, 0, self.shape@->Some_0);
            }
            self.nodes[0].bbox
        }
    }

    /// Walk the hierarchy with an explicit stack, keeping the closest
    /// hit; a popped interior node tests both children's boxes against
    /// the ray and pushes the hit ones, nearer last so it is taken
    /// first. Whatever was returned is a genuine hit of one of the
    /// primitives, inside the interval.
    #[verifier::spinoff_prover]
    #[verifier::rlimit(100)]
    pub fn hit(&self, r: Ray, t_min: i64, t_max: i64) -> (res: Option<HitRecord>)
        requires
            bvh_wf(*self),
            ray_wf(r),
            0 <= r.ti <= ONE,
        ensures
            res matches Some(h) ==> {
                &&& hit_ok(h)
                &&& t_min < h.t < t_max
                &&& exists|j: int|
                    0 <= j < self.items@.len() && prim_hit_t(
                        #[trigger] self.items@[j],
                        r,
                        t_min as int,
                        t_max as int,
                    ) == Some(h.t as int) && h.p == crate::primitive::prim_hit_point(
                        self.items@[j],
                        r,
                        h.t as int,
                    ) && h.normal == crate::primitive::prim_hit_normal(
                        self.items@[j],
                        r,
                        h.t as int,
                    ) && (h.u as int, h.v as int) == crate::primitive::prim_hit_uv(
                        self.items@[j],
                        r,
                        h.t as int,
                    ) && *h.texture == crate::primitive::prim_texture(self.items@[j])
            },
            bvh_covers(*self, r, t_min as int) && res is None ==> forall|j: int|
                0 <= j < self.items@.len() ==> prim_hit_t(
                    #[trigger] self.items@[j],
                    r,
                    t_min as int,
                    t_max as int,
                ) is None,
            bvh_covers(*self, r, t_min as int) && res is Some ==> forall|j: int|
                0 <= j < self.items@.len() ==> match prim_hit_t(
                    #[trigger] self.items@[j],
                    r,
                    t_min as int,
                    t_max as int,
                ) {
                    Some(t) => res->Some_0.t <= t,
                    None => true,
                },
    {
        let ghost covered = bvh_covers(*self, r, t_min as int);
        if self.nodes.len() == 0 {
            proof {
                if self.shape@ is Some {
                    lemma_root_box_wf(self.nodes@, self.items@, 0, self.shape@->Some_0);
                }
            }
            return None;
        }
        let ghost root = self.shape@->Some_0;
        let mut best: Option<HitRecord> = None;
        let mut cur: i64 = t_max;
        let mut stack: Vec<usize> = Vec::new();
        stack.push(0);
        let ghost mut shapes: Seq<BvhShape> = seq![root];
        proof {
            if covered {
                assert forall|j: int| 0 <= j < self.items@.len() implies on_stack(shapes, j) || settled(
                    self.items@,
                    r,
                    t_min as int,
                    t_max as int,
                    cur as int,
                    j,
                ) by {
                    assert(shape_items(shapes[0]).contains(j));
                    assert(on_stack(shapes, j));
                }
            }
        }
        while stack.len() > 0
            invariant
                bvh_wf(*self),
                ray_wf(r),
                0 <= r.ti <= ONE,
                self.nodes@.len() > 0,
                stack@.len() == shapes.len(),
                forall|k: int|
                    0 <= k < shapes.len() ==> shape_wf(
                        self.nodes@,
                        self.items@,
                        #[trigger] stack@[k] as int,
                        shapes[k],
                    ),
                cur <= t_max,
                best is None ==> cur == t_max,
                best matches Some(h) ==> {
                    &&& hit_ok(h)
                    &&& h.t == cur
                    &&& t_min < h.t < t_max
                    &&& exists|j: int|
                        0 <= j < self.items@.len() && prim_hit_t(
                            #[trigger] self.items@[j],
                            r,
                            t_min as int,
                            t_max as int,
                        ) == Some(h.t as int) && h.p == crate::primitive::prim_hit_point(
                            self.items@[j],
                            r,
                            h.t as int,
                        ) && h.normal == crate::primitive::prim_hit_normal(
                            self.items@[j],
                            r,
                            h.t as int,
                        ) && (h.u as int, h.v as int) == crate::primitive::prim_hit_uv(
                            self.items@[j],
                            r,
                            h.t as int,
                        ) && *h.texture == crate::primitive::prim_texture(self.items@[j])
                },
                covered == bvh_covers(*self, r, t_min as int),
                covered ==> forall|k: int|
                    0 <= k < shapes.len() ==> covers(
                        self.nodes@,
                        self.items@,
                        #[trigger] stack@[k] as int,
                        shapes[k],
                        r,
                        t_min as int,
                    ),
                covered ==> forall|j: int|
                    0 <= j < self.items@.len() ==> on_stack(shapes, j) || settled(
                        self.items@,
                        r,
                        t_min as int,
                        t_max as int,
                        cur as int,
                        j,
                    ),
            decreases sizes_sum(shapes),
        {
            let ghost shapes0 = shapes;
            let ghost stack0 = stack@;
            let ghost cur0 = cur;
            let i = stack.pop().unwrap();
            let ghost sh = shapes.last();
            proof {
                shapes = shapes.drop_last();
                assert(stack0[stack0.len() - 1] == i);
                assert(shape_wf(
                    self.nodes@,
                    self.items@,
                    stack0[stack0.len() - 1] as int,
                    shapes0[stack0.len() - 1],
                ));
                assert(shape_wf(self.nodes@, self.items@, i as int, sh));
            }
            match self.nodes[i].next {
                NodeKind::Tip { hitable } => {
                    proof {
                        lemma_prim_hit_shrink(
                            self.items@[hitable as int],
                            r,
                            t_min as int,
                            t_max as int,
                            cur as int,
                        );
                    }
                    let got = self.items[hitable].hit(r, t_min, cur);
                    match got {
                        None => {},
                        Some(h) => {
                            cur = h.t;
                            best = Some(h);
                        },
                    }
                    proof {
                        if covered {
                            if sh is Bin {
                                assert(false);
                            }
                            let item = sh->Tip_item;
                            assert(self.nodes@[i as int].next == (NodeKind::Tip {
                                hitable: item as usize,
                            }));
                            assert(0 <= item < self.items@.len());
                            assert(self.items@.len() == self.items.len());
                            assert(item as usize as int == item);
                            assert(item == hitable as int);
                            assert forall|j: int| 0 <= j < self.items@.len() implies on_stack(
                                shapes,
                                j,
                            ) || settled(
                                self.items@,
                                r,
                                t_min as int,
                                t_max as int,
                                cur as int,
                                j,
                            ) by {
                                if on_stack(shapes0, j) {
                                    let k = choose|k: int|
                                        0 <= k < shapes0.len() && #[trigger] shape_items(
                                            shapes0[k],
                                        ).contains(j);
                                    if k < shapes0.len() - 1 {
                                        assert(shapes[k] == shapes0[k]);
                                        assert(shape_items(shapes[k]).contains(j));
                                        assert(on_stack(shapes, j));
                                    } else {
                                        assert(shapes0[k] == sh);
                                        assert(shape_items(sh)[0] == item);
                                        assert(j == item);
                                    }
                                } else {
                                    assert(settled(
                                        self.items@,
                                        r,
                                        t_min as int,
                                        t_max as int,
                                        cur0 as int,
                                        j,
                                    ));
                                }
                            }
                        }
                    }
                },
                NodeKind::Bin { left_length } => {
                    proof {
                        if sh is Tip {
                            assert(false);
                        }
                    }
                    let ghost lsh = sh->Bin_left;
                    let ghost rsh = sh->Bin_right;
                    proof {
                        lemma_shape_size_leaves(*lsh);
                        lemma_shape_size_leaves(*rsh);
                        assert(self.nodes@[i as int].next == (NodeKind::Bin {
                            left_length: shape_size(*lsh) as usize,
                        }));
                        assert(i + shape_size(sh) <= self.nodes@.len());
                        assert(shape_size(sh) == 1 + shape_size(*lsh) + shape_size(*rsh));
                        assert(shape_size(*lsh) < self.nodes@.len());
                        assert(self.nodes@.len() == self.nodes.len());
                        assert(shape_size(*lsh) <= usize::MAX);
                        assert(shape_size(*lsh) as usize as int == shape_size(*lsh));
                        assert(left_length as int == shape_size(*lsh) as usize as int);
                        assert(i + 1 + shape_size(*lsh) + shape_size(*rsh) <= self.nodes@.len());
                        lemma_root_box_wf(
                            self.nodes@,
                            self.items@,
                            i + 1 as int,
                            *lsh,
                        );
                        lemma_root_box_wf(
                            self.nodes@,
                            self.items@,
                            i + 1 + shape_size(*lsh) as int,
                            *rsh,
                        );
                    }
                    let li = i + 1;
                    let ri = i + 1 + left_length;
                    let (lhit, rhit) = self.nodes[li].bbox.intersects_2(
                        &self.nodes[ri].bbox,
                        r,
                        t_min,
                        cur,
                    );
                    match (lhit, rhit) {
                        (Option::None, Option::None) => {},
                        (Option::Some(_), Option::None) => {
                            stack.push(li);
                            proof {
                                lemma_sizes_sum_push(shapes, *lsh);
                                shapes = shapes.push(*lsh);
                                assert(stack@[shapes.len() - 1] == li);
                                assert(shapes[shapes.len() - 1] == *lsh);
                            }
                        },
                        (Option::None, Option::Some(_)) => {
                            stack.push(ri);
                            proof {
                                lemma_sizes_sum_push(shapes, *rsh);
                                shapes = shapes.push(*rsh);
                                assert(shapes[shapes.len() - 1] == *rsh);
                            }
                        },
                        (Option::Some(lt), Option::Some(rt)) => {
                            if lt < rt {
                                stack.push(ri);
                                stack.push(li);
                                proof {
                                    lemma_sizes_sum_push(shapes, *rsh);
                                    shapes = shapes.push(*rsh);
                                    lemma_sizes_sum_push(shapes, *lsh);
                                    shapes = shapes.push(*lsh);
                                    assert(shapes[shapes.len() - 2] == *rsh);
                                    assert(shapes[shapes.len() - 1] == *lsh);
                                }
                            } else {
                                stack.push(li);
                                stack.push(ri);
                                proof {
                                    lemma_sizes_sum_push(shapes, *lsh);
                                    shapes = shapes.push(*lsh);
                                    lemma_sizes_sum_push(shapes, *rsh);
                                    shapes = shapes.push(*rsh);
                                    assert(shapes[shapes.len() - 2] == *lsh);
                                    assert(shapes[shapes.len() - 1] == *rsh);
                                }
                            }
                        },
                    }
                    proof {
                        if covered {
                            assert(covers(self.nodes@, self.items@, i as int, sh, r, t_min as int));
                            assert(covers(
                                self.nodes@,
                                self.items@,
                                i + 1,
                                *lsh,
                                r,
                                t_min as int,
                            ));
                            assert(covers(
                                self.nodes@,
                                self.items@,
                                i + 1 + shape_size(*lsh),
                                *rsh,
                                r,
                                t_min as int,
                            ));
                            assert(lhit is Some ==> exists|k: int|
                                0 <= k < shapes.len() && stack@[k] == li && #[trigger] shapes[k]
                                    == *lsh);
                            assert(rhit is Some ==> exists|k: int|
                                0 <= k < shapes.len() && stack@[k] == ri && #[trigger] shapes[k]
                                    == *rsh);
                            assert forall|j: int| 0 <= j < self.items@.len() implies on_stack(
                                shapes,
                                j,
                            ) || settled(
                                self.items@,
                                r,
                                t_min as int,
                                t_max as int,
                                cur as int,
                                j,
                            ) by {
                                if on_stack(shapes0, j) {
                                    let k = choose|k: int|
                                        0 <= k < shapes0.len() && #[trigger] shape_items(
                                            shapes0[k],
                                        ).contains(j);
                                    if k < shapes0.len() - 1 {
                                        assert(shapes[k] == shapes0[k]);
                                        assert(shape_items(shapes[k]).contains(j));
                                        assert(on_stack(shapes, j));
                                    } else {
                                        assert(shapes0[k] == sh);
                                        assert(shape_items(sh) == shape_items(*lsh) + shape_items(
                                            *rsh,
                                        ));
                                        lemma_concat_contains_split(
                                            shape_items(*lsh),
                                            shape_items(*rsh),
                                            j,
                                        );
                                        if shape_items(*lsh).contains(j) {
                                            if lhit is Some {
                                                let kk = choose|kk: int|
                                                    0 <= kk < shapes.len() && stack@[kk] == li
                                                        && #[trigger] shapes[kk] == *lsh;
                                                assert(shape_items(shapes[kk]).contains(j));
                                                assert(on_stack(shapes, j));
                                            } else {
                                                let kk = choose|kk: int|
                                                    0 <= kk < shape_items(*lsh).len()
                                                        && shape_items(*lsh)[kk] == j;
                                                assert(prim_hit_t(
                                                    self.items@[shape_items(*lsh)[kk]],
                                                    r,
                                                    t_min as int,
                                                    cur as int,
                                                ) is Some ==> slab_hit(
                                                    self.nodes@[li as int].bbox,
                                                    r,
                                                    t_min as int,
                                                    cur as int,
                                                ));
                                                assert(prim_hit_t(
                                                    self.items@[j],
                                                    r,
                                                    t_min as int,
                                                    cur as int,
                                                ) is None);
                                                lemma_prim_hit_shrink(
                                                    self.items@[j],
                                                    r,
                                                    t_min as int,
                                                    t_max as int,
                                                    cur as int,
                                                );
                                            }
                                        } else {
                                            if rhit is Some {
                                                let kk = choose|kk: int|
                                                    0 <= kk < shapes.len() && stack@[kk] == ri
                                                        && #[trigger] shapes[kk] == *rsh;
                                                assert(shape_items(shapes[kk]).contains(j));
                                                assert(on_stack(shapes, j));
                                            } else {
                                                let kk = choose|kk: int|
                                                    0 <= kk < shape_items(*rsh).len()
                                                        && shape_items(*rsh)[kk] == j;
                                                assert(prim_hit_t(
                                                    self.items@[shape_items(*rsh)[kk]],
                                                    r,
                                                    t_min as int,
                                                    cur as int,
                                                ) is Some ==> slab_hit(
                                                    self.nodes@[ri as int].bbox,
                                                    r,
                                                    t_min as int,
                                                    cur as int,
                                                ));
                                                assert(prim_hit_t(
                                                    self.items@[j],
                                                    r,
                                                    t_min as int,
                                                    cur as int,
                                                ) is None);
                                                lemma_prim_hit_shrink(
                                                    self.items@[j],
                                                    r,
                                                    t_min as int,
                                                    t_max as int,
                                                    cur as int,
                                                );
                                            }
                                        }
                                    }
                                }
                            }
                        }
                    }
                },
            }
        }
        proof {
            if covered {
                assert forall|j: int| 0 <= j < self.items@.len() implies match prim_hit_t(
                    #[trigger] self.items@[j],
                    r,
                    t_min as int,
                    t_max as int,
                ) {
                    Some(t) => best matches Some(h) && h.t <= t,
                    None => true,
                } by {
                    assert(!on_stack(shapes, j));
                    assert(settled(self.items@, r, t_min as int, t_max as int, cur as int, j));
                    lemma_prim_hit_shrink(
                        self.items@[j],
                        r,
                        t_min as int,
                        t_max as int,
                        t_max as int,
                    );
                }
            }
        }
        best
    }
}

/// Every encoded subtree's root box is well formed.
proof fn lemma_root_box_wf(nodes: Seq<Node>, items: Seq<Primitive>, at: int, s: BvhShape)
    requires
        shape_wf(nodes, items, at, s),
    ensures
        aabb_wf(nodes[at].bbox),
        0 <= at < nodes.len(),
{
    match s {
        BvhShape::Tip { .. } => {},
        BvhShape::Bin { .. } => {},
    }
}

/// The total node count under a stack of subtrees.
pub open spec fn sizes_sum(sh: Seq<BvhShape>) -> nat
    decreases sh.len(),
{
    if sh.len() == 0 {
        0
    } else {
        sizes_sum(sh.drop_last()) + shape_size(sh.last())
    }
}

proof fn lemma_sizes_sum_push(sh: Seq<BvhShape>, x: BvhShape)
    ensures
        sizes_sum(sh.push(x)) == sizes_sum(sh) + shape_size(x),
{
    assert(sh.push(x).drop_last() =~= sh);
    assert(sh.push(x).last() == x);
}

} // verus!
