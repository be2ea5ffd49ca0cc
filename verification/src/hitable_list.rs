//! A plain list of primitives, intersected by linear scan. The scan's
//! contract pins the result to the closest hit over the whole list; the
//! hierarchy is measured against the same statement.

use vstd::prelude::*;
use crate::fixed::ONE;
use crate::ray::{Ray, ray_wf};
use crate::aabb::{AABB, aabb_wf, merge_spec, empty_aabb};
use crate::hitable::{HitRecord, hit_ok};
use crate::primitive::{
    Primitive, prim_wf, prim_hit_t, prim_bbox_spec, prim_hit_point, prim_hit_normal, prim_hit_uv,
    prim_texture, lemma_prim_hit_shrink,
};

verus! {

pub struct HitableList<'a> {
    pub items: &'a Vec<Primitive>,
}

pub open spec fn all_wf(items: Seq<Primitive>) -> bool {
    forall|i: int| 0 <= i < items.len() ==> prim_wf(#[trigger] items[i])
}

/// The merge of the boxes of the first `k` primitives.
pub open spec fn boxes_fold(items: Seq<Primitive>, k: int) -> AABB
    decreases k,
{
    if k <= 0 {
        empty_aabb()
    } else {
        merge_spec(boxes_fold(items, k - 1), prim_bbox_spec(items[k - 1]))
    }
}

impl<'a> HitableList<'a> {
    pub fn new(items: &'a Vec<Primitive>) -> (l: HitableList<'a>)
        ensures
            l.items == items,
    {
        HitableList { items }
    }

    /// The merge of all the primitives' boxes, folded left to right
    /// from the empty box.
    pub fn bbox(&self) -> (b: AABB)
        requires
            all_wf(self.items@),
        ensures
            b == boxes_fold(self.items@, self.items@.len() as int),
            aabb_wf(b),
    {
        let mut b = AABB::empty();
        let mut k: usize = 0;
        while k < self.items.len()
            invariant
                k <= self.items@.len(),
                all_wf(self.items@),
                aabb_wf(b),
                b == boxes_fold(self.items@, k as int),
            decreases self.items@.len() - k,
        {
            b = b.merge(self.items[k].bbox());
            k = k + 1;
        }
        b
    }

    /// Scan every primitive, keeping the closest hit so far: the result
    /// is the hit with the smallest accepted parameter over the whole
    /// list against the original interval, or nothing when every
    /// primitive misses it.
    pub fn hit(&self, r: Ray, t_min: i64, t_max: i64) -> (res: Option<HitRecord>)
        requires
            all_wf(self.items@),
            ray_wf(r),
            0 <= r.ti <= ONE,
        ensures
            res is None ==> forall|i: int|
                0 <= i < self.items@.len() ==> prim_hit_t(
                    #[trigger] self.items@[i],
                    r,
                    t_min as int,
                    t_max as int,
                ) is None,
            res matches Some(h) ==> {
                &&& hit_ok(h)
                &&& t_min < h.t < t_max
                &&& exists|i: int|
                    0 <= i < self.items@.len() && prim_hit_t(
                        #[trigger] self.items@[i],
                        r,
                        t_min as int,
                        t_max as int,
                    ) == Some(h.t as int) && h.p == prim_hit_point(self.items@[i], r, h.t as int)
                        && h.normal == prim_hit_normal(self.items@[i], r, h.t as int) && (
                    h.u as int,
                    h.v as int,
                    ) == prim_hit_uv(self.items@[i], r, h.t as int) && *h.texture == prim_texture(
                        self.items@[i],
                    )
                &&& forall|i: int|
                    0 <= i < self.items@.len() ==> match prim_hit_t(
                        #[trigger] self.items@[i],
                        r,
                        t_min as int,
                        t_max as int,
                    ) {
                        Some(t) => h.t <= t,
                        None => true,
                    }
            },
    {
        let items = self.items;
        let ghost n = items@.len() as int;
        let mut closest: Option<HitRecord> = None;
        let mut cur: i64 = t_max;
        let mut k: usize = 0;
        while k < items.len()
            invariant
                k <= items@.len(),
                all_wf(items@),
                ray_wf(r),
                0 <= r.ti <= ONE,
                cur <= t_max,
                closest is None ==> cur == t_max && forall|i: int|
                    0 <= i < k as int ==> prim_hit_t(
                        #[trigger] items@[i],
                        r,
                        t_min as int,
                        t_max as int,
                    ) is None,
                closest matches Some(h) ==> {
                    &&& hit_ok(h)
                    &&& h.t == cur
                    &&& t_min < h.t < t_max
                    &&& exists|i: int|
                        0 <= i < k as int && prim_hit_t(
                            #[trigger] items@[i],
                            r,
                            t_min as int,
                            t_max as int,
                        ) == Some(h.t as int) && h.p == prim_hit_point(items@[i], r, h.t as int)
                            && h.normal == prim_hit_normal(items@[i], r, h.t as int) && (
                        h.u as int,
                        h.v as int,
                        ) == prim_hit_uv(items@[i], r, h.t as int) && *h.texture == prim_texture(
                            items@[i],
                        )
                    &&& forall|i: int|
                        0 <= i < k as int ==> match prim_hit_t(
                            #[trigger] items@[i],
                            r,
                            t_min as int,
                            t_max as int,
                        ) {
                            Some(t) => h.t <= t,
                            None => true,
                        }
                },
            decreases items@.len() - k,
        {
            proof {
                lemma_prim_hit_shrink(items@[k as int], r, t_min as int, t_max as int, cur as int);
            }
            let got = items[k].hit(r, t_min, cur);
            match got {
                None => {},
                Some(h) => {
                    cur = h.t;
                    closest = Some(h);
                },
            }
            k = k + 1;
        }
        closest
    }
}

} // verus!
