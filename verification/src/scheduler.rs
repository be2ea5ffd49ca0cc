//! The sample accumulator and the pixel indexing convention of the
//! sample scheduler. Workers produce whole per-sample buffers; the
//! accumulator folds each buffer into its running per-pixel sums and
//! counts the samples folded, so a snapshot at any moment is the sum of
//! a whole number of samples.

use vstd::prelude::*;
use crate::fixed::abs_i;

verus! {

/// A tristimulus sum in fixed point.
#[derive(Clone, Copy, PartialEq, Eq, Structural, Debug)]
pub struct Xyz {
    pub x: i64,
    pub y: i64,
    pub z: i64,
}

/// Largest tristimulus component magnitude one sample may carry.
pub const XYZ_MAX: i64 = 0x8000_0000_0000;

/// Most samples an accumulator will fold.
pub const SAMPLES_MAX: u64 = 0x8000;

pub open spec fn xyz_ok(c: Xyz) -> bool {
    abs_i(c.x as int) <= XYZ_MAX as int && abs_i(c.y as int) <= XYZ_MAX as int && abs_i(c.z as int)
        <= XYZ_MAX as int
}

/// The pixel a flat sample index addresses: column from the remainder,
/// row flipped into screen convention.
pub fn pixel_coords(n: usize, width: usize, height: usize) -> (r: (usize, usize))
    requires
        width >= 1,
        n < width * height,
    ensures
        r.0 == n as int % width as int,
        r.1 == height - n as int / width as int,
        r.0 < width,
        r.1 <= height,
{
    proof {
        vstd::arithmetic::div_mod::lemma_mod_bound(n as int, width as int);
        vstd::arithmetic::div_mod::lemma_div_pos_is_pos(n as int, width as int);
        vstd::arithmetic::div_mod::lemma_fundamental_div_mod(n as int, width as int);
        assert(n as int / width as int <= height) by (nonlinear_arith)
            requires
                n < width * height,
                width >= 1,
                n as int / width as int >= 0,
                width as int * (n as int / width as int) + n as int % width as int == n as int,
                0 <= n as int % width as int,
        {}
    }
    (n % width, height - n / width)
}

/// The running per-pixel sums and the count of samples folded in.
pub struct Accumulator {
    pub buffer: Vec<Xyz>,
    pub samples_done: u64,
}

pub open spec fn acc_wf(a: Accumulator) -> bool {
    &&& a.samples_done <= SAMPLES_MAX
    &&& forall|i: int|
        0 <= i < a.buffer@.len() ==> abs_i((#[trigger] a.buffer@[i]).x as int) <= a.samples_done
            * XYZ_MAX && abs_i(a.buffer@[i].y as int) <= a.samples_done * XYZ_MAX && abs_i(
            a.buffer@[i].z as int,
        ) <= a.samples_done * XYZ_MAX
}

impl Accumulator {
    /// A zeroed buffer with one slot per pixel.
    pub fn new(pixels: usize) -> (a: Accumulator)
        ensures
            a.buffer@.len() == pixels,
            a.samples_done == 0,
            acc_wf(a),
            forall|i: int|
                0 <= i < pixels as int ==> #[trigger] a.buffer@[i] == (Xyz { x: 0, y: 0, z: 0 }),
    {
        let mut buffer: Vec<Xyz> = Vec::new();
        let mut k: usize = 0;
        while k < pixels
            invariant
                k <= pixels,
                buffer@.len() == k as int,
                forall|i: int|
                    0 <= i < k as int ==> #[trigger] buffer@[i] == (Xyz { x: 0, y: 0, z: 0 }),
            decreases pixels - k,
        {
            buffer.push(Xyz { x: 0, y: 0, z: 0 });
            k = k + 1;
        }
        Accumulator { buffer, samples_done: 0 }
    }

    /// Fold one whole sample into the sums: every pixel of the sample is
    /// added before the count moves, so the counter always names the
    /// number of whole samples in the buffer.
    pub fn add_sample(&mut self, sample: &Vec<Xyz>)
        requires
            acc_wf(*old(self)),
            old(self).samples_done < SAMPLES_MAX,
            sample@.len() == old(self).buffer@.len(),
            forall|i: int| 0 <= i < sample@.len() ==> xyz_ok(#[trigger] sample@[i]),
        ensures
            acc_wf(*final(self)),
            final(self).samples_done == old(self).samples_done + 1,
            final(self).buffer@.len() == old(self).buffer@.len(),
            forall|i: int|
                0 <= i < old(self).buffer@.len() ==> #[trigger] final(self).buffer@[i] == (Xyz {
                    x: (old(self).buffer@[i].x + sample@[i].x) as i64,
                    y: (old(self).buffer@[i].y + sample@[i].y) as i64,
                    z: (old(self).buffer@[i].z + sample@[i].z) as i64,
                }),
    {
        let n = self.buffer.len();
        let mut k: usize = 0;
        while k < n
            invariant
                k <= n,
                n == self.buffer@.len(),
                n == old(self).buffer@.len(),
                n == sample@.len(),
                self.samples_done == old(self).samples_done,
                acc_wf(*old(self)),
                old(self).samples_done < SAMPLES_MAX,
                forall|i: int| 0 <= i < sample@.len() ==> xyz_ok(#[trigger] sample@[i]),
                forall|i: int|
                    k as int <= i < n as int ==> #[trigger] self.buffer@[i] == old(self).buffer@[i],
                forall|i: int|
                    0 <= i < k as int ==> #[trigger] self.buffer@[i] == (Xyz {
                        x: (old(self).buffer@[i].x + sample@[i].x) as i64,
                        y: (old(self).buffer@[i].y + sample@[i].y) as i64,
                        z: (old(self).buffer@[i].z + sample@[i].z) as i64,
                    }),
            decreases n - k,
        {
            proof {
                assert(xyz_ok(sample@[k as int]));
                assert(abs_i(old(self).buffer@[k as int].x as int) <= old(self).samples_done
                    * XYZ_MAX);
                let ghost sd = old(self).samples_done;
                assert(sd * XYZ_MAX <= SAMPLES_MAX * XYZ_MAX) by (nonlinear_arith)
                    requires
                        sd <= SAMPLES_MAX,
                        XYZ_MAX > 0,
                        SAMPLES_MAX == 0x8000u64,
                        XYZ_MAX == 0x8000_0000_0000i64,
                {}
            }
            let s = sample[k];
            let b = self.buffer[k];
            let merged = Xyz { x: b.x + s.x, y: b.y + s.y, z: b.z + s.z };
            self.buffer[k] = merged;
            k = k + 1;
        }
        self.samples_done = self.samples_done + 1;
        proof {
            assert forall|i: int| 0 <= i < self.buffer@.len() implies abs_i(
                (#[trigger] self.buffer@[i]).x as int,
            ) <= self.samples_done * XYZ_MAX && abs_i(self.buffer@[i].y as int)
                <= self.samples_done * XYZ_MAX && abs_i(self.buffer@[i].z as int)
                <= self.samples_done * XYZ_MAX by {
                assert(xyz_ok(sample@[i]));
                assert(abs_i(old(self).buffer@[i].x as int) <= old(self).samples_done * XYZ_MAX);
                let ghost sd = old(self).samples_done;
                assert((sd + 1) * XYZ_MAX == sd * XYZ_MAX + XYZ_MAX) by (nonlinear_arith) {}
            }
        }
    }
}

} // verus!
