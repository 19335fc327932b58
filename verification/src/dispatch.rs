//! Partition of a frame into strips, one per worker.
//!
//! Each of the `k` strips spans `height / k` rows by integer division; the
//! remainder rows, when `k` does not divide the height evenly, are assigned
//! to the last strip — that is the remainder policy of this crate, so the
//! union of the strips always covers every row exactly once.  The fan-out of
//! the strips to workers and the join barrier live in the driver; what is
//! verified here is that the partition the workers receive is a partition.

use vstd::arithmetic::div_mod::lemma_fundamental_div_mod;
use vstd::prelude::*;

use crate::engine::covers;
use crate::engine::lemma_frame_from_strips;
use crate::engine::strip_pixels;
use crate::engine::Pixel;

verus! {

/// The first image row of strip `i` of `k`.
pub open spec fn strip_offset(height: int, k: int, i: int) -> int {
    i * (height / k)
}

/// The number of image rows of strip `i` of `k`: `height / k`, except that
/// the last strip absorbs the remainder rows.
pub open spec fn strip_height(height: int, k: int, i: int) -> int {
    if i == k - 1 {
        height - (k - 1) * (height / k)
    } else {
        height / k
    }
}

/// Every strip lies inside the image.
pub proof fn lemma_strips_in_range(height: int, k: int, i: int)
    requires
        0 <= height,
        1 <= k,
        0 <= i < k,
    ensures
        0 <= strip_offset(height, k, i),
        0 <= strip_height(height, k, i),
        strip_offset(height, k, i) + strip_height(height, k, i) <= height,
{
    let s = height / k;
    lemma_fundamental_div_mod(height, k);
    assert(0 <= s) by (nonlinear_arith)
        requires
            height == k * s + height % k,
            0 <= height % k < k,
            0 <= height,
            1 <= k,
    ;
    assert(0 <= i * s && i * s + s <= k * s && (k - 1) * s <= k * s) by (nonlinear_arith)
        requires
            0 <= i < k,
            0 <= s,
    ;
}

/// Partition coverage law: every image row lies in some strip — also when
/// `k` does not divide the height evenly, because the last strip absorbs
/// the remainder rows.
pub proof fn lemma_strips_cover(height: int, k: int, y: int)
    requires
        1 <= k,
        0 <= y < height,
    ensures
        exists|i: int|
            0 <= i < k && #[trigger] strip_offset(height, k, i) <= y < strip_offset(height, k, i)
                + strip_height(height, k, i),
{
    let s = height / k;
    lemma_fundamental_div_mod(height, k);
    assert(0 <= s) by (nonlinear_arith)
        requires
            height == k * s + height % k,
            0 <= height % k < k,
            0 < height,
            1 <= k,
    ;
    if s == 0 {
        assert(strip_offset(height, k, k - 1) == 0) by (nonlinear_arith)
            requires
                strip_offset(height, k, k - 1) == (k - 1) * s,
                s == 0,
        ;
        assert(strip_offset(height, k, k - 1) <= y < strip_offset(height, k, k - 1)
            + strip_height(height, k, k - 1));
    } else {
        let q = y / s;
        lemma_fundamental_div_mod(y, s);
        assert(0 <= q) by (nonlinear_arith)
            requires
                y == s * q + y % s,
                0 <= y % s < s,
                0 <= y,
                0 < s,
        ;
        if q < k - 1 {
            assert(q * s <= y < (q + 1) * s) by (nonlinear_arith)
                requires
                    y == s * q + y % s,
                    0 <= y % s < s,
            ;
            assert(strip_offset(height, k, q) <= y < strip_offset(height, k, q) + strip_height(
                height,
                k,
                q,
            ));
        } else {
            assert((k - 1) * s <= q * s && q * s <= y) by (nonlinear_arith)
                requires
                    y == s * q + y % s,
                    0 <= y % s < s,
                    k - 1 <= q,
                    0 < s,
            ;
            assert(strip_offset(height, k, k - 1) <= y < strip_offset(height, k, k - 1)
                + strip_height(height, k, k - 1));
        }
    }
}

/// Partition disjointness law: strips do not overlap — an earlier strip
/// ends at or before a later strip begins.
pub proof fn lemma_strips_disjoint(height: int, k: int, i: int, j: int)
    requires
        0 <= height,
        1 <= k,
        0 <= i < j < k,
    ensures
        strip_offset(height, k, i) + strip_height(height, k, i) <= strip_offset(height, k, j),
{
    let s = height / k;
    lemma_fundamental_div_mod(height, k);
    assert(0 <= s) by (nonlinear_arith)
        requires
            height == k * s + height % k,
            0 <= height % k < k,
            0 <= height,
            1 <= k,
    ;
    assert(i * s + s <= j * s) by (nonlinear_arith)
        requires
            i < j,
            0 <= s,
    ;
}

/// Adjacent strips meet exactly: no gap between one strip and the next.
pub proof fn lemma_strips_contiguous(height: int, k: int, i: int)
    requires
        1 <= k,
        0 <= i < k - 1,
    ensures
        strip_offset(height, k, i) + strip_height(height, k, i) == strip_offset(height, k, i + 1),
{
    let s = height / k;
    assert(i * s + s == (i + 1) * s) by (nonlinear_arith);
}

/// End-to-end equivalence: a frame that holds every strip of the partition
/// in its place equals the frame rendered as one full-height strip —
/// rendering through any worker count `k` changes nothing.
pub proof fn lemma_partition_renders_frame(
    frame: Seq<Pixel>,
    colors: Seq<u32>,
    width: int,
    height: int,
    k: int,
)
    requires
        width > 0,
        height >= 0,
        1 <= k,
        frame.len() == height * width,
        colors.len() == height * width,
        forall|i: int|
            0 <= i < k ==> frame.subrange(
                (height - #[trigger] strip_offset(height, k, i) - strip_height(height, k, i))
                    * width,
                (height - strip_offset(height, k, i)) * width,
            ) == strip_pixels(
                colors,
                width,
                strip_offset(height, k, i),
                strip_height(height, k, i),
            ),
    ensures
        frame =~= strip_pixels(colors, width, 0, height),
{
    let parts = Seq::new(k as nat, |i: int| (strip_offset(height, k, i), strip_height(height, k, i)));
    assert forall|p: int| 0 <= p < parts.len() implies 0 <= (#[trigger] parts[p]).0 && 0
        <= parts[p].1 && parts[p].0 + parts[p].1 <= height by {
        lemma_strips_in_range(height, k, p);
    }
    assert forall|p: int| 0 <= p < parts.len() implies frame.subrange(
        (height - (#[trigger] parts[p]).0 - parts[p].1) * width,
        (height - parts[p].0) * width,
    ) == strip_pixels(colors, width, parts[p].0, parts[p].1) by {
        assert(parts[p].0 == strip_offset(height, k, p));
        assert(parts[p].1 == strip_height(height, k, p));
    }
    assert forall|y: int| 0 <= y < height implies #[trigger] covers(parts, y) by {
        lemma_strips_cover(height, k, y);
        let i = choose|i: int|
            0 <= i < k && #[trigger] strip_offset(height, k, i) <= y < strip_offset(height, k, i)
                + strip_height(height, k, i);
        assert(0 <= i < parts.len() && parts[i].0 <= y < parts[i].0 + parts[i].1);
    }
    lemma_frame_from_strips(frame, colors, width, height, parts);
}

/// Compute the partition: the `(y_offset, y_height)` of each of the `k`
/// strips, in order.
pub fn strips(height: u32, k: u32) -> (r: Vec<(u32, u32)>)
    requires
        1 <= k,
    ensures
        r@.len() == k,
        forall|i: int|
            0 <= i < k ==> (#[trigger] r@[i]).0 == strip_offset(height as int, k as int, i)
                && r@[i].1 == strip_height(height as int, k as int, i),
{
    let s = height / k;
    proof {
        lemma_fundamental_div_mod(height as int, k as int);
    }
    let mut r: Vec<(u32, u32)> = Vec::new();
    let mut i: u32 = 0;
    while i < k - 1
        invariant
            1 <= k,
            s == height as int / k as int,
            k * s <= height,
            0 <= i <= k - 1,
            r@.len() == i,
            forall|p: int|
                0 <= p < i ==> (#[trigger] r@[p]).0 == strip_offset(height as int, k as int, p)
                    && r@[p].1 == strip_height(height as int, k as int, p),
        decreases k - 1 - i,
    {
        proof {
            assert(i * s <= (k - 1) * s && (k - 1) * s <= k * s) by (nonlinear_arith)
                requires
                    0 <= i <= k - 1,
                    0 <= s,
            ;
        }
        r.push((i * s, s));
        i = i + 1;
    }
    proof {
        assert((k - 1) * s <= k * s) by (nonlinear_arith)
            requires
                1 <= k,
                0 <= s,
        ;
    }
    r.push(((k - 1) * s, height - (k - 1) * s));
    r
}

} // verus!
