//! Pictures on their way to the encoder: the size they are recorded in, and the
//! pool of textures that they are converted into.

use vstd::prelude::*;

verus! {

/// How many textures there are to convert into; more than an encoder queues.
pub const POOL: usize = 16;

/// Which texture of the pool is next.
pub struct PoolCursor {
    next: usize,
}

impl PoolCursor {
    /// The slot that comes next.
    pub closed spec fn slot(self) -> int {
        self.next as int
    }

    /// The slot is one of the pool.
    pub closed spec fn wf(self) -> bool {
        self.next < POOL
    }

    /// A cursor at the first texture.
    pub fn new() -> (c: PoolCursor)
        ensures
            c.wf(),
            c.slot() == 0,
    {
        PoolCursor { next: 0 }
    }

    /// Hands out the next slot and moves on, round and round.
    pub fn advance(&mut self) -> (slot: usize)
        requires
            old(self).wf(),
        ensures
            final(self).wf(),
            slot == old(self).slot(),
            slot < POOL,
            final(self).slot() == (slot + 1) % (POOL as int),
    {
        let slot: usize = self.next;
        self.next = (self.next + 1) % POOL;
        slot
    }
}

/// The size of a picture in `in_w` by `in_h` pixels for a recording `target_h`
/// high: as it is if that is zero or not below it, else scaled down in shape.
/// Both sides are cut to even.
pub open spec fn output_dims(in_w: int, in_h: int, target_h: int) -> (int, int) {
    if target_h == 0 || in_h <= target_h {
        (in_w - in_w % 2, in_h - in_h % 2)
    } else {
        let w = in_w * target_h / in_h;
        (w - w % 2, target_h - target_h % 2)
    }
}

/// `n` cut to an even number.
fn even(n: u32) -> (e: u32)
    ensures
        e == n - n % 2,
{
    assert((n & !1u32) == n - n % 2) by (bit_vector);
    n & !1u32
}

/// The size that a picture is recorded in.
pub fn output_size(in_w: u32, in_h: u32, target_h: u32) -> (r: (u32, u32))
    ensures
        (r.0 as int, r.1 as int) == output_dims(in_w as int, in_h as int, target_h as int),
        r.0 % 2 == 0 && r.1 % 2 == 0,
        target_h == 0 || in_h <= target_h ==> in_w - 1 <= r.0 <= in_w && in_h - 1 <= r.1 <= in_h,
        0 < target_h < in_h ==> target_h - 1 <= r.1 <= target_h && r.0 * in_h <= in_w * target_h < (
        r.0 + 2) * in_h,
{
    if target_h == 0 || in_h <= target_h {
        (even(in_w), even(in_h))
    } else {
        proof {
            lemma_scaled(in_w as int, in_h as int, target_h as int);
            law_output_keeps_the_shape(in_w, in_h, target_h);
        }
        let w: u32 = (in_w as u64 * target_h as u64 / in_h as u64) as u32;
        (even(w), even(target_h))
    }
}

/// Scaling down gives a width that fits.
proof fn lemma_scaled(w: int, h: int, t: int)
    requires
        0 <= w <= u32::MAX,
        0 < t < h <= u32::MAX,
    ensures
        0 <= w * t <= u64::MAX,
        0 <= w * t / h <= w,
{
    assert(0 <= w * t <= u64::MAX) by (nonlinear_arith)
        requires
            0 <= w <= 0xFFFF_FFFF,
            0 < t <= 0xFFFF_FFFF,
    ;
    assert(w * t <= w * h) by (nonlinear_arith)
        requires
            0 <= w,
            t < h,
    ;
    vstd::arithmetic::div_mod::lemma_div_is_ordered(w * t, w * h, h);
    vstd::arithmetic::div_mod::lemma_div_multiples_vanish(w, h);
    assert(h * w == w * h) by (nonlinear_arith);
    vstd::arithmetic::div_mod::lemma_div_pos_is_pos(w * t, h);
}

// ---------------------------------------------------------------------------
// Laws
// ---------------------------------------------------------------------------

/// Law: a recording is even on both sides, and no larger than the picture.
pub proof fn law_output_is_even_and_no_larger(in_w: u32, in_h: u32, target_h: u32)
    ensures
        ({
            let (w, h) = output_dims(in_w as int, in_h as int, target_h as int);
            &&& w % 2 == 0 && h % 2 == 0
            &&& 0 <= w <= in_w && 0 <= h <= in_h
            &&& target_h > 0 ==> h <= target_h
        }),
{
    if target_h > 0 && in_h > target_h {
        lemma_scaled(in_w as int, in_h as int, target_h as int);
    }
}

/// Law: a texture is handed out again only once all the others have been.
pub proof fn law_slots_take_turns(slot: int, steps: int)
    requires
        0 <= slot < POOL,
        0 < steps < POOL,
    ensures
        (slot + steps) % (POOL as int) != slot,
{
}

/// Law: scaling keeps the shape: the width is the exact one but for the cut to
/// whole and even pixels, less than three of them.
pub proof fn law_output_keeps_the_shape(in_w: u32, in_h: u32, target_h: u32)
    requires
        0 < target_h < in_h,
    ensures
        ({
            let (w, h) = output_dims(in_w as int, in_h as int, target_h as int);
            w * in_h <= in_w * target_h < (w + 2) * in_h
        }),
{
    let n = in_w * target_h;
    let q = n / (in_h as int);
    let (w, h) = output_dims(in_w as int, in_h as int, target_h as int);
    vstd::arithmetic::div_mod::lemma_fundamental_div_mod(n, in_h as int);
    assert(w <= q && q + 1 <= w + 2);
    assert(w * in_h <= n < (w + 2) * in_h) by (nonlinear_arith)
        requires
            w <= q,
            q + 1 <= w + 2,
            n == in_h * q + n % (in_h as int),
            0 <= n % (in_h as int) < in_h,
            in_h > 0,
    ;
}

/// Law: a picture that is not scaled down passes through: at native resolution, or
/// where it is no higher than the recording, it loses one pixel at most on each
/// side, to be even.
pub proof fn law_small_pictures_pass_through(in_w: u32, in_h: u32, target_h: u32)
    requires
        target_h == 0 || in_h <= target_h,
    ensures
        ({
            let (w, h) = output_dims(in_w as int, in_h as int, target_h as int);
            &&& in_w - 1 <= w <= in_w && w % 2 == 0
            &&& in_h - 1 <= h <= in_h && h % 2 == 0
        }),
{
}

/// Law: a higher picture is scaled down to the height that was asked for, but for
/// one pixel at most.
pub proof fn law_tall_pictures_get_the_height(in_w: u32, in_h: u32, target_h: u32)
    requires
        0 < target_h < in_h,
    ensures
        ({
            let (w, h) = output_dims(in_w as int, in_h as int, target_h as int);
            target_h - 1 <= h <= target_h && h % 2 == 0
        }),
{
}

/// Law: fifteen other textures are handed out before one comes again.
pub proof fn law_sixteen_slots_take_turns(slot: int, steps: int)
    requires
        0 <= slot < POOL,
        0 < steps < 16,
    ensures
        (slot + steps) % (POOL as int) != slot,
        (slot + 16) % (POOL as int) == slot,
{
}

} // verus!
