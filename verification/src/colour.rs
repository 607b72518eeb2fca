use vstd::prelude::*;
use crate::fixed::{clamp_spec, floor_div, fsqrt, FP_BOUND, ONE};
use crate::math::{sv_add, sv_bounded, sv_in_range, sv_zero, Vec3, V3};

verus! {

/// Largest channel value after gamma correction: the floor of 0.999·ONE.
pub const CHANNEL_CAP: i128 = 65470;

/// An accumulated radiance triple (r, g, b), one fixed-point scalar per
/// channel.
#[derive(Clone, Copy, PartialEq, Eq, Structural, Debug)]
pub struct Colour(pub Vec3);

impl View for Colour {
    type V = V3;

    open spec fn view(&self) -> V3 {
        self.0@
    }
}

/// One channel of the final pixel: average the accumulated value over the
/// sample count, gamma-correct with a square root, clamp to just under one,
/// and quantize to eight bits.
pub open spec fn pixel_channel_spec(c: int, n: int) -> int {
    let g = fsqrt(floor_div(c, n));
    floor_div(clamp_spec(g, 0, CHANNEL_CAP as int) * 256, ONE as int)
}

/// Quantize one accumulated channel to an 8-bit value.
pub fn to_channel(c: i128, num_samples: usize) -> (r: u8)
    requires
        num_samples >= 1,
        0 <= c <= FP_BOUND,
    ensures
        r as int == pixel_channel_spec(c as int, num_samples as int),
{
    proof {
        vstd::arithmetic::div_mod::lemma_div_pos_is_pos(c as int, num_samples as int);
        crate::fixed::lemma_floor_div_range(c as int, num_samples as int, FP_BOUND as int);
    }
    let avg: i128 = crate::fixed::div_floor(c, num_samples as i128);
    let g: i128 = crate::fixed::fp_sqrt(avg);
    let cl: i128 = crate::fixed::clamp_fp(g, 0, CHANNEL_CAP);
    proof {
        crate::fixed::lemma_floor_div_range(cl * 256, ONE as int, (CHANNEL_CAP as int) * 256);
        vstd::arithmetic::div_mod::lemma_div_pos_is_pos(cl * 256, ONE as int);
    }
    let px: i128 = crate::fixed::div_floor(cl * 256, ONE);
    px as u8
}

impl Colour {
    /// The displayable 8-bit (r, g, b) triple for this accumulated colour.
    pub fn to_pixel(self, num_samples: usize) -> (r: (u8, u8, u8))
        requires
            num_samples >= 1,
            sv_in_range(self@, 0, FP_BOUND as int),
        ensures
            r.0 as int == pixel_channel_spec(self@.x, num_samples as int),
            r.1 as int == pixel_channel_spec(self@.y, num_samples as int),
            r.2 as int == pixel_channel_spec(self@.z, num_samples as int),
    {
        (
            to_channel(self.0.x, num_samples),
            to_channel(self.0.y, num_samples),
            to_channel(self.0.z, num_samples),
        )
    }

    pub fn zero() -> (r: Colour)
        ensures
            r@ == sv_zero(),
    {
        Colour(Vec3::zero())
    }

    pub fn is_zero(&self) -> (r: bool)
        ensures
            r == (self@ == sv_zero()),
    {
        let z: bool = self.0.x == 0 && self.0.y == 0 && self.0.z == 0;
        proof {
            if z {
                assert(self@ =~= sv_zero());
            }
        }
        z
    }

    /// Componentwise sum, for accumulating samples.
    pub fn add(self, rhs: Colour) -> (r: Colour)
        requires
            sv_bounded(self@, crate::fixed::ADD_BOUND as int),
            sv_bounded(rhs@, crate::fixed::ADD_BOUND as int),
        ensures
            r@ == sv_add(self@, rhs@),
    {
        Colour(self.0.add(&rhs.0))
    }
}

impl Vec3 {
    /// The displayable 8-bit (r, g, b) triple for this accumulated colour.
    pub fn to_pixel(self, num_samples: usize) -> (r: (u8, u8, u8))
        requires
            num_samples >= 1,
            sv_in_range(self@, 0, FP_BOUND as int),
        ensures
            r.0 as int == pixel_channel_spec(self@.x, num_samples as int),
            r.1 as int == pixel_channel_spec(self@.y, num_samples as int),
            r.2 as int == pixel_channel_spec(self@.z, num_samples as int),
    {
        (
            to_channel(self.x, num_samples),
            to_channel(self.y, num_samples),
            to_channel(self.z, num_samples),
        )
    }
}

} // verus!
