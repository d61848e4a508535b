//! The player's scale from active special effects, as `f32` bit patterns:
//! the first effect of the table that is active gives the scale, without
//! compounding, and the result is clamped to the supported range.
use vstd::prelude::*;
use crate::config::UNIT_SCALE_BITS;

verus! {

/// `0.5f32`.
pub const SCALE_MIN_BITS: u32 = 0x3F00_0000;
/// `3.0f32`.
pub const SCALE_MAX_BITS: u32 = 0x4040_0000;
/// Effects a table entry may have.
pub const SCALE_EFFECT_COUNT: usize = 14;

/// The scale effects in priority order: effect id and scale bits.
pub open spec fn scale_effect(i: int) -> (i32, u32) {
    if i == 0 {
        (21202000, 0x3F86_6666)
    } else if i == 1 {
        (21202001, 0x3F8C_CCCD)
    } else if i == 2 {
        (21202002, 0x3F93_3333)
    } else if i == 3 {
        (21202003, 0x3F99_999A)
    } else if i == 4 {
        (21202004, 0x3FA0_0000)
    } else if i == 5 {
        (21202005, 0x3FA6_6666)
    } else if i == 6 {
        (21202050, 0x3F73_3333)
    } else if i == 7 {
        (21202051, 0x3F66_6666)
    } else if i == 8 {
        (21202052, 0x3F59_999A)
    } else if i == 9 {
        (21202053, 0x3F4C_CCCD)
    } else if i == 10 {
        (21202054, 0x3F40_0000)
    } else if i == 11 {
        (21202055, 0x3F33_3333)
    } else if i == 12 {
        (8020400, 0x3F00_0000)
    } else {
        (8020401, 0x4040_0000)
    }
}

fn scale_effect_exec(i: usize) -> (e: (i32, u32))
    requires
        i < SCALE_EFFECT_COUNT,
    ensures
        e == scale_effect(i as int),
{
    if i == 0 {
        (21202000, 0x3F86_6666)
    } else if i == 1 {
        (21202001, 0x3F8C_CCCD)
    } else if i == 2 {
        (21202002, 0x3F93_3333)
    } else if i == 3 {
        (21202003, 0x3F99_999A)
    } else if i == 4 {
        (21202004, 0x3FA0_0000)
    } else if i == 5 {
        (21202005, 0x3FA6_6666)
    } else if i == 6 {
        (21202050, 0x3F73_3333)
    } else if i == 7 {
        (21202051, 0x3F66_6666)
    } else if i == 8 {
        (21202052, 0x3F59_999A)
    } else if i == 9 {
        (21202053, 0x3F4C_CCCD)
    } else if i == 10 {
        (21202054, 0x3F40_0000)
    } else if i == 11 {
        (21202055, 0x3F33_3333)
    } else if i == 12 {
        (8020400, 0x3F00_0000)
    } else {
        (8020401, 0x4040_0000)
    }
}

/// The scale of the first active effect of the table from entry `i` on, or
/// unit scale when none is active.
pub open spec fn spec_first_matching(active: spec_fn(i32) -> bool, i: nat) -> u32
    decreases SCALE_EFFECT_COUNT - i,
{
    if i >= SCALE_EFFECT_COUNT {
        UNIT_SCALE_BITS
    } else if active(scale_effect(i as int).0) {
        scale_effect(i as int).1
    } else {
        spec_first_matching(active, i + 1)
    }
}

/// The effect query answers as `active` does.
pub open spec fn answers_as<F: Fn(i32) -> bool>(is_active: F, active: spec_fn(i32) -> bool) -> bool {
    forall|id: i32, b: bool| #[trigger] is_active.ensures((id,), b) ==> b == active(id)
}

/// The scale of the first active effect of the table, in priority order, or
/// unit scale when none is active. Effects are queried in table order and no
/// further once one is active.
pub fn first_matching_scale(is_active: impl Fn(i32) -> bool) -> (bits: u32)
    requires
        forall|id: i32| is_active.requires((id,)),
    ensures
        forall|active: spec_fn(i32) -> bool|
            answers_as(is_active, active) ==> bits == spec_first_matching(active, 0),
        bits == UNIT_SCALE_BITS || exists|i: int|
            0 <= i < SCALE_EFFECT_COUNT && bits == scale_effect(i).1 && is_active.ensures(
                (scale_effect(i).0,),
                true,
            ),
{
    let mut i: usize = 0;
    while i < SCALE_EFFECT_COUNT
        invariant
            i <= SCALE_EFFECT_COUNT,
            forall|id: i32| is_active.requires((id,)),
            forall|active: spec_fn(i32) -> bool|
                answers_as(is_active, active) ==> spec_first_matching(active, 0)
                    == spec_first_matching(active, i as nat),
        decreases SCALE_EFFECT_COUNT - i,
    {
        let (effect, scale) = scale_effect_exec(i);
        let hit = is_active(effect);
        if hit {
            proof {
                assert forall|active: spec_fn(i32) -> bool|
                    answers_as(is_active, active) implies spec_first_matching(active, 0) == scale by {
                    assert(active(effect));
                }
            }
            return scale;
        }
        proof {
            assert forall|active: spec_fn(i32) -> bool|
                answers_as(is_active, active) implies spec_first_matching(active, 0)
                    == spec_first_matching(active, (i + 1) as nat) by {
                assert(!active(effect));
            }
        }
        i = i + 1;
    }
    UNIT_SCALE_BITS
}

/// The clamp of a scale, read from its bits: a NaN or infinite scale is
/// unit; a negative one (negative zero included) is the minimum; a
/// nonnegative finite one is bounded by the minimum and maximum, which for
/// such values orders as their bits do.
pub open spec fn spec_clamp_scale_bits(bits: u32) -> u32 {
    if bits & 0x7F80_0000 == 0x7F80_0000 {
        UNIT_SCALE_BITS
    } else if bits & 0x8000_0000 != 0 {
        SCALE_MIN_BITS
    } else if bits < SCALE_MIN_BITS {
        SCALE_MIN_BITS
    } else if bits > SCALE_MAX_BITS {
        SCALE_MAX_BITS
    } else {
        bits
    }
}

/// Clamps a scale into the supported range, on its bits.
pub fn clamp_scale_bits(bits: u32) -> (r: u32)
    ensures
        r == spec_clamp_scale_bits(bits),
{
    if bits & 0x7F80_0000 == 0x7F80_0000 {
        UNIT_SCALE_BITS
    } else if bits & 0x8000_0000 != 0 {
        SCALE_MIN_BITS
    } else if bits < SCALE_MIN_BITS {
        SCALE_MIN_BITS
    } else if bits > SCALE_MAX_BITS {
        SCALE_MAX_BITS
    } else {
        bits
    }
}

/// A clamped scale is unit or lies within the supported range.
pub proof fn clamped_scale_is_in_range(bits: u32)
    ensures
        SCALE_MIN_BITS <= spec_clamp_scale_bits(bits) <= SCALE_MAX_BITS,
{
}

/// Every scale of the effect table lies within the supported range, so the
/// first matching effect is never changed by the clamp.
pub proof fn table_scales_are_in_range(i: int)
    requires
        0 <= i < SCALE_EFFECT_COUNT,
    ensures
        spec_clamp_scale_bits(scale_effect(i).1) == scale_effect(i).1,
{
    let v: u32 = scale_effect(i).1;
    assert(v & 0x7F80_0000 != 0x7F80_0000 && v & 0x8000_0000 == 0) by (bit_vector)
        requires
            v == 0x3F86_6666u32 || v == 0x3F8C_CCCDu32 || v == 0x3F93_3333u32 || v
                == 0x3F99_999Au32 || v == 0x3FA0_0000u32 || v == 0x3FA6_6666u32 || v
                == 0x3F73_3333u32 || v == 0x3F66_6666u32 || v == 0x3F59_999Au32 || v
                == 0x3F4C_CCCDu32 || v == 0x3F40_0000u32 || v == 0x3F33_3333u32 || v
                == 0x3F00_0000u32 || v == 0x4040_0000u32,
    ;
}

} // verus!
