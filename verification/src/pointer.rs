//! Where on the pointer surface a hand position lands.

use vstd::prelude::*;
use crate::config::{Volume, SCREEN_HEIGHT, SCREEN_WIDTH};

verus! {

/// The size of an integer.
pub open spec fn magnitude(v: int) -> int {
    if v < 0 {
        -v
    } else {
        v
    }
}

/// The fraction `n / d` with its fractional part cut off, towards zero. `d`
/// is not zero.
pub open spec fn truncated_quotient(n: int, d: int) -> int {
    let size = magnitude(n) / magnitude(d);
    if (n < 0) == (d < 0) {
        size
    } else {
        -size
    }
}

/// Limits a value to what an `i32` holds.
pub open spec fn clamp_to_i32(v: int) -> int {
    if v < i32::MIN {
        i32::MIN as int
    } else if v > i32::MAX {
        i32::MAX as int
    } else {
        v
    }
}

/// The pixel that `value` maps to when `source_min` maps to pixel 0 and
/// `source_max` to pixel `extent`: the exact image, truncated towards zero
/// and limited to the `i32` range. `source_min` and `source_max` differ.
pub open spec fn screen_coordinate(value: int, source_min: int, source_max: int, extent: int) -> int {
    clamp_to_i32(truncated_quotient((value - source_min) * extent, source_max - source_min))
}

/// Computes [`screen_coordinate`].
pub fn map_to_screen(value: i32, source_min: i32, source_max: i32, extent: i32) -> (pixel: i32)
    requires
        source_min != source_max,
    ensures
        pixel == screen_coordinate(
            value as int,
            source_min as int,
            source_max as int,
            extent as int,
        ),
{
    let offset: i128 = value as i128 - source_min as i128;
    let width: i128 = source_max as i128 - source_min as i128;
    assert(-0x1_0000_0000 * 0x1_0000_0000 <= offset * extent <= 0x1_0000_0000 * 0x1_0000_0000)
        by (nonlinear_arith)
        requires
            -0x1_0000_0000 <= offset <= 0x1_0000_0000,
            -0x1_0000_0000 <= extent <= 0x1_0000_0000,
    ;
    let image: i128 = offset * (extent as i128);
    let top: i128 = if image < 0 {
        -image
    } else {
        image
    };
    let bottom: i128 = if width < 0 {
        -width
    } else {
        width
    };
    let size: i128 = top / bottom;
    assert(0 <= size <= top) by (nonlinear_arith)
        requires
            size == top / bottom,
            top >= 0,
            bottom > 0,
    ;
    let quotient: i128 = if (image < 0) == (width < 0) {
        size
    } else {
        -size
    };
    if quotient < i32::MIN as i128 {
        i32::MIN
    } else if quotient > i32::MAX as i128 {
        i32::MAX
    } else {
        quotient as i32
    }
}

/// Maps the smoothed hand position to a pixel of the pointer surface: the
/// tracked width onto the screen width, the tracked height onto the screen
/// height.
pub fn map_leap_coordinates_to_screen(leap_x: i32, leap_y: i32, volume: &Volume) -> (pixel: (
    i32,
    i32,
))
    requires
        volume.wf(),
    ensures
        pixel.0 == screen_coordinate(
            leap_x as int,
            volume.min_x as int,
            volume.max_x as int,
            SCREEN_WIDTH as int,
        ),
        pixel.1 == screen_coordinate(
            leap_y as int,
            volume.min_y as int,
            volume.max_y as int,
            SCREEN_HEIGHT as int,
        ),
{
    (
        map_to_screen(leap_x, volume.min_x, volume.max_x, SCREEN_WIDTH),
        map_to_screen(leap_y, volume.min_y, volume.max_y, SCREEN_HEIGHT),
    )
}

/// The ends of the source interval land on the ends of the surface.
pub proof fn lemma_screen_endpoints(source_min: int, source_max: int, extent: int)
    requires
        source_min != source_max,
        i32::MIN <= extent <= i32::MAX,
    ensures
        screen_coordinate(source_min, source_min, source_max, extent) == 0,
        screen_coordinate(source_max, source_min, source_max, extent) == extent,
{
    let width = source_max - source_min;
    assert((source_min - source_min) * extent == 0) by (nonlinear_arith);
    assert(0int / magnitude(width) == 0) by (nonlinear_arith)
        requires
            magnitude(width) > 0,
    ;
    let image = width * extent;
    assert(magnitude(image) == magnitude(width) * magnitude(extent)) by (nonlinear_arith)
        requires
            image == width * extent,
    ;
    assert((magnitude(width) * magnitude(extent)) / magnitude(width) == magnitude(extent))
        by (nonlinear_arith)
        requires
            magnitude(width) > 0,
    ;
    assert((image < 0) == ((width < 0) != (extent < 0)) || extent == 0) by (nonlinear_arith)
        requires
            image == width * extent,
            width != 0,
    ;
}

} // verus!
