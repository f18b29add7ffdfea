//! Conversions between the two coordinate semantics.
//!
//! Blocks are persisted in tile-grid units while live entities sit at world
//! pixel positions.  One grid step spans [`crate::PIXELS_PER_TILE`] pixels
//! (the 16-pixel tile drawn at the global 2.5x render scale).  Pixel to grid
//! divides and truncates toward zero, as the capture stage does; grid to
//! pixel multiplies, and reports when the product leaves the 32-bit range.

use vstd::prelude::*;

use crate::record::{GridPosition, PixelPosition};
use crate::PIXELS_PER_TILE;

verus! {

/// Division truncated toward zero, the rounding capture uses.
pub open spec fn div_trunc(a: int, d: int) -> int
    recommends
        d > 0,
{
    if a >= 0 {
        a / d
    } else {
        -((-a) / d)
    }
}

/// The grid coordinate a pixel coordinate falls in.
pub open spec fn grid_of_pixel(p: int) -> int {
    div_trunc(p, PIXELS_PER_TILE as int)
}

/// The pixel coordinate a grid coordinate maps to.
pub open spec fn pixel_of_grid(g: int) -> int {
    g * (PIXELS_PER_TILE as int)
}

/// Converts one pixel coordinate to its grid coordinate, truncating toward
/// zero.
pub fn pixel_to_grid_coord(v: i32) -> (r: i32)
    ensures
        r as int == grid_of_pixel(v as int),
{
    if v >= 0 {
        ((v as u64) / (PIXELS_PER_TILE as u64)) as i32
    } else {
        let m = ((-(v as i64)) as u64) / (PIXELS_PER_TILE as u64);
        proof {
            assert(m <= 0x8000_0000u64) by (nonlinear_arith)
                requires
                    m == ((-(v as i64)) as u64) / 40 && v < 0 && v >= i32::MIN,
            ;
        }
        (-(m as i64)) as i32
    }
}

/// Converts a pixel position to the grid position it falls in.
pub fn pixel_to_grid(p: PixelPosition) -> (r: GridPosition)
    ensures
        r.x as int == grid_of_pixel(p.x as int),
        r.y as int == grid_of_pixel(p.y as int),
{
    GridPosition { x: pixel_to_grid_coord(p.x), y: pixel_to_grid_coord(p.y) }
}

/// Converts one grid coordinate to its pixel coordinate, reporting a
/// coordinate whose pixel image leaves the 32-bit range.
pub fn grid_to_pixel_coord(v: i32) -> (r: Option<i32>)
    ensures
        r is Some <==> i32::MIN <= pixel_of_grid(v as int) <= i32::MAX,
        r matches Some(p) ==> p as int == pixel_of_grid(v as int),
{
    proof {
        assert(-0x1_0000_0000_0000i64 <= (v as i64) * (PIXELS_PER_TILE as i64)
            <= 0x1_0000_0000_0000i64) by (nonlinear_arith)
            requires
                i32::MIN <= v <= i32::MAX,
        ;
    }
    let wide = (v as i64) * (PIXELS_PER_TILE as i64);
    if wide < i32::MIN as i64 || wide > i32::MAX as i64 {
        None
    } else {
        Some(wide as i32)
    }
}

/// Converts a grid position to the pixel position of its tile, reporting a
/// position whose pixel image leaves the 32-bit range.
pub fn grid_to_pixel(g: GridPosition) -> (r: Option<PixelPosition>)
    ensures
        r is Some <==> (i32::MIN <= pixel_of_grid(g.x as int) <= i32::MAX && i32::MIN
            <= pixel_of_grid(g.y as int) <= i32::MAX),
        r matches Some(p) ==> p.x as int == pixel_of_grid(g.x as int) && p.y as int
            == pixel_of_grid(g.y as int),
{
    let x = match grid_to_pixel_coord(g.x) {
        None => {
            return None;
        },
        Some(v) => v,
    };
    let y = match grid_to_pixel_coord(g.y) {
        None => {
            return None;
        },
        Some(v) => v,
    };
    Some(PixelPosition { x, y })
}

/// Law: a grid coordinate sent to pixels and captured back lands on the
/// same grid coordinate; persisted blocks do not drift across a save cycle.
pub proof fn lemma_grid_pixel_round_trip(g: int)
    ensures
        grid_of_pixel(pixel_of_grid(g)) == g,
{
    let d = PIXELS_PER_TILE as int;
    if g >= 0 {
        assert((g * d) / d == g) by (nonlinear_arith)
            requires
                d > 0,
        ;
    } else {
        assert(g * d < 0) by (nonlinear_arith)
            requires
                d > 0 && g < 0,
        ;
        assert(-(g * d) == (-g) * d) by (nonlinear_arith);
        assert(((-g) * d) / d == -g) by (nonlinear_arith)
            requires
                d > 0,
        ;
    }
}

} // verus!
