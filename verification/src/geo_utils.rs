//! Zoom-level helpers for the tile pipeline.

use vstd::prelude::*;

verus! {

/// The finest H3 resolution; points are never clustered at this resolution.
pub const MAX_H3_RESOLUTION: u32 = 15;

/// The H3 resolution for a zoom level: 15 from zoom 15 on; below
/// that, `min(15, (3*z + 10) / 5)`, the integer form of
/// `floor(0.6*z + 2)`.
pub open spec fn spec_h3_resolution(z: u32) -> u32 {
    if z >= 15 {
        15u32
    } else {
        vstd::math::min(15, (3 * z + 10) as int / 5) as u32
    }
}

/// Maps a slippy-map zoom level to the H3 resolution used to cluster
/// points at that zoom.  From zoom 15 on, the finest resolution is used
/// and clustering is effectively disabled; below that the resolution
/// grows linearly with the zoom, three resolution steps for every five
/// zoom steps starting from resolution 2.
pub fn translate_zoom_to_h3_resolution(z: u32) -> (res: u32)
    ensures
        res == spec_h3_resolution(z),
        z >= 15 ==> res == 15,
        z < 15 ==> res == vstd::math::min(15, (3 * z + 10) as int / 5) as u32,
        res <= 15,
{
    if z >= 15 {
        return MAX_H3_RESOLUTION;
    }

    let resolution: u32 = (3 * z + 10) / 5;
    if resolution < MAX_H3_RESOLUTION {
        resolution
    } else {
        MAX_H3_RESOLUTION
    }
}

} // verus!
