use vstd::prelude::*;

verus! {

/// Highest zoom level the slippy-map projection accepts.
pub const MAX_ZOOM: u8 = 24;

/// Zoom level of the fixed grid that node identities quantize to.
pub const IDENTITY_ZOOM: u8 = 18;

/// Pixels per tile side.
pub const TILE_SIDE: u32 = 256;

/// Nanodegrees per degree: positions are held in fixed point.
pub const NANO_PER_DEG: i64 = 1_000_000_000;

/// A WGS-84 position in fixed point: longitude and latitude in nanodegrees.
#[derive(Clone, Copy, PartialEq, Eq, Structural, Debug)]
pub struct GeoPoint {
    pub long_nd: i64,
    pub lat_nd: i64,
}

pub open spec fn valid_zoom(zoom: u8) -> bool {
    zoom <= MAX_ZOOM
}

/// The tile holding a global pixel coordinate: integer division by the tile
/// side.
pub open spec fn spec_tile_of_pixel(px: u32, py: u32) -> (u32, u32) {
    ((px / 256) as u32, (py / 256) as u32)
}

pub fn tile_of_pixel(px: u32, py: u32) -> (r: (u32, u32))
    ensures
        r == spec_tile_of_pixel(px, py),
{
    (px / 256, py / 256)
}

/// The offset of a global pixel coordinate within its tile.
pub open spec fn spec_local_in_tile(px: u32, py: u32) -> (u32, u32) {
    ((px % 256) as u32, (py % 256) as u32)
}

pub fn local_in_tile(px: u32, py: u32) -> (r: (u32, u32))
    ensures
        r == spec_local_in_tile(px, py),
        r.0 < 256 && r.1 < 256,
{
    (px % 256, py % 256)
}

/// The global pixel coordinate of a tile's north-west corner.
pub fn tile_base_pixel(tile_x: u32, tile_y: u32) -> (r: Option<(u32, u32)>)
    ensures
        tile_x <= 0xFF_FFFF && tile_y <= 0xFF_FFFF
            ==> r == Some(((tile_x * 256) as u32, (tile_y * 256) as u32)),
        tile_x > 0xFF_FFFF || tile_y > 0xFF_FFFF ==> r is None,
{
    if tile_x <= 0xFF_FFFF && tile_y <= 0xFF_FFFF {
        Some((tile_x * 256, tile_y * 256))
    } else {
        None
    }
}

/// A longitude/latitude box used to prefilter which tiles are fetched, in
/// nanodegrees.  A parsed box satisfies `min < max` on both axes; the
/// built-in default is kept as the original operators wrote it, with the
/// minimum and maximum of each axis swapped, and so fails that check.
#[derive(Clone, Copy, PartialEq, Eq, Structural, Debug)]
pub struct Aabb {
    pub min_long_nd: i64,
    pub max_long_nd: i64,
    pub min_lat_nd: i64,
    pub max_lat_nd: i64,
}

pub open spec fn spec_aabb_contains(aabb: Aabb, long_nd: i64, lat_nd: i64) -> bool {
    aabb.min_long_nd <= long_nd <= aabb.max_long_nd
        && aabb.min_lat_nd <= lat_nd <= aabb.max_lat_nd
}

impl Aabb {
    pub fn contains(&self, long_nd: i64, lat_nd: i64) -> (r: bool)
        ensures
            r == spec_aabb_contains(*self, long_nd, lat_nd),
    {
        self.min_long_nd <= long_nd && long_nd <= self.max_long_nd
            && self.min_lat_nd <= lat_nd && lat_nd <= self.max_lat_nd
    }
}

impl Default for Aabb {
    /// The box of Japan in degrees, minutes and seconds, truncated to
    /// nanodegrees: 153 deg 59 min 19 s, 122 deg 55 min 57 s, 45 deg 33 min
    /// 26 s, 20 deg 25 min 31 s.  The min/max pairs stand swapped, as the
    /// original operators configured them.
    fn default() -> (r: Self)
        ensures
            r.min_long_nd == 153988611111i64,
            r.max_long_nd == 122932500000i64,
            r.min_lat_nd == 45557222222i64,
            r.max_lat_nd == 20425277777i64,
    {
        Aabb {
            min_long_nd: 153988611111,
            max_long_nd: 122932500000,
            min_lat_nd: 45557222222,
            max_lat_nd: 20425277777,
        }
    }
}

} // verus!
