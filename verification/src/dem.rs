use vstd::prelude::*;

use std::io::Cursor;

use image::ImageReader;

use crate::coords::spec_local_in_tile;

verus! {

/// Cells of one 256 x 256 elevation tile.
pub const GRID_CELLS: usize = 65536;

/// Elevation encoded by one DEM pixel, in centimeters: with
/// x = 65536 R + 256 G + B, the sample is x below the sign threshold 2^23,
/// x - 2^24 above it, and 0 at the threshold itself, which encodes no-data.
pub open spec fn spec_elevation_cm(r: u8, g: u8, b: u8) -> int {
    let x = 65536 * (r as int) + 256 * (g as int) + (b as int);
    if x < 0x80_0000 {
        x
    } else if x > 0x80_0000 {
        x - 0x100_0000
    } else {
        0
    }
}

/// Decodes one RGB pixel of a DEM raster into centimeters of elevation.
pub fn decode_pixel_cm(r: u8, g: u8, b: u8) -> (e: i32)
    ensures
        e as int == spec_elevation_cm(r, g, b),
{
    let x: i32 = 65536 * (r as i32) + 256 * (g as i32) + (b as i32);
    if x < 0x80_0000 {
        x
    } else if x > 0x80_0000 {
        x - 0x100_0000
    } else {
        0
    }
}

/// What the image decoder yields for a fetched DEM document: the raw RGB
/// bytes of the decoded raster, row-major, three bytes per pixel; nothing
/// when the bytes are no readable image.
pub uninterp spec fn decoded_rgb_of(bytes: Seq<u8>) -> Option<Seq<u8>>;

/// Relies on `image::ImageReader` with a guessed format, `decode`, and
/// `DynamicImage::into_rgb8`: the decoded raster as row-major RGB bytes,
/// three per pixel.  The result depends on the fetched bytes alone; any
/// decode failure is handed back as `None`.
#[verifier::external_body]
fn decode_image_rgb(bytes: &Vec<u8>) -> (r: Option<Vec<u8>>)
    ensures
        match r {
            Some(v) => decoded_rgb_of(bytes@) == Some(v@),
            None => decoded_rgb_of(bytes@) is None,
        },
{
    let reader = match ImageReader::new(Cursor::new(bytes)).with_guessed_format() {
        Ok(reader) => reader,
        Err(_) => return None,
    };
    match reader.decode() {
        Ok(img) => Some(img.into_rgb8().into_raw()),
        Err(_) => None,
    }
}

/// The elevation grid cell drawn from decoded RGB bytes.
pub open spec fn spec_grid_cell(rgb: Seq<u8>, i: int) -> int {
    spec_elevation_cm(rgb[3 * i], rgb[3 * i + 1], rgb[3 * i + 2])
}

/// Decodes a fetched DEM tile document into its 256 x 256 elevation grid,
/// in centimeters.  A document that does not decode to a full 256 x 256
/// RGB raster is recovered locally as an all-zero grid, never surfaced as
/// an error.
pub fn decode_dem_tile(bytes: &Vec<u8>) -> (g: Vec<i32>)
    ensures
        g@.len() == GRID_CELLS,
        match decoded_rgb_of(bytes@) {
            Some(rgb) => {
                if rgb.len() == 3 * GRID_CELLS {
                    forall|i: int| 0 <= i < GRID_CELLS ==> g@[i] == spec_grid_cell(rgb, i)
                } else {
                    forall|i: int| 0 <= i < GRID_CELLS ==> g@[i] == 0
                }
            },
            None => forall|i: int| 0 <= i < GRID_CELLS ==> g@[i] == 0,
        },
{
    let decoded = decode_image_rgb(bytes);
    match decoded {
        Some(rgb) => {
            if rgb.len() == 3 * GRID_CELLS {
                let mut g: Vec<i32> = Vec::new();
                let mut i: usize = 0;
                while i < GRID_CELLS
                    invariant
                        i <= GRID_CELLS,
                        rgb@.len() == 3 * GRID_CELLS,
                        g@.len() == i,
                        forall|k: int| 0 <= k < i ==> g@[k] == spec_grid_cell(rgb@, k),
                    decreases GRID_CELLS - i,
                {
                    let e = decode_pixel_cm(rgb[3 * i], rgb[3 * i + 1], rgb[3 * i + 2]);
                    g.push(e);
                    i = i + 1;
                }
                g
            } else {
                zero_grid()
            }
        },
        None => zero_grid(),
    }
}

/// The all-zero elevation grid substituted for an unreadable DEM tile.
pub fn zero_grid() -> (g: Vec<i32>)
    ensures
        g@.len() == GRID_CELLS,
        forall|i: int| 0 <= i < GRID_CELLS ==> g@[i] == 0,
{
    let mut g: Vec<i32> = Vec::new();
    let mut i: usize = 0;
    while i < GRID_CELLS
        invariant
            i <= GRID_CELLS,
            g@.len() == i,
            forall|k: int| 0 <= k < i ==> g@[k] == 0,
        decreases GRID_CELLS - i,
    {
        g.push(0);
        i = i + 1;
    }
    g
}

/// The elevation sample of a global pixel coordinate within its tile's
/// grid: the cell at the local offset, row-major.
pub fn altitude_at(grid: &Vec<i32>, px: u32, py: u32) -> (e: i32)
    requires
        grid@.len() == GRID_CELLS,
    ensures
        e == grid@[spec_local_in_tile(px, py).1 as int * 256 + spec_local_in_tile(px, py).0 as int],
{
    let lx = px % 256;
    let ly = py % 256;
    grid[(ly * 256 + lx) as usize]
}

} // verus!
