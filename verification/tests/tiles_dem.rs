use image::{ImageFormat, RgbImage};

use river_graph::dem::{altitude_at, decode_dem_tile, decode_pixel_cm, zero_grid};
use river_graph::tiles::{
    build_hierarchy, corner_in_face, face_member_rows, locate_tiles, tile_overlaps_face, FacePx,
    MemberRow, TileRef,
};

fn big_face() -> FacePx {
    FacePx {
        ax: 0,
        ay: 0,
        bx: 10000,
        by: 0,
        cx: 0,
        cy: 10000,
        id_a: 1,
        id_b: 2,
        id_c: 3,
    }
}

#[test]
fn corner_test_matches_half_plane_signs() {
    let f = big_face();
    assert!(corner_in_face(&f, 100, 100));
    assert!(corner_in_face(&f, 0, 0));
    assert!(!corner_in_face(&f, -1, -10));
    assert!(!corner_in_face(&f, 9000, 9000));
}

#[test]
fn tile_inside_large_triangle_is_member() {
    let f = big_face();
    // Tile (5, 5) spans pixels 1280..=1536 on both axes: all four corners
    // lie inside the triangle.
    assert!(tile_overlaps_face(&f, 5, 5));
    let rows = face_member_rows(&f);
    for id in 1..=3u32 {
        assert!(rows.contains(&MemberRow { tile_x: 5, tile_y: 5, node_id: id }));
    }
}

#[test]
fn tile_outside_triangle_is_never_member() {
    let f = big_face();
    // Tile (30, 30) spans pixels 7680..=7936: beyond the hypotenuse.
    assert!(!tile_overlaps_face(&f, 30, 30));
    let rows = locate_tiles(&vec![f]);
    assert!(!rows.iter().any(|r| r.tile_x == 30 && r.tile_y == 30));
}

#[test]
fn hierarchy_walks_to_the_root_tile() {
    let rows = build_hierarchy(&vec![(5, 3)], 3);
    let want_entities = [
        TileRef { x: 5, y: 3, zoom: 3 },
        TileRef { x: 2, y: 1, zoom: 2 },
        TileRef { x: 1, y: 0, zoom: 1 },
        TileRef { x: 0, y: 0, zoom: 0 },
    ];
    assert_eq!(rows.entities.len(), want_entities.len());
    for e in &want_entities {
        assert!(rows.entities.contains(e));
    }
    assert_eq!(rows.family.len(), 3);
    for w in want_entities.windows(2) {
        assert!(rows
            .family
            .iter()
            .any(|fr| fr.parent == w[1] && fr.child == w[0]));
    }
}

#[test]
fn hierarchy_deduplicates_shared_ancestors() {
    // Two sibling tiles share every ancestor.
    // (4,4) and (5,5) share the parent (2,2) and every higher ancestor.
    let rows = build_hierarchy(&vec![(4, 4), (5, 5), (4, 4)], 2);
    assert_eq!(rows.entities.len(), 2 + 1 + 1);
    assert_eq!(rows.family.len(), 2 + 1);
}

#[test]
fn dem_pixel_decoding_is_bit_exact() {
    assert_eq!(decode_pixel_cm(0, 0, 0), 0);
    assert_eq!(decode_pixel_cm(0, 0, 100), 100);
    assert_eq!(decode_pixel_cm(0, 1, 0), 256);
    // The sign threshold 2^23 encodes no-data.
    assert_eq!(decode_pixel_cm(128, 0, 0), 0);
    assert_eq!(decode_pixel_cm(128, 0, 1), 1 - 0x80_0000);
    assert_eq!(decode_pixel_cm(255, 255, 255), -1);
}

#[test]
fn unreadable_dem_tile_becomes_zero_grid() {
    let g = decode_dem_tile(&vec![1, 2, 3, 4]);
    assert_eq!(g.len(), 65536);
    assert!(g.iter().all(|&e| e == 0));
    assert_eq!(zero_grid(), g);
}

#[test]
fn dem_tile_decodes_through_the_image_reader() {
    let mut img = RgbImage::new(256, 256);
    img.put_pixel(0, 0, image::Rgb([0, 0, 123]));
    img.put_pixel(1, 0, image::Rgb([0, 1, 0]));
    let mut bytes: Vec<u8> = Vec::new();
    img.write_to(&mut std::io::Cursor::new(&mut bytes), ImageFormat::Png)
        .unwrap();
    let g = decode_dem_tile(&bytes);
    assert_eq!(g.len(), 65536);
    assert_eq!(g[0], 123);
    assert_eq!(g[1], 256);
    assert_eq!(g[2], 0);
    // The sample of global pixel (257, 1) reads local cell (1, 1).
    assert_eq!(altitude_at(&g, 257, 1), g[257]);
}
