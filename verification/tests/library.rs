use coordinate_transformer::{ll2pixel, pixel2ll, ZoomLv};
use hilbert_index::ToHilbertIndex;

use river_graph::collect::{
    collect_links, filter_features, identify_line, make_bound_nodes, FeatureGeometry, RawFeature,
    RawVertex,
};
use river_graph::coords::{local_in_tile, tile_of_pixel, Aabb};
use river_graph::dedup::{deduplicate_nodes, RiverNode};
use river_graph::errors::PipelineError;
use river_graph::flags::{RvCtgFlags, RvRclFlags};
use river_graph::ident::node_id_of_cell;

fn point(long_nd: i64, lat_nd: i64) -> river_graph::coords::GeoPoint {
    river_graph::coords::GeoPoint { long_nd, lat_nd }
}

#[test]
fn identity_matches_hilbert_crate() {
    for &(x, y) in &[(0u32, 0u32), (1, 0), (123456, 654321), (0x3FF_FFFF, 0x3FF_FFFF)] {
        let expected = [x as usize, y as usize].to_hilbert_index(26) as u32;
        assert_eq!(node_id_of_cell(x, y), expected);
    }
}

#[test]
fn same_cell_same_identity() {
    // Two distinct positions close enough to land in one identity-zoom cell.
    let a = (139.7649308_f64.to_radians(), 35.6812405_f64.to_radians());
    let b = (139.7649309_f64.to_radians(), 35.6812406_f64.to_radians());
    let pa = ll2pixel(a, ZoomLv::Lv18);
    let pb = ll2pixel(b, ZoomLv::Lv18);
    assert_eq!(pa, pb);
    assert_eq!(node_id_of_cell(pa.0, pa.1), node_id_of_cell(pb.0, pb.1));
}

#[test]
fn pixel_round_trip_within_one_pixel() {
    for &(x, y, z) in &[
        (476868027u32 >> 6, 211407949u32 >> 6, ZoomLv::Lv15),
        (100u32, 200u32, ZoomLv::Lv10),
        (70000u32, 30000u32, ZoomLv::Lv14),
    ] {
        let (long, lat) = pixel2ll((x, y), z);
        let (x2, y2) = ll2pixel((long, lat), z);
        assert!((x2 as i64 - x as i64).abs() <= 1, "x {} vs {}", x2, x);
        assert!((y2 as i64 - y as i64).abs() <= 1, "y {} vs {}", y2, y);
    }
}

#[test]
fn tile_and_local_coordinates() {
    assert_eq!(tile_of_pixel(513, 255), (2, 0));
    assert_eq!(local_in_tile(513, 255), (1, 255));
}

#[test]
fn dedup_keeps_one_record_per_identity() {
    let nodes = vec![
        RiverNode { id: 1, point: point(10, 10), altitude_cm: 100 },
        RiverNode { id: 2, point: point(20, 20), altitude_cm: 200 },
        RiverNode { id: 1, point: point(11, 11), altitude_cm: 101 },
        RiverNode { id: 3, point: point(30, 30), altitude_cm: 300 },
        RiverNode { id: 2, point: point(21, 21), altitude_cm: 201 },
    ];
    let out = deduplicate_nodes(&nodes);
    assert_eq!(out.len(), 3);
    let mut ids: Vec<u32> = out.iter().map(|n| n.id).collect();
    ids.sort();
    assert_eq!(ids, vec![1, 2, 3]);
    for n in &out {
        assert!(nodes.contains(n));
    }
}

#[test]
fn all_token_parses_to_full_sets() {
    assert_eq!(RvRclFlags::from_str("all").unwrap().bits, 0x1FF);
    assert_eq!(RvCtgFlags::from_str("all").unwrap().bits, 0x3F);
}

#[test]
fn unknown_family_tokens_parse_to_unknown_flag() {
    assert_eq!(RvRclFlags::from_str("").unwrap().bits, 0x100);
    assert_eq!(RvRclFlags::from_str("不明").unwrap().bits, 0x100);
    assert_eq!(RvRclFlags::from_str("その他").unwrap().bits, 0x80);
    assert_eq!(RvCtgFlags::from_str("").unwrap().bits, 0x20);
    assert_eq!(RvCtgFlags::from_str("不明").unwrap().bits, 0x20);
}

#[test]
fn token_outside_closed_set_is_configuration_error() {
    assert_eq!(
        RvRclFlags::from_str("river").unwrap_err(),
        PipelineError::Configuration
    );
    assert_eq!(
        RvCtgFlags::from_str("xyz").unwrap_err(),
        PipelineError::Configuration
    );
}

#[test]
fn flag_list_folds_by_union() {
    let items: Vec<String> = vec!["sn".into(), "sd".into(), "n".into()];
    assert_eq!(
        river_graph::flags::parse_rcl_flag_list(&items).unwrap().bits,
        0x7
    );
    let bad: Vec<String> = vec!["p".into(), "zz".into()];
    assert_eq!(
        river_graph::flags::parse_ctg_flag_list(&bad).unwrap_err(),
        PipelineError::Configuration
    );
}

#[test]
fn filter_keeps_matching_line_features() {
    let features = vec![
        RawFeature {
            line_type: Some("用水路".to_string()),
            category: Some("一級河川".to_string()),
            geometry: FeatureGeometry::LineString(vec![
                RawVertex { cell_x: 10, cell_y: 10, point: point(1, 1) },
                RawVertex { cell_x: 20, cell_y: 20, point: point(2, 2) },
            ]),
        },
        RawFeature {
            line_type: Some("細河川（通常部）".to_string()),
            category: Some("二級河川".to_string()),
            geometry: FeatureGeometry::LineString(vec![RawVertex {
                cell_x: 30,
                cell_y: 30,
                point: point(3, 3),
            }]),
        },
    ];
    // Request only waterways of primary rivers: the second feature drops out.
    let rcl = RvRclFlags { bits: 0x40 };
    let ctg = RvCtgFlags { bits: 0x1 };
    let lines = filter_features(features, rcl, ctg).unwrap();
    assert_eq!(lines.len(), 1);
    assert_eq!(lines[0].len(), 2);
    assert_eq!(lines[0][0].id, node_id_of_cell(10, 10));
    assert_eq!(lines[0][1].id, node_id_of_cell(20, 20));
}

#[test]
fn unreadable_property_is_data_integrity_error() {
    let features = vec![RawFeature {
        line_type: Some("nonsense".to_string()),
        category: Some("一級河川".to_string()),
        geometry: FeatureGeometry::Other,
    }];
    let r = filter_features(features, RvRclFlags { bits: 0x1FF }, RvCtgFlags { bits: 0x3F });
    assert_eq!(r.unwrap_err(), PipelineError::DataIntegrity);
}

#[test]
fn kept_feature_with_other_geometry_is_data_integrity_error() {
    let features = vec![RawFeature {
        line_type: Some("用水路".to_string()),
        category: Some("一級河川".to_string()),
        geometry: FeatureGeometry::Other,
    }];
    let r = filter_features(features, RvRclFlags { bits: 0x1FF }, RvCtgFlags { bits: 0x3F });
    assert_eq!(r.unwrap_err(), PipelineError::DataIntegrity);
}

#[test]
fn one_link_per_consecutive_pair_with_shared_endpoint() {
    // Two lines sharing one coincident endpoint: the shared vertex takes the
    // same identity in both, and one link per original segment comes out.
    let raw1 = vec![
        RawVertex { cell_x: 10, cell_y: 10, point: point(1, 1) },
        RawVertex { cell_x: 20, cell_y: 20, point: point(2, 2) },
    ];
    let raw2 = vec![
        RawVertex { cell_x: 20, cell_y: 20, point: point(2, 2) },
        RawVertex { cell_x: 30, cell_y: 30, point: point(3, 3) },
    ];
    let l1 = identify_line(&raw1);
    let l2 = identify_line(&raw2);
    let lines = vec![l1.clone(), l2.clone()];
    let links = collect_links(&lines);
    assert_eq!(links.len(), 2);
    assert_eq!(links[0].end_id, links[1].start_id);

    // The merged node set collapses the shared endpoint: 4 records, 3 ids.
    let nodes: Vec<RiverNode> = lines
        .iter()
        .flatten()
        .map(|v| RiverNode { id: v.id, point: v.point, altitude_cm: 0 })
        .collect();
    assert_eq!(nodes.len(), 4);
    assert_eq!(deduplicate_nodes(&nodes).len(), 3);
}

#[test]
fn bound_markers_take_opposite_corner_identity() {
    let aabb = Aabb {
        min_long_nd: 100,
        max_long_nd: 200,
        min_lat_nd: 300,
        max_lat_nd: 400,
    };
    let c_min_min = (1u32, 2u32);
    let c_max_min = (3u32, 4u32);
    let c_min_max = (5u32, 6u32);
    let c_max_max = (7u32, 8u32);
    let marks = make_bound_nodes(aabb, c_min_min, c_max_min, c_min_max, c_max_max);
    assert_eq!(marks.len(), 4);
    assert_eq!(marks[0].id, node_id_of_cell(7, 8));
    assert_eq!(marks[0].point, point(100, 300));
    assert_eq!(marks[3].id, node_id_of_cell(1, 2));
    assert_eq!(marks[3].point, point(200, 400));
    for m in &marks {
        assert_eq!(m.altitude_cm, 0);
    }
}

#[test]
fn default_bounds_stand_swapped_as_configured() {
    let aabb = Aabb::default();
    assert_eq!(aabb.min_long_nd, 153988611111);
    assert_eq!(aabb.max_long_nd, 122932500000);
    assert_eq!(aabb.min_lat_nd, 45557222222);
    assert_eq!(aabb.max_lat_nd, 20425277777);
    assert!(!aabb.contains(140000000000, 35000000000));
}

#[test]
fn error_labels() {
    assert_eq!(PipelineError::Configuration.label(), "ConfigurationError");
    assert_eq!(PipelineError::DataIntegrity.label(), "DataIntegrityError");
}
