use vstd::prelude::*;

use crate::coords::{Aabb, GeoPoint};
use crate::dedup::RiverNode;
use crate::errors::PipelineError;
use crate::flags::{spec_ctg_token, spec_rcl_token, read_property, RvCtgFlags, RvRclFlags};
use crate::ident::{node_id_of_cell, spec_node_id_of_cell};

verus! {

/// One vertex of a fetched line before identity assignment: its position
/// and its identity-zoom pixel cell.
#[derive(Clone, Copy, PartialEq, Eq, Structural, Debug)]
pub struct RawVertex {
    pub cell_x: u32,
    pub cell_y: u32,
    pub point: GeoPoint,
}

/// One vertex of a fetched line: canonical identity and position.
#[derive(Clone, Copy, PartialEq, Eq, Structural, Debug)]
pub struct RiverVertex {
    pub id: u32,
    pub point: GeoPoint,
}

/// The geometry of a fetched feature, as far as the collector reads it.
pub enum FeatureGeometry {
    LineString(Vec<RawVertex>),
    Other,
}

/// One fetched feature: its two categorical properties and its geometry.
pub struct RawFeature {
    pub line_type: Option<String>,
    pub category: Option<String>,
    pub geometry: FeatureGeometry,
}

/// The identity a raw vertex receives.
pub open spec fn spec_vertex(v: RawVertex) -> RiverVertex {
    RiverVertex { id: spec_node_id_of_cell(v.cell_x, v.cell_y), point: v.point }
}

/// Whether a feature's properties are present and inside their closed
/// enumerations.
pub open spec fn spec_feature_readable(f: &RawFeature) -> bool {
    &&& f.line_type is Some
    &&& f.category is Some
    &&& spec_rcl_token(f.line_type->0@) is Some
    &&& spec_ctg_token(f.category->0@) is Some
}

/// Whether a readable feature is retained: its line-type flag intersects
/// the requested line-type set and its category flag intersects the
/// requested category set.
pub open spec fn spec_feature_kept(f: &RawFeature, rcl: RvRclFlags, ctg: RvCtgFlags) -> bool {
    &&& spec_feature_readable(f)
    &&& (spec_rcl_token(f.line_type->0@)->0 & rcl.bits) != 0
    &&& (spec_ctg_token(f.category->0@)->0 & ctg.bits) != 0
}

/// Maps every vertex of a line to its canonical identity, in order.
pub fn identify_line(line: &Vec<RawVertex>) -> (r: Vec<RiverVertex>)
    ensures
        r@.len() == line@.len(),
        forall|k: int| 0 <= k < line@.len() ==> r@[k] == spec_vertex(#[trigger] line@[k]),
{
    let mut out: Vec<RiverVertex> = Vec::new();
    let mut i: usize = 0;
    while i < line.len()
        invariant
            i <= line@.len(),
            out@.len() == i,
            forall|k: int| 0 <= k < i ==> out@[k] == spec_vertex(#[trigger] line@[k]),
        decreases line@.len() - i,
    {
        let v = line[i];
        out.push(RiverVertex { id: node_id_of_cell(v.cell_x, v.cell_y), point: v.point });
        i = i + 1;
    }
    out
}

/// The ends of one line edge: the identities and positions of two
/// consecutive vertices of a line.  The geodesic weight is computed by the
/// caller from the two positions.
#[derive(Clone, Copy, PartialEq, Eq, Structural, Debug)]
pub struct LinkEnds {
    pub start_id: u32,
    pub end_id: u32,
    pub start: GeoPoint,
    pub end: GeoPoint,
}

/// The edges of one line: every consecutive vertex pair, in order.
pub open spec fn spec_line_links(line: Seq<RiverVertex>) -> Seq<LinkEnds> {
    Seq::new(
        if line.len() == 0 {
            0
        } else {
            (line.len() - 1) as nat
        },
        |k: int|
            LinkEnds {
                start_id: line[k].id,
                end_id: line[k + 1].id,
                start: line[k].point,
                end: line[k + 1].point,
            },
    )
}

/// The edges of a batch of lines, in order.
pub open spec fn spec_links_of(lines: Seq<Vec<RiverVertex>>, i: int) -> Seq<LinkEnds>
    decreases i,
{
    if i <= 0 {
        Seq::empty()
    } else {
        spec_links_of(lines, i - 1) + spec_line_links(lines[i - 1]@)
    }
}

fn collect_line_links(line: &Vec<RiverVertex>) -> (r: Vec<LinkEnds>)
    ensures
        r@ == spec_line_links(line@),
{
    let mut out: Vec<LinkEnds> = Vec::new();
    if line.len() == 0 {
        proof {
            assert(out@ =~= spec_line_links(line@));
        }
        return out;
    }
    let n = line.len() - 1;
    let mut i: usize = 0;
    while i < n
        invariant
            line@.len() >= 1,
            n == line@.len() - 1,
            i <= n,
            out@.len() == i,
            forall|k: int| 0 <= k < i ==> out@[k] == spec_line_links(line@)[k],
        decreases n - i,
    {
        out.push(
            LinkEnds {
                start_id: line[i].id,
                end_id: line[i + 1].id,
                start: line[i].point,
                end: line[i + 1].point,
            },
        );
        i = i + 1;
    }
    proof {
        assert(out@ =~= spec_line_links(line@));
    }
    out
}

/// Derives the line edges of a batch: every consecutive vertex pair within
/// each line, in line order, each to carry the geodesic distance between
/// its two endpoints.
pub fn collect_links(lines: &Vec<Vec<RiverVertex>>) -> (r: Vec<LinkEnds>)
    ensures
        r@ == spec_links_of(lines@, lines@.len() as int),
{
    let mut out: Vec<LinkEnds> = Vec::new();
    let mut i: usize = 0;
    while i < lines.len()
        invariant
            i <= lines@.len(),
            out@ == spec_links_of(lines@, i as int),
        decreases lines@.len() - i,
    {
        let mut next = collect_line_links(&lines[i]);
        out.append(&mut next);
        proof {
            assert(out@ =~= spec_links_of(lines@, i as int + 1));
        }
        i = i + 1;
    }
    out
}

/// The raw vertex sequence of a feature's geometry, empty for a geometry
/// of another kind.
pub open spec fn spec_line_of(f: &RawFeature) -> Seq<RawVertex> {
    match f.geometry {
        FeatureGeometry::LineString(v) => v@,
        FeatureGeometry::Other => Seq::empty(),
    }
}

/// The views of a batch of identified lines.
pub open spec fn spec_lines_views(s: Seq<Vec<RiverVertex>>) -> Seq<Seq<RiverVertex>> {
    Seq::new(s.len(), |j: int| s[j]@)
}

/// The identified lines of exactly the retained features of a batch, in
/// feature order.
pub open spec fn spec_kept_lines(
    features: Seq<RawFeature>,
    rcl: RvRclFlags,
    ctg: RvCtgFlags,
    i: int,
) -> Seq<Seq<RiverVertex>>
    decreases i,
{
    if i <= 0 {
        Seq::empty()
    } else {
        spec_kept_lines(features, rcl, ctg, i - 1) + (if spec_feature_kept(
            &features[i - 1],
            rcl,
            ctg,
        ) {
            seq![spec_vertex_seq(spec_line_of(&features[i - 1]))]
        } else {
            Seq::empty()
        })
    }
}

/// Retains exactly the features whose two flags intersect the requested
/// sets, maps their vertices to identified vertices in feature order, and
/// refuses the batch on the first feature that is unreadable or that is
/// retained with a geometry other than a line.
pub fn filter_features(features: Vec<RawFeature>, rcl: RvRclFlags, ctg: RvCtgFlags) -> (r: Result<
    Vec<Vec<RiverVertex>>,
    PipelineError,
>)
    ensures
        r is Ok ==> forall|i: int|
            0 <= i < features@.len() ==> spec_feature_readable(#[trigger] &features@[i]) && (
            spec_feature_kept(&features@[i], rcl, ctg) ==> features@[i].geometry is LineString),
        r is Err ==> r == Err::<Vec<Vec<RiverVertex>>, PipelineError>(PipelineError::DataIntegrity)
            && exists|i: int|
            0 <= i < features@.len() && !(spec_feature_readable(#[trigger] &features@[i]) && (
            spec_feature_kept(&features@[i], rcl, ctg) ==> features@[i].geometry is LineString)),
        r matches Ok(lines) ==> spec_lines_views(lines@) == spec_kept_lines(
            features@,
            rcl,
            ctg,
            features@.len() as int,
        ),
{
    let mut out: Vec<Vec<RiverVertex>> = Vec::new();
    let mut i: usize = 0;
    while i < features.len()
        invariant
            i <= features@.len(),
            forall|k: int|
                0 <= k < i ==> spec_feature_readable(#[trigger] &features@[k]) && (
                spec_feature_kept(&features@[k], rcl, ctg) ==> features@[k].geometry
                    is LineString),
            spec_lines_views(out@) == spec_kept_lines(features@, rcl, ctg, i as int),
        decreases features@.len() - i,
    {
        let f = &features[i];
        let (frcl, fctg) = match read_property(f.line_type.as_ref(), f.category.as_ref()) {
            Ok(p) => p,
            Err(e) => {
                return Err(e);
            },
        };
        if frcl.intersects(rcl) && fctg.intersects(ctg) {
            match &f.geometry {
                FeatureGeometry::LineString(v) => {
                    let line = identify_line(v);
                    proof {
                        assert(line@ =~= spec_vertex_seq(spec_line_of(&features@[i as int])));
                    }
                    out.push(line);
                    proof {
                        assert(spec_lines_views(out@) =~= spec_kept_lines(
                            features@,
                            rcl,
                            ctg,
                            i as int + 1,
                        ));
                    }
                },
                FeatureGeometry::Other => {
                    return Err(PipelineError::DataIntegrity);
                },
            }
        } else {
            proof {
                assert(spec_lines_views(out@) =~= spec_kept_lines(
                    features@,
                    rcl,
                    ctg,
                    i as int + 1,
                ));
            }
        }
        i = i + 1;
    }
    Ok(out)
}

/// The identified form of a raw vertex sequence.
pub open spec fn spec_vertex_seq(line: Seq<RawVertex>) -> Seq<RiverVertex> {
    Seq::new(line.len(), |k: int| spec_vertex(line[k]))
}

/// The four synthetic boundary marker records of a bounding box.  Each
/// marker sits at one corner, carries altitude zero, and receives the
/// identity computed from the *opposite* corner's cell, per the original
/// marker-placement rule; the caller hands the four corners' identity-zoom
/// cells in the order (min,min), (max,min), (min,max), (max,max).
pub fn make_bound_nodes(
    aabb: Aabb,
    cell_min_min: (u32, u32),
    cell_max_min: (u32, u32),
    cell_min_max: (u32, u32),
    cell_max_max: (u32, u32),
) -> (r: Vec<RiverNode>)
    ensures
        r@.len() == 4,
        r@[0] == (RiverNode {
            id: spec_node_id_of_cell(cell_max_max.0, cell_max_max.1),
            point: GeoPoint { long_nd: aabb.min_long_nd, lat_nd: aabb.min_lat_nd },
            altitude_cm: 0,
        }),
        r@[1] == (RiverNode {
            id: spec_node_id_of_cell(cell_min_max.0, cell_min_max.1),
            point: GeoPoint { long_nd: aabb.max_long_nd, lat_nd: aabb.min_lat_nd },
            altitude_cm: 0,
        }),
        r@[2] == (RiverNode {
            id: spec_node_id_of_cell(cell_max_min.0, cell_max_min.1),
            point: GeoPoint { long_nd: aabb.min_long_nd, lat_nd: aabb.max_lat_nd },
            altitude_cm: 0,
        }),
        r@[3] == (RiverNode {
            id: spec_node_id_of_cell(cell_min_min.0, cell_min_min.1),
            point: GeoPoint { long_nd: aabb.max_long_nd, lat_nd: aabb.max_lat_nd },
            altitude_cm: 0,
        }),
{
    let mut out: Vec<RiverNode> = Vec::new();
    out.push(
        RiverNode {
            id: node_id_of_cell(cell_max_max.0, cell_max_max.1),
            point: GeoPoint { long_nd: aabb.min_long_nd, lat_nd: aabb.min_lat_nd },
            altitude_cm: 0,
        },
    );
    out.push(
        RiverNode {
            id: node_id_of_cell(cell_min_max.0, cell_min_max.1),
            point: GeoPoint { long_nd: aabb.max_long_nd, lat_nd: aabb.min_lat_nd },
            altitude_cm: 0,
        },
    );
    out.push(
        RiverNode {
            id: node_id_of_cell(cell_max_min.0, cell_max_min.1),
            point: GeoPoint { long_nd: aabb.min_long_nd, lat_nd: aabb.max_lat_nd },
            altitude_cm: 0,
        },
    );
    out.push(
        RiverNode {
            id: node_id_of_cell(cell_min_min.0, cell_min_min.1),
            point: GeoPoint { long_nd: aabb.max_long_nd, lat_nd: aabb.max_lat_nd },
            altitude_cm: 0,
        },
    );
    out
}

} // verus!
