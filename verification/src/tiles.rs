use vstd::prelude::*;

use vstd::arithmetic::div_mod::lemma_div_denominator;
use vstd::arithmetic::power2::pow2;
use vstd::seq_lib::lemma_seq_contains_after_push;

use std::collections::HashSet;

verus! {

broadcast use vstd::std_specs::hash::group_hash_axioms;

/// One face of the triangulation: the three vertices projected to global
/// pixel coordinates at the target zoom, with their node identities.
#[derive(Clone, Copy, PartialEq, Eq, Structural, Debug)]
pub struct FacePx {
    pub ax: u32,
    pub ay: u32,
    pub bx: u32,
    pub by: u32,
    pub cx: u32,
    pub cy: u32,
    pub id_a: u32,
    pub id_b: u32,
    pub id_c: u32,
}

/// 2D cross product of (p2 - p1) and (p - p1): the half-plane test value of
/// point p against the directed edge p1 -> p2.
pub open spec fn spec_cross(x1: int, y1: int, x2: int, y2: int, px: int, py: int) -> int {
    (x2 - x1) * (py - y1) - (y2 - y1) * (px - x1)
}

/// The half-plane test value of one directed edge of a face, edges numbered
/// a->b, b->c, c->a.
pub open spec fn spec_edge_cross(f: FacePx, e: int, px: int, py: int) -> int {
    if e == 0 {
        spec_cross(f.ax as int, f.ay as int, f.bx as int, f.by as int, px, py)
    } else if e == 1 {
        spec_cross(f.bx as int, f.by as int, f.cx as int, f.cy as int, px, py)
    } else {
        spec_cross(f.cx as int, f.cy as int, f.ax as int, f.ay as int, px, py)
    }
}

/// Twice the signed area of a face.
pub open spec fn spec_face_doubled_area(f: FacePx) -> int {
    spec_cross(f.ax as int, f.ay as int, f.bx as int, f.by as int, f.cx as int, f.cy as int)
}

/// A point passes the sign-consistent half-plane test of a face when its
/// three edge cross products are all at least zero or all at most zero.
pub open spec fn spec_corner_in_face(f: FacePx, px: int, py: int) -> bool {
    let c1 = spec_edge_cross(f, 0, px, py);
    let c2 = spec_edge_cross(f, 1, px, py);
    let c3 = spec_edge_cross(f, 2, px, py);
    (c1 >= 0 && c2 >= 0 && c3 >= 0) || (c1 <= 0 && c2 <= 0 && c3 <= 0)
}

/// Largest magnitude a corner coordinate can take: one tile side beyond the
/// pixel range.
pub const CORNER_BOUND: i64 = 0x100_0000_0000;

fn cross_exec(x1: u32, y1: u32, x2: u32, y2: u32, px: i64, py: i64) -> (r: i128)
    requires
        -CORNER_BOUND <= px <= CORNER_BOUND,
        -CORNER_BOUND <= py <= CORNER_BOUND,
    ensures
        r == spec_cross(x1 as int, y1 as int, x2 as int, y2 as int, px as int, py as int),
{
    let dx: i128 = x2 as i128 - x1 as i128;
    let dy: i128 = y2 as i128 - y1 as i128;
    let ex: i128 = px as i128 - x1 as i128;
    let ey: i128 = py as i128 - y1 as i128;
    proof {
        assert(-0x200_0000_0000_0000_0000_0000 <= dx * ey <= 0x200_0000_0000_0000_0000_0000
            && -0x200_0000_0000_0000_0000_0000 <= dy * ex <= 0x200_0000_0000_0000_0000_0000) by (
        nonlinear_arith)
            requires
                -0x1_0000_0000 <= dx <= 0x1_0000_0000,
                -0x1_0000_0000 <= dy <= 0x1_0000_0000,
                -0x200_0000_0000 <= ex <= 0x200_0000_0000,
                -0x200_0000_0000 <= ey <= 0x200_0000_0000,
        ;
    }
    dx * ey - dy * ex
}

/// The sign-consistent half-plane test of the original: a corner is taken
/// as inside the face when the cross products of the three directed edges
/// are simultaneously at least zero or simultaneously at most zero.
pub fn corner_in_face(f: &FacePx, px: i64, py: i64) -> (r: bool)
    requires
        -CORNER_BOUND <= px <= CORNER_BOUND,
        -CORNER_BOUND <= py <= CORNER_BOUND,
    ensures
        r == spec_corner_in_face(*f, px as int, py as int),
{
    let c1 = cross_exec(f.ax, f.ay, f.bx, f.by, px, py);
    let c2 = cross_exec(f.bx, f.by, f.cx, f.cy, px, py);
    let c3 = cross_exec(f.cx, f.cy, f.ax, f.ay, px, py);
    (c1 >= 0 && c2 >= 0 && c3 >= 0) || (c1 <= 0 && c2 <= 0 && c3 <= 0)
}

/// A tile overlaps a face when any of its four pixel-space corners passes
/// the half-plane test.
pub open spec fn spec_tile_overlaps(f: FacePx, tx: int, ty: int) -> bool {
    ||| spec_corner_in_face(f, 256 * tx, 256 * ty)
    ||| spec_corner_in_face(f, 256 * (tx + 1), 256 * ty)
    ||| spec_corner_in_face(f, 256 * tx, 256 * (ty + 1))
    ||| spec_corner_in_face(f, 256 * (tx + 1), 256 * (ty + 1))
}

pub fn tile_overlaps_face(f: &FacePx, tx: u32, ty: u32) -> (r: bool)
    ensures
        r == spec_tile_overlaps(*f, tx as int, ty as int),
{
    let x0: i64 = (tx as i64) * 256;
    let y0: i64 = (ty as i64) * 256;
    let x1: i64 = x0 + 256;
    let y1: i64 = y0 + 256;
    corner_in_face(f, x0, y0) || corner_in_face(f, x1, y0) || corner_in_face(f, x0, y1)
        || corner_in_face(f, x1, y1)
}

pub open spec fn spec_min3(a: u32, b: u32, c: u32) -> u32 {
    if a <= b && a <= c {
        a
    } else if b <= c {
        b
    } else {
        c
    }
}

pub open spec fn spec_max3(a: u32, b: u32, c: u32) -> u32 {
    if a >= b && a >= c {
        a
    } else if b >= c {
        b
    } else {
        c
    }
}

fn min3(a: u32, b: u32, c: u32) -> (r: u32)
    ensures
        r == spec_min3(a, b, c),
{
    if a <= b && a <= c {
        a
    } else if b <= c {
        b
    } else {
        c
    }
}

fn max3(a: u32, b: u32, c: u32) -> (r: u32)
    ensures
        r == spec_max3(a, b, c),
{
    if a >= b && a >= c {
        a
    } else if b >= c {
        b
    } else {
        c
    }
}

/// The candidate tile range of a face: its pixel bounding box brought to
/// tile coordinates.
pub open spec fn spec_face_min_tx(f: FacePx) -> u32 {
    (spec_min3(f.ax, f.bx, f.cx) / 256) as u32
}

pub open spec fn spec_face_max_tx(f: FacePx) -> u32 {
    (spec_max3(f.ax, f.bx, f.cx) / 256) as u32
}

pub open spec fn spec_face_min_ty(f: FacePx) -> u32 {
    (spec_min3(f.ay, f.by, f.cy) / 256) as u32
}

pub open spec fn spec_face_max_ty(f: FacePx) -> u32 {
    (spec_max3(f.ay, f.by, f.cy) / 256) as u32
}

pub open spec fn spec_in_bbox(f: FacePx, tx: u32, ty: u32) -> bool {
    spec_face_min_tx(f) <= tx <= spec_face_max_tx(f) && spec_face_min_ty(f) <= ty
        <= spec_face_max_ty(f)
}

/// One membership edge: a tile of the target zoom pointing at one node of a
/// face that overlaps it.
#[derive(Clone, Copy, PartialEq, Eq, Structural, Debug)]
pub struct MemberRow {
    pub tile_x: u32,
    pub tile_y: u32,
    pub node_id: u32,
}

/// A face yields a membership row exactly when the row's tile lies in the
/// face's candidate range, the tile overlaps the face, and the row's node is
/// one of the face's three vertices.
pub open spec fn spec_face_contributes(f: FacePx, row: MemberRow) -> bool {
    &&& spec_in_bbox(f, row.tile_x, row.tile_y)
    &&& spec_tile_overlaps(f, row.tile_x as int, row.tile_y as int)
    &&& (row.node_id == f.id_a || row.node_id == f.id_b || row.node_id == f.id_c)
}

/// The membership rows of one face: every candidate tile of its bounding
/// box that overlaps it, paired with each of its three node identities.
pub fn face_member_rows(f: &FacePx) -> (rows: Vec<MemberRow>)
    ensures
        forall|row: MemberRow| #[trigger]
            rows@.contains(row) <==> spec_face_contributes(*f, row),
{
    let min_tx = min3(f.ax, f.bx, f.cx) / 256;
    let max_tx = max3(f.ax, f.bx, f.cx) / 256;
    let min_ty = min3(f.ay, f.by, f.cy) / 256;
    let max_ty = max3(f.ay, f.by, f.cy) / 256;

    let mut rows: Vec<MemberRow> = Vec::new();
    let mut tx = min_tx;
    while tx <= max_tx
        invariant
            min_tx == spec_face_min_tx(*f),
            max_tx == spec_face_max_tx(*f),
            min_ty == spec_face_min_ty(*f),
            max_ty == spec_face_max_ty(*f),
            min_tx <= tx <= max_tx + 1,
            forall|row: MemberRow| #[trigger]
                rows@.contains(row) <==> (spec_face_contributes(*f, row) && row.tile_x < tx),
        decreases max_tx + 1 - tx,
    {
        let mut ty = min_ty;
        while ty <= max_ty
            invariant
                min_tx == spec_face_min_tx(*f),
                max_tx == spec_face_max_tx(*f),
                min_ty == spec_face_min_ty(*f),
                max_ty == spec_face_max_ty(*f),
                min_tx <= tx <= max_tx,
                min_ty <= ty <= max_ty + 1,
                forall|row: MemberRow| #[trigger]
                    rows@.contains(row) <==> (spec_face_contributes(*f, row) && (row.tile_x < tx
                        || (row.tile_x == tx && row.tile_y < ty))),
            decreases max_ty + 1 - ty,
        {
            let ghost old_rows = rows@;
            let overlaps = tile_overlaps_face(f, tx, ty);
            if overlaps {
                rows.push(MemberRow { tile_x: tx, tile_y: ty, node_id: f.id_a });
                rows.push(MemberRow { tile_x: tx, tile_y: ty, node_id: f.id_b });
                rows.push(MemberRow { tile_x: tx, tile_y: ty, node_id: f.id_c });
            }
            proof {
                let ra = MemberRow { tile_x: tx, tile_y: ty, node_id: f.id_a };
                let rb = MemberRow { tile_x: tx, tile_y: ty, node_id: f.id_b };
                let rc = MemberRow { tile_x: tx, tile_y: ty, node_id: f.id_c };
                assert forall|row: MemberRow| #[trigger]
                    rows@.contains(row) <==> (spec_face_contributes(*f, row) && (row.tile_x < tx
                        || (row.tile_x == tx && row.tile_y < ty + 1))) by {
                    if overlaps {
                        lemma_seq_contains_after_push(old_rows, ra, row);
                        lemma_seq_contains_after_push(old_rows.push(ra), rb, row);
                        lemma_seq_contains_after_push(old_rows.push(ra).push(rb), rc, row);
                    }
                }
            }
            ty = ty + 1;
        }
        tx = tx + 1;
    }
    rows
}

/// The membership rows of a whole triangulation: the union over its faces.
/// A row is reported exactly when some face contributes it; one node may be
/// reported for one tile several times, once per contributing face, as the
/// original emitted it.
pub fn locate_tiles(faces: &Vec<FacePx>) -> (rows: Vec<MemberRow>)
    ensures
        forall|row: MemberRow| #[trigger]
            rows@.contains(row) <==> exists|k: int|
                0 <= k < faces@.len() && spec_face_contributes(faces@[k], row),
{
    let mut rows: Vec<MemberRow> = Vec::new();
    let mut i: usize = 0;
    while i < faces.len()
        invariant
            i <= faces@.len(),
            forall|row: MemberRow| #[trigger]
                rows@.contains(row) <==> exists|k: int|
                    0 <= k < i && spec_face_contributes(faces@[k], row),
        decreases faces@.len() - i,
    {
        let mut face_rows = face_member_rows(&faces[i]);
        let ghost old_rows = rows@;
        let ghost fr_seq = face_rows@;
        rows.append(&mut face_rows);
        proof {
            assert forall|row: MemberRow| #[trigger]
                rows@.contains(row) <==> exists|k: int|
                    0 <= k < i + 1 && spec_face_contributes(faces@[k], row) by {
                lemma_concat_contains(old_rows, fr_seq, row);
                if rows@.contains(row) {
                    if old_rows.contains(row) {
                        let k = choose|k: int| 0 <= k < i && spec_face_contributes(faces@[k], row);
                        assert(0 <= k < i + 1 && spec_face_contributes(faces@[k], row));
                    } else {
                        assert(spec_face_contributes(faces@[i as int], row));
                    }
                } else {
                    if exists|k: int| 0 <= k < i + 1 && spec_face_contributes(faces@[k], row) {
                        let k = choose|k: int|
                            0 <= k < i + 1 && spec_face_contributes(faces@[k], row);
                        if k < i {
                            assert(old_rows.contains(row));
                        } else {
                            assert(fr_seq.contains(row));
                        }
                        assert(false);
                    }
                }
            }
        }
        i = i + 1;
    }
    rows
}

// ---------------------------------------------------------------------------
// Laws of the corner-sampling overlap test.
// ---------------------------------------------------------------------------

/// The three edge cross products of any point sum to twice the signed area
/// of the face.
#[verifier::rlimit(100)]
pub proof fn lemma_cross_sum(f: FacePx, px: int, py: int)
    ensures
        spec_edge_cross(f, 0, px, py) + spec_edge_cross(f, 1, px, py) + spec_edge_cross(
            f,
            2,
            px,
            py,
        ) == spec_face_doubled_area(f),
{
    let ax = f.ax as int;
    let ay = f.ay as int;
    let bx = f.bx as int;
    let by = f.by as int;
    let cx = f.cx as int;
    let cy = f.cy as int;
    assert(spec_cross(ax, ay, bx, by, px, py) + spec_cross(bx, by, cx, cy, px, py) + spec_cross(
        cx,
        cy,
        ax,
        ay,
        px,
        py,
    ) == spec_cross(ax, ay, bx, by, cx, cy)) by (nonlinear_arith);
}

/// A corner that lies strictly on the outer side of one edge — outer
/// relative to the face's orientation — fails the sign-consistent test.
pub proof fn lemma_outside_edge_corner_not_in_face(f: FacePx, e: int, px: int, py: int)
    requires
        0 <= e < 3,
        spec_face_doubled_area(f) >= 0 ==> spec_edge_cross(f, e, px, py) < 0,
        spec_face_doubled_area(f) < 0 ==> spec_edge_cross(f, e, px, py) > 0,
    ensures
        !spec_corner_in_face(f, px, py),
{
    lemma_cross_sum(f, px, py);
}

/// A tile whose four corners all lie strictly on the outer side of one edge
/// of a face is never taken as overlapping that face.
pub proof fn lemma_separated_tile_not_overlapping(f: FacePx, tx: int, ty: int, e: int)
    requires
        0 <= e < 3,
        spec_face_doubled_area(f) >= 0 ==> (spec_edge_cross(f, e, 256 * tx, 256 * ty) < 0
            && spec_edge_cross(f, e, 256 * (tx + 1), 256 * ty) < 0 && spec_edge_cross(
            f,
            e,
            256 * tx,
            256 * (ty + 1),
        ) < 0 && spec_edge_cross(f, e, 256 * (tx + 1), 256 * (ty + 1)) < 0),
        spec_face_doubled_area(f) < 0 ==> (spec_edge_cross(f, e, 256 * tx, 256 * ty) > 0
            && spec_edge_cross(f, e, 256 * (tx + 1), 256 * ty) > 0 && spec_edge_cross(
            f,
            e,
            256 * tx,
            256 * (ty + 1),
        ) > 0 && spec_edge_cross(f, e, 256 * (tx + 1), 256 * (ty + 1)) > 0),
    ensures
        !spec_tile_overlaps(f, tx, ty),
{
    lemma_outside_edge_corner_not_in_face(f, e, 256 * tx, 256 * ty);
    lemma_outside_edge_corner_not_in_face(f, e, 256 * (tx + 1), 256 * ty);
    lemma_outside_edge_corner_not_in_face(f, e, 256 * tx, 256 * (ty + 1));
    lemma_outside_edge_corner_not_in_face(f, e, 256 * (tx + 1), 256 * (ty + 1));
}

/// A point that passes the sign-consistent test against a non-degenerate
/// face lies within the face's pixel bounding box.
#[verifier::rlimit(100)]
proof fn lemma_inside_point_in_bbox(f: FacePx, px: int, py: int)
    requires
        spec_corner_in_face(f, px, py),
        spec_face_doubled_area(f) != 0,
    ensures
        spec_min3(f.ax, f.bx, f.cx) <= px <= spec_max3(f.ax, f.bx, f.cx),
        spec_min3(f.ay, f.by, f.cy) <= py <= spec_max3(f.ay, f.by, f.cy),
{
    let ax = f.ax as int;
    let ay = f.ay as int;
    let bx = f.bx as int;
    let by = f.by as int;
    let cx = f.cx as int;
    let cy = f.cy as int;
    let c1 = spec_edge_cross(f, 0, px, py);
    let c2 = spec_edge_cross(f, 1, px, py);
    let c3 = spec_edge_cross(f, 2, px, py);
    let t = spec_face_doubled_area(f);
    lemma_cross_sum(f, px, py);
    // Barycentric identity, with the first vertex taken as the origin: the
    // cross products weight the vertices.
    let ux = bx - ax;
    let uy = by - ay;
    let vx = cx - ax;
    let vy = cy - ay;
    let wx = px - ax;
    let wy = py - ay;
    assert(c1 == ux * wy - uy * wx) by (nonlinear_arith)
        requires
            c1 == (bx - ax) * (py - ay) - (by - ay) * (px - ax),
            ux == bx - ax && uy == by - ay && wx == px - ax && wy == py - ay,
    ;
    assert(c3 == vy * wx - vx * wy) by (nonlinear_arith)
        requires
            c3 == (ax - cx) * (py - cy) - (ay - cy) * (px - cx),
            vx == cx - ax && vy == cy - ay && wx == px - ax && wy == py - ay,
    ;
    assert(t == ux * vy - uy * vx) by (nonlinear_arith)
        requires
            t == (bx - ax) * (cy - ay) - (by - ay) * (cx - ax),
            ux == bx - ax && uy == by - ay && vx == cx - ax && vy == cy - ay,
    ;
    assert(t * wx == c3 * ux + c1 * vx) by (nonlinear_arith)
        requires
            c1 == ux * wy - uy * wx,
            c3 == vy * wx - vx * wy,
            t == ux * vy - uy * vx,
    ;
    assert(t * wy == c3 * uy + c1 * vy) by (nonlinear_arith)
        requires
            c1 == ux * wy - uy * wx,
            c3 == vy * wx - vx * wy,
            t == ux * vy - uy * vx,
    ;
    assert(t * px == c2 * ax + c3 * bx + c1 * cx) by (nonlinear_arith)
        requires
            t * wx == c3 * ux + c1 * vx,
            wx == px - ax && ux == bx - ax && vx == cx - ax,
            c1 + c2 + c3 == t,
    ;
    assert(t * py == c2 * ay + c3 * by + c1 * cy) by (nonlinear_arith)
        requires
            t * wy == c3 * uy + c1 * vy,
            wy == py - ay && uy == by - ay && vy == cy - ay,
            c1 + c2 + c3 == t,
    ;
    let minx = spec_min3(f.ax, f.bx, f.cx) as int;
    let maxx = spec_max3(f.ax, f.bx, f.cx) as int;
    let miny = spec_min3(f.ay, f.by, f.cy) as int;
    let maxy = spec_max3(f.ay, f.by, f.cy) as int;
    if t > 0 {
        assert(c1 >= 0 && c2 >= 0 && c3 >= 0);
        assert(t * minx <= c2 * ax + c3 * bx + c1 * cx) by (nonlinear_arith)
            requires
                c1 >= 0 && c2 >= 0 && c3 >= 0 && c1 + c2 + c3 == t,
                minx <= ax && minx <= bx && minx <= cx,
        ;
        assert(c2 * ax + c3 * bx + c1 * cx <= t * maxx) by (nonlinear_arith)
            requires
                c1 >= 0 && c2 >= 0 && c3 >= 0 && c1 + c2 + c3 == t,
                ax <= maxx && bx <= maxx && cx <= maxx,
        ;
        assert(t * miny <= c2 * ay + c3 * by + c1 * cy) by (nonlinear_arith)
            requires
                c1 >= 0 && c2 >= 0 && c3 >= 0 && c1 + c2 + c3 == t,
                miny <= ay && miny <= by && miny <= cy,
        ;
        assert(c2 * ay + c3 * by + c1 * cy <= t * maxy) by (nonlinear_arith)
            requires
                c1 >= 0 && c2 >= 0 && c3 >= 0 && c1 + c2 + c3 == t,
                ay <= maxy && by <= maxy && cy <= maxy,
        ;
        assert(minx <= px <= maxx) by (nonlinear_arith)
            requires
                t > 0,
                t * minx <= t * px <= t * maxx,
        ;
        assert(miny <= py <= maxy) by (nonlinear_arith)
            requires
                t > 0,
                t * miny <= t * py <= t * maxy,
        ;
    } else {
        assert(c1 <= 0 && c2 <= 0 && c3 <= 0);
        assert(t * maxx <= c2 * ax + c3 * bx + c1 * cx) by (nonlinear_arith)
            requires
                c1 <= 0 && c2 <= 0 && c3 <= 0 && c1 + c2 + c3 == t,
                ax <= maxx && bx <= maxx && cx <= maxx,
        ;
        assert(c2 * ax + c3 * bx + c1 * cx <= t * minx) by (nonlinear_arith)
            requires
                c1 <= 0 && c2 <= 0 && c3 <= 0 && c1 + c2 + c3 == t,
                minx <= ax && minx <= bx && minx <= cx,
        ;
        assert(t * maxy <= c2 * ay + c3 * by + c1 * cy) by (nonlinear_arith)
            requires
                c1 <= 0 && c2 <= 0 && c3 <= 0 && c1 + c2 + c3 == t,
                ay <= maxy && by <= maxy && cy <= maxy,
        ;
        assert(c2 * ay + c3 * by + c1 * cy <= t * miny) by (nonlinear_arith)
            requires
                c1 <= 0 && c2 <= 0 && c3 <= 0 && c1 + c2 + c3 == t,
                miny <= ay && miny <= by && miny <= cy,
        ;
        assert(minx <= px <= maxx) by (nonlinear_arith)
            requires
                t < 0,
                t * maxx <= t * px <= t * minx,
        ;
        assert(miny <= py <= maxy) by (nonlinear_arith)
            requires
                t < 0,
                t * maxy <= t * py <= t * miny,
        ;
    }
}

/// A tile that lies entirely inside a non-degenerate face — all four of its
/// corners pass the half-plane test — is always reported as a member, for
/// each of the face's three nodes.
pub proof fn lemma_contained_tile_is_member(f: FacePx, tx: u32, ty: u32, id: u32)
    requires
        spec_corner_in_face(f, 256 * tx, 256 * ty),
        spec_corner_in_face(f, 256 * (tx + 1), 256 * ty),
        spec_corner_in_face(f, 256 * tx, 256 * (ty + 1)),
        spec_corner_in_face(f, 256 * (tx + 1), 256 * (ty + 1)),
        spec_face_doubled_area(f) != 0,
        id == f.id_a || id == f.id_b || id == f.id_c,
    ensures
        spec_face_contributes(f, MemberRow { tile_x: tx, tile_y: ty, node_id: id }),
{
    lemma_inside_point_in_bbox(f, 256 * tx, 256 * ty);
    let minx = spec_min3(f.ax, f.bx, f.cx);
    let maxx = spec_max3(f.ax, f.bx, f.cx);
    let miny = spec_min3(f.ay, f.by, f.cy);
    let maxy = spec_max3(f.ay, f.by, f.cy);
    assert(minx <= 256 * tx <= maxx && miny <= 256 * ty <= maxy);
    assert(spec_face_min_tx(f) <= tx) by {
        assert(minx / 256 <= (256 * tx) / 256 == tx) by (nonlinear_arith)
            requires
                minx <= 256 * tx,
        ;
    }
    assert(tx <= spec_face_max_tx(f)) by {
        assert(tx == (256 * tx) / 256 <= maxx / 256) by (nonlinear_arith)
            requires
                256 * tx <= maxx,
        ;
    }
    assert(spec_face_min_ty(f) <= ty) by {
        assert(miny / 256 <= (256 * ty) / 256 == ty) by (nonlinear_arith)
            requires
                miny <= 256 * ty,
        ;
    }
    assert(ty <= spec_face_max_ty(f)) by {
        assert(ty == (256 * ty) / 256 <= maxy / 256) by (nonlinear_arith)
            requires
                256 * ty <= maxy,
        ;
    }
}

// ---------------------------------------------------------------------------
// Tile hierarchy.
// ---------------------------------------------------------------------------

/// A tile of the pyramid: coordinates at a zoom level.
#[derive(Clone, Copy, PartialEq, Eq, Structural, Debug)]
pub struct TileRef {
    pub x: u32,
    pub y: u32,
    pub zoom: u8,
}

/// A parent-to-child link of the pyramid.
#[derive(Clone, Copy, PartialEq, Eq, Structural, Debug)]
pub struct FamilyRow {
    pub parent: TileRef,
    pub child: TileRef,
}

/// The tile entities and the parent links of a hierarchy pass.
pub struct HierarchyRows {
    pub entities: Vec<TileRef>,
    pub family: Vec<FamilyRow>,
}

/// The parent of a tile: halved coordinates, one zoom level up the pyramid.
pub open spec fn spec_parent(t: TileRef) -> TileRef
    recommends
        t.zoom >= 1,
{
    TileRef { x: (t.x / 2) as u32, y: (t.y / 2) as u32, zoom: (t.zoom - 1) as u8 }
}

pub fn parent_tile(t: TileRef) -> (r: TileRef)
    requires
        t.zoom >= 1,
    ensures
        r == spec_parent(t),
{
    TileRef { x: t.x / 2, y: t.y / 2, zoom: t.zoom - 1 }
}

/// The k-th ancestor of a tile: the parent relation applied k times.
pub open spec fn spec_anc(t: TileRef, k: nat) -> TileRef
    decreases k,
{
    if k == 0 {
        t
    } else {
        spec_parent(spec_anc(t, (k - 1) as nat))
    }
}

pub open spec fn spec_tile_at(t: (u32, u32), zoom: u8) -> TileRef {
    TileRef { x: t.0, y: t.1, zoom }
}

/// Whether a tile entity belongs to the first d+1 levels of the hierarchy
/// grown from the given zoom-level tiles.
pub open spec fn spec_is_anc_entity(tiles: Seq<(u32, u32)>, zoom: u8, e: TileRef, d: int) -> bool {
    exists|j: int, k: nat|
        0 <= j < tiles.len() && k <= d && e == #[trigger] spec_anc(
            spec_tile_at(tiles[j], zoom),
            k,
        )
}

/// Whether a parent link belongs to the first d levels of the hierarchy
/// grown from the given zoom-level tiles.
pub open spec fn spec_is_family_row(tiles: Seq<(u32, u32)>, zoom: u8, fr: FamilyRow, d: int) -> bool {
    exists|j: int, k: nat|
        0 <= j < tiles.len() && 1 <= k <= d && fr == FamilyRow {
            parent: #[trigger] spec_anc(spec_tile_at(tiles[j], zoom), k),
            child: spec_anc(spec_tile_at(tiles[j], zoom), (k - 1) as nat),
        }
}

pub open spec fn spec_tile_key(x: u32, y: u32) -> u64 {
    ((x as u64) * 0x1_0000_0000 + (y as u64)) as u64
}

fn tile_key(x: u32, y: u32) -> (r: u64)
    ensures
        r == spec_tile_key(x, y),
{
    (x as u64) * 0x1_0000_0000 + (y as u64)
}

/// The k-th ancestor sits k levels up, with coordinates divided by 2^k.
pub proof fn lemma_anc_values(t: TileRef, k: nat)
    requires
        k <= t.zoom,
    ensures
        spec_anc(t, k).zoom == t.zoom - k,
        spec_anc(t, k).x == (t.x as nat) / pow2(k),
        spec_anc(t, k).y == (t.y as nat) / pow2(k),
    decreases k,
{
    vstd::arithmetic::power2::lemma_pow2_pos(k);
    if k == 0 {
        vstd::arithmetic::power2::lemma2_to64();
    } else {
        lemma_anc_values(t, (k - 1) as nat);
        vstd::arithmetic::power2::lemma_pow2_pos((k - 1) as nat);
        vstd::arithmetic::power2::lemma_pow2_unfold(k);
        lemma_div_denominator(t.x as int, pow2((k - 1) as nat) as int, 2);
        lemma_div_denominator(t.y as int, pow2((k - 1) as nat) as int, 2);
    }
}

/// Walking the parent relation zoom-many times from any in-range tile of
/// that zoom reaches the root tile (0, 0) at zoom 0, so every chain of the
/// hierarchy ends at the root.
pub proof fn lemma_hierarchy_reaches_root(t: TileRef)
    requires
        (t.x as nat) < pow2(t.zoom as nat),
        (t.y as nat) < pow2(t.zoom as nat),
    ensures
        spec_anc(t, t.zoom as nat) == (TileRef { x: 0u32, y: 0u32, zoom: 0u8 }),
{
    lemma_anc_values(t, t.zoom as nat);
    vstd::arithmetic::power2::lemma_pow2_pos(t.zoom as nat);
    vstd::arithmetic::div_mod::lemma_basic_div(t.x as int, pow2(t.zoom as nat) as int);
    vstd::arithmetic::div_mod::lemma_basic_div(t.y as int, pow2(t.zoom as nat) as int);
}

/// A sequence without repeated elements.
pub open spec fn spec_no_dups<A>(s: Seq<A>) -> bool {
    forall|p: int, q: int| 0 <= p < q < s.len() ==> s[p] != s[q]
}

proof fn lemma_concat_contains<A>(a: Seq<A>, b: Seq<A>, x: A)
    ensures
        (a + b).contains(x) <==> a.contains(x) || b.contains(x),
{
    if (a + b).contains(x) {
        let i = choose|i: int| 0 <= i < (a + b).len() && (a + b)[i] == x;
        if i < a.len() {
            assert(a[i] == x);
        } else {
            assert(b[i - a.len()] == x);
        }
    }
    if a.contains(x) {
        let i = choose|i: int| 0 <= i < a.len() && a[i] == x;
        assert((a + b)[i] == x);
    }
    if b.contains(x) {
        let i = choose|i: int| 0 <= i < b.len() && b[i] == x;
        assert((a + b)[a.len() + i] == x);
    }
}

/// Packed key of a tile coordinate, used to keep level sets distinct.
proof fn lemma_tile_key_injective(x1: u32, y1: u32, x2: u32, y2: u32)
    requires
        spec_tile_key(x1, y1) == spec_tile_key(x2, y2),
    ensures
        x1 == x2 && y1 == y2,
{
    assert(x1 == x2 && y1 == y2) by (nonlinear_arith)
        requires
            (x1 as u64) * 0x1_0000_0000 + (y1 as u64) == (x2 as u64) * 0x1_0000_0000 + (y2
                as u64),
            y1 < 0x1_0000_0000 && y2 < 0x1_0000_0000,
    ;
}

/// The distinct tiles of the input, lifted to the target zoom.
fn distinct_level_tiles(tiles: &Vec<(u32, u32)>, zoom: u8) -> (r: Vec<TileRef>)
    ensures
        forall|c: TileRef| #[trigger]
            r@.contains(c) <==> exists|j: int|
                0 <= j < tiles@.len() && c == spec_tile_at(tiles@[j], zoom),
        spec_no_dups(r@),
        forall|c: TileRef| #[trigger] r@.contains(c) ==> c.zoom == zoom,
{
    let mut out: Vec<TileRef> = Vec::new();
    let mut seen: HashSet<u64> = HashSet::new();
    let mut i: usize = 0;
    while i < tiles.len()
        invariant
            i <= tiles@.len(),
            forall|c: TileRef| #[trigger]
                out@.contains(c) <==> exists|j: int|
                    0 <= j < i && c == spec_tile_at(tiles@[j], zoom),
            spec_no_dups(out@),
            forall|c: TileRef|
                out@.contains(c) ==> #[trigger] seen@.contains(spec_tile_key(c.x, c.y)),
            forall|key: u64| #[trigger]
                seen@.contains(key) ==> exists|c: TileRef|
                    out@.contains(c) && key == spec_tile_key(c.x, c.y),
        decreases tiles@.len() - i,
    {
        let t = tiles[i];
        let key = tile_key(t.0, t.1);
        let ghost old_out = out@;
        let ghost old_seen = seen@;
        if !seen.contains(&key) {
            seen.insert(key);
            let tr = TileRef { x: t.0, y: t.1, zoom };
            out.push(tr);
            proof {
                assert forall|c: TileRef| #[trigger] out@.contains(c) implies seen@.contains(
                    spec_tile_key(c.x, c.y),
                ) by {
                    lemma_seq_contains_after_push(old_out, tr, c);
                }
                assert forall|c: TileRef| #[trigger]
                    out@.contains(c) implies exists|j: int|
                    0 <= j < i + 1 && c == spec_tile_at(tiles@[j], zoom) by {
                    lemma_seq_contains_after_push(old_out, tr, c);
                    if c == tr {
                        assert(c == spec_tile_at(tiles@[i as int], zoom));
                    }
                }
                assert forall|j: int| 0 <= j < i + 1 implies out@.contains(
                    #[trigger] spec_tile_at(tiles@[j], zoom),
                ) by {
                    lemma_seq_contains_after_push(old_out, tr, spec_tile_at(tiles@[j], zoom));
                }
                assert forall|p: int, q: int| 0 <= p < q < out@.len() implies out@[p]
                    != out@[q] by {
                    if q == out@.len() - 1 {
                        assert(old_out.contains(old_out[p]));
                    }
                }
                assert forall|k2: u64| #[trigger] seen@.contains(k2) implies exists|c2: TileRef|
                    out@.contains(c2) && k2 == spec_tile_key(c2.x, c2.y) by {
                    if k2 == key {
                        lemma_seq_contains_after_push(old_out, tr, tr);
                        assert(out@.contains(tr) && k2 == spec_tile_key(tr.x, tr.y));
                    } else {
                        let c2 = choose|c2: TileRef|
                            old_out.contains(c2) && k2 == spec_tile_key(c2.x, c2.y);
                        lemma_seq_contains_after_push(old_out, tr, c2);
                    }
                }
            }
        } else {
            proof {
                let c = choose|c: TileRef| out@.contains(c) && key == spec_tile_key(c.x, c.y);
                lemma_tile_key_injective(c.x, c.y, t.0, t.1);
                assert(c == spec_tile_at(tiles@[i as int], zoom));
                assert forall|j: int| 0 <= j < i + 1 implies out@.contains(
                    #[trigger] spec_tile_at(tiles@[j], zoom),
                ) by {}
            }
        }
        i = i + 1;
    }
    out
}

/// One level step of the pyramid: the parent link of every tile of the
/// level, in order, and the distinct set of parents.
fn level_parents(current: &Vec<TileRef>) -> (r: (Vec<TileRef>, Vec<FamilyRow>))
    requires
        forall|idx: int| 0 <= idx < current@.len() ==> (#[trigger] current@[idx]).zoom >= 1,
        forall|p1: int, p2: int|
            0 <= p1 < current@.len() && 0 <= p2 < current@.len() ==> (#[trigger] current@[p1]).zoom
                == (#[trigger] current@[p2]).zoom,
    ensures
        r.1@.len() == current@.len(),
        forall|idx: int|
            0 <= idx < current@.len() ==> r.1@[idx] == (FamilyRow {
                parent: spec_parent(#[trigger] current@[idx]),
                child: current@[idx],
            }),
        forall|p: TileRef| #[trigger]
            r.0@.contains(p) <==> exists|idx: int|
                0 <= idx < current@.len() && p == spec_parent(#[trigger] current@[idx]),
        spec_no_dups(r.0@),
{
    let mut parents: Vec<TileRef> = Vec::new();
    let mut family: Vec<FamilyRow> = Vec::new();
    let mut pseen: HashSet<u64> = HashSet::new();
    let mut j: usize = 0;
    while j < current.len()
        invariant
            j <= current@.len(),
            forall|idx: int| 0 <= idx < current@.len() ==> (#[trigger] current@[idx]).zoom >= 1,
            forall|p1: int, p2: int|
                0 <= p1 < current@.len() && 0 <= p2 < current@.len() ==> (#[trigger]
                current@[p1]).zoom == (#[trigger] current@[p2]).zoom,
            family@.len() == j,
            forall|idx: int|
                0 <= idx < j ==> family@[idx] == (FamilyRow {
                    parent: spec_parent(#[trigger] current@[idx]),
                    child: current@[idx],
                }),
            forall|p: TileRef| #[trigger]
                parents@.contains(p) <==> exists|idx: int|
                    0 <= idx < j && p == spec_parent(#[trigger] current@[idx]),
            spec_no_dups(parents@),
            forall|p: TileRef|
                parents@.contains(p) ==> #[trigger] pseen@.contains(spec_tile_key(p.x, p.y)),
            forall|key: u64| #[trigger]
                pseen@.contains(key) ==> exists|p: TileRef|
                    parents@.contains(p) && key == spec_tile_key(p.x, p.y),
        decreases current@.len() - j,
    {
        let c = current[j];
        let p = parent_tile(c);
        family.push(FamilyRow { parent: p, child: c });
        let key = tile_key(p.x, p.y);
        let ghost old_parents = parents@;
        let ghost old_pseen = pseen@;
        if !pseen.contains(&key) {
            pseen.insert(key);
            parents.push(p);
            proof {
                assert forall|pp: TileRef| #[trigger] parents@.contains(pp) implies pseen@
                    .contains(spec_tile_key(pp.x, pp.y)) by {
                    lemma_seq_contains_after_push(old_parents, p, pp);
                }
                assert forall|pp: TileRef| #[trigger]
                    parents@.contains(pp) implies exists|idx: int|
                    0 <= idx < j + 1 && pp == spec_parent(#[trigger] current@[idx]) by {
                    lemma_seq_contains_after_push(old_parents, p, pp);
                    if pp == p {
                        assert(pp == spec_parent(current@[j as int]));
                    }
                }
                assert forall|idx: int| 0 <= idx < j + 1 implies parents@.contains(
                    spec_parent(#[trigger] current@[idx]),
                ) by {
                    lemma_seq_contains_after_push(old_parents, p, spec_parent(current@[idx]));
                }
                assert forall|p1: int, q1: int| 0 <= p1 < q1 < parents@.len() implies parents@[p1]
                    != parents@[q1] by {
                    if q1 == parents@.len() - 1 {
                        assert(old_parents.contains(old_parents[p1]));
                    }
                }
                assert forall|k2: u64| #[trigger] pseen@.contains(k2) implies exists|p2: TileRef|
                    parents@.contains(p2) && k2 == spec_tile_key(p2.x, p2.y) by {
                    if k2 == key {
                        lemma_seq_contains_after_push(old_parents, p, p);
                        assert(parents@.contains(p) && k2 == spec_tile_key(p.x, p.y));
                    } else {
                        let p2 = choose|p2: TileRef|
                            old_parents.contains(p2) && k2 == spec_tile_key(p2.x, p2.y);
                        lemma_seq_contains_after_push(old_parents, p, p2);
                    }
                }
            }
        } else {
            proof {
                let pp = choose|pp: TileRef|
                    parents@.contains(pp) && key == spec_tile_key(pp.x, pp.y);
                lemma_tile_key_injective(pp.x, pp.y, p.x, p.y);
                let idx0 = choose|idx: int|
                    0 <= idx < j && pp == spec_parent(#[trigger] current@[idx]);
                assert(current@[idx0].zoom == current@[j as int].zoom);
                assert(pp.zoom == p.zoom);
                assert(pp == p);
                assert(parents@.contains(spec_parent(current@[j as int])));
            }
        }
        j = j + 1;
    }
    (parents, family)
}


/// Appending the level's parent links keeps the family rows exactly the
/// links of the levels built so far.
proof fn lemma_level_family(
    tiles: Seq<(u32, u32)>,
    zoom: u8,
    current: Seq<TileRef>,
    f_old: Seq<FamilyRow>,
    rows: Seq<FamilyRow>,
    cz: u8,
)
    requires
        1 <= cz <= zoom,
        forall|c: TileRef| #[trigger] current.contains(c) ==> c.zoom == cz,
        forall|c: TileRef| #[trigger]
            current.contains(c) ==> exists|j: int|
                0 <= j < tiles.len() && c == spec_anc(
                    spec_tile_at(tiles[j], zoom),
                    (zoom - cz) as nat,
                ),
        forall|j: int|
            0 <= j < tiles.len() ==> current.contains(
                spec_anc(#[trigger] spec_tile_at(tiles[j], zoom), (zoom - cz) as nat),
            ),
        forall|fr: FamilyRow| #[trigger]
            f_old.contains(fr) <==> spec_is_family_row(tiles, zoom, fr, (zoom - cz) as int),
        rows.len() == current.len(),
        forall|idx: int|
            0 <= idx < current.len() ==> rows[idx] == (FamilyRow {
                parent: spec_parent(#[trigger] current[idx]),
                child: current[idx],
            }),
    ensures
        forall|fr: FamilyRow| #[trigger]
            (f_old + rows).contains(fr) <==> spec_is_family_row(
                tiles,
                zoom,
                fr,
                (zoom - cz + 1) as int,
            ),
{
    let d = (zoom - cz) as nat;
    assert forall|fr: FamilyRow| #[trigger]
        (f_old + rows).contains(fr) implies spec_is_family_row(
        tiles,
        zoom,
        fr,
        (zoom - cz + 1) as int,
    ) by {
        lemma_concat_contains(f_old, rows, fr);
        if f_old.contains(fr) {
            let (j, k) = choose|j: int, k: nat|
                0 <= j < tiles.len() && 1 <= k <= (zoom - cz) as int && fr == (FamilyRow {
                    parent: #[trigger] spec_anc(spec_tile_at(tiles[j], zoom), k),
                    child: spec_anc(spec_tile_at(tiles[j], zoom), (k - 1) as nat),
                });
            assert(1 <= k <= (zoom - cz + 1) as int);
        } else {
            let idx = choose|idx: int| 0 <= idx < rows.len() && rows[idx] == fr;
            let c = current[idx];
            assert(current.contains(c));
            let j = choose|j: int|
                0 <= j < tiles.len() && c == spec_anc(spec_tile_at(tiles[j], zoom), d);
            let t0 = spec_tile_at(tiles[j], zoom);
            assert(spec_anc(t0, (d + 1) as nat) == spec_parent(spec_anc(t0, d)));
            assert(fr == (FamilyRow {
                parent: spec_anc(t0, (d + 1) as nat),
                child: spec_anc(t0, ((d + 1) - 1) as nat),
            }));
        }
    }
    assert forall|fr: FamilyRow|
        spec_is_family_row(tiles, zoom, fr, (zoom - cz + 1) as int) implies #[trigger] (f_old
        + rows).contains(fr) by {
        let (j, k) = choose|j: int, k: nat|
            0 <= j < tiles.len() && 1 <= k <= (zoom - cz + 1) as int && fr == (FamilyRow {
                parent: #[trigger] spec_anc(spec_tile_at(tiles[j], zoom), k),
                child: spec_anc(spec_tile_at(tiles[j], zoom), (k - 1) as nat),
            });
        if k <= (zoom - cz) as int {
            assert(spec_is_family_row(tiles, zoom, fr, (zoom - cz) as int));
            assert(f_old.contains(fr));
        } else {
            let t0 = spec_tile_at(tiles[j], zoom);
            assert(current.contains(spec_anc(t0, d)));
            let idx = choose|idx: int| 0 <= idx < current.len() && current[idx] == spec_anc(t0, d);
            assert(spec_anc(t0, k) == spec_parent(spec_anc(t0, d)));
            assert(rows[idx] == fr);
            assert(rows.contains(fr));
        }
        lemma_concat_contains(f_old, rows, fr);
    }
}

/// Appending the level's distinct parents keeps the entities exactly the
/// distinct ancestor closure of the levels built so far.
proof fn lemma_level_entities(
    tiles: Seq<(u32, u32)>,
    zoom: u8,
    current: Seq<TileRef>,
    parents: Seq<TileRef>,
    e_old: Seq<TileRef>,
    e_new: Seq<TileRef>,
    cz: u8,
)
    requires
        1 <= cz <= zoom,
        forall|c: TileRef| #[trigger] current.contains(c) ==> c.zoom == cz,
        forall|c: TileRef| #[trigger]
            current.contains(c) ==> exists|j: int|
                0 <= j < tiles.len() && c == spec_anc(
                    spec_tile_at(tiles[j], zoom),
                    (zoom - cz) as nat,
                ),
        forall|j: int|
            0 <= j < tiles.len() ==> current.contains(
                spec_anc(#[trigger] spec_tile_at(tiles[j], zoom), (zoom - cz) as nat),
            ),
        forall|p: TileRef| #[trigger]
            parents.contains(p) <==> exists|idx: int|
                0 <= idx < current.len() && p == spec_parent(#[trigger] current[idx]),
        spec_no_dups(parents),
        forall|e: TileRef| #[trigger]
            e_old.contains(e) <==> spec_is_anc_entity(tiles, zoom, e, (zoom - cz) as int),
        spec_no_dups(e_old),
        e_new == e_old + parents,
    ensures
        forall|e: TileRef| #[trigger]
            e_new.contains(e) <==> spec_is_anc_entity(tiles, zoom, e, (zoom - cz + 1) as int),
        spec_no_dups(e_new),
{
    let d = (zoom - cz) as nat;
    assert forall|e: TileRef| #[trigger]
        e_new.contains(e) implies spec_is_anc_entity(tiles, zoom, e, (zoom - cz + 1) as int) by {
        lemma_concat_contains(e_old, parents, e);
        if e_old.contains(e) {
            let (j, k) = choose|j: int, k: nat|
                0 <= j < tiles.len() && k <= (zoom - cz) as int && e == #[trigger] spec_anc(
                    spec_tile_at(tiles[j], zoom),
                    k,
                );
            assert(k <= (zoom - cz + 1) as int);
        } else {
            assert(parents.contains(e));
            let idx = choose|idx: int|
                0 <= idx < current.len() && e == spec_parent(#[trigger] current[idx]);
            let c = current[idx];
            assert(current.contains(c));
            let j = choose|j: int|
                0 <= j < tiles.len() && c == spec_anc(spec_tile_at(tiles[j], zoom), d);
            let t0 = spec_tile_at(tiles[j], zoom);
            assert(spec_anc(t0, (d + 1) as nat) == spec_parent(spec_anc(t0, d)));
            assert(e == spec_anc(t0, (d + 1) as nat));
        }
    }
    assert forall|e: TileRef|
        spec_is_anc_entity(tiles, zoom, e, (zoom - cz + 1) as int) implies #[trigger] e_new
        .contains(e) by {
        let (j, k) = choose|j: int, k: nat|
            0 <= j < tiles.len() && k <= (zoom - cz + 1) as int && e == #[trigger] spec_anc(
                spec_tile_at(tiles[j], zoom),
                k,
            );
        if k <= (zoom - cz) as int {
            assert(spec_is_anc_entity(tiles, zoom, e, (zoom - cz) as int));
            assert(e_old.contains(e));
        } else {
            let t0 = spec_tile_at(tiles[j], zoom);
            assert(current.contains(spec_anc(t0, d)));
            let idx = choose|idx: int| 0 <= idx < current.len() && current[idx] == spec_anc(t0, d);
            assert(spec_anc(t0, k) == spec_parent(spec_anc(t0, d)));
            assert(parents.contains(spec_parent(current[idx])));
        }
        lemma_concat_contains(e_old, parents, e);
    }
    // Older entities live at zoom levels at or above the current one; the
    // fresh parents live one level below it, so no entity repeats.
    assert forall|i2: int, j2: int| 0 <= i2 < j2 < e_new.len() implies e_new[i2] != e_new[j2] by {
        if i2 < e_old.len() && j2 >= e_old.len() {
            let e1 = e_old[i2];
            assert(e_old.contains(e1));
            let (ja, ka) = choose|ja: int, ka: nat|
                0 <= ja < tiles.len() && ka <= (zoom - cz) as int && e1 == #[trigger] spec_anc(
                    spec_tile_at(tiles[ja], zoom),
                    ka,
                );
            lemma_anc_values(spec_tile_at(tiles[ja], zoom), ka);
            assert(e1.zoom >= cz);
            let e2 = parents[j2 - e_old.len()];
            assert(parents.contains(e2));
            let idx = choose|idx: int|
                0 <= idx < current.len() && e2 == spec_parent(#[trigger] current[idx]);
            assert(current.contains(current[idx]));
            assert(e2.zoom == cz - 1);
        }
    }
}

/// The distinct parents of a level are exactly the next level's ancestors.
proof fn lemma_level_current(
    tiles: Seq<(u32, u32)>,
    zoom: u8,
    current: Seq<TileRef>,
    parents: Seq<TileRef>,
    cz: u8,
)
    requires
        1 <= cz <= zoom,
        forall|c: TileRef| #[trigger] current.contains(c) ==> c.zoom == cz,
        forall|c: TileRef| #[trigger]
            current.contains(c) ==> exists|j: int|
                0 <= j < tiles.len() && c == spec_anc(
                    spec_tile_at(tiles[j], zoom),
                    (zoom - cz) as nat,
                ),
        forall|j: int|
            0 <= j < tiles.len() ==> current.contains(
                spec_anc(#[trigger] spec_tile_at(tiles[j], zoom), (zoom - cz) as nat),
            ),
        forall|p: TileRef| #[trigger]
            parents.contains(p) <==> exists|idx: int|
                0 <= idx < current.len() && p == spec_parent(#[trigger] current[idx]),
    ensures
        forall|p: TileRef| #[trigger] parents.contains(p) ==> p.zoom == cz - 1,
        forall|p: TileRef| #[trigger]
            parents.contains(p) ==> exists|j: int|
                0 <= j < tiles.len() && p == spec_anc(
                    spec_tile_at(tiles[j], zoom),
                    (zoom - cz + 1) as nat,
                ),
        forall|j: int|
            0 <= j < tiles.len() ==> parents.contains(
                spec_anc(#[trigger] spec_tile_at(tiles[j], zoom), (zoom - cz + 1) as nat),
            ),
{
    let d = (zoom - cz) as nat;
    assert forall|p: TileRef| #[trigger] parents.contains(p) implies p.zoom == cz - 1 by {
        let idx = choose|idx: int|
            0 <= idx < current.len() && p == spec_parent(#[trigger] current[idx]);
        assert(current.contains(current[idx]));
    }
    assert forall|p: TileRef| #[trigger] parents.contains(p) implies exists|j: int|
        0 <= j < tiles.len() && p == spec_anc(
            spec_tile_at(tiles[j], zoom),
            (zoom - cz + 1) as nat,
        ) by {
        let idx = choose|idx: int|
            0 <= idx < current.len() && p == spec_parent(#[trigger] current[idx]);
        let c = current[idx];
        assert(current.contains(c));
        let j = choose|j: int| 0 <= j < tiles.len() && c == spec_anc(spec_tile_at(tiles[j], zoom), d);
        let t0 = spec_tile_at(tiles[j], zoom);
        assert(spec_anc(t0, (d + 1) as nat) == spec_parent(spec_anc(t0, d)));
        assert(p == spec_anc(t0, (d + 1) as nat));
    }
    assert forall|j: int| 0 <= j < tiles.len() implies parents.contains(
        spec_anc(#[trigger] spec_tile_at(tiles[j], zoom), (zoom - cz + 1) as nat),
    ) by {
        let t0 = spec_tile_at(tiles[j], zoom);
        assert(current.contains(spec_anc(t0, d)));
        let idx = choose|idx: int| 0 <= idx < current.len() && current[idx] == spec_anc(t0, d);
        assert(spec_anc(t0, (d + 1) as nat) == spec_parent(spec_anc(t0, d)));
        assert(parents.contains(spec_parent(current[idx])));
    }
}

/// Grows the tile pyramid from the distinct tiles of the target zoom down
/// to zoom 0: every level's distinct tiles become entities, and every tile
/// of every level below the root is linked from its parent.  Exactly the
/// ancestor closure of the input is reported, each entity once.
pub fn build_hierarchy(tiles: &Vec<(u32, u32)>, zoom: u8) -> (r: HierarchyRows)
    ensures
        forall|e: TileRef| #[trigger]
            r.entities@.contains(e) <==> spec_is_anc_entity(tiles@, zoom, e, zoom as int),
        forall|fr: FamilyRow| #[trigger]
            r.family@.contains(fr) <==> spec_is_family_row(tiles@, zoom, fr, zoom as int),
        spec_no_dups(r.entities@),
{
    let mut current = distinct_level_tiles(tiles, zoom);
    let mut entities: Vec<TileRef> = Vec::new();
    let mut family: Vec<FamilyRow> = Vec::new();
    let mut i: usize = 0;
    while i < current.len()
        invariant
            i <= current@.len(),
            entities@ == current@.take(i as int),
        decreases current@.len() - i,
    {
        entities.push(current[i]);
        proof {
            assert(current@.take(i as int).push(current@[i as int]) =~= current@.take(i + 1));
        }
        i = i + 1;
    }
    proof {
        assert(entities@ =~= current@);
        assert forall|e: TileRef| #[trigger]
            entities@.contains(e) implies spec_is_anc_entity(tiles@, zoom, e, 0) by {
            let j = choose|j: int| 0 <= j < tiles@.len() && e == spec_tile_at(tiles@[j], zoom);
            assert(e == spec_anc(spec_tile_at(tiles@[j], zoom), 0));
        }
        assert forall|e: TileRef|
            spec_is_anc_entity(tiles@, zoom, e, 0) implies #[trigger] entities@.contains(e) by {
            let (j, k) = choose|j: int, k: nat|
                0 <= j < tiles@.len() && k <= 0 && e == #[trigger] spec_anc(
                    spec_tile_at(tiles@[j], zoom),
                    k,
                );
            assert(e == spec_tile_at(tiles@[j], zoom));
            assert(current@.contains(e));
        }
    }

    let mut cz = zoom;
    while cz > 0
        invariant
            cz <= zoom,
            forall|c: TileRef| #[trigger] current@.contains(c) ==> c.zoom == cz,
            forall|c: TileRef| #[trigger]
                current@.contains(c) ==> exists|j: int|
                    0 <= j < tiles@.len() && c == spec_anc(
                        spec_tile_at(tiles@[j], zoom),
                        (zoom - cz) as nat,
                    ),
            forall|j: int|
                0 <= j < tiles@.len() ==> current@.contains(
                    spec_anc(#[trigger] spec_tile_at(tiles@[j], zoom), (zoom - cz) as nat),
                ),
            spec_no_dups(current@),
            forall|e: TileRef| #[trigger]
                entities@.contains(e) <==> spec_is_anc_entity(tiles@, zoom, e, (zoom - cz) as int),
            spec_no_dups(entities@),
            forall|fr: FamilyRow| #[trigger]
                family@.contains(fr) <==> spec_is_family_row(tiles@, zoom, fr, (zoom - cz) as int),
        decreases cz,
    {
        proof {
            assert forall|idx: int| 0 <= idx < current@.len() implies (#[trigger]
            current@[idx]).zoom == cz by {
                assert(current@.contains(current@[idx]));
            }
        }
        let (parents, mut new_family) = level_parents(&current);
        let ghost old_family = family@;
        let ghost new_rows = new_family@;
        family.append(&mut new_family);
        proof {
            lemma_level_family(tiles@, zoom, current@, old_family, new_rows, cz);
            assert(family@ == old_family + new_rows);
        }
        let ghost old_entities = entities@;
        let mut pi: usize = 0;
        while pi < parents.len()
            invariant
                pi <= parents@.len(),
                entities@ == old_entities + parents@.take(pi as int),
            decreases parents@.len() - pi,
        {
            entities.push(parents[pi]);
            proof {
                assert((old_entities + parents@.take(pi as int)).push(parents@[pi as int])
                    =~= old_entities + parents@.take(pi + 1));
            }
            pi = pi + 1;
        }
        proof {
            assert(entities@ =~= old_entities + parents@);
            lemma_level_entities(tiles@, zoom, current@, parents@, old_entities, entities@, cz);
            lemma_level_current(tiles@, zoom, current@, parents@, cz);
        }
        current = parents;
        cz = cz - 1;
    }
    HierarchyRows { entities, family }
}
} // verus!
