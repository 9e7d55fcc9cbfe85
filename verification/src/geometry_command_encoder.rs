//! Encoding of tile-local geometries into the MVT command/parameter
//! integer stream: `MoveTo`/`LineTo`/`ClosePath` commands with
//! zigzag-encoded coordinate deltas, relative to a running cursor.
//!
//! Geometry coordinates are integer pixel positions in the tile's local
//! space (projection into that space happens before a geometry reaches
//! this module).

use vstd::prelude::*;
use vstd::string::StringExecFns;
use vstd::wrapping::i32_specs;

verus! {

pub const MOVE_TO: u32 = 1;

pub const LINE_TO: u32 = 2;

pub const CLOSE_PATH: u32 = 7;

/// Parts of a geometry (a point run, a line string, a ring) must keep
/// their point count below this bound so that the count fits in the
/// command integer's 29 count bits.
pub const MAX_COMMAND_COUNT: usize = 0x2000_0000;

/// A projected point in tile-local integer pixel coordinates.
#[derive(Clone, Copy, Debug, PartialEq, Eq, Structural)]
pub struct EncoderPoint {
    pub x: i32,
    pub y: i32,
}

/// A geometry in tile-local integer coordinates, as decoded from a
/// database row.  `GeometryCollection` is recognized but carries no
/// coordinates: such rows are skipped during feature construction.
#[derive(Clone, Debug)]
pub enum RawGeometry {
    Point(EncoderPoint),
    MultiPoint(Vec<EncoderPoint>),
    LineString(Vec<EncoderPoint>),
    MultiLineString(Vec<Vec<EncoderPoint>>),
    Polygon(Vec<Vec<EncoderPoint>>),
    MultiPolygon(Vec<Vec<Vec<EncoderPoint>>>),
    GeometryCollection,
}

/// The MVT feature geometry type.
#[derive(Clone, Copy, Debug, PartialEq, Eq, Structural)]
pub enum GeomType {
    Unknown,
    Point,
    Linestring,
    Polygon,
}

/// The wire number of a geometry type.
pub open spec fn spec_geom_type_number(t: GeomType) -> u32 {
    match t {
        GeomType::Unknown => 0,
        GeomType::Point => 1,
        GeomType::Linestring => 2,
        GeomType::Polygon => 3,
    }
}

/// The wire number of a geometry type.
pub fn geom_type_number(t: GeomType) -> (n: u32)
    ensures
        n == spec_geom_type_number(t),
{
    match t {
        GeomType::Unknown => 0,
        GeomType::Point => 1,
        GeomType::Linestring => 2,
        GeomType::Polygon => 3,
    }
}

/// An MVT command integer: the command id in the low three bits, the
/// repeat count above them.
pub open spec fn spec_command_integer(id: u32, count: u32) -> u32 {
    (id & 7) | (count << 3)
}

/// A command integer is decodable: the id and the count can be read
/// back out of it.
pub proof fn lemma_command_integer_roundtrip(id: u32, count: u32)
    requires
        id < 8,
        count < 0x2000_0000,
    ensures
        spec_command_integer(id, count) & 7 == id,
        spec_command_integer(id, count) >> 3 == count,
{
    assert(id < 8 && count < 0x2000_0000 ==> (((id & 7) | (count << 3)) & 7 == id && ((id & 7) | (
    count << 3)) >> 3 == count)) by (bit_vector);
}

fn command_integer(id: u32, count: u32) -> (c: u32)
    ensures
        c == spec_command_integer(id, count),
{
    (id & 7) | (count << 3)
}

/// Zigzag encoding of a signed 32-bit value: non-negative `v` maps to
/// `2*v`, negative `v` to `-2*v - 1`.
pub open spec fn spec_zigzag(v: i32) -> u32 {
    if v >= 0 {
        (2 * v) as u32
    } else {
        (-2 * v - 1) as u32
    }
}

/// The inverse of [`spec_zigzag`].
pub open spec fn spec_unzigzag(u: u32) -> i32 {
    if u % 2 == 0 {
        (u / 2) as i32
    } else {
        (-((u + 1) as int / 2)) as i32
    }
}

/// Zigzag encoding and decoding are mutually inverse.
pub proof fn lemma_zigzag_roundtrip(v: i32)
    ensures
        spec_unzigzag(spec_zigzag(v)) == v,
{
}

/// Adding back a wrapped difference recovers the original value: the
/// cursor of a decoder that applies the deltas this module emits lands
/// exactly on the encoder's points.
pub proof fn lemma_wrapping_delta_roundtrip(prev: i32, p: i32)
    ensures
        i32_specs::wrapping_add(prev, i32_specs::wrapping_sub(p, prev)) == p,
{
}

fn zigzag(v: i32) -> (u: u32)
    ensures
        u == spec_zigzag(v),
{
    if v >= 0 {
        (v as u32) * 2
    } else {
        let m = (-(v as i64)) as u32;
        (m - 1) * 2 + 1
    }
}

/// The two zigzag-encoded parameter integers for the step from `prev`
/// to `p`.
pub open spec fn spec_zz_pair(p: EncoderPoint, prev: EncoderPoint) -> Seq<u32> {
    seq![
        spec_zigzag(i32_specs::wrapping_sub(p.x, prev.x)),
        spec_zigzag(i32_specs::wrapping_sub(p.y, prev.y)),
    ]
}

/// The parameter integers for a run of points starting from cursor
/// position `prev`.
pub open spec fn spec_params(pts: Seq<EncoderPoint>, prev: EncoderPoint) -> Seq<u32>
    decreases pts.len(),
{
    if pts.len() == 0 {
        Seq::empty()
    } else {
        spec_zz_pair(pts[0], prev) + spec_params(pts.drop_first(), pts[0])
    }
}

/// The cursor position after a run of points.
pub open spec fn spec_end(pts: Seq<EncoderPoint>, prev: EncoderPoint) -> EncoderPoint {
    if pts.len() == 0 {
        prev
    } else {
        pts.last()
    }
}

/// The points recovered from a parameter stream by zigzag-decoding each
/// delta and running the cursor.
pub open spec fn spec_recover_params(params: Seq<u32>, prev: EncoderPoint) -> Seq<EncoderPoint>
    decreases params.len(),
{
    if params.len() < 2 {
        Seq::empty()
    } else {
        let p = EncoderPoint {
            x: i32_specs::wrapping_add(prev.x, spec_unzigzag(params[0])),
            y: i32_specs::wrapping_add(prev.y, spec_unzigzag(params[1])),
        };
        seq![p] + spec_recover_params(params.skip(2), p)
    }
}

/// Decoding the parameter stream emitted for a run of points
/// reproduces those points exactly.
pub proof fn lemma_params_roundtrip(pts: Seq<EncoderPoint>, prev: EncoderPoint)
    ensures
        spec_recover_params(spec_params(pts, prev), prev) =~= pts,
    decreases pts.len(),
{
    if pts.len() > 0 {
        let params = spec_params(pts, prev);
        lemma_wrapping_delta_roundtrip(prev.x, pts[0].x);
        lemma_wrapping_delta_roundtrip(prev.y, pts[0].y);
        lemma_zigzag_roundtrip(i32_specs::wrapping_sub(pts[0].x, prev.x));
        lemma_zigzag_roundtrip(i32_specs::wrapping_sub(pts[0].y, prev.y));
        assert(params.skip(2) =~= spec_params(pts.drop_first(), pts[0]));
        lemma_params_roundtrip(pts.drop_first(), pts[0]);
    }
}

/// The length of a parameter run: two integers for each point.
pub proof fn lemma_params_length(pts: Seq<EncoderPoint>, prev: EncoderPoint)
    ensures
        spec_params(pts, prev).len() == 2 * pts.len(),
    decreases pts.len(),
{
    if pts.len() > 0 {
        lemma_params_length(pts.drop_first(), pts[0]);
    }
}

/// The points a decoder of a command stream visits: each `MoveTo` or
/// `LineTo` command's parameter pairs are zigzag-decoded and applied
/// to the running cursor; `ClosePath` moves nothing.
pub open spec fn spec_recover_stream(stream: Seq<u32>, prev: EncoderPoint) -> Seq<EncoderPoint>
    decreases stream.len(),
{
    if stream.len() == 0 {
        Seq::<EncoderPoint>::empty()
    } else {
        let id = stream[0] & 7;
        let count = (stream[0] >> 3) as int;
        if id == MOVE_TO || id == LINE_TO {
            let end = if 1 + 2 * count <= stream.len() {
                1 + 2 * count
            } else {
                stream.len() as int
            };
            let pts = spec_recover_params(stream.subrange(1, end), prev);
            pts + spec_recover_stream(stream.skip(end), spec_end(pts, prev))
        } else {
            spec_recover_stream(stream.drop_first(), prev)
        }
    }
}

/// A single-point parameter run is exactly its zigzag pair.
proof fn lemma_params_single(p: EncoderPoint, prev: EncoderPoint)
    ensures
        spec_params(seq![p], prev) == spec_zz_pair(p, prev),
{
    let one = seq![p];
    assert(one.len() == 1);
    assert(one[0] == p);
    assert(one.drop_first() =~= Seq::<EncoderPoint>::empty());
    assert(spec_params(one.drop_first(), p) =~= Seq::<u32>::empty());
    assert(spec_params(one, prev) =~= spec_zz_pair(p, prev));
}

/// The points a feature's decoder visits, in visit order.  A ring
/// contributes its first point and then its `LineTo` points (the
/// trailing duplicate of a closed ring is not revisited).
pub open spec fn spec_ring_visited(r: Seq<EncoderPoint>) -> Seq<EncoderPoint>
    recommends
        r.len() >= 2,
{
    seq![r[0]] + spec_ring_line_points(r)
}

pub open spec fn spec_rings_visited(rs: Seq<Vec<EncoderPoint>>) -> Seq<EncoderPoint>
    decreases rs.len(),
{
    if rs.len() == 0 {
        Seq::<EncoderPoint>::empty()
    } else {
        spec_ring_visited(rs[0]@) + spec_rings_visited(rs.drop_first())
    }
}

pub open spec fn spec_polygons_visited(ps: Seq<Vec<Vec<EncoderPoint>>>) -> Seq<EncoderPoint>
    decreases ps.len(),
{
    if ps.len() == 0 {
        Seq::<EncoderPoint>::empty()
    } else {
        spec_rings_visited(ps[0]@) + spec_polygons_visited(ps.drop_first())
    }
}

pub open spec fn spec_lines_visited(ls: Seq<Vec<EncoderPoint>>) -> Seq<EncoderPoint>
    decreases ls.len(),
{
    if ls.len() == 0 {
        Seq::<EncoderPoint>::empty()
    } else {
        ls[0]@ + spec_lines_visited(ls.drop_first())
    }
}

/// Every point a feature's command stream encodes, in visit order.
pub open spec fn spec_geometry_visited(g: RawGeometry) -> Seq<EncoderPoint> {
    match g {
        RawGeometry::Point(p) => seq![p],
        RawGeometry::MultiPoint(v) => v@,
        RawGeometry::LineString(v) => v@,
        RawGeometry::MultiLineString(ls) => spec_lines_visited(ls@),
        RawGeometry::Polygon(rs) => spec_rings_visited(rs@),
        RawGeometry::MultiPolygon(ps) => spec_polygons_visited(ps@),
        RawGeometry::GeometryCollection => Seq::<EncoderPoint>::empty(),
    }
}

/// Decoding one line string's stream segment visits its points and
/// continues decoding whatever follows it from its last point.
proof fn lemma_recover_linestring_prefix(pts: Seq<EncoderPoint>, prev: EncoderPoint, rest: Seq<
    u32,
>)
    requires
        wf_line(pts),
    ensures
        spec_recover_stream(spec_linestring(pts, prev).0 + rest, prev) == pts
            + spec_recover_stream(rest, spec_linestring(pts, prev).1),
{
    let first = seq![pts[0]];
    let body = pts.drop_first();
    let stream = spec_linestring(pts, prev).0 + rest;
    lemma_command_integer_roundtrip(MOVE_TO, 1);
    lemma_command_integer_roundtrip(LINE_TO, (pts.len() - 1) as u32);
    lemma_params_single(pts[0], prev);
    lemma_params_length(body, pts[0]);
    assert(stream =~= seq![spec_command_integer(MOVE_TO, 1)] + spec_params(first, prev) + seq![
        spec_command_integer(LINE_TO, (pts.len() - 1) as u32),
    ] + spec_params(body, pts[0]) + rest);
    assert(stream[0] == spec_command_integer(MOVE_TO, 1));
    assert(stream[0] & 7 == MOVE_TO);
    assert((stream[0] >> 3) as int == 1);
    assert(stream.len() == 4 + 2 * (pts.len() - 1) + rest.len());
    assert(stream.subrange(1, 3) =~= spec_params(first, prev));
    lemma_params_roundtrip(first, prev);
    assert(spec_recover_params(stream.subrange(1, 3), prev) == first);
    assert(spec_end(first, prev) == pts[0]);
    let tail = stream.skip(3);
    assert(tail =~= seq![spec_command_integer(LINE_TO, (pts.len() - 1) as u32)] + spec_params(
        body,
        pts[0],
    ) + rest);
    assert(spec_recover_stream(stream, prev) == first + spec_recover_stream(tail, pts[0]));
    assert(tail[0] == spec_command_integer(LINE_TO, (pts.len() - 1) as u32));
    assert(tail[0] & 7 == LINE_TO);
    assert((tail[0] >> 3) as int == pts.len() - 1);
    let end2 = 1 + 2 * (pts.len() - 1) as int;
    assert(end2 <= tail.len());
    assert(tail.subrange(1, end2) =~= spec_params(body, pts[0]));
    lemma_params_roundtrip(body, pts[0]);
    assert(spec_recover_params(tail.subrange(1, end2), pts[0]) == body);
    assert(tail.skip(end2) =~= rest);
    assert(spec_recover_stream(tail, pts[0]) == body + spec_recover_stream(
        rest,
        spec_end(body, pts[0]),
    ));
    assert(spec_end(body, pts[0]) == spec_linestring(pts, prev).1);
    assert(spec_recover_stream(stream, prev) =~= pts + spec_recover_stream(
        rest,
        spec_linestring(pts, prev).1,
    ));
}

/// Decoding one ring's stream segment visits the ring's points and
/// continues decoding whatever follows it from the ring's last
/// `LineTo` point.
proof fn lemma_recover_ring_prefix(r: Seq<EncoderPoint>, prev: EncoderPoint, rest: Seq<u32>)
    requires
        wf_ring(r),
    ensures
        spec_recover_stream(spec_ring(r, prev).0 + rest, prev) == spec_ring_visited(r)
            + spec_recover_stream(rest, spec_ring(r, prev).1),
{
    let first = seq![r[0]];
    let body = spec_ring_line_points(r);
    let stream = spec_ring(r, prev).0 + rest;
    lemma_command_integer_roundtrip(MOVE_TO, 1);
    lemma_command_integer_roundtrip(LINE_TO, body.len() as u32);
    lemma_command_integer_roundtrip(CLOSE_PATH, 1);
    lemma_params_single(r[0], prev);
    lemma_params_length(body, r[0]);
    assert(stream =~= seq![spec_command_integer(MOVE_TO, 1)] + spec_params(first, prev) + seq![
        spec_command_integer(LINE_TO, body.len() as u32),
    ] + spec_params(body, r[0]) + seq![spec_command_integer(CLOSE_PATH, 1)] + rest);
    assert(stream[0] == spec_command_integer(MOVE_TO, 1));
    assert(stream[0] & 7 == MOVE_TO);
    assert((stream[0] >> 3) as int == 1);
    assert(stream.len() == 5 + 2 * body.len() + rest.len());
    assert(stream.subrange(1, 3) =~= spec_params(first, prev));
    lemma_params_roundtrip(first, prev);
    assert(spec_recover_params(stream.subrange(1, 3), prev) == first);
    assert(spec_end(first, prev) == r[0]);
    let tail = stream.skip(3);
    assert(tail =~= seq![spec_command_integer(LINE_TO, body.len() as u32)] + spec_params(
        body,
        r[0],
    ) + seq![spec_command_integer(CLOSE_PATH, 1)] + rest);
    assert(spec_recover_stream(stream, prev) == first + spec_recover_stream(tail, r[0]));
    assert(tail[0] == spec_command_integer(LINE_TO, body.len() as u32));
    assert(tail[0] & 7 == LINE_TO);
    assert((tail[0] >> 3) as int == body.len());
    let end2 = 1 + 2 * body.len() as int;
    assert(end2 <= tail.len());
    assert(tail.subrange(1, end2) =~= spec_params(body, r[0]));
    lemma_params_roundtrip(body, r[0]);
    assert(spec_recover_params(tail.subrange(1, end2), r[0]) == body);
    let tail2 = tail.skip(end2);
    assert(tail2 =~= seq![spec_command_integer(CLOSE_PATH, 1)] + rest);
    assert(spec_recover_stream(tail, r[0]) == body + spec_recover_stream(
        tail2,
        spec_end(body, r[0]),
    ));
    assert(tail2[0] & 7 == CLOSE_PATH);
    assert(tail2.drop_first() =~= rest);
    assert(spec_recover_stream(tail2, spec_end(body, r[0])) == spec_recover_stream(
        rest,
        spec_end(body, r[0]),
    ));
    assert(spec_end(body, r[0]) == spec_ring(r, prev).1);
    assert(spec_recover_stream(stream, prev) =~= spec_ring_visited(r) + spec_recover_stream(
        rest,
        spec_ring(r, prev).1,
    ));
}

/// Decoding a run of rings visits each ring's points in order.
proof fn lemma_recover_rings(rs: Seq<Vec<EncoderPoint>>, prev: EncoderPoint, rest: Seq<u32>)
    requires
        wf_rings(rs),
    ensures
        spec_recover_stream(spec_rings(rs, prev).0 + rest, prev) == spec_rings_visited(rs)
            + spec_recover_stream(rest, spec_rings(rs, prev).1),
    decreases rs.len(),
{
    if rs.len() == 0 {
        assert(spec_rings(rs, prev).0 + rest =~= rest);
    } else {
        let head = spec_ring(rs[0]@, prev);
        let tail = spec_rings(rs.drop_first(), head.1);
        assert(spec_rings(rs, prev).0 + rest =~= head.0 + (tail.0 + rest));
        lemma_recover_ring_prefix(rs[0]@, prev, tail.0 + rest);
        assert forall|i: int| 0 <= i < rs.drop_first().len() implies wf_ring(
            (#[trigger] rs.drop_first()[i])@,
        ) by {
            assert(rs.drop_first()[i] == rs[i + 1]);
        }
        lemma_recover_rings(rs.drop_first(), head.1, rest);
        assert(spec_recover_stream(spec_rings(rs, prev).0 + rest, prev) =~= spec_rings_visited(rs)
            + spec_recover_stream(rest, spec_rings(rs, prev).1));
    }
}

/// Decoding a run of polygons visits each polygon's rings in order.
proof fn lemma_recover_polygons(ps: Seq<Vec<Vec<EncoderPoint>>>, prev: EncoderPoint, rest: Seq<
    u32,
>)
    requires
        forall|i: int| 0 <= i < ps.len() ==> wf_rings((#[trigger] ps[i])@),
    ensures
        spec_recover_stream(spec_polygons(ps, prev).0 + rest, prev) == spec_polygons_visited(ps)
            + spec_recover_stream(rest, spec_polygons(ps, prev).1),
    decreases ps.len(),
{
    if ps.len() == 0 {
        assert(spec_polygons(ps, prev).0 + rest =~= rest);
    } else {
        let head = spec_rings(ps[0]@, prev);
        let tail = spec_polygons(ps.drop_first(), head.1);
        assert(spec_polygons(ps, prev).0 + rest =~= head.0 + (tail.0 + rest));
        lemma_recover_rings(ps[0]@, prev, tail.0 + rest);
        assert forall|i: int| 0 <= i < ps.drop_first().len() implies wf_rings(
            (#[trigger] ps.drop_first()[i])@,
        ) by {
            assert(ps.drop_first()[i] == ps[i + 1]);
        }
        lemma_recover_polygons(ps.drop_first(), head.1, rest);
        assert(spec_recover_stream(spec_polygons(ps, prev).0 + rest, prev)
            =~= spec_polygons_visited(ps) + spec_recover_stream(
            rest,
            spec_polygons(ps, prev).1,
        ));
    }
}

/// Decoding a run of line strings visits each one's points in order.
proof fn lemma_recover_lines(ls: Seq<Vec<EncoderPoint>>, prev: EncoderPoint, rest: Seq<u32>)
    requires
        forall|i: int| 0 <= i < ls.len() ==> wf_line((#[trigger] ls[i])@),
    ensures
        spec_recover_stream(spec_lines(ls, prev).0 + rest, prev) == spec_lines_visited(ls)
            + spec_recover_stream(rest, spec_lines(ls, prev).1),
    decreases ls.len(),
{
    if ls.len() == 0 {
        assert(spec_lines(ls, prev).0 + rest =~= rest);
    } else {
        let head = spec_linestring(ls[0]@, prev);
        let tail = spec_lines(ls.drop_first(), head.1);
        assert(spec_lines(ls, prev).0 + rest =~= head.0 + (tail.0 + rest));
        lemma_recover_linestring_prefix(ls[0]@, prev, tail.0 + rest);
        assert forall|i: int| 0 <= i < ls.drop_first().len() implies wf_line(
            (#[trigger] ls.drop_first()[i])@,
        ) by {
            assert(ls.drop_first()[i] == ls[i + 1]);
        }
        lemma_recover_lines(ls.drop_first(), head.1, rest);
        assert(spec_recover_stream(spec_lines(ls, prev).0 + rest, prev) =~= spec_lines_visited(ls)
            + spec_recover_stream(rest, spec_lines(ls, prev).1));
    }
}

/// The command-stream round trip: for any feature, decoding the
/// emitted command stream and running the cursor reproduces the
/// encoded points exactly, in visit order.
pub proof fn lemma_geometry_stream_roundtrip(g: RawGeometry)
    requires
        wf_geometry(g),
    ensures
        spec_recover_stream(spec_geometry_stream(g), EncoderPoint { x: 0, y: 0 })
            == spec_geometry_visited(g),
{
    let origin = EncoderPoint { x: 0, y: 0 };
    match g {
        RawGeometry::Point(p) => {
            lemma_params_single(p, origin);
            lemma_recover_point_run(seq![p], origin);
            assert(spec_geometry_stream(g) =~= seq![spec_command_integer(MOVE_TO, 1)]
                + spec_params(seq![p], origin));
        },
        RawGeometry::MultiPoint(v) => {
            lemma_recover_point_run(v@, origin);
        },
        RawGeometry::LineString(v) => {
            lemma_recover_linestring_prefix(v@, origin, Seq::<u32>::empty());
            assert(spec_linestring(v@, origin).0 + Seq::<u32>::empty() =~= spec_geometry_stream(
                g,
            ));
            assert(v@ + spec_recover_stream(Seq::<u32>::empty(), spec_linestring(v@, origin).1)
                =~= v@);
        },
        RawGeometry::MultiLineString(ls) => {
            lemma_recover_lines(ls@, origin, Seq::<u32>::empty());
            assert(spec_lines(ls@, origin).0 + Seq::<u32>::empty() =~= spec_geometry_stream(g));
            assert(spec_lines_visited(ls@) + spec_recover_stream(
                Seq::<u32>::empty(),
                spec_lines(ls@, origin).1,
            ) =~= spec_lines_visited(ls@));
        },
        RawGeometry::Polygon(rs) => {
            lemma_recover_rings(rs@, origin, Seq::<u32>::empty());
            assert(spec_rings(rs@, origin).0 + Seq::<u32>::empty() =~= spec_geometry_stream(g));
            assert(spec_rings_visited(rs@) + spec_recover_stream(
                Seq::<u32>::empty(),
                spec_rings(rs@, origin).1,
            ) =~= spec_rings_visited(rs@));
        },
        RawGeometry::MultiPolygon(ps) => {
            lemma_recover_polygons(ps@, origin, Seq::<u32>::empty());
            assert(spec_polygons(ps@, origin).0 + Seq::<u32>::empty() =~= spec_geometry_stream(
                g,
            ));
            assert(spec_polygons_visited(ps@) + spec_recover_stream(
                Seq::<u32>::empty(),
                spec_polygons(ps@, origin).1,
            ) =~= spec_polygons_visited(ps@));
        },
        RawGeometry::GeometryCollection => {},
    }
}

/// Decoding the stream of one point run (a `MoveTo` carrying every
/// point) reproduces the run.
proof fn lemma_recover_point_run(pts: Seq<EncoderPoint>, origin: EncoderPoint)
    requires
        pts.len() < MAX_COMMAND_COUNT,
    ensures
        spec_recover_stream(
            seq![spec_command_integer(MOVE_TO, pts.len() as u32)] + spec_params(pts, origin),
            origin,
        ) == pts,
{
    let stream = seq![spec_command_integer(MOVE_TO, pts.len() as u32)] + spec_params(pts, origin);
    lemma_command_integer_roundtrip(MOVE_TO, pts.len() as u32);
    lemma_params_length(pts, origin);
    assert(stream[0] == spec_command_integer(MOVE_TO, pts.len() as u32));
    assert(stream[0] & 7 == MOVE_TO);
    assert((stream[0] >> 3) as int == pts.len());
    assert(stream.len() == 1 + 2 * pts.len());
    assert(stream.subrange(1, stream.len() as int) =~= spec_params(pts, origin));
    lemma_params_roundtrip(pts, origin);
    assert(spec_recover_params(stream.subrange(1, stream.len() as int), origin) == pts);
    assert(stream.skip(stream.len() as int) =~= Seq::<u32>::empty());
    assert(spec_recover_stream(stream.skip(stream.len() as int), spec_end(pts, origin)) =~= Seq::<
        EncoderPoint,
    >::empty());
    assert(spec_recover_stream(stream, origin) =~= pts);
}

/// The integer parameters of a tile's local projection.  A tile of
/// `extent` pixels (a power of two, `n = log2(extent)`) is the
/// `extent`-by-`extent` pixel grid of the slippy tile: projection works
/// at effective zoom `z + n` and subtracts the tile's pixel origin
/// `(x << n, y << n)`.  The floating-point projection itself happens
/// outside this crate; these parameters feed it.
pub struct TileProjection {
    pub zoom_level: u32,
    pub min_x: u64,
    pub min_y: u64,
}

impl TileProjection {
    pub fn new(coordinates: &crate::mapbox_vector_tile::Coordinates, extent: u32) -> (p:
        TileProjection)
        requires
            coordinates.z + 32 <= u32::MAX,
        ensures
            ({
                let n = vstd::std_specs::bits::u32_trailing_zeros(extent);
                &&& p.zoom_level == coordinates.z + n
                &&& p.min_x == (coordinates.x as u64) << (n as u64)
                &&& p.min_y == (coordinates.y as u64) << (n as u64)
            }),
    {
        let n = extent.trailing_zeros();
        let z = coordinates.z + n;
        let min_x = (coordinates.x as u64) << (n as u64);
        let min_y = (coordinates.y as u64) << (n as u64);
        TileProjection { zoom_level: z, min_x, min_y }
    }
}

/// Accumulates the command/parameter stream for one feature,
/// maintaining the running cursor across commands.
pub struct GeometryCommandEncoder {
    pub prev_point: EncoderPoint,
    pub data: Vec<u32>,
}

impl GeometryCommandEncoder {
    pub fn new() -> (e: GeometryCommandEncoder)
        ensures
            e.prev_point == (EncoderPoint { x: 0, y: 0 }),
            e.data@ =~= Seq::<u32>::empty(),
    {
        GeometryCommandEncoder { prev_point: EncoderPoint { x: 0, y: 0 }, data: vec![] }
    }

    /// Appends the zigzag-encoded deltas for `points[start..end]` and
    /// moves the cursor to the last of them.
    fn push_points(&mut self, points: &Vec<EncoderPoint>, start: usize, end: usize)
        requires
            start <= end <= points@.len(),
        ensures
            final(self).data@ == old(self).data@ + spec_params(
                points@.subrange(start as int, end as int),
                old(self).prev_point,
            ),
            final(self).prev_point == spec_end(
                points@.subrange(start as int, end as int),
                old(self).prev_point,
            ),
    {
        let ghost pts = points@.subrange(start as int, end as int);
        let ghost prev0 = self.prev_point;
        let ghost data0 = self.data@;
        proof {
            assert(pts.skip(0) =~= pts);
            assert(pts.take(0) =~= Seq::<EncoderPoint>::empty());
        }
        let mut i: usize = start;
        while i < end
            invariant
                start <= i <= end <= points@.len(),
                pts == points@.subrange(start as int, end as int),
                data0 + spec_params(pts, prev0) == self.data@ + spec_params(
                    pts.skip(i - start),
                    self.prev_point,
                ),
                self.prev_point == spec_end(pts.take(i - start), prev0),
            decreases end - i,
        {
            let p = points[i];
            let dx = p.x.wrapping_sub(self.prev_point.x);
            let dy = p.y.wrapping_sub(self.prev_point.y);
            proof {
                let k = i - start;
                assert(pts.skip(k)[0] == pts[k]);
                assert(pts.skip(k).drop_first() =~= pts.skip(k + 1));
                assert(spec_params(pts.skip(k), self.prev_point) == spec_zz_pair(
                    pts[k],
                    self.prev_point,
                ) + spec_params(pts.skip(k + 1), pts[k]));
                assert(pts.take(k + 1).last() == pts[k]);
            }
            self.data.push(zigzag(dx));
            self.data.push(zigzag(dy));
            self.prev_point = p;
            i = i + 1;
        }
        proof {
            assert(pts.skip(end - start) =~= Seq::<EncoderPoint>::empty());
            assert(pts.take(end - start) =~= pts);
            assert(self.data@ =~= data0 + spec_params(pts, prev0));
        }
    }

    /// `MoveTo` over a whole point run.
    fn move_to(&mut self, points: &Vec<EncoderPoint>)
        requires
            points@.len() < MAX_COMMAND_COUNT,
        ensures
            final(self).data@ == old(self).data@ + seq![
                spec_command_integer(MOVE_TO, points@.len() as u32),
            ] + spec_params(points@, old(self).prev_point),
            final(self).prev_point == spec_end(points@, old(self).prev_point),
    {
        let size = points.len();
        self.data.push(command_integer(MOVE_TO, size as u32));
        self.push_points(points, 0, size);
        proof {
            assert(points@.subrange(0, points@.len() as int) =~= points@);
        }
    }

    /// `MoveTo` to the first point of a run.
    fn move_to_first(&mut self, points: &Vec<EncoderPoint>)
        requires
            points@.len() >= 1,
        ensures
            final(self).data@ == old(self).data@ + seq![spec_command_integer(MOVE_TO, 1)]
                + spec_zz_pair(points@[0], old(self).prev_point),
            final(self).prev_point == points@[0],
    {
        self.data.push(command_integer(MOVE_TO, 1));
        self.push_points(points, 0, 1);
        proof {
            let one = points@.subrange(0, 1);
            assert(one.len() == 1);
            assert(one[0] == points@[0]);
            assert(one.drop_first() =~= Seq::<EncoderPoint>::empty());
            assert(spec_params(one.drop_first(), one[0]) =~= Seq::<u32>::empty());
            assert(spec_params(one, old(self).prev_point) =~= spec_zz_pair(
                points@[0],
                old(self).prev_point,
            ));
        }
    }

    /// `LineTo` over `points[1..end]`.
    fn line_to_tail(&mut self, points: &Vec<EncoderPoint>, end: usize)
        requires
            1 <= end <= points@.len(),
            end < MAX_COMMAND_COUNT + 1,
        ensures
            final(self).data@ == old(self).data@ + seq![
                spec_command_integer(LINE_TO, (end - 1) as u32),
            ] + spec_params(points@.subrange(1, end as int), old(self).prev_point),
            final(self).prev_point == spec_end(points@.subrange(1, end as int), old(self).prev_point),
    {
        self.data.push(command_integer(LINE_TO, (end - 1) as u32));
        self.push_points(points, 1, end);
    }

    /// `ClosePath`, with count 1 and no parameters.
    fn close_path(&mut self)
        ensures
            final(self).data@ == old(self).data@ + seq![spec_command_integer(CLOSE_PATH, 1)],
            final(self).prev_point == old(self).prev_point,
    {
        self.data.push(command_integer(CLOSE_PATH, 1));
    }

    /// Emits one ring: `MoveTo` its first point, `LineTo` the rest with
    /// a trailing duplicate of the first point dropped, `ClosePath`.
    fn add_line(&mut self, ring: &Vec<EncoderPoint>)
        requires
            wf_ring(ring@),
        ensures
            final(self).data@ == old(self).data@ + spec_ring(ring@, old(self).prev_point).0,
            final(self).prev_point == spec_ring(ring@, old(self).prev_point).1,
    {
        self.move_to_first(ring);
        let len = ring.len();
        let closed = ring[0] == ring[len - 1];
        let end = if closed {
            len - 1
        } else {
            len
        };
        proof {
            assert(spec_ring_line_points(ring@) =~= ring@.subrange(1, end as int));
        }
        self.line_to_tail(ring, end);
        self.close_path();
        proof {
            assert(final(self).data@ =~= old(self).data@ + spec_ring(
                ring@,
                old(self).prev_point,
            ).0);
        }
    }

    /// Emits all rings of one polygon, exterior first.
    fn add_polygon(&mut self, rings: &Vec<Vec<EncoderPoint>>)
        requires
            wf_rings(rings@),
        ensures
            final(self).data@ == old(self).data@ + spec_rings(rings@, old(self).prev_point).0,
            final(self).prev_point == spec_rings(rings@, old(self).prev_point).1,
    {
        let ghost rs = rings@;
        let ghost prev0 = self.prev_point;
        let ghost data0 = self.data@;
        proof {
            assert(rs.skip(0) =~= rs);
        }
        let n = rings.len();
        let mut i: usize = 0;
        while i < n
            invariant
                0 <= i <= n == rs.len(),
                rs == rings@,
                wf_rings(rs),
                data0 + spec_rings(rs, prev0).0 == self.data@ + spec_rings(
                    rs.skip(i as int),
                    self.prev_point,
                ).0,
                spec_rings(rs, prev0).1 == spec_rings(rs.skip(i as int), self.prev_point).1,
            decreases n - i,
        {
            proof {
                assert(rs.skip(i as int)[0] == rs[i as int]);
                assert(rs.skip(i as int).drop_first() =~= rs.skip(i + 1));
            }
            self.add_line(&rings[i]);
            i = i + 1;
        }
        proof {
            assert(rs.skip(n as int) =~= Seq::<Vec<EncoderPoint>>::empty());
            assert(self.data@ =~= data0 + spec_rings(rs, prev0).0);
        }
    }
}

/// The command stream and final cursor for one line string: `MoveTo`
/// its first point, then `LineTo` the remaining points.
pub open spec fn spec_linestring(pts: Seq<EncoderPoint>, prev: EncoderPoint) -> (Seq<u32>,
    EncoderPoint)
    recommends
        pts.len() >= 1,
{
    (
        seq![spec_command_integer(MOVE_TO, 1)] + spec_zz_pair(pts[0], prev) + seq![
            spec_command_integer(LINE_TO, (pts.len() - 1) as u32),
        ] + spec_params(pts.drop_first(), pts[0]),
        spec_end(pts.drop_first(), pts[0]),
    )
}

/// The command stream and final cursor for a sequence of line strings.
pub open spec fn spec_lines(ls: Seq<Vec<EncoderPoint>>, prev: EncoderPoint) -> (Seq<u32>,
    EncoderPoint)
    decreases ls.len(),
{
    if ls.len() == 0 {
        (Seq::<u32>::empty(), prev)
    } else {
        let first = spec_linestring(ls[0]@, prev);
        let rest = spec_lines(ls.drop_first(), first.1);
        (first.0 + rest.0, rest.1)
    }
}

/// The points a ring's `LineTo` covers: everything after the first
/// point, with the trailing duplicate dropped when the ring is closed
/// (first point equal to last point).
pub open spec fn spec_ring_line_points(r: Seq<EncoderPoint>) -> Seq<EncoderPoint>
    recommends
        r.len() >= 2,
{
    if r[0] == r.last() {
        r.subrange(1, r.len() - 1)
    } else {
        r.subrange(1, r.len() as int)
    }
}

/// The command stream and final cursor for one ring.
pub open spec fn spec_ring(r: Seq<EncoderPoint>, prev: EncoderPoint) -> (Seq<u32>, EncoderPoint)
    recommends
        r.len() >= 2,
{
    let body = spec_ring_line_points(r);
    (
        seq![spec_command_integer(MOVE_TO, 1)] + spec_zz_pair(r[0], prev) + seq![
            spec_command_integer(LINE_TO, body.len() as u32),
        ] + spec_params(body, r[0]) + seq![spec_command_integer(CLOSE_PATH, 1)],
        spec_end(body, r[0]),
    )
}

/// The command stream and final cursor for a sequence of rings.
pub open spec fn spec_rings(rs: Seq<Vec<EncoderPoint>>, prev: EncoderPoint) -> (Seq<u32>,
    EncoderPoint)
    decreases rs.len(),
{
    if rs.len() == 0 {
        (Seq::<u32>::empty(), prev)
    } else {
        let first = spec_ring(rs[0]@, prev);
        let rest = spec_rings(rs.drop_first(), first.1);
        (first.0 + rest.0, rest.1)
    }
}

/// The command stream and final cursor for a sequence of polygons.
pub open spec fn spec_polygons(ps: Seq<Vec<Vec<EncoderPoint>>>, prev: EncoderPoint) -> (Seq<u32>,
    EncoderPoint)
    decreases ps.len(),
{
    if ps.len() == 0 {
        (Seq::<u32>::empty(), prev)
    } else {
        let first = spec_rings(ps[0]@, prev);
        let rest = spec_polygons(ps.drop_first(), first.1);
        (first.0 + rest.0, rest.1)
    }
}

/// A line string the encoder accepts: non-empty, count within the
/// command integer's range.
pub open spec fn wf_line(l: Seq<EncoderPoint>) -> bool {
    1 <= l.len() < MAX_COMMAND_COUNT
}

/// A ring the encoder accepts: at least two points (so that the first
/// point and the closed-ring check are meaningful), count in range.
pub open spec fn wf_ring(r: Seq<EncoderPoint>) -> bool {
    2 <= r.len() < MAX_COMMAND_COUNT
}

pub open spec fn wf_rings(rs: Seq<Vec<EncoderPoint>>) -> bool {
    forall|i: int| 0 <= i < rs.len() ==> wf_ring(#[trigger] rs[i]@)
}

/// A geometry the encoder accepts.
pub open spec fn wf_geometry(g: RawGeometry) -> bool {
    match g {
        RawGeometry::Point(_) => true,
        RawGeometry::MultiPoint(v) => v@.len() < MAX_COMMAND_COUNT,
        RawGeometry::LineString(v) => wf_line(v@),
        RawGeometry::MultiLineString(ls) => forall|i: int|
            0 <= i < ls@.len() ==> wf_line(#[trigger] ls@[i]@),
        RawGeometry::Polygon(rs) => wf_rings(rs@),
        RawGeometry::MultiPolygon(ps) => forall|i: int|
            0 <= i < ps@.len() ==> wf_rings(#[trigger] ps@[i]@),
        RawGeometry::GeometryCollection => true,
    }
}

/// The MVT geometry type a geometry encodes to.
pub open spec fn spec_geom_type(g: RawGeometry) -> GeomType {
    match g {
        RawGeometry::Point(_) => GeomType::Point,
        RawGeometry::MultiPoint(_) => GeomType::Point,
        RawGeometry::LineString(_) => GeomType::Linestring,
        RawGeometry::MultiLineString(_) => GeomType::Linestring,
        RawGeometry::Polygon(_) => GeomType::Polygon,
        RawGeometry::MultiPolygon(_) => GeomType::Polygon,
        RawGeometry::GeometryCollection => GeomType::Unknown,
    }
}

/// The full command/parameter stream for a geometry, with the cursor
/// starting at the tile origin.
pub open spec fn spec_geometry_stream(g: RawGeometry) -> Seq<u32> {
    let origin = EncoderPoint { x: 0, y: 0 };
    match g {
        RawGeometry::Point(p) => seq![spec_command_integer(MOVE_TO, 1)] + spec_zz_pair(p, origin),
        RawGeometry::MultiPoint(v) => seq![spec_command_integer(MOVE_TO, v@.len() as u32)]
            + spec_params(v@, origin),
        RawGeometry::LineString(v) => spec_linestring(v@, origin).0,
        RawGeometry::MultiLineString(ls) => spec_lines(ls@, origin).0,
        RawGeometry::Polygon(rs) => spec_rings(rs@, origin).0,
        RawGeometry::MultiPolygon(ps) => spec_polygons(ps@, origin).0,
        RawGeometry::GeometryCollection => Seq::<u32>::empty(),
    }
}

/// A command-encoded geometry: the MVT geometry type together with the
/// command/parameter integer stream.
pub struct GeometryData {
    pub geometry_type: GeomType,
    pub geometry: Vec<u32>,
}

/// Encodes a geometry into its MVT command stream.  Every coordinate
/// kind is encoded; a `GeometryCollection` is refused with an error
/// (callers skip such rows before asking for an encoding).
pub fn from_geometry(geom: &RawGeometry) -> (result: Result<GeometryData, String>)
    requires
        wf_geometry(*geom),
    ensures
        match result {
            Ok(gd) => !(geom is GeometryCollection) && gd.geometry_type == spec_geom_type(*geom)
                && gd.geometry@ == spec_geometry_stream(*geom),
            Err(m) => geom is GeometryCollection && m@ == "Unsupported geometry type"@,
        },
{
    match geom {
        RawGeometry::Point(p) => {
            let mut encoder = GeometryCommandEncoder::new();
            let points = vec![*p];
            encoder.move_to_first(&points);
            Ok(GeometryData { geometry_type: GeomType::Point, geometry: encoder.data })
        },
        RawGeometry::MultiPoint(v) => {
            let mut encoder = GeometryCommandEncoder::new();
            encoder.move_to(v);
            Ok(GeometryData { geometry_type: GeomType::Point, geometry: encoder.data })
        },
        RawGeometry::LineString(v) => {
            let mut encoder = GeometryCommandEncoder::new();
            encoder.move_to_first(v);
            encoder.line_to_tail(v, v.len());
            proof {
                assert(v@.subrange(1, v@.len() as int) =~= v@.drop_first());
                assert(encoder.data@ =~= spec_geometry_stream(*geom));
            }
            Ok(GeometryData { geometry_type: GeomType::Linestring, geometry: encoder.data })
        },
        RawGeometry::MultiLineString(ls) => {
            let mut encoder = GeometryCommandEncoder::new();
            let ghost lsv = ls@;
            proof {
                assert(lsv.skip(0) =~= lsv);
            }
            let n = ls.len();
            let mut i: usize = 0;
            while i < n
                invariant
                    0 <= i <= n == lsv.len(),
                    lsv == ls@,
                    forall|k: int| 0 <= k < lsv.len() ==> wf_line(#[trigger] lsv[k]@),
                    spec_lines(lsv, EncoderPoint { x: 0, y: 0 }).0 == encoder.data@ + spec_lines(
                        lsv.skip(i as int),
                        encoder.prev_point,
                    ).0,
                decreases n - i,
            {
                proof {
                    assert(lsv.skip(i as int)[0] == lsv[i as int]);
                    assert(lsv.skip(i as int).drop_first() =~= lsv.skip(i + 1));
                }
                let line = &ls[i];
                encoder.move_to_first(line);
                encoder.line_to_tail(line, line.len());
                proof {
                    assert(line@.subrange(1, line@.len() as int) =~= line@.drop_first());
                    assert(encoder.data@ + spec_lines(lsv.skip(i + 1), encoder.prev_point).0
                        =~= spec_lines(lsv, EncoderPoint { x: 0, y: 0 }).0);
                }
                i = i + 1;
            }
            proof {
                assert(lsv.skip(n as int) =~= Seq::<Vec<EncoderPoint>>::empty());
                assert(encoder.data@ =~= spec_geometry_stream(*geom));
            }
            Ok(GeometryData { geometry_type: GeomType::Linestring, geometry: encoder.data })
        },
        RawGeometry::Polygon(rs) => {
            let mut encoder = GeometryCommandEncoder::new();
            encoder.add_polygon(rs);
            proof {
                assert(encoder.data@ =~= spec_geometry_stream(*geom));
            }
            Ok(GeometryData { geometry_type: GeomType::Polygon, geometry: encoder.data })
        },
        RawGeometry::MultiPolygon(ps) => {
            let mut encoder = GeometryCommandEncoder::new();
            let ghost psv = ps@;
            proof {
                assert(psv.skip(0) =~= psv);
            }
            let n = ps.len();
            let mut i: usize = 0;
            while i < n
                invariant
                    0 <= i <= n == psv.len(),
                    psv == ps@,
                    forall|k: int| 0 <= k < psv.len() ==> wf_rings(#[trigger] psv[k]@),
                    spec_polygons(psv, EncoderPoint { x: 0, y: 0 }).0 == encoder.data@
                        + spec_polygons(psv.skip(i as int), encoder.prev_point).0,
                decreases n - i,
            {
                proof {
                    assert(psv.skip(i as int)[0] == psv[i as int]);
                    assert(psv.skip(i as int).drop_first() =~= psv.skip(i + 1));
                }
                encoder.add_polygon(&ps[i]);
                proof {
                    assert(encoder.data@ + spec_polygons(psv.skip(i + 1), encoder.prev_point).0
                        =~= spec_polygons(psv, EncoderPoint { x: 0, y: 0 }).0);
                }
                i = i + 1;
            }
            proof {
                assert(psv.skip(n as int) =~= Seq::<Vec<Vec<EncoderPoint>>>::empty());
                assert(encoder.data@ =~= spec_geometry_stream(*geom));
            }
            Ok(GeometryData { geometry_type: GeomType::Polygon, geometry: encoder.data })
        },
        RawGeometry::GeometryCollection => Err(String::from_str("Unsupported geometry type")),
    }
}

} // verus!
