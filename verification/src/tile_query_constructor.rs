//! Builds the PostGIS SQL for one tile request: the user's query is
//! wrapped with a bounding-box intersection, zoom-adaptive
//! simplification and, at low zoom, H3 clustering of points.
//!
//! No escaping is performed on the query, the geometry column or the
//! SRID: they are trusted inputs from the calling service.

use crate::decimal::{spec_dec, u32_to_dec_string};
use crate::geo_utils::{spec_h3_resolution, translate_zoom_to_h3_resolution};
use vstd::prelude::*;
use vstd::string::StringExecFns;

verus! {

/// A tile's bounding box, each coordinate already rendered as the
/// decimal text that is spliced into the SQL (longitude/latitude with
/// eight fractional digits).  The floating-point tile-to-coordinate
/// conversion happens outside this crate.
pub struct BBox {
    pub min_x: String,
    pub min_y: String,
    pub max_x: String,
    pub max_y: String,
}

/// The `ST_MakeEnvelope` expression for a bounding box.
pub open spec fn spec_envelope(
    min_x: Seq<char>,
    min_y: Seq<char>,
    max_x: Seq<char>,
    max_y: Seq<char>,
    srid: Seq<char>,
) -> Seq<char> {
    "ST_MakeEnvelope("@ + min_x + ", "@ + min_y + ", "@ + max_x + ", "@ + max_y + ", "@ + srid
        + ")"@
}

fn envelope_sql(bbox: &BBox, srid: &str) -> (out: String)
    ensures
        out@ == spec_envelope(bbox.min_x@, bbox.min_y@, bbox.max_x@, bbox.max_y@, srid@),
{
    let mut out = String::from_str("ST_MakeEnvelope(");
    out.append(bbox.min_x.as_str());
    out.append(", ");
    out.append(bbox.min_y.as_str());
    out.append(", ");
    out.append(bbox.max_x.as_str());
    out.append(", ");
    out.append(bbox.max_y.as_str());
    out.append(", ");
    out.append(srid);
    out.append(")");
    proof {
        assert(out@ =~= spec_envelope(bbox.min_x@, bbox.min_y@, bbox.max_x@, bbox.max_y@, srid@));
    }
    out
}

/// The part both query forms share: a CTE that keeps the rows
/// intersecting the envelope, records each row's geometry type and
/// simplification tolerance, and a second CTE mapping each geometry
/// (collections extracted, points kept, everything else simplified).
pub open spec fn spec_query_common(
    query: Seq<char>,
    geo_col: Seq<char>,
    zoom: Seq<char>,
    envelope: Seq<char>,
) -> Seq<char> {
    "WITH geometry_type AS (\n    SELECT\n        row_to_json(t) as properties,\n        t."@
        + geo_col + ",\n        ST_GeometryType("@ + geo_col
        + ") as __internal_geometry_type__,\n        ROUND(0.7 / (2 ^ "@ + zoom
        + ")::numeric, 3) as __internal_geometry_simplify__\n    FROM ("@ + query
        + ") t\n    WHERE\n        ST_INTERSECTS("@ + envelope + ", "@ + geo_col
        + ")\n), setup AS (\n    SELECT\n        t.*,\n        CASE\n            WHEN __internal_geometry_type__ = 'ST_GeometryCollection'\n            THEN ST_CollectionExtract(ST_Simplify("@
        + geo_col + ", 0.7 / (2 ^ "@ + zoom
        + "), true))\n            WHEN __internal_geometry_type__ = 'ST_Point'\n            THEN "@
        + geo_col + "\n            ELSE ST_Simplify("@ + geo_col
        + ", t.__internal_geometry_simplify__, true)\n        END as __internal_geometry_mapped__"@
}

fn append_query_common(out: &mut String, query: &str, geo_col: &str, zoom: &str, envelope: &str)
    ensures
        final(out)@ == old(out)@ + spec_query_common(query@, geo_col@, zoom@, envelope@),
{
    out.append(
        "WITH geometry_type AS (\n    SELECT\n        row_to_json(t) as properties,\n        t.",
    );
    out.append(geo_col);
    out.append(",\n        ST_GeometryType(");
    out.append(geo_col);
    out.append(") as __internal_geometry_type__,\n        ROUND(0.7 / (2 ^ ");
    out.append(zoom);
    out.append(")::numeric, 3) as __internal_geometry_simplify__\n    FROM (");
    out.append(query);
    out.append(") t\n    WHERE\n        ST_INTERSECTS(");
    out.append(envelope);
    out.append(", ");
    out.append(geo_col);
    out.append(
        ")\n), setup AS (\n    SELECT\n        t.*,\n        CASE\n            WHEN __internal_geometry_type__ = 'ST_GeometryCollection'\n            THEN ST_CollectionExtract(ST_Simplify(",
    );
    out.append(geo_col);
    out.append(", 0.7 / (2 ^ ");
    out.append(zoom);
    out.append(
        "), true))\n            WHEN __internal_geometry_type__ = 'ST_Point'\n            THEN ",
    );
    out.append(geo_col);
    out.append("\n            ELSE ST_Simplify(");
    out.append(geo_col);
    out.append(", t.__internal_geometry_simplify__, true)\n        END as __internal_geometry_mapped__");
    proof {
        assert(out@ =~= old(out)@ + spec_query_common(query@, geo_col@, zoom@, envelope@));
    }
}

/// Form A (no clustering, high zoom): every mapped row is emitted with
/// `h3ClusterCount = 1` and its geometry as WKB.
pub open spec fn spec_query_form_a(
    query: Seq<char>,
    geo_col: Seq<char>,
    zoom: Seq<char>,
    envelope: Seq<char>,
) -> Seq<char> {
    spec_query_common(query, geo_col, zoom, envelope)
        + ",\n        CAST(1 as int8) as h3ClusterCount\n    FROM geometry_type t\n) SELECT *, ST_AsBinary(__internal_geometry_mapped__) as __internal_geometry_bin__ FROM setup"@
}

/// Form B (low zoom): non-point rows pass through with count 1; point
/// rows are H3-indexed at `h3_res`, counted per cell, and one row per
/// cell survives carrying the cell's count.
pub open spec fn spec_query_form_b(
    query: Seq<char>,
    geo_col: Seq<char>,
    zoom: Seq<char>,
    envelope: Seq<char>,
    h3_res: Seq<char>,
) -> Seq<char> {
    spec_query_common(query, geo_col, zoom, envelope)
        + "\n    FROM geometry_type t\n), shapes AS (\n    SELECT\n        CAST('1' as h3index) as __internal_h3_index__,\n        *,\n        CAST(1 as int8) as h3ClusterCount\n    FROM setup\n    WHERE __internal_geometry_type__ <> 'ST_Point' AND __internal_geometry_mapped__ IS NOT NULL\n), points AS (\n    (WITH data AS (\n        SELECT * FROM setup WHERE __internal_geometry_type__ = 'ST_Point'\n    ), indexed AS (\n        SELECT h3_lat_lng_to_cell(CAST("@
        + geo_col + " as point), "@ + h3_res
        + ") as __internal_h3_index__, * FROM data\n    ), counted_index AS (\n        SELECT *, row_number() over (partition by __internal_h3_index__ ORDER BY __internal_h3_index__ DESC) as h3ClusterCount FROM indexed\n    )\n    SELECT\n        distinct on(ci.__internal_h3_index__) ci.*\n    FROM counted_index ci\n    ORDER BY ci.__internal_h3_index__, ci.h3ClusterCount DESC)\n)\nSELECT\n    *,\n    ST_AsBinary(__internal_geometry_mapped__) as __internal_geometry_bin__\nFROM shapes\nUNION ALL\nSELECT\n    *,\n    ST_AsBinary(__internal_geometry_mapped__) as __internal_geometry_bin__\nFROM points"@
}

/// The SQL for a tile request: form B exactly when the zoom's H3
/// resolution is below the finest resolution, form A otherwise.
pub open spec fn spec_tile_query(
    z: u32,
    query: Seq<char>,
    geo_col: Seq<char>,
    srid: Seq<char>,
    min_x: Seq<char>,
    min_y: Seq<char>,
    max_x: Seq<char>,
    max_y: Seq<char>,
) -> Seq<char> {
    let zoom = spec_dec(z as nat);
    let envelope = spec_envelope(min_x, min_y, max_x, max_y, srid);
    if spec_h3_resolution(z) < 15 {
        spec_query_form_b(
            query,
            geo_col,
            zoom,
            envelope,
            spec_dec(spec_h3_resolution(z) as nat),
        )
    } else {
        spec_query_form_a(query, geo_col, zoom, envelope)
    }
}

/// Builds the SQL for one tile request.  At zoom 15 and above (H3
/// resolution 15) form A is produced, with no clustering; below that,
/// form B, which clusters points by their H3 cell.
pub fn get_tile_query(z: u32, query: &str, geo_col: &str, srid: &str, bbox: &BBox) -> (sql: String)
    ensures
        sql@ == spec_tile_query(
            z,
            query@,
            geo_col@,
            srid@,
            bbox.min_x@,
            bbox.min_y@,
            bbox.max_x@,
            bbox.max_y@,
        ),
        z >= 15 ==> sql@ == spec_query_form_a(
            query@,
            geo_col@,
            spec_dec(z as nat),
            spec_envelope(bbox.min_x@, bbox.min_y@, bbox.max_x@, bbox.max_y@, srid@),
        ),
        z < 15 ==> sql@ == spec_query_form_b(
            query@,
            geo_col@,
            spec_dec(z as nat),
            spec_envelope(bbox.min_x@, bbox.min_y@, bbox.max_x@, bbox.max_y@, srid@),
            spec_dec(spec_h3_resolution(z) as nat),
        ),
{
    let envelope = envelope_sql(bbox, srid);
    let zoom = u32_to_dec_string(z);
    let h3_resolution = translate_zoom_to_h3_resolution(z);
    let mut raw_query = String::new();
    append_query_common(&mut raw_query, query, geo_col, zoom.as_str(), envelope.as_str());
    if h3_resolution < 15 {
        let resolution_text = u32_to_dec_string(h3_resolution);
        raw_query.append(
            "\n    FROM geometry_type t\n), shapes AS (\n    SELECT\n        CAST('1' as h3index) as __internal_h3_index__,\n        *,\n        CAST(1 as int8) as h3ClusterCount\n    FROM setup\n    WHERE __internal_geometry_type__ <> 'ST_Point' AND __internal_geometry_mapped__ IS NOT NULL\n), points AS (\n    (WITH data AS (\n        SELECT * FROM setup WHERE __internal_geometry_type__ = 'ST_Point'\n    ), indexed AS (\n        SELECT h3_lat_lng_to_cell(CAST(",
        );
        raw_query.append(geo_col);
        raw_query.append(" as point), ");
        raw_query.append(resolution_text.as_str());
        raw_query.append(
            ") as __internal_h3_index__, * FROM data\n    ), counted_index AS (\n        SELECT *, row_number() over (partition by __internal_h3_index__ ORDER BY __internal_h3_index__ DESC) as h3ClusterCount FROM indexed\n    )\n    SELECT\n        distinct on(ci.__internal_h3_index__) ci.*\n    FROM counted_index ci\n    ORDER BY ci.__internal_h3_index__, ci.h3ClusterCount DESC)\n)\nSELECT\n    *,\n    ST_AsBinary(__internal_geometry_mapped__) as __internal_geometry_bin__\nFROM shapes\nUNION ALL\nSELECT\n    *,\n    ST_AsBinary(__internal_geometry_mapped__) as __internal_geometry_bin__\nFROM points",
        );
        proof {
            assert(raw_query@ =~= spec_query_form_b(
                query@,
                geo_col@,
                spec_dec(z as nat),
                spec_envelope(bbox.min_x@, bbox.min_y@, bbox.max_x@, bbox.max_y@, srid@),
                spec_dec(spec_h3_resolution(z) as nat),
            ));
        }
    } else {
        raw_query.append(
            ",\n        CAST(1 as int8) as h3ClusterCount\n    FROM geometry_type t\n) SELECT *, ST_AsBinary(__internal_geometry_mapped__) as __internal_geometry_bin__ FROM setup",
        );
        proof {
            assert(raw_query@ =~= spec_query_form_a(
                query@,
                geo_col@,
                spec_dec(z as nat),
                spec_envelope(bbox.min_x@, bbox.min_y@, bbox.max_x@, bbox.max_y@, srid@),
            ));
        }
    }
    raw_query
}

} // verus!
