//! End-to-end and unit tests for the tile pipeline, with an
//! independent protobuf/MVT decoder written here so that the wire
//! bytes are checked against something other than the encoder itself.

use rs_dynamic_mvt::cache_provider::TileCache;
use rs_dynamic_mvt::config::Config;
use rs_dynamic_mvt::decimal::{u32_to_dec_string, u64_to_dec_string};
use rs_dynamic_mvt::geo_utils::translate_zoom_to_h3_resolution;
use rs_dynamic_mvt::geometry_command_encoder::{
    from_geometry, EncoderPoint, GeomType, RawGeometry, TileProjection,
};
use rs_dynamic_mvt::mapbox_vector_tile::{
    add_feature, get_key_index, get_value_index, Coordinates, Feature, MapboxVectorTile,
    PropertyValue, TypedValue,
};
use rs_dynamic_mvt::mvt_handler::{
    cache_control_value, default_srid, get_cache_key, hex_of_bytes, tile_response, MVTCoordinates,
    MVTQuery,
};
use rs_dynamic_mvt::tile_error::TileError;
use rs_dynamic_mvt::tile_query_constructor::{get_tile_query, BBox};
use rs_dynamic_mvt::tile_service::{build_tile_bytes, features_from_rows, TileRow};
use rs_dynamic_mvt::wire::{i64_wire, write_varint};
use sha2::{Digest, Sha256};

fn pt(x: i32, y: i32) -> EncoderPoint {
    EncoderPoint { x, y }
}

// ---------------------------------------------------------------
// An independent, minimal protobuf / MVT decoder.

struct Reader<'a> {
    bytes: &'a [u8],
    pos: usize,
}

impl<'a> Reader<'a> {
    fn new(bytes: &'a [u8]) -> Self {
        Reader { bytes, pos: 0 }
    }

    fn done(&self) -> bool {
        self.pos >= self.bytes.len()
    }

    fn varint(&mut self) -> u64 {
        let mut value: u64 = 0;
        let mut shift = 0;
        loop {
            let b = self.bytes[self.pos];
            self.pos += 1;
            value |= ((b & 0x7f) as u64) << shift;
            if b < 0x80 {
                return value;
            }
            shift += 7;
        }
    }

    fn key(&mut self) -> (u64, u64) {
        let k = self.varint();
        (k >> 3, k & 7)
    }

    fn bytes_field(&mut self) -> &'a [u8] {
        let len = self.varint() as usize;
        let out = &self.bytes[self.pos..self.pos + len];
        self.pos += len;
        out
    }

    fn fixed64(&mut self) -> u64 {
        let mut v: u64 = 0;
        for i in 0..8 {
            v |= (self.bytes[self.pos + i] as u64) << (8 * i);
        }
        self.pos += 8;
        v
    }
}

#[derive(Debug, PartialEq, Clone)]
enum DecodedValue {
    Str(String),
    Double(f64),
    Int(i64),
    Uint(u64),
    Bool(bool),
    Empty,
}

#[derive(Debug)]
struct DecodedFeature {
    geom_type: u64,
    geometry: Vec<u32>,
    tags: Vec<u32>,
}

#[derive(Debug)]
struct DecodedLayer {
    version: u64,
    name: String,
    extent: u64,
    keys: Vec<String>,
    values: Vec<DecodedValue>,
    features: Vec<DecodedFeature>,
}

fn decode_packed_u32(bytes: &[u8]) -> Vec<u32> {
    let mut r = Reader::new(bytes);
    let mut out = Vec::new();
    while !r.done() {
        out.push(r.varint() as u32);
    }
    out
}

fn decode_value(bytes: &[u8]) -> DecodedValue {
    let mut r = Reader::new(bytes);
    let mut value = DecodedValue::Empty;
    while !r.done() {
        let (field, wt) = r.key();
        match (field, wt) {
            (1, 2) => {
                value = DecodedValue::Str(String::from_utf8(r.bytes_field().to_vec()).unwrap())
            }
            (3, 1) => value = DecodedValue::Double(f64::from_bits(r.fixed64())),
            (4, 0) => value = DecodedValue::Int(r.varint() as i64),
            (5, 0) => value = DecodedValue::Uint(r.varint()),
            (7, 0) => value = DecodedValue::Bool(r.varint() == 1),
            _ => panic!("unexpected value field {} wt {}", field, wt),
        }
    }
    value
}

fn decode_feature(bytes: &[u8]) -> DecodedFeature {
    let mut r = Reader::new(bytes);
    let mut f = DecodedFeature { geom_type: 0, geometry: Vec::new(), tags: Vec::new() };
    while !r.done() {
        let (field, wt) = r.key();
        match (field, wt) {
            (2, 2) => f.tags = decode_packed_u32(r.bytes_field()),
            (3, 0) => f.geom_type = r.varint(),
            (4, 2) => f.geometry = decode_packed_u32(r.bytes_field()),
            _ => panic!("unexpected feature field {} wt {}", field, wt),
        }
    }
    f
}

fn decode_layer(bytes: &[u8]) -> DecodedLayer {
    let mut r = Reader::new(bytes);
    let mut layer = DecodedLayer {
        version: 0,
        name: String::new(),
        extent: 0,
        keys: Vec::new(),
        values: Vec::new(),
        features: Vec::new(),
    };
    while !r.done() {
        let (field, wt) = r.key();
        match (field, wt) {
            (15, 0) => layer.version = r.varint(),
            (1, 2) => layer.name = String::from_utf8(r.bytes_field().to_vec()).unwrap(),
            (2, 2) => {
                let body = r.bytes_field();
                layer.features.push(decode_feature(body));
            }
            (3, 2) => layer.keys.push(String::from_utf8(r.bytes_field().to_vec()).unwrap()),
            (4, 2) => {
                let body = r.bytes_field();
                layer.values.push(decode_value(body));
            }
            (5, 0) => layer.extent = r.varint(),
            _ => panic!("unexpected layer field {} wt {}", field, wt),
        }
    }
    layer
}

fn decode_tile(bytes: &[u8]) -> Vec<DecodedLayer> {
    let mut r = Reader::new(bytes);
    let mut layers = Vec::new();
    while !r.done() {
        let (field, wt) = r.key();
        assert_eq!((field, wt), (3, 2));
        let body = r.bytes_field();
        layers.push(decode_layer(body));
    }
    layers
}

fn unzigzag(v: u32) -> i32 {
    ((v >> 1) as i32) ^ -((v & 1) as i32)
}

/// Decodes a command stream: the list of (command id, count) in order,
/// and the absolute points the cursor visits.
fn decode_commands(stream: &[u32]) -> (Vec<(u32, u32)>, Vec<(i32, i32)>) {
    let mut commands = Vec::new();
    let mut points = Vec::new();
    let mut cursor = (0i32, 0i32);
    let mut i = 0;
    while i < stream.len() {
        let c = stream[i];
        i += 1;
        let id = c & 7;
        let count = c >> 3;
        commands.push((id, count));
        if id == 1 || id == 2 {
            for _ in 0..count {
                let dx = unzigzag(stream[i]);
                let dy = unzigzag(stream[i + 1]);
                i += 2;
                cursor = (cursor.0.wrapping_add(dx), cursor.1.wrapping_add(dy));
                points.push(cursor);
            }
        }
    }
    (commands, points)
}

fn props(entries: Vec<(&str, PropertyValue)>) -> Vec<(String, PropertyValue)> {
    entries.into_iter().map(|(k, v)| (k.to_string(), v)).collect()
}

// ---------------------------------------------------------------
// Zoom to H3 resolution.

#[test]
fn zoom_resolution_is_fifteen_at_high_zoom() {
    for z in 15..40u32 {
        assert_eq!(translate_zoom_to_h3_resolution(z), 15);
    }
}

#[test]
fn zoom_resolution_matches_float_formula_below_fifteen() {
    for z in 0..15u32 {
        let expected = ((1.8 / 3.0) * z as f64 + 2.0).floor() as u32;
        let expected = expected.min(15);
        assert_eq!(translate_zoom_to_h3_resolution(z), expected, "zoom {}", z);
    }
}

#[test]
fn zoom_resolution_fixed_points() {
    assert_eq!(translate_zoom_to_h3_resolution(0), 2);
    assert_eq!(translate_zoom_to_h3_resolution(10), 8);
    assert_eq!(translate_zoom_to_h3_resolution(14), 10);
    assert_eq!(translate_zoom_to_h3_resolution(15), 15);
}

// ---------------------------------------------------------------
// Decimal and hex rendering, varints.

#[test]
fn decimal_rendering() {
    assert_eq!(u32_to_dec_string(0), "0");
    assert_eq!(u32_to_dec_string(4096), "4096");
    assert_eq!(u64_to_dec_string(18446744073709551615), "18446744073709551615");
}

#[test]
fn hex_rendering() {
    assert_eq!(hex_of_bytes(&vec![0x00, 0xff, 0x1a]), "00ff1a");
    assert_eq!(hex_of_bytes(&vec![]), "");
}

#[test]
fn varint_encoding() {
    let mut out = Vec::new();
    write_varint(&mut out, 0);
    assert_eq!(out, vec![0]);
    let mut out = Vec::new();
    write_varint(&mut out, 300);
    assert_eq!(out, vec![0xac, 0x02]);
    let mut out = Vec::new();
    write_varint(&mut out, u64::MAX);
    assert_eq!(out.len(), 10);
}

#[test]
fn i64_wire_two_complement() {
    assert_eq!(i64_wire(0), 0);
    assert_eq!(i64_wire(1), 1);
    assert_eq!(i64_wire(-1), u64::MAX);
    assert_eq!(i64_wire(-2), u64::MAX - 1);
    assert_eq!(i64_wire(i64::MIN), 0x8000_0000_0000_0000);
}

// ---------------------------------------------------------------
// Geometry command encoding (MVT specification examples).

#[test]
fn point_command_stream() {
    let g = RawGeometry::Point(pt(25, 17));
    let data = from_geometry(&g).unwrap();
    assert!(matches!(data.geometry_type, GeomType::Point));
    assert_eq!(data.geometry, vec![9, 50, 34]);
}

#[test]
fn linestring_command_stream() {
    let g = RawGeometry::LineString(vec![pt(2, 2), pt(2, 10), pt(10, 10)]);
    let data = from_geometry(&g).unwrap();
    assert!(matches!(data.geometry_type, GeomType::Linestring));
    assert_eq!(data.geometry, vec![9, 4, 4, 18, 0, 16, 16, 0]);
}

#[test]
fn polygon_command_stream() {
    // A closed ring: the duplicate last vertex is dropped and
    // ClosePath closes the ring.
    let g = RawGeometry::Polygon(vec![vec![pt(3, 6), pt(8, 12), pt(20, 34), pt(3, 6)]]);
    let data = from_geometry(&g).unwrap();
    assert!(matches!(data.geometry_type, GeomType::Polygon));
    assert_eq!(data.geometry, vec![9, 6, 12, 18, 10, 12, 24, 44, 15]);
}

#[test]
fn polygon_with_inner_ring_has_two_sequences_exterior_first() {
    let exterior = vec![pt(0, 0), pt(100, 0), pt(100, 100), pt(0, 100), pt(0, 0)];
    let hole = vec![pt(20, 20), pt(20, 40), pt(40, 40), pt(40, 20), pt(20, 20)];
    let g = RawGeometry::Polygon(vec![exterior, hole]);
    let data = from_geometry(&g).unwrap();
    let (commands, points) = decode_commands(&data.geometry);
    assert_eq!(
        commands,
        vec![(1, 1), (2, 3), (7, 1), (1, 1), (2, 3), (7, 1)],
        "two MoveTo/LineTo/ClosePath sequences"
    );
    // Exterior first: the first visited point is the exterior's first.
    assert_eq!(points[0], (0, 0));
    assert_eq!(points[4], (20, 20));
}

#[test]
fn multipoint_single_moveto() {
    let g = RawGeometry::MultiPoint(vec![pt(5, 7), pt(3, 2)]);
    let data = from_geometry(&g).unwrap();
    let (commands, points) = decode_commands(&data.geometry);
    assert_eq!(commands, vec![(1, 2)]);
    assert_eq!(points, vec![(5, 7), (3, 2)]);
}

#[test]
fn command_stream_reproduces_points_exactly() {
    let input = vec![pt(10, -3), pt(-200000, 44), pt(7, 7), pt(i32::MAX, i32::MIN)];
    let g = RawGeometry::LineString(input.clone());
    let data = from_geometry(&g).unwrap();
    let (_, points) = decode_commands(&data.geometry);
    let expected: Vec<(i32, i32)> = input.iter().map(|p| (p.x, p.y)).collect();
    assert_eq!(points, expected);
}

#[test]
fn geometry_collection_is_unsupported() {
    let err = match from_geometry(&RawGeometry::GeometryCollection) {
        Ok(_) => panic!("a geometry collection must be refused"),
        Err(message) => message,
    };
    assert_eq!(err, "Unsupported geometry type");
}

// ---------------------------------------------------------------
// Dictionaries.

#[test]
fn key_dictionary_deduplicates() {
    let mut keys: Vec<String> = Vec::new();
    assert_eq!(get_key_index(&mut keys, "name"), 0);
    assert_eq!(get_key_index(&mut keys, "kind"), 1);
    assert_eq!(get_key_index(&mut keys, "name"), 0);
    assert_eq!(keys, vec!["name".to_string(), "kind".to_string()]);
}

#[test]
fn value_dictionary_is_structural() {
    let mut values: Vec<TypedValue> = Vec::new();
    assert_eq!(get_value_index(&mut values, TypedValue::Int(1)), 0);
    // An int 1 and a double 1.0 are distinct dictionary entries.
    assert_eq!(get_value_index(&mut values, TypedValue::Double(1.0f64.to_bits())), 1);
    assert_eq!(get_value_index(&mut values, TypedValue::Int(1)), 0);
    assert_eq!(get_value_index(&mut values, TypedValue::Str("1".to_string())), 2);
    assert_eq!(values.len(), 3);
}

// ---------------------------------------------------------------
// Feature composition.

#[test]
fn null_property_is_omitted_from_tags() {
    let mut keys: Vec<String> = Vec::new();
    let mut values: Vec<TypedValue> = Vec::new();
    let feature = Feature {
        geometry: RawGeometry::Point(pt(1, 1)),
        properties: props(vec![
            ("a", PropertyValue::Str("x".to_string())),
            ("b", PropertyValue::Null),
            ("c", PropertyValue::Bool(true)),
        ]),
    };
    let proto = add_feature(&mut keys, &mut values, &feature).unwrap();
    assert_eq!(keys, vec!["a".to_string(), "c".to_string()]);
    assert_eq!(proto.tags, vec![0, 0, 1, 1]);
}

#[test]
fn composite_property_is_omitted_from_tags() {
    let mut keys: Vec<String> = Vec::new();
    let mut values: Vec<TypedValue> = Vec::new();
    let feature = Feature {
        geometry: RawGeometry::Point(pt(1, 1)),
        properties: props(vec![("arr", PropertyValue::Composite)]),
    };
    let proto = add_feature(&mut keys, &mut values, &feature).unwrap();
    assert!(keys.is_empty());
    assert!(proto.tags.is_empty());
}

#[test]
fn geometry_collection_feature_is_skipped() {
    let mut keys: Vec<String> = Vec::new();
    let mut values: Vec<TypedValue> = Vec::new();
    let feature = Feature {
        geometry: RawGeometry::GeometryCollection,
        properties: props(vec![("a", PropertyValue::Int(1))]),
    };
    assert!(add_feature(&mut keys, &mut values, &feature).is_none());
    assert!(keys.is_empty());
    assert!(values.is_empty());
}

// ---------------------------------------------------------------
// Row decoding.

fn int_row(x: i32, y: i32, count: i64, properties: Option<Vec<(String, PropertyValue)>>) -> TileRow {
    TileRow {
        geometry_bin: RawGeometry::Point(pt(x, y)),
        h3_cluster_count: count,
        properties,
    }
}

#[test]
fn geo_col_property_is_removed_and_count_injected() {
    let rows = vec![int_row(
        1,
        2,
        100,
        Some(props(vec![
            ("name", PropertyValue::Str("a".to_string())),
            ("geom", PropertyValue::Str("AAAA".to_string())),
        ])),
    )];
    let features = features_from_rows(rows, "geom");
    assert_eq!(features.len(), 1);
    let names: Vec<&str> = features[0].properties.iter().map(|p| p.0.as_str()).collect();
    assert_eq!(names, vec!["name", "h3ClusterCount"]);
    assert!(matches!(features[0].properties[1].1, PropertyValue::Int(100)));
}

#[test]
fn cluster_count_replaces_existing_value_in_place() {
    let rows = vec![int_row(
        0,
        0,
        7,
        Some(props(vec![
            ("h3ClusterCount", PropertyValue::Int(1)),
            ("z", PropertyValue::Bool(false)),
        ])),
    )];
    let features = features_from_rows(rows, "geom");
    let names: Vec<&str> = features[0].properties.iter().map(|p| p.0.as_str()).collect();
    assert_eq!(names, vec!["h3ClusterCount", "z"]);
    assert!(matches!(features[0].properties[0].1, PropertyValue::Int(7)));
}

#[test]
fn rows_without_object_properties_are_dropped() {
    let rows = vec![int_row(0, 0, 1, None), int_row(1, 1, 1, Some(props(vec![])))];
    let features = features_from_rows(rows, "geom");
    assert_eq!(features.len(), 1);
}

// ---------------------------------------------------------------
// Whole tiles.

#[test]
fn empty_rows_give_valid_tile_with_one_empty_layer() {
    let bytes = build_tile_bytes(Vec::new(), "geom").unwrap();
    let layers = decode_tile(&bytes);
    assert_eq!(layers.len(), 1);
    assert_eq!(layers[0].name, "default");
    assert_eq!(layers[0].version, 1);
    assert_eq!(layers[0].extent, 4096);
    assert!(layers[0].features.is_empty());
    assert!(layers[0].keys.is_empty());
    assert!(layers[0].values.is_empty());
}

#[test]
fn geometry_collection_row_leaves_layer_empty() {
    let rows = vec![TileRow {
        geometry_bin: RawGeometry::GeometryCollection,
        h3_cluster_count: 1,
        properties: Some(props(vec![])),
    }];
    let bytes = build_tile_bytes(rows, "geom").unwrap();
    let layers = decode_tile(&bytes);
    assert_eq!(layers.len(), 1);
    assert!(layers[0].features.is_empty());
}

#[test]
fn single_point_tile_roundtrip() {
    let rows = vec![int_row(25, 17, 1, Some(props(vec![])))];
    let bytes = build_tile_bytes(rows, "geom").unwrap();
    let layers = decode_tile(&bytes);
    assert_eq!(layers.len(), 1);
    let layer = &layers[0];
    assert_eq!(layer.features.len(), 1);
    assert_eq!(layer.features[0].geom_type, 1);
    assert_eq!(layer.features[0].geometry, vec![9, 50, 34]);
    assert_eq!(layer.keys, vec!["h3ClusterCount".to_string()]);
    assert_eq!(layer.values, vec![DecodedValue::Int(1)]);
    assert_eq!(layer.features[0].tags, vec![0, 0]);
}

#[test]
fn feature_collection_roundtrips_through_independent_parser() {
    let rows = vec![
        int_row(
            5,
            7,
            1,
            Some(props(vec![
                ("name", PropertyValue::Str("alpha".to_string())),
                ("height", PropertyValue::Double(12.5f64.to_bits())),
                ("open", PropertyValue::Bool(true)),
            ])),
        ),
        TileRow {
            geometry_bin: RawGeometry::Polygon(vec![vec![
                pt(3, 6),
                pt(8, 12),
                pt(20, 34),
                pt(3, 6),
            ]]),
            h3_cluster_count: 1,
            properties: Some(props(vec![
                ("name", PropertyValue::Str("beta".to_string())),
                ("height", PropertyValue::Uint(u64::MAX)),
            ])),
        },
    ];
    let bytes = build_tile_bytes(rows, "geom").unwrap();
    let layers = decode_tile(&bytes);
    assert_eq!(layers.len(), 1);
    let layer = &layers[0];
    assert_eq!(layer.features.len(), 2);

    // Geometries survive exactly.
    let (_, pts0) = decode_commands(&layer.features[0].geometry);
    assert_eq!(pts0, vec![(5, 7)]);
    assert_eq!(layer.features[0].geom_type, 1);
    assert_eq!(layer.features[1].geom_type, 3);
    let (cmds1, pts1) = decode_commands(&layer.features[1].geometry);
    assert_eq!(cmds1, vec![(1, 1), (2, 2), (7, 1)]);
    assert_eq!(pts1, vec![(3, 6), (8, 12), (20, 34)]);

    // Property sets survive: resolve each feature's tags.
    let resolve = |f: &DecodedFeature| -> Vec<(String, DecodedValue)> {
        f.tags
            .chunks(2)
            .map(|p| {
                (layer.keys[p[0] as usize].clone(), layer.values[p[1] as usize].clone())
            })
            .collect()
    };
    let p0 = resolve(&layer.features[0]);
    assert_eq!(
        p0,
        vec![
            ("name".to_string(), DecodedValue::Str("alpha".to_string())),
            ("height".to_string(), DecodedValue::Double(12.5)),
            ("open".to_string(), DecodedValue::Bool(true)),
            ("h3ClusterCount".to_string(), DecodedValue::Int(1)),
        ]
    );
    let p1 = resolve(&layer.features[1]);
    assert_eq!(
        p1,
        vec![
            ("name".to_string(), DecodedValue::Str("beta".to_string())),
            ("height".to_string(), DecodedValue::Uint(u64::MAX)),
            ("h3ClusterCount".to_string(), DecodedValue::Int(1)),
        ]
    );

    // Shared keys are dictionary-encoded once.
    assert_eq!(
        layer.keys,
        vec![
            "name".to_string(),
            "height".to_string(),
            "open".to_string(),
            "h3ClusterCount".to_string(),
        ]
    );
}

#[test]
fn tile_from_layer_map_carries_layer_name() {
    let layers = vec![("roads".to_string(), Vec::<Feature>::new())];
    let tile = MapboxVectorTile::new(&layers);
    let bytes = tile.to_bytes().unwrap();
    let decoded = decode_tile(&bytes);
    assert_eq!(decoded.len(), 1);
    assert_eq!(decoded[0].name, "roads");
}

// ---------------------------------------------------------------
// SQL construction.

fn bbox() -> BBox {
    BBox {
        min_x: "1.00000000".to_string(),
        min_y: "2.00000000".to_string(),
        max_x: "3.00000000".to_string(),
        max_y: "4.00000000".to_string(),
    }
}

#[test]
fn high_zoom_chooses_form_a() {
    let sql = get_tile_query(15, "SELECT * FROM t", "geom", "4326", &bbox());
    assert!(sql.contains("CAST(1 as int8) as h3ClusterCount"));
    assert!(!sql.contains("UNION ALL"));
    assert!(!sql.contains("h3_lat_lng_to_cell"));
    assert!(sql.contains("ST_MakeEnvelope(1.00000000, 2.00000000, 3.00000000, 4.00000000, 4326)"));
    assert!(sql.contains("FROM (SELECT * FROM t) t"));
    assert!(sql.contains("ROUND(0.7 / (2 ^ 15)::numeric, 3)"));
}

#[test]
fn low_zoom_chooses_form_b_with_h3_clustering() {
    let sql = get_tile_query(14, "SELECT * FROM t", "geom", "3857", &bbox());
    assert!(sql.contains("UNION ALL"));
    assert!(sql.contains("h3_lat_lng_to_cell(CAST(geom as point), 10)"));
    assert!(sql.contains("distinct on(ci.__internal_h3_index__)"));
    assert!(sql.contains(", 3857)"));
}

#[test]
fn zoom_ten_clusters_at_resolution_eight() {
    let sql = get_tile_query(10, "SELECT 1", "the_geom", "4326", &bbox());
    assert!(sql.contains("h3_lat_lng_to_cell(CAST(the_geom as point), 8)"));
    assert!(sql.contains("ROUND(0.7 / (2 ^ 10)::numeric, 3)"));
}

// ---------------------------------------------------------------
// Cache.

#[test]
fn cache_set_then_get_returns_value() {
    let mut cache = TileCache::new();
    cache.set("k1", vec![1, 2, 3]);
    assert_eq!(cache.get_bytes("k1"), Some(vec![1, 2, 3]));
    assert_eq!(cache.get_bytes("unseen"), None);
}

#[test]
fn cache_set_replaces_value() {
    let mut cache = TileCache::new();
    cache.set("k", vec![1]);
    cache.set("k", vec![2]);
    cache.set("other", vec![9]);
    assert_eq!(cache.get_bytes("k"), Some(vec![2]));
    assert_eq!(cache.get_bytes("other"), Some(vec![9]));
}

// ---------------------------------------------------------------
// Fingerprints and the handler pieces.

#[test]
fn default_srid_is_4326() {
    assert_eq!(default_srid(), "4326");
}

fn sample_query() -> MVTQuery {
    MVTQuery {
        query: "SELECT ST_Point(0,0,4326) as geom".to_string(),
        geo_col: "geom".to_string(),
        srid: "4326".to_string(),
    }
}

#[test]
fn cache_key_matches_independent_sha256() {
    let coords = MVTCoordinates { x: 0, y: 0, z: 0 };
    let query = sample_query();
    let canonical = format!(
        "MVTCoordinates {{ x: {}, y: {}, z: {} }}MVTQuery {{ query: {:?}, geo_col: {:?}, srid: {:?} }}",
        coords.x, coords.y, coords.z, query.query, query.geo_col, query.srid
    );
    let mut hasher = Sha256::new();
    hasher.update(&canonical);
    let digest = hasher.finalize();
    let expected: String = digest.iter().map(|b| format!("{:02x}", b)).collect();
    assert_eq!(get_cache_key(&coords, &query), expected);
}

#[test]
fn cache_key_is_stable_and_distinguishes_requests() {
    let coords = MVTCoordinates { x: 1, y: 2, z: 3 };
    let query = sample_query();
    let k1 = get_cache_key(&coords, &query);
    let k2 = get_cache_key(&coords, &query);
    assert_eq!(k1, k2);
    assert_eq!(k1.len(), 64);
    assert!(k1.chars().all(|c| c.is_ascii_hexdigit()));
    let other_coords = MVTCoordinates { x: 1, y: 2, z: 4 };
    assert_ne!(get_cache_key(&other_coords, &query), k1);
    let mut other_query = sample_query();
    other_query.query = "SELECT 1".to_string();
    assert_ne!(get_cache_key(&coords, &other_query), k1);
}

#[test]
fn tile_response_maps_result_to_status() {
    let (status, body) = tile_response(Ok(vec![1, 2]));
    assert_eq!(status, 200);
    assert_eq!(body, vec![1, 2]);
    let (status, body) = tile_response(Err(TileError::DatabaseError("boom".to_string())));
    assert_eq!(status, 404);
    assert!(body.is_empty());
}

#[test]
fn cache_control_defaults() {
    let mut config = Config {
        database_url: "postgres://localhost/db".to_string(),
        cache_url: None,
        cache_control_header: None,
        allowed_origins: None,
        disable_gzip: None,
    };
    assert_eq!(cache_control_value(&config), "private, max-age=300");
    config.cache_control_header = Some("public, max-age=60".to_string());
    assert_eq!(cache_control_value(&config), "public, max-age=60");
}

// ---------------------------------------------------------------
// Projection parameters.

#[test]
fn tile_projection_parameters() {
    let p = TileProjection::new(&Coordinates { x: 1, y: 2, z: 3 }, 4096);
    assert_eq!(p.zoom_level, 15);
    assert_eq!(p.min_x, 4096);
    assert_eq!(p.min_y, 8192);
}

// ---------------------------------------------------------------
// Errors.

#[test]
fn error_messages() {
    assert_eq!(
        TileError::NotFound.message(),
        "failed to generate tile"
    );
    assert_eq!(
        rs_dynamic_mvt::mvt_error::BinaryTileError.message(),
        "failed to encode tile binary"
    );
}
