//! MVT layer and tile assembly: property translation, key/value
//! dictionary encoding, feature composition and serialization of the
//! tile to protobuf wire bytes.

use crate::geometry_command_encoder::{
    from_geometry, geom_type_number, spec_geom_type, spec_geom_type_number, spec_geometry_stream,
    wf_geometry, GeomType, RawGeometry,
};
use crate::mvt_error::BinaryTileError;
use crate::wire::{
    i64_wire, spec_i64_wire, spec_key, spec_le64, spec_len_delimited, spec_packed_varints,
    spec_string_field, spec_varint_field, write_key, write_le64, write_len_delimited,
    write_packed_varints, write_string_field, write_varint_field,
};
use vstd::prelude::*;

verus! {

/// The MVT integer coordinate range within a tile.
pub const DEFAULT_EXTENT: u32 = 4096;

/// Slippy-map coordinates of the tile a request asks for.
#[derive(Clone, Copy, Debug, PartialEq, Eq, Structural)]
pub struct Coordinates {
    pub x: u32,
    pub y: u32,
    pub z: u32,
}

/// A property value as read from a row's JSON `properties` object.
/// JSON numbers arrive already dispatched: `Int` when the number fits
/// a signed 64-bit integer, `Uint` when it only fits an unsigned one,
/// `Double` (by its IEEE-754 bits) otherwise.  Arrays and objects
/// arrive as `Composite`; they are never dictionary-encoded.
#[derive(Clone, Debug)]
pub enum PropertyValue {
    Null,
    Bool(bool),
    Int(i64),
    Uint(u64),
    Double(u64),
    Str(String),
    Composite,
}

/// A value in a layer's value dictionary: a tagged union over string,
/// double (by bits), signed and unsigned integers and bool.  `Null`
/// is representable but never produced by property translation.
#[derive(Clone, Debug)]
pub enum TypedValue {
    Null,
    Str(String),
    Double(u64),
    Int(i64),
    Uint(u64),
    Bool(bool),
}

/// Structural equality of dictionary values: same tag and same
/// payload; string payloads compare by their characters.
pub open spec fn spec_typed_value_eq(a: TypedValue, b: TypedValue) -> bool {
    match (a, b) {
        (TypedValue::Null, TypedValue::Null) => true,
        (TypedValue::Str(x), TypedValue::Str(y)) => x@ == y@,
        (TypedValue::Double(x), TypedValue::Double(y)) => x == y,
        (TypedValue::Int(x), TypedValue::Int(y)) => x == y,
        (TypedValue::Uint(x), TypedValue::Uint(y)) => x == y,
        (TypedValue::Bool(x), TypedValue::Bool(y)) => x == y,
        _ => false,
    }
}

fn typed_value_eq(a: &TypedValue, b: &TypedValue) -> (r: bool)
    ensures
        r == spec_typed_value_eq(*a, *b),
{
    match a {
        TypedValue::Null => match b {
            TypedValue::Null => true,
            _ => false,
        },
        TypedValue::Str(x) => match b {
            TypedValue::Str(y) => x.eq(y),
            _ => false,
        },
        TypedValue::Double(x) => match b {
            TypedValue::Double(y) => *x == *y,
            _ => false,
        },
        TypedValue::Int(x) => match b {
            TypedValue::Int(y) => *x == *y,
            _ => false,
        },
        TypedValue::Uint(x) => match b {
            TypedValue::Uint(y) => *x == *y,
            _ => false,
        },
        TypedValue::Bool(x) => match b {
            TypedValue::Bool(y) => *x == *y,
            _ => false,
        },
    }
}

/// The dictionary value a property translates to; `None` when the
/// property is skipped entirely (JSON null, arrays, objects).
pub open spec fn spec_value_of_property(p: PropertyValue) -> Option<TypedValue> {
    match p {
        PropertyValue::Null => None,
        PropertyValue::Bool(b) => Some(TypedValue::Bool(b)),
        PropertyValue::Int(i) => Some(TypedValue::Int(i)),
        PropertyValue::Uint(u) => Some(TypedValue::Uint(u)),
        PropertyValue::Double(d) => Some(TypedValue::Double(d)),
        PropertyValue::Str(s) => Some(TypedValue::Str(s)),
        PropertyValue::Composite => None,
    }
}

fn value_of_property(p: &PropertyValue) -> (r: Option<TypedValue>)
    ensures
        match r {
            Some(tv) => spec_value_of_property(*p) == Some(tv),
            None => spec_value_of_property(*p) is None,
        },
{
    match p {
        PropertyValue::Null => None,
        PropertyValue::Bool(b) => Some(TypedValue::Bool(*b)),
        PropertyValue::Int(i) => Some(TypedValue::Int(*i)),
        PropertyValue::Uint(u) => Some(TypedValue::Uint(*u)),
        PropertyValue::Double(d) => Some(TypedValue::Double(*d)),
        PropertyValue::Str(s) => {
            let c = s.clone();
            Some(TypedValue::Str(c))
        },
        PropertyValue::Composite => None,
    }
}

/// The first position of `key` in the key dictionary, or the
/// dictionary's length when absent.
pub open spec fn spec_key_position(keys: Seq<Seq<char>>, key: Seq<char>) -> int
    decreases keys.len(),
{
    if keys.len() == 0 {
        0
    } else if keys[0] == key {
        0
    } else {
        1 + spec_key_position(keys.drop_first(), key)
    }
}

/// The first position of a value structurally equal to `v` in the
/// value dictionary, or the dictionary's length when absent.
pub open spec fn spec_value_position(values: Seq<TypedValue>, v: TypedValue) -> int
    decreases values.len(),
{
    if values.len() == 0 {
        0
    } else if spec_typed_value_eq(values[0], v) {
        0
    } else {
        1 + spec_value_position(values.drop_first(), v)
    }
}

pub proof fn lemma_key_position_properties(keys: Seq<Seq<char>>, key: Seq<char>)
    ensures
        0 <= spec_key_position(keys, key) <= keys.len(),
        spec_key_position(keys, key) < keys.len() ==> keys[spec_key_position(keys, key)] == key,
        forall|j: int|
            0 <= j < spec_key_position(keys, key) ==> keys[j] != key,
    decreases keys.len(),
{
    if keys.len() > 0 && keys[0] != key {
        lemma_key_position_properties(keys.drop_first(), key);
        assert forall|j: int| 0 <= j < spec_key_position(keys, key) implies keys[j] != key by {
            if j > 0 {
                assert(keys.drop_first()[j - 1] == keys[j]);
            }
        }
    }
}

pub proof fn lemma_value_position_properties(values: Seq<TypedValue>, v: TypedValue)
    ensures
        0 <= spec_value_position(values, v) <= values.len(),
        spec_value_position(values, v) < values.len() ==> spec_typed_value_eq(
            values[spec_value_position(values, v)],
            v,
        ),
        forall|j: int|
            0 <= j < spec_value_position(values, v) ==> !spec_typed_value_eq(values[j], v),
    decreases values.len(),
{
    if values.len() > 0 && !spec_typed_value_eq(values[0], v) {
        lemma_value_position_properties(values.drop_first(), v);
        assert forall|j: int|
            0 <= j < spec_value_position(values, v) implies !spec_typed_value_eq(values[j], v) by {
            if j > 0 {
                assert(values.drop_first()[j - 1] == values[j]);
            }
        }
    }
}

/// Looks `key` up in the key dictionary, appending it when absent;
/// returns the key's index.  The same key is never stored twice.
pub fn get_key_index(keys: &mut Vec<String>, key: &str) -> (index: usize)
    ensures
        ({
            let kv = old(keys).deep_view();
            let pos = spec_key_position(kv, key@);
            &&& index == pos
            &&& if pos < kv.len() {
                final(keys).deep_view() == kv
            } else {
                final(keys).deep_view() == kv.push(key@)
            }
        }),
{
    proof {
        lemma_key_position_properties(old(keys).deep_view(), key@);
    }
    let n = keys.len();
    let mut i: usize = 0;
    while i < n
        invariant
            0 <= i <= n == keys@.len(),
            keys@ == old(keys)@,
            forall|j: int| 0 <= j < i ==> old(keys).deep_view()[j] != key@,
        decreases n - i,
    {
        let ghost kv = old(keys).deep_view();
        if string_eq_str(&keys[i], key) {
            proof {
                lemma_key_position_found(kv, key@, i as int);
            }
            return i;
        }
        i = i + 1;
    }
    let owned = key_to_string(key);
    keys.push(owned);
    proof {
        lemma_key_position_found(old(keys).deep_view(), key@, n as int);
        assert(final(keys).deep_view() =~= old(keys).deep_view().push(key@));
    }
    n
}

/// `spec_key_position` agrees with a scan that found its first match
/// (or exhausted the dictionary) at position `i`.
proof fn lemma_key_position_found(keys: Seq<Seq<char>>, key: Seq<char>, i: int)
    requires
        0 <= i <= keys.len(),
        forall|j: int| 0 <= j < i ==> keys[j] != key,
        i < keys.len() ==> keys[i] == key,
    ensures
        spec_key_position(keys, key) == i,
    decreases keys.len(),
{
    if keys.len() > 0 && i > 0 {
        lemma_key_position_found(keys.drop_first(), key, i - 1);
    }
}

proof fn lemma_value_position_found(values: Seq<TypedValue>, v: TypedValue, i: int)
    requires
        0 <= i <= values.len(),
        forall|j: int| 0 <= j < i ==> !spec_typed_value_eq(values[j], v),
        i < values.len() ==> spec_typed_value_eq(values[i], v),
    ensures
        spec_value_position(values, v) == i,
    decreases values.len(),
{
    if values.len() > 0 && i > 0 {
        lemma_value_position_found(values.drop_first(), v, i - 1);
    }
}

pub(crate) fn string_eq_str(a: &String, b: &str) -> (r: bool)
    ensures
        r == (a@ == b@),
{
    let owned = key_to_string(b);
    *a == owned
}

pub(crate) fn key_to_string(s: &str) -> (r: String)
    ensures
        r@ == s@,
{
    <String as vstd::string::StringExecFns>::from_str(s)
}

/// Looks a value up in the value dictionary by structural equality,
/// appending it when absent; returns the value's index.  The same
/// value is never stored twice.
pub fn get_value_index(values: &mut Vec<TypedValue>, value: TypedValue) -> (index: usize)
    ensures
        ({
            let pos = spec_value_position(old(values)@, value);
            &&& index == pos
            &&& if pos < old(values)@.len() {
                final(values)@ == old(values)@
            } else {
                final(values)@ == old(values)@.push(value)
            }
        }),
{
    proof {
        lemma_value_position_properties(old(values)@, value);
    }
    let n = values.len();
    let mut i: usize = 0;
    while i < n
        invariant
            0 <= i <= n == values@.len(),
            values@ == old(values)@,
            forall|j: int| 0 <= j < i ==> !spec_typed_value_eq(old(values)@[j], value),
        decreases n - i,
    {
        if typed_value_eq(&values[i], &value) {
            proof {
                lemma_value_position_found(old(values)@, value, i as int);
            }
            return i;
        }
        i = i + 1;
    }
    values.push(value);
    proof {
        lemma_value_position_found(old(values)@, value, n as int);
    }
    n
}

/// A feature's wire-level parts: geometry type, command stream and
/// dictionary-index tag pairs.
pub struct ProtoFeature {
    pub geom_type: GeomType,
    pub geometry: Vec<u32>,
    pub tags: Vec<u32>,
}

/// The mathematical content of a wire-level feature.
pub open spec fn spec_proto_feature_view(f: ProtoFeature) -> (GeomType, Seq<u32>, Seq<u32>) {
    (f.geom_type, f.geometry@, f.tags@)
}

/// A decoded row's feature: its geometry and its property map, in the
/// JSON object's insertion order.
#[derive(Clone, Debug)]
pub struct Feature {
    pub geometry: RawGeometry,
    pub properties: Vec<(String, PropertyValue)>,
}

/// A property map at the level contracts speak of: each key by its
/// characters, each value as it stands.
pub open spec fn spec_props_view(props: Seq<(String, PropertyValue)>) -> Seq<
    (Seq<char>, PropertyValue),
> {
    props.map_values(|p: (String, PropertyValue)| (p.0@, p.1))
}

/// A feature run at the level contracts speak of: the geometry and the
/// viewed property map.
pub open spec fn spec_features_view(feats: Seq<Feature>) -> Seq<
    (RawGeometry, Seq<(Seq<char>, PropertyValue)>),
> {
    feats.map_values(|f: Feature| (f.geometry, spec_props_view(f.properties@)))
}

/// What one property does to the dictionaries and the tag list: a
/// skipped property (null, composite) changes nothing; any other is
/// translated, its key and value are found or appended in the
/// dictionaries, and the pair of indices is appended to the tags.
pub open spec fn spec_add_property(
    keys: Seq<Seq<char>>,
    values: Seq<TypedValue>,
    tags: Seq<u32>,
    key: Seq<char>,
    p: PropertyValue,
) -> (Seq<Seq<char>>, Seq<TypedValue>, Seq<u32>) {
    match spec_value_of_property(p) {
        None => (keys, values, tags),
        Some(tv) => {
            let kpos = spec_key_position(keys, key);
            let keys2 = if kpos < keys.len() {
                keys
            } else {
                keys.push(key)
            };
            let vpos = spec_value_position(values, tv);
            let values2 = if vpos < values.len() {
                values
            } else {
                values.push(tv)
            };
            (keys2, values2, tags + seq![kpos as u32, vpos as u32])
        },
    }
}

/// Translates one property and records it in the dictionaries and the
/// feature's tags, as [`spec_add_property`] says.
pub fn add_property(
    keys: &mut Vec<String>,
    values: &mut Vec<TypedValue>,
    feature: &mut ProtoFeature,
    key: &str,
    property: &PropertyValue,
)
    requires
        old(keys)@.len() < 0xFFFF_FFFF,
        old(values)@.len() < 0xFFFF_FFFF,
    ensures
        ({
            let r = spec_add_property(
                old(keys).deep_view(),
                old(values)@,
                old(feature).tags@,
                key@,
                *property,
            );
            &&& final(keys).deep_view() == r.0
            &&& final(values)@ == r.1
            &&& final(feature).tags@ == r.2
        }),
        final(keys)@.len() <= old(keys)@.len() + 1,
        final(values)@.len() <= old(values)@.len() + 1,
        final(feature).geom_type == old(feature).geom_type,
        final(feature).geometry == old(feature).geometry,
{
    proof {
        assert(old(keys).deep_view().len() == old(keys)@.len());
    }
    let tv_opt = value_of_property(property);
    match tv_opt {
        None => {},
        Some(tv) => {
            proof {
                lemma_key_position_properties(old(keys).deep_view(), key@);
                lemma_value_position_properties(old(values)@, tv);
            }
            let key_index = get_key_index(keys, key);
            feature.tags.push(key_index as u32);
            let value_index = get_value_index(values, tv);
            feature.tags.push(value_index as u32);
            proof {
                let r = spec_add_property(
                    old(keys).deep_view(),
                    old(values)@,
                    old(feature).tags@,
                    key@,
                    *property,
                );
                assert(feature.tags@ =~= r.2);
                assert(keys.deep_view().len() == keys@.len());
            }
        },
    }
}

/// The effect of a whole property map, first property first.
pub open spec fn spec_add_properties(
    keys: Seq<Seq<char>>,
    values: Seq<TypedValue>,
    tags: Seq<u32>,
    props: Seq<(Seq<char>, PropertyValue)>,
) -> (Seq<Seq<char>>, Seq<TypedValue>, Seq<u32>)
    decreases props.len(),
{
    if props.len() == 0 {
        (keys, values, tags)
    } else {
        let r = spec_add_property(keys, values, tags, props[0].0, props[0].1);
        spec_add_properties(r.0, r.1, r.2, props.drop_first())
    }
}

/// Records every property of a map in the dictionaries and the
/// feature's tags, in the map's order.
pub fn add_properties(
    keys: &mut Vec<String>,
    values: &mut Vec<TypedValue>,
    feature: &mut ProtoFeature,
    properties: &Vec<(String, PropertyValue)>,
)
    requires
        old(keys)@.len() + properties@.len() < 0xFFFF_FFFF,
        old(values)@.len() + properties@.len() < 0xFFFF_FFFF,
    ensures
        ({
            let r = spec_add_properties(
                old(keys).deep_view(),
                old(values)@,
                old(feature).tags@,
                spec_props_view(properties@),
            );
            &&& final(keys).deep_view() == r.0
            &&& final(values)@ == r.1
            &&& final(feature).tags@ == r.2
        }),
        final(keys)@.len() <= old(keys)@.len() + properties@.len(),
        final(values)@.len() <= old(values)@.len() + properties@.len(),
        final(feature).geom_type == old(feature).geom_type,
        final(feature).geometry == old(feature).geometry,
{
    let ghost props = spec_props_view(properties@);
    let ghost k0 = old(keys).deep_view();
    let ghost v0 = old(values)@;
    let ghost t0 = old(feature).tags@;
    proof {
        assert(props.skip(0) =~= props);
    }
    let n = properties.len();
    let mut i: usize = 0;
    while i < n
        invariant
            0 <= i <= n == props.len(),
            props == spec_props_view(properties@),
            keys@.len() <= k0.len() + i,
            values@.len() <= v0.len() + i,
            k0.len() + props.len() < 0xFFFF_FFFF,
            v0.len() + props.len() < 0xFFFF_FFFF,
            spec_add_properties(k0, v0, t0, props) == spec_add_properties(
                keys.deep_view(),
                values@,
                feature.tags@,
                props.skip(i as int),
            ),
            feature.geom_type == old(feature).geom_type,
            feature.geometry == old(feature).geometry,
        decreases n - i,
    {
        proof {
            assert(props[i as int] == (properties@[i as int].0@, properties@[i as int].1));
            assert(props.skip(i as int)[0] == props[i as int]);
            assert(props.skip(i as int).drop_first() =~= props.skip(i + 1));
        }
        let pair = &properties[i];
        add_property(keys, values, feature, pair.0.as_str(), &pair.1);
        i = i + 1;
    }
    proof {
        assert(props.skip(n as int) =~= Seq::<(Seq<char>, PropertyValue)>::empty());
    }
}

/// What one feature contributes: nothing for a `GeometryCollection`;
/// otherwise the dictionaries grow by the feature's properties and the
/// wire-level feature carries the geometry's type, its command stream
/// and the tag pairs.
pub open spec fn spec_add_feature(
    keys: Seq<Seq<char>>,
    values: Seq<TypedValue>,
    geometry: RawGeometry,
    props: Seq<(Seq<char>, PropertyValue)>,
) -> (Seq<Seq<char>>, Seq<TypedValue>, Option<(GeomType, Seq<u32>, Seq<u32>)>) {
    if geometry is GeometryCollection {
        (keys, values, None)
    } else {
        let r = spec_add_properties(keys, values, Seq::<u32>::empty(), props);
        (r.0, r.1, Some((spec_geom_type(geometry), spec_geometry_stream(geometry), r.2)))
    }
}

/// Builds the wire-level feature for `feature`, recording its
/// properties in the shared dictionaries.  A `GeometryCollection` row
/// is skipped: `None`, with the dictionaries untouched.
pub fn add_feature(
    keys: &mut Vec<String>,
    values: &mut Vec<TypedValue>,
    feature: &Feature,
) -> (result: Option<ProtoFeature>)
    requires
        wf_geometry(feature.geometry),
        old(keys)@.len() + feature.properties@.len() < 0xFFFF_FFFF,
        old(values)@.len() + feature.properties@.len() < 0xFFFF_FFFF,
    ensures
        ({
            let r = spec_add_feature(
                old(keys).deep_view(),
                old(values)@,
                feature.geometry,
                spec_props_view(feature.properties@),
            );
            &&& final(keys).deep_view() == r.0
            &&& final(values)@ == r.1
            &&& match result {
                Some(p) => r.2 == Some(spec_proto_feature_view(p)),
                None => r.2 is None,
            }
        }),
        final(keys)@.len() <= old(keys)@.len() + feature.properties@.len(),
        final(values)@.len() <= old(values)@.len() + feature.properties@.len(),
{
    if matches!(&feature.geometry, RawGeometry::GeometryCollection) {
        return None;
    }
    let encoded = from_geometry(&feature.geometry);
    match encoded {
        Ok(geometry_data) => {
            let mut proto_feature = ProtoFeature {
                geom_type: geometry_data.geometry_type,
                geometry: geometry_data.geometry,
                tags: Vec::new(),
            };
            add_properties(keys, values, &mut proto_feature, &feature.properties);
            Some(proto_feature)
        },
        Err(_) => {
            proof {
                assert(false);
            }
            None
        },
    }
}

/// No two entries of the key dictionary are equal.
pub open spec fn spec_distinct_keys(keys: Seq<Seq<char>>) -> bool {
    forall|i: int, j: int| 0 <= i < j < keys.len() ==> keys[i] != keys[j]
}

/// No two entries of the value dictionary are structurally equal.
pub open spec fn spec_distinct_values(values: Seq<TypedValue>) -> bool {
    forall|i: int, j: int|
        0 <= i < j < values.len() ==> !spec_typed_value_eq(values[i], values[j])
}

/// A tag list is a flat sequence of `(key index, value index)` pairs,
/// every index in bounds of its dictionary.
pub open spec fn spec_wf_tags(tags: Seq<u32>, num_keys: int, num_values: int) -> bool {
    &&& tags.len() % 2 == 0
    &&& forall|i: int| 0 <= i < tags.len() && i % 2 == 0 ==> tags[i] < num_keys
    &&& forall|i: int| 0 <= i < tags.len() && i % 2 == 1 ==> tags[i] < num_values
}

/// Recording one property keeps the dictionaries duplicate-free, only
/// extends them, and keeps every tag index in bounds.
pub proof fn lemma_add_property_sound(
    keys: Seq<Seq<char>>,
    values: Seq<TypedValue>,
    tags: Seq<u32>,
    key: Seq<char>,
    p: PropertyValue,
)
    requires
        spec_distinct_keys(keys),
        spec_distinct_values(values),
        spec_wf_tags(tags, keys.len() as int, values.len() as int),
    ensures
        ({
            let r = spec_add_property(keys, values, tags, key, p);
            &&& spec_distinct_keys(r.0)
            &&& spec_distinct_values(r.1)
            &&& keys.len() <= r.0.len() <= keys.len() + 1
            &&& values.len() <= r.1.len() <= values.len() + 1
            &&& r.0.subrange(0, keys.len() as int) == keys
            &&& r.1.subrange(0, values.len() as int) == values
            &&& spec_wf_tags(r.2, r.0.len() as int, r.1.len() as int)
        }),
{
    lemma_key_position_properties(keys, key);
    let r = spec_add_property(keys, values, tags, key, p);
    match spec_value_of_property(p) {
        None => {
            assert(r.0.subrange(0, keys.len() as int) =~= keys);
            assert(r.1.subrange(0, values.len() as int) =~= values);
        },
        Some(tv) => {
            lemma_value_position_properties(values, tv);
            assert(r.0.subrange(0, keys.len() as int) =~= keys);
            assert(r.1.subrange(0, values.len() as int) =~= values);
            assert forall|i: int, j: int| 0 <= i < j < r.0.len() implies r.0[i] != r.0[j] by {
                if j == keys.len() {
                    assert(r.0.len() == keys.len() + 1 ==> keys[i] != key);
                }
            }
            assert forall|i: int, j: int|
                0 <= i < j < r.1.len() implies !spec_typed_value_eq(r.1[i], r.1[j]) by {
                if j == values.len() && r.1.len() == values.len() + 1 {
                    assert(!spec_typed_value_eq(values[i], tv));
                    lemma_typed_value_eq_sym(values[i], tv);
                }
            }
            assert(spec_wf_tags(r.2, r.0.len() as int, r.1.len() as int)) by {
                assert(forall|i: int|
                    0 <= i < tags.len() ==> r.2[i] == tags[i]);
                assert(r.2[tags.len() as int] == spec_key_position(keys, key) as u32);
                assert(r.2[tags.len() as int + 1] == spec_value_position(values, tv) as u32);
            }
        },
    }
}

/// Structural value equality is symmetric.
pub proof fn lemma_typed_value_eq_sym(a: TypedValue, b: TypedValue)
    ensures
        spec_typed_value_eq(a, b) == spec_typed_value_eq(b, a),
{
}

/// Recording a property map keeps the dictionaries duplicate-free,
/// only extends them, and keeps every tag index in bounds.
pub proof fn lemma_add_properties_sound(
    keys: Seq<Seq<char>>,
    values: Seq<TypedValue>,
    tags: Seq<u32>,
    props: Seq<(Seq<char>, PropertyValue)>,
)
    requires
        spec_distinct_keys(keys),
        spec_distinct_values(values),
        spec_wf_tags(tags, keys.len() as int, values.len() as int),
    ensures
        ({
            let r = spec_add_properties(keys, values, tags, props);
            &&& spec_distinct_keys(r.0)
            &&& spec_distinct_values(r.1)
            &&& keys.len() <= r.0.len() <= keys.len() + props.len()
            &&& values.len() <= r.1.len() <= values.len() + props.len()
            &&& r.0.subrange(0, keys.len() as int) == keys
            &&& r.1.subrange(0, values.len() as int) == values
            &&& spec_wf_tags(r.2, r.0.len() as int, r.1.len() as int)
        }),
    decreases props.len(),
{
    if props.len() > 0 {
        let r1 = spec_add_property(keys, values, tags, props[0].0, props[0].1);
        lemma_add_property_sound(keys, values, tags, props[0].0, props[0].1);
        lemma_add_properties_sound(r1.0, r1.1, r1.2, props.drop_first());
        let r = spec_add_properties(r1.0, r1.1, r1.2, props.drop_first());
        assert(r.0.subrange(0, keys.len() as int) =~= r.0.subrange(0, r1.0.len() as int).subrange(
            0,
            keys.len() as int,
        ));
        assert(r.1.subrange(0, values.len() as int) =~= r.1.subrange(
            0,
            r1.1.len() as int,
        ).subrange(0, values.len() as int));
    }
}

/// The total number of properties over a run of features.
pub open spec fn spec_total_properties(feats: Seq<(RawGeometry, Seq<(Seq<char>, PropertyValue)>)>) -> nat
    decreases feats.len(),
{
    if feats.len() == 0 {
        0
    } else {
        feats[0].1.len() + spec_total_properties(feats.drop_first())
    }
}

/// What a run of features contributes to a layer: the dictionaries
/// after every feature's properties, and the wire-level features in
/// order, `GeometryCollection` rows skipped.
pub open spec fn spec_add_features(
    keys: Seq<Seq<char>>,
    values: Seq<TypedValue>,
    protos: Seq<(GeomType, Seq<u32>, Seq<u32>)>,
    feats: Seq<(RawGeometry, Seq<(Seq<char>, PropertyValue)>)>,
) -> (Seq<Seq<char>>, Seq<TypedValue>, Seq<(GeomType, Seq<u32>, Seq<u32>)>)
    decreases feats.len(),
{
    if feats.len() == 0 {
        (keys, values, protos)
    } else {
        let r = spec_add_feature(keys, values, feats[0].0, feats[0].1);
        let protos2 = match r.2 {
            None => protos,
            Some(t) => protos.push(t),
        };
        spec_add_features(r.0, r.1, protos2, feats.drop_first())
    }
}

/// Dictionary soundness for a whole layer: assembling features keeps
/// `keys` and `values` free of duplicates and leaves every feature's
/// tag indices within the final dictionaries' bounds.
pub proof fn lemma_add_features_sound(
    keys: Seq<Seq<char>>,
    values: Seq<TypedValue>,
    protos: Seq<(GeomType, Seq<u32>, Seq<u32>)>,
    feats: Seq<(RawGeometry, Seq<(Seq<char>, PropertyValue)>)>,
)
    requires
        spec_distinct_keys(keys),
        spec_distinct_values(values),
        forall|i: int|
            0 <= i < protos.len() ==> spec_wf_tags(
                (#[trigger] protos[i]).2,
                keys.len() as int,
                values.len() as int,
            ),
    ensures
        ({
            let r = spec_add_features(keys, values, protos, feats);
            &&& spec_distinct_keys(r.0)
            &&& spec_distinct_values(r.1)
            &&& keys.len() <= r.0.len() <= keys.len() + spec_total_properties(feats)
            &&& values.len() <= r.1.len() <= values.len() + spec_total_properties(feats)
            &&& protos.len() <= r.2.len()
            &&& forall|i: int|
                0 <= i < r.2.len() ==> spec_wf_tags(
                    (#[trigger] r.2[i]).2,
                    r.0.len() as int,
                    r.1.len() as int,
                )
        }),
    decreases feats.len(),
{
    if feats.len() > 0 {
        let f = feats[0];
        let r1 = spec_add_feature(keys, values, f.0, f.1);
        let protos2 = match r1.2 {
            None => protos,
            Some(t) => protos.push(t),
        };
        if !(f.0 is GeometryCollection) {
            lemma_add_properties_sound(keys, values, Seq::<u32>::empty(), f.1);
        }
        assert(spec_distinct_keys(r1.0));
        assert(spec_distinct_values(r1.1));
        assert forall|i: int|
            0 <= i < protos2.len() implies spec_wf_tags(
            (#[trigger] protos2[i]).2,
            r1.0.len() as int,
            r1.1.len() as int,
        ) by {
            if i < protos.len() {
                assert(spec_wf_tags(protos[i].2, keys.len() as int, values.len() as int));
            }
        }
        lemma_add_features_sound(r1.0, r1.1, protos2, feats.drop_first());
    }
}

/// One MVT layer under assembly: its name, the wire constants, the
/// shared key/value dictionaries and the composed features.
pub struct MapboxLayer {
    pub name: String,
    pub version: u32,
    pub extent: u32,
    pub keys: Vec<String>,
    pub values: Vec<TypedValue>,
    pub features: Vec<ProtoFeature>,
}

impl MapboxLayer {
    /// Layer invariant: wire constants in place, dictionaries
    /// duplicate-free, every feature's tags within bounds.
    pub open spec fn wf(self) -> bool {
        &&& self.version == 1
        &&& self.extent == DEFAULT_EXTENT
        &&& spec_distinct_keys(self.keys.deep_view())
        &&& spec_distinct_values(self.values@)
        &&& forall|i: int|
            0 <= i < self.features@.len() ==> spec_wf_tags(
                (#[trigger] self.features@[i]).tags@,
                self.keys@.len() as int,
                self.values@.len() as int,
            )
    }

    /// The wire-level views of the layer's features.
    pub open spec fn spec_feature_views(self) -> Seq<(GeomType, Seq<u32>, Seq<u32>)> {
        self.features@.map_values(|f: ProtoFeature| spec_proto_feature_view(f))
    }

    /// A fresh layer: version 1, extent 4096, empty dictionaries and
    /// no features.
    pub fn new(name: String) -> (layer: MapboxLayer)
        ensures
            layer.name == name,
            layer.version == 1,
            layer.extent == DEFAULT_EXTENT,
            layer.keys@ =~= Seq::<String>::empty(),
            layer.values@ =~= Seq::<TypedValue>::empty(),
            layer.features@ =~= Seq::<ProtoFeature>::empty(),
            layer.wf(),
    {
        let layer = MapboxLayer {
            name,
            version: 1,
            extent: DEFAULT_EXTENT,
            keys: Vec::new(),
            values: Vec::new(),
            features: Vec::new(),
        };
        proof {
            assert(layer.spec_feature_views() =~= Seq::<(GeomType, Seq<u32>, Seq<u32>)>::empty());
        }
        layer
    }

    /// Composes every feature into the layer, sharing the key/value
    /// dictionaries across them; `GeometryCollection` rows are
    /// skipped.  The layer invariant is preserved.
    pub fn add_features(&mut self, features: &Vec<Feature>)
        requires
            forall|i: int|
                0 <= i < features@.len() ==> wf_geometry((#[trigger] features@[i]).geometry),
            old(self).keys@.len() + spec_total_properties(spec_features_view(features@))
                < 0xFFFF_FFFF,
            old(self).values@.len() + spec_total_properties(spec_features_view(features@))
                < 0xFFFF_FFFF,
            old(self).wf(),
        ensures
            ({
                let r = spec_add_features(
                    old(self).keys.deep_view(),
                    old(self).values@,
                    old(self).spec_feature_views(),
                    spec_features_view(features@),
                );
                &&& final(self).keys.deep_view() == r.0
                &&& final(self).values@ == r.1
                &&& final(self).spec_feature_views() == r.2
            }),
            final(self).name == old(self).name,
            final(self).version == old(self).version,
            final(self).extent == old(self).extent,
            final(self).wf(),
    {
        let ghost fs = spec_features_view(features@);
        let ghost k0 = old(self).keys.deep_view();
        let ghost v0 = old(self).values@;
        let ghost p0 = old(self).spec_feature_views();
        proof {
            assert(fs.skip(0) =~= fs);
        }
        let n = features.len();
        let mut i: usize = 0;
        while i < n
            invariant
                0 <= i <= n == fs.len(),
                fs == spec_features_view(features@),
                forall|k: int|
                    0 <= k < features@.len() ==> wf_geometry((#[trigger] features@[k]).geometry),
                self.keys@.len() + spec_total_properties(fs.skip(i as int)) < 0xFFFF_FFFF,
                self.values@.len() + spec_total_properties(fs.skip(i as int)) < 0xFFFF_FFFF,
                spec_add_features(k0, v0, p0, fs) == spec_add_features(
                    self.keys.deep_view(),
                    self.values@,
                    self.spec_feature_views(),
                    fs.skip(i as int),
                ),
                self.name == old(self).name,
                self.version == old(self).version,
                self.extent == old(self).extent,
            decreases n - i,
        {
            proof {
                assert(fs[i as int] == (
                    features@[i as int].geometry,
                    spec_props_view(features@[i as int].properties@),
                ));
                assert(fs.skip(i as int)[0] == fs[i as int]);
                assert(fs.skip(i as int).drop_first() =~= fs.skip(i + 1));
            }
            let ghost keys_before = self.keys.deep_view();
            let ghost values_before = self.values@;
            let ghost protos_before = self.spec_feature_views();
            let feature = &features[i];
            let encoded = add_feature(&mut self.keys, &mut self.values, feature);
            match encoded {
                Some(proto_feature) => {
                    self.features.push(proto_feature);
                    proof {
                        let r1 = spec_add_feature(
                            keys_before,
                            values_before,
                            fs[i as int].0,
                            fs[i as int].1,
                        );
                        assert(self.spec_feature_views() =~= protos_before.push(r1.2->0));
                    }
                },
                None => {},
            }
            i = i + 1;
        }
        proof {
            assert(fs.skip(n as int) =~= Seq::<(RawGeometry, Seq<(Seq<char>, PropertyValue)>)>::empty());
            let r = spec_add_features(k0, v0, p0, fs);
            lemma_add_features_sound(k0, v0, p0, fs);
            assert(self.keys@.len() == self.keys.deep_view().len());
            assert forall|j: int|
                0 <= j < self.features@.len() implies spec_wf_tags(
                (#[trigger] self.features@[j]).tags@,
                self.keys@.len() as int,
                self.values@.len() as int,
            ) by {
                assert(self.spec_feature_views()[j] == spec_proto_feature_view(self.features@[j]));
            }
        }
    }
}

/// The protobuf body of one dictionary value: exactly one field, by
/// the value's tag (a `Null` value has no field at all).
pub open spec fn spec_value_body(v: TypedValue) -> Seq<u8> {
    match v {
        TypedValue::Null => Seq::<u8>::empty(),
        TypedValue::Str(s) => spec_string_field(1, s@),
        TypedValue::Double(bits) => spec_key(3, 1) + spec_le64(bits),
        TypedValue::Int(i) => spec_key(4, 0) + crate::wire::spec_varint(spec_i64_wire(i)),
        TypedValue::Uint(u) => spec_varint_field(5, u as nat),
        TypedValue::Bool(b) => spec_varint_field(
            7,
            if b {
                1nat
            } else {
                0nat
            },
        ),
    }
}

fn encode_value_body(v: &TypedValue) -> (out: Vec<u8>)
    ensures
        out@ == spec_value_body(*v),
{
    let mut out: Vec<u8> = Vec::new();
    match v {
        TypedValue::Null => {},
        TypedValue::Str(s) => {
            write_string_field(&mut out, 1, s.as_str());
        },
        TypedValue::Double(bits) => {
            write_key(&mut out, 3, 1);
            write_le64(&mut out, *bits);
        },
        TypedValue::Int(i) => {
            write_key(&mut out, 4, 0);
            crate::wire::write_varint(&mut out, i64_wire(*i));
        },
        TypedValue::Uint(u) => {
            write_varint_field(&mut out, 5, *u);
        },
        TypedValue::Bool(b) => {
            write_varint_field(
                &mut out,
                7,
                if *b {
                    1
                } else {
                    0
                },
            );
        },
    }
    proof {
        assert(out@ =~= spec_value_body(*v));
    }
    out
}

/// The protobuf body of one feature: packed tags, geometry type,
/// packed command stream; empty packed fields are omitted.
pub open spec fn spec_feature_body(t: (GeomType, Seq<u32>, Seq<u32>)) -> Seq<u8> {
    (if t.2.len() == 0 {
        Seq::<u8>::empty()
    } else {
        spec_len_delimited(2, spec_packed_varints(t.2))
    }) + spec_varint_field(3, spec_geom_type_number(t.0) as nat) + (if t.1.len() == 0 {
        Seq::<u8>::empty()
    } else {
        spec_len_delimited(4, spec_packed_varints(t.1))
    })
}

fn encode_feature_body(f: &ProtoFeature) -> (out: Vec<u8>)
    ensures
        out@ == spec_feature_body(spec_proto_feature_view(*f)),
{
    let mut out: Vec<u8> = Vec::new();
    if f.tags.len() > 0 {
        let mut packed: Vec<u8> = Vec::new();
        write_packed_varints(&mut packed, &f.tags);
        write_len_delimited(&mut out, 2, packed);
    }
    write_varint_field(&mut out, 3, geom_type_number(f.geom_type) as u64);
    if f.geometry.len() > 0 {
        let mut packed: Vec<u8> = Vec::new();
        write_packed_varints(&mut packed, &f.geometry);
        write_len_delimited(&mut out, 4, packed);
    }
    proof {
        assert(out@ =~= spec_feature_body(spec_proto_feature_view(*f)));
    }
    out
}

/// The feature fields of a layer body, in feature order.
pub open spec fn spec_features_fields(fs: Seq<(GeomType, Seq<u32>, Seq<u32>)>) -> Seq<u8>
    decreases fs.len(),
{
    if fs.len() == 0 {
        Seq::<u8>::empty()
    } else {
        spec_len_delimited(2, spec_feature_body(fs[0])) + spec_features_fields(fs.drop_first())
    }
}

/// The key fields of a layer body, in dictionary order.
pub open spec fn spec_keys_fields(ks: Seq<Seq<char>>) -> Seq<u8>
    decreases ks.len(),
{
    if ks.len() == 0 {
        Seq::<u8>::empty()
    } else {
        spec_string_field(3, ks[0]) + spec_keys_fields(ks.drop_first())
    }
}

/// The value fields of a layer body, in dictionary order.
pub open spec fn spec_values_fields(vs: Seq<TypedValue>) -> Seq<u8>
    decreases vs.len(),
{
    if vs.len() == 0 {
        Seq::<u8>::empty()
    } else {
        spec_len_delimited(4, spec_value_body(vs[0])) + spec_values_fields(vs.drop_first())
    }
}

/// The protobuf body of one layer: version, name, features, keys,
/// values, extent.
pub open spec fn spec_layer_body(
    name: Seq<char>,
    version: u32,
    extent: u32,
    features: Seq<(GeomType, Seq<u32>, Seq<u32>)>,
    keys: Seq<Seq<char>>,
    values: Seq<TypedValue>,
) -> Seq<u8> {
    spec_varint_field(15, version as nat) + spec_string_field(1, name) + spec_features_fields(
        features,
    ) + spec_keys_fields(keys) + spec_values_fields(values) + spec_varint_field(5, extent as nat)
}

/// The protobuf body of a layer value.
pub open spec fn spec_layer_bytes(l: MapboxLayer) -> Seq<u8> {
    spec_layer_body(
        l.name@,
        l.version,
        l.extent,
        l.spec_feature_views(),
        l.keys.deep_view(),
        l.values@,
    )
}

fn encode_layer_body(l: &MapboxLayer) -> (out: Vec<u8>)
    ensures
        out@ == spec_layer_bytes(*l),
{
    let mut out: Vec<u8> = Vec::new();
    write_varint_field(&mut out, 15, l.version as u64);
    write_string_field(&mut out, 1, l.name.as_str());
    let ghost fs = l.spec_feature_views();
    proof {
        assert(fs.skip(0) =~= fs);
    }
    let ghost out_before_features = out@;
    let nf = l.features.len();
    let mut i: usize = 0;
    while i < nf
        invariant
            0 <= i <= nf == fs.len(),
            fs == l.spec_feature_views(),
            out_before_features + spec_features_fields(fs) == out@ + spec_features_fields(
                fs.skip(i as int),
            ),
        decreases nf - i,
    {
        proof {
            assert(fs[i as int] == spec_proto_feature_view(l.features@[i as int]));
            assert(fs.skip(i as int)[0] == fs[i as int]);
            assert(fs.skip(i as int).drop_first() =~= fs.skip(i + 1));
        }
        let body = encode_feature_body(&l.features[i]);
        write_len_delimited(&mut out, 2, body);
        proof {
            assert(out@ + spec_features_fields(fs.skip(i + 1)) =~= out_before_features
                + spec_features_fields(fs));
        }
        i = i + 1;
    }
    proof {
        assert(fs.skip(nf as int) =~= Seq::<(GeomType, Seq<u32>, Seq<u32>)>::empty());
        assert(out@ =~= out_before_features + spec_features_fields(fs));
    }
    let ghost ks = l.keys.deep_view();
    proof {
        assert(ks.skip(0) =~= ks);
    }
    let ghost out_before_keys = out@;
    let nk = l.keys.len();
    let mut i: usize = 0;
    while i < nk
        invariant
            0 <= i <= nk == ks.len(),
            ks == l.keys.deep_view(),
            out_before_keys + spec_keys_fields(ks) == out@ + spec_keys_fields(ks.skip(i as int)),
        decreases nk - i,
    {
        proof {
            assert(ks[i as int] == l.keys@[i as int]@);
            assert(ks.skip(i as int)[0] == ks[i as int]);
            assert(ks.skip(i as int).drop_first() =~= ks.skip(i + 1));
        }
        write_string_field(&mut out, 3, l.keys[i].as_str());
        proof {
            assert(out@ + spec_keys_fields(ks.skip(i + 1)) =~= out_before_keys + spec_keys_fields(
                ks,
            ));
        }
        i = i + 1;
    }
    proof {
        assert(ks.skip(nk as int) =~= Seq::<Seq<char>>::empty());
        assert(out@ =~= out_before_keys + spec_keys_fields(ks));
    }
    let ghost vs = l.values@;
    proof {
        assert(vs.skip(0) =~= vs);
    }
    let ghost out_before_values = out@;
    let nv = l.values.len();
    let mut i: usize = 0;
    while i < nv
        invariant
            0 <= i <= nv == vs.len(),
            vs == l.values@,
            out_before_values + spec_values_fields(vs) == out@ + spec_values_fields(
                vs.skip(i as int),
            ),
        decreases nv - i,
    {
        proof {
            assert(vs.skip(i as int)[0] == vs[i as int]);
            assert(vs.skip(i as int).drop_first() =~= vs.skip(i + 1));
        }
        let body = encode_value_body(&l.values[i]);
        write_len_delimited(&mut out, 4, body);
        proof {
            assert(out@ + spec_values_fields(vs.skip(i + 1)) =~= out_before_values
                + spec_values_fields(vs));
        }
        i = i + 1;
    }
    proof {
        assert(vs.skip(nv as int) =~= Seq::<TypedValue>::empty());
        assert(out@ =~= out_before_values + spec_values_fields(vs));
    }
    write_varint_field(&mut out, 5, l.extent as u64);
    proof {
        assert(out@ =~= spec_layer_bytes(*l));
    }
    out
}

/// The layer fields of a tile, in layer order.
pub open spec fn spec_layers_fields(ls: Seq<MapboxLayer>) -> Seq<u8>
    decreases ls.len(),
{
    if ls.len() == 0 {
        Seq::<u8>::empty()
    } else {
        spec_len_delimited(3, spec_layer_bytes(ls[0])) + spec_layers_fields(ls.drop_first())
    }
}

/// The full wire bytes of a tile.
pub open spec fn spec_tile_bytes(t: MapboxVectorTile) -> Seq<u8> {
    spec_layers_fields(t.layers@)
}

/// A vector tile under construction: its layers (one per named entry
/// of the input layer map; this system uses a single layer named
/// "default").
pub struct MapboxVectorTile {
    pub layers: Vec<MapboxLayer>,
}

impl MapboxVectorTile {
    /// Builds the tile: one layer per `(name, features)` entry, each
    /// assembled with [`MapboxLayer::add_features`].
    pub fn new(layers: &Vec<(String, Vec<Feature>)>) -> (tile: MapboxVectorTile)
        requires
            forall|i: int, j: int|
                0 <= i < layers@.len() && 0 <= j < layers@[i].1@.len() ==> wf_geometry(
                    (#[trigger] layers@[i].1@[j]).geometry,
                ),
            forall|i: int|
                0 <= i < layers@.len() ==> spec_total_properties(
                    spec_features_view((#[trigger] layers@[i]).1@),
                ) < 0xFFFF_FFFF,
        ensures
            tile.layers@.len() == layers@.len(),
            forall|i: int|
                0 <= i < layers@.len() ==> {
                    let r = spec_add_features(
                        Seq::<Seq<char>>::empty(),
                        Seq::<TypedValue>::empty(),
                        Seq::<(GeomType, Seq<u32>, Seq<u32>)>::empty(),
                        spec_features_view(layers@[i].1@),
                    );
                    let built = #[trigger] tile.layers@[i];
                    &&& built.name@ == layers@[i].0@
                    &&& built.keys.deep_view() == r.0
                    &&& built.values@ == r.1
                    &&& built.spec_feature_views() == r.2
                    &&& built.wf()
                },
    {
        let mut tile_layers: Vec<MapboxLayer> = Vec::new();
        let n = layers.len();
        let mut i: usize = 0;
        while i < n
            invariant
                0 <= i <= n == layers@.len(),
                forall|k: int, j: int|
                    0 <= k < layers@.len() && 0 <= j < layers@[k].1@.len() ==> wf_geometry(
                        (#[trigger] layers@[k].1@[j]).geometry,
                    ),
                forall|k: int|
                    0 <= k < layers@.len() ==> spec_total_properties(
                        spec_features_view((#[trigger] layers@[k]).1@),
                    ) < 0xFFFF_FFFF,
                tile_layers@.len() == i,
                forall|k: int|
                    0 <= k < i ==> {
                        let r = spec_add_features(
                            Seq::<Seq<char>>::empty(),
                            Seq::<TypedValue>::empty(),
                            Seq::<(GeomType, Seq<u32>, Seq<u32>)>::empty(),
                            spec_features_view(layers@[k].1@),
                        );
                        let built = #[trigger] tile_layers@[k];
                        &&& built.name@ == layers@[k].0@
                        &&& built.keys.deep_view() == r.0
                        &&& built.values@ == r.1
                        &&& built.spec_feature_views() == r.2
                        &&& built.wf()
                    },
            decreases n - i,
        {
            let entry = &layers[i];
            let name = entry.0.clone();
            let mut mapbox_layer = MapboxLayer::new(name);
            proof {
                assert(mapbox_layer.keys.deep_view() =~= Seq::<Seq<char>>::empty());
                assert(mapbox_layer.spec_feature_views() =~= Seq::<
                    (GeomType, Seq<u32>, Seq<u32>),
                >::empty());
            }
            mapbox_layer.add_features(&entry.1);
            tile_layers.push(mapbox_layer);
            proof {
                assert(tile_layers@[i as int] == mapbox_layer);
            }
            i = i + 1;
        }
        MapboxVectorTile { layers: tile_layers }
    }

    /// Serializes the tile to its protobuf wire bytes.  Serialization
    /// cannot fail: the result is always `Ok`.
    pub fn to_bytes(&self) -> (result: Result<Vec<u8>, BinaryTileError>)
        ensures
            match result {
                Ok(bytes) => bytes@ == spec_tile_bytes(*self),
                Err(_) => false,
            },
    {
        let mut out: Vec<u8> = Vec::new();
        let ghost ls = self.layers@;
        proof {
            assert(ls.skip(0) =~= ls);
        }
        let n = self.layers.len();
        let mut i: usize = 0;
        while i < n
            invariant
                0 <= i <= n == ls.len(),
                ls == self.layers@,
                spec_layers_fields(ls) == out@ + spec_layers_fields(ls.skip(i as int)),
            decreases n - i,
        {
            proof {
                assert(ls.skip(i as int)[0] == ls[i as int]);
                assert(ls.skip(i as int).drop_first() =~= ls.skip(i + 1));
            }
            let body = encode_layer_body(&self.layers[i]);
            write_len_delimited(&mut out, 3, body);
            proof {
                assert(out@ + spec_layers_fields(ls.skip(i + 1)) =~= spec_layers_fields(ls));
            }
            i = i + 1;
        }
        proof {
            assert(ls.skip(n as int) =~= Seq::<MapboxLayer>::empty());
            assert(out@ =~= spec_tile_bytes(*self));
        }
        Ok(out)
    }
}

} // verus!
