//! Turns decoded database rows into the encoded tile: per-row property
//! fixup (drop the geometry column, inject the cluster count), feature
//! collection under the single layer "default", layer assembly and
//! serialization.

use crate::geometry_command_encoder::{wf_geometry, GeomType, RawGeometry};
use crate::mapbox_vector_tile::{
    spec_add_features, spec_features_view, spec_layer_body, spec_layer_bytes, spec_layers_fields,
    spec_props_view, spec_total_properties, string_eq_str, Feature, MapboxLayer,
    MapboxVectorTile, PropertyValue, TypedValue, DEFAULT_EXTENT,
};
use crate::tile_error::TileError;
use vstd::prelude::*;
use vstd::string::StringExecFns;

verus! {

/// One decoded database row: the geometry (already projected to
/// tile-local integer coordinates), the cluster count and, when the
/// row's `properties` column held a JSON object, its entries in order.
pub struct TileRow {
    pub geometry_bin: RawGeometry,
    pub h3_cluster_count: i64,
    pub properties: Option<Vec<(String, PropertyValue)>>,
}

/// The first position of `key` in a property map, or the map's length
/// when absent.
pub open spec fn spec_prop_position(props: Seq<(Seq<char>, PropertyValue)>, key: Seq<char>) -> int
    decreases props.len(),
{
    if props.len() == 0 {
        0
    } else if props[0].0 == key {
        0
    } else {
        1 + spec_prop_position(props.drop_first(), key)
    }
}

pub proof fn lemma_prop_position_properties(
    props: Seq<(Seq<char>, PropertyValue)>,
    key: Seq<char>,
)
    ensures
        0 <= spec_prop_position(props, key) <= props.len(),
        spec_prop_position(props, key) < props.len() ==> props[spec_prop_position(props, key)].0
            == key,
        forall|j: int| 0 <= j < spec_prop_position(props, key) ==> props[j].0 != key,
    decreases props.len(),
{
    if props.len() > 0 && props[0].0 != key {
        lemma_prop_position_properties(props.drop_first(), key);
        assert forall|j: int|
            0 <= j < spec_prop_position(props, key) implies props[j].0 != key by {
            if j > 0 {
                assert(props.drop_first()[j - 1] == props[j]);
            }
        }
    }
}

proof fn lemma_prop_position_found(
    props: Seq<(Seq<char>, PropertyValue)>,
    key: Seq<char>,
    i: int,
)
    requires
        0 <= i <= props.len(),
        forall|j: int| 0 <= j < i ==> props[j].0 != key,
        i < props.len() ==> props[i].0 == key,
    ensures
        spec_prop_position(props, key) == i,
    decreases props.len(),
{
    if props.len() > 0 && i > 0 {
        lemma_prop_position_found(props.drop_first(), key, i - 1);
    }
}

/// The property map with the first entry keyed `key` removed, when
/// one exists.
pub open spec fn spec_remove_key(props: Seq<(Seq<char>, PropertyValue)>, key: Seq<char>) -> Seq<
    (Seq<char>, PropertyValue),
> {
    let i = spec_prop_position(props, key);
    if i < props.len() {
        props.remove(i)
    } else {
        props
    }
}

/// The property map with `key` set to `v`: replaced in place at its
/// first occurrence, appended when absent.
pub open spec fn spec_set_key(
    props: Seq<(Seq<char>, PropertyValue)>,
    key: Seq<char>,
    v: PropertyValue,
) -> Seq<(Seq<char>, PropertyValue)> {
    let i = spec_prop_position(props, key);
    if i < props.len() {
        props.update(i, (key, v))
    } else {
        props.push((key, v))
    }
}

fn find_property(props: &Vec<(String, PropertyValue)>, key: &str) -> (index: usize)
    ensures
        index == spec_prop_position(spec_props_view(props@), key@),
{
    let ghost pv = spec_props_view(props@);
    let n = props.len();
    let mut i: usize = 0;
    while i < n
        invariant
            0 <= i <= n == pv.len(),
            pv == spec_props_view(props@),
            forall|j: int| 0 <= j < i ==> pv[j].0 != key@,
        decreases n - i,
    {
        proof {
            assert(pv[i as int] == (props@[i as int].0@, props@[i as int].1));
        }
        if string_eq_str(&props[i].0, key) {
            proof {
                lemma_prop_position_found(pv, key@, i as int);
            }
            return i;
        }
        i = i + 1;
    }
    proof {
        lemma_prop_position_found(pv, key@, n as int);
    }
    n
}

/// Removes the first property keyed `key`, when one exists.
fn remove_property_key(props: Vec<(String, PropertyValue)>, key: &str) -> (out: Vec<
    (String, PropertyValue),
>)
    ensures
        spec_props_view(out@) == spec_remove_key(spec_props_view(props@), key@),
{
    let ghost ps0 = props@;
    let ghost pv = spec_props_view(props@);
    let index = find_property(&props, key);
    proof {
        lemma_prop_position_properties(pv, key@);
        assert(pv.len() == ps0.len());
        assert(ps0.skip(0) =~= ps0);
        assert(ps0.take(0) =~= Seq::<(String, PropertyValue)>::empty());
    }
    let mut remaining = props;
    let mut out: Vec<(String, PropertyValue)> = Vec::new();
    if index == remaining.len() {
        return remaining;
    }
    let mut j: usize = 0;
    while j < index
        invariant
            0 <= j <= index < ps0.len(),
            remaining@ == ps0.skip(j as int),
            out@ == ps0.take(j as int),
        decreases index - j,
    {
        let entry = remaining.remove(0);
        out.push(entry);
        proof {
            assert(remaining@ =~= ps0.skip(j + 1));
            assert(out@ =~= ps0.take(j + 1));
        }
        j = j + 1;
    }
    let _dropped = remaining.remove(0);
    proof {
        assert(remaining@ =~= ps0.skip(index + 1));
        assert(out@ + remaining@ =~= ps0.remove(index as int));
    }
    while remaining.len() > 0
        invariant
            out@ + remaining@ =~= ps0.remove(index as int),
        decreases remaining@.len(),
    {
        let entry = remaining.remove(0);
        out.push(entry);
        proof {
            assert(out@ + remaining@ =~= ps0.remove(index as int));
        }
    }
    proof {
        assert(out@ =~= ps0.remove(index as int));
        assert(spec_props_view(out@) =~= spec_remove_key(pv, key@));
    }
    out
}

/// Sets `key` to `value`: replaces its first occurrence in place, or
/// appends the pair when the key is absent.
fn set_property_key(
    props: Vec<(String, PropertyValue)>,
    key: String,
    value: PropertyValue,
) -> (out: Vec<(String, PropertyValue)>)
    ensures
        spec_props_view(out@) == spec_set_key(spec_props_view(props@), key@, value),
{
    let ghost ps0 = props@;
    let ghost pv = spec_props_view(props@);
    let index = find_property(&props, key.as_str());
    proof {
        lemma_prop_position_properties(pv, key@);
        assert(pv.len() == ps0.len());
        assert(ps0.skip(0) =~= ps0);
        assert(ps0.take(0) =~= Seq::<(String, PropertyValue)>::empty());
    }
    let mut remaining = props;
    let mut out: Vec<(String, PropertyValue)> = Vec::new();
    let n = remaining.len();
    let ghost key_view = key@;
    let ghost value_g = value;
    let mut j: usize = 0;
    while j < index
        invariant
            0 <= j <= index <= n == ps0.len(),
            index == spec_prop_position(pv, key_view),
            pv == spec_props_view(ps0),
            remaining@ == ps0.skip(j as int),
            out@ == ps0.take(j as int),
        decreases index - j,
    {
        let entry = remaining.remove(0);
        out.push(entry);
        proof {
            assert(remaining@ =~= ps0.skip(j + 1));
            assert(out@ =~= ps0.take(j + 1));
        }
        j = j + 1;
    }
    if index < n {
        let _replaced = remaining.remove(0);
        out.push((key, value));
        proof {
            assert(remaining@ =~= ps0.skip(index + 1));
            assert(spec_props_view(out@) + spec_props_view(remaining@) =~= spec_set_key(
                pv,
                key_view,
                value_g,
            ));
        }
        while remaining.len() > 0
            invariant
                spec_props_view(out@) + spec_props_view(remaining@) =~= spec_set_key(
                    pv,
                    key_view,
                    value_g,
                ),
            decreases remaining@.len(),
        {
            let entry = remaining.remove(0);
            out.push(entry);
            proof {
                assert(spec_props_view(out@) + spec_props_view(remaining@) =~= spec_set_key(
                    pv,
                    key_view,
                    value_g,
                ));
            }
        }
        proof {
            assert(spec_props_view(out@) =~= spec_set_key(pv, key_view, value_g));
        }
        out
    } else {
        out.push((key, value));
        proof {
            assert(spec_props_view(out@) =~= spec_set_key(pv, key_view, value_g));
        }
        out
    }
}

/// The properties a row's feature carries: the entry keyed by the
/// geometry column removed, then `h3ClusterCount` set to the row's
/// cluster count.
pub open spec fn spec_row_properties(
    props: Seq<(Seq<char>, PropertyValue)>,
    geo_col: Seq<char>,
    count: i64,
) -> Seq<(Seq<char>, PropertyValue)> {
    spec_set_key(spec_remove_key(props, geo_col), "h3ClusterCount"@, PropertyValue::Int(count))
}

/// The features of a row run, in row order; rows whose `properties`
/// column did not hold a JSON object are dropped silently.
pub open spec fn spec_features_of_rows(rows: Seq<TileRow>, geo_col: Seq<char>) -> Seq<
    (RawGeometry, Seq<(Seq<char>, PropertyValue)>),
>
    decreases rows.len(),
{
    if rows.len() == 0 {
        Seq::<(RawGeometry, Seq<(Seq<char>, PropertyValue)>)>::empty()
    } else {
        let rest = spec_features_of_rows(rows.drop_first(), geo_col);
        match rows[0].properties {
            Some(props) => seq![
                (
                    rows[0].geometry_bin,
                    spec_row_properties(
                        spec_props_view(props@),
                        geo_col,
                        rows[0].h3_cluster_count,
                    ),
                ),
            ] + rest,
            None => rest,
        }
    }
}

/// Every feature geometry in [`spec_features_of_rows`] comes from a
/// row, so a well-formed row run yields well-formed features.
pub proof fn lemma_features_of_rows_wf(rows: Seq<TileRow>, geo_col: Seq<char>)
    requires
        forall|i: int| 0 <= i < rows.len() ==> wf_geometry((#[trigger] rows[i]).geometry_bin),
    ensures
        forall|k: int|
            0 <= k < spec_features_of_rows(rows, geo_col).len() ==> wf_geometry(
                (#[trigger] spec_features_of_rows(rows, geo_col)[k]).0,
            ),
    decreases rows.len(),
{
    if rows.len() > 0 {
        assert forall|i: int|
            0 <= i < rows.drop_first().len() implies wf_geometry(
            (#[trigger] rows.drop_first()[i]).geometry_bin,
        ) by {
            assert(rows.drop_first()[i] == rows[i + 1]);
        }
        lemma_features_of_rows_wf(rows.drop_first(), geo_col);
        let fs = spec_features_of_rows(rows, geo_col);
        let rest = spec_features_of_rows(rows.drop_first(), geo_col);
        assert forall|k: int| 0 <= k < fs.len() implies wf_geometry((#[trigger] fs[k]).0) by {
            match rows[0].properties {
                Some(_) => {
                    if k > 0 {
                        assert(fs[k] == rest[k - 1]);
                    }
                },
                None => {
                    assert(fs[k] == rest[k]);
                },
            }
        }
    }
}

/// Decodes a row run into features, as [`spec_features_of_rows`]
/// says.
pub fn features_from_rows(rows: Vec<TileRow>, geo_col: &str) -> (features: Vec<Feature>)
    ensures
        spec_features_view(features@) == spec_features_of_rows(rows@, geo_col@),
{
    let ghost rows0 = rows@;
    proof {
        vstd::std_specs::vec::axiom_spec_len(&rows);
        assert(rows@.len() <= usize::MAX);
    }
    let mut remaining = rows;
    let mut features: Vec<Feature> = Vec::new();
    proof {
        assert(rows0.skip(0) =~= rows0);
        assert(spec_features_view(features@) =~= Seq::<
            (RawGeometry, Seq<(Seq<char>, PropertyValue)>),
        >::empty());
    }
    let mut i: usize = 0;
    while remaining.len() > 0
        invariant
            0 <= i <= rows0.len() <= usize::MAX,
            remaining@ == rows0.skip(i as int),
            spec_features_of_rows(rows0, geo_col@) == spec_features_view(features@)
                + spec_features_of_rows(remaining@, geo_col@),
        decreases remaining@.len(),
    {
        proof {
            assert(rows0.skip(i as int)[0] == rows0[i as int]);
            assert(rows0.skip(i as int).drop_first() =~= rows0.skip(i + 1));
        }
        let ghost feats_before = features@;
        let row = remaining.remove(0);
        let ghost row_g = row;
        proof {
            assert(remaining@ =~= rows0.skip(i + 1));
        }
        match row.properties {
            Some(props) => {
                let props = remove_property_key(props, geo_col);
                let props = set_property_key(
                    props,
                    String::from_str("h3ClusterCount"),
                    PropertyValue::Int(row.h3_cluster_count),
                );
                let feature = Feature { geometry: row.geometry_bin, properties: props };
                features.push(feature);
                proof {
                    assert(spec_features_view(features@) =~= spec_features_view(
                        feats_before,
                    ).push(
                        (
                            row_g.geometry_bin,
                            spec_row_properties(
                                spec_props_view(row_g.properties->0@),
                                geo_col@,
                                row_g.h3_cluster_count,
                            ),
                        ),
                    ));
                    assert(spec_features_view(features@) + spec_features_of_rows(
                        remaining@,
                        geo_col@,
                    ) =~= spec_features_of_rows(rows0, geo_col@));
                }
            },
            None => {},
        }
        i = i + 1;
    }
    proof {
        assert(remaining@ =~= Seq::<TileRow>::empty());
    }
    features
}

/// Builds the encoded tile for a run of decoded rows: the features
/// under one layer named "default", assembled and serialized.  An
/// empty row run is not an error: it yields a well-formed tile with
/// one layer and no features.
pub fn build_tile_bytes(rows: Vec<TileRow>, geo_col: &str) -> (result: Result<Vec<u8>, TileError>)
    requires
        forall|i: int| 0 <= i < rows@.len() ==> wf_geometry((#[trigger] rows@[i]).geometry_bin),
        spec_total_properties(spec_features_of_rows(rows@, geo_col@)) < 0xFFFF_FFFF,
    ensures
        match result {
            Ok(bytes) => bytes@ == spec_len_delimited_layer(
                spec_add_features(
                    Seq::<Seq<char>>::empty(),
                    Seq::<TypedValue>::empty(),
                    Seq::<(GeomType, Seq<u32>, Seq<u32>)>::empty(),
                    spec_features_of_rows(rows@, geo_col@),
                ),
            ),
            Err(_) => false,
        },
{
    let ghost rows0 = rows@;
    let features = features_from_rows(rows, geo_col);
    proof {
        lemma_features_of_rows_wf(rows0, geo_col@);
        assert forall|k: int|
            0 <= k < features@.len() implies wf_geometry(
            (#[trigger] features@[k]).geometry,
        ) by {
            assert(spec_features_view(features@)[k].0 == features@[k].geometry);
            assert(spec_features_of_rows(rows0, geo_col@)[k].0 == features@[k].geometry);
        }
    }
    let mut layer_map: Vec<(String, Vec<Feature>)> = Vec::new();
    layer_map.push((String::from_str("default"), features));
    let tile = MapboxVectorTile::new(&layer_map);
    match tile.to_bytes() {
        Ok(bytes) => {
            proof {
                let l0 = tile.layers@[0];
                let r = spec_add_features(
                    Seq::<Seq<char>>::empty(),
                    Seq::<TypedValue>::empty(),
                    Seq::<(GeomType, Seq<u32>, Seq<u32>)>::empty(),
                    spec_features_of_rows(rows0, geo_col@),
                );
                assert(spec_features_view(layer_map@[0].1@) == spec_features_of_rows(
                    rows0,
                    geo_col@,
                ));
                assert(l0.name@ == "default"@);
                assert(l0.wf());
                assert(spec_layer_bytes(l0) == spec_layer_body(
                    "default"@,
                    1,
                    DEFAULT_EXTENT,
                    r.2,
                    r.0,
                    r.1,
                ));
                assert(tile.layers@.drop_first() =~= Seq::<MapboxLayer>::empty());
                assert(spec_layers_fields(tile.layers@.drop_first()) =~= Seq::<u8>::empty());
                assert(spec_layers_fields(tile.layers@) =~= crate::wire::spec_len_delimited(
                    3,
                    spec_layer_bytes(l0),
                ));
            }
            Ok(bytes)
        },
        Err(error) => Err(TileError::EncodingError(error.message())),
    }
}

/// The wire bytes of a tile holding one layer named "default" with
/// version 1 and extent 4096, built from the given dictionaries and
/// features.
pub open spec fn spec_len_delimited_layer(
    r: (Seq<Seq<char>>, Seq<TypedValue>, Seq<(GeomType, Seq<u32>, Seq<u32>)>),
) -> Seq<u8> {
    crate::wire::spec_len_delimited(
        3,
        spec_layer_body("default"@, 1, DEFAULT_EXTENT, r.2, r.0, r.1),
    )
}

} // verus!
