//! Request-level pieces: the request types, the cache-key fingerprint
//! (SHA-256 over a canonical rendering of the request) and the mapping
//! from a tile result to the response's status and body.

use crate::config::Config;
use crate::decimal::{spec_dec, u32_to_dec_string};
use crate::tile_error::TileError;
use sha2::{Digest, Sha256};
use vstd::prelude::*;
use vstd::string::{StrSliceExecFns, StringExecFns};

verus! {

/// The tile coordinates of a request's path.
#[derive(Clone, Copy, Debug, PartialEq, Eq, Structural)]
pub struct MVTCoordinates {
    pub x: u32,
    pub y: u32,
    pub z: u32,
}

/// The query parameters of a request: the SQL text, its geometry
/// column, and the SRID (defaulting to [`default_srid`]).
#[derive(Clone, Debug, PartialEq)]
pub struct MVTQuery {
    pub query: String,
    pub geo_col: String,
    pub srid: String,
}

/// The SRID used when a request names none.
pub fn default_srid() -> (s: String)
    ensures
        s@ == "4326"@,
{
    String::from_str("4326")
}

/// A character as it appears inside a quoted rendering: quotes and
/// backslashes are escaped with a backslash.
pub open spec fn spec_escape_char(c: char) -> Seq<char> {
    if c == '"' {
        seq!['\\', '"']
    } else if c == '\\' {
        seq!['\\', '\\']
    } else {
        seq![c]
    }
}

/// A string's characters, escaped.
pub open spec fn spec_escape(s: Seq<char>) -> Seq<char>
    decreases s.len(),
{
    if s.len() == 0 {
        Seq::<char>::empty()
    } else {
        spec_escape_char(s[0]) + spec_escape(s.drop_first())
    }
}

/// A string in quotes, its content escaped.
pub open spec fn spec_quote(s: Seq<char>) -> Seq<char> {
    seq!['"'] + spec_escape(s) + seq!['"']
}

fn append_quoted(out: &mut String, s: &str)
    ensures
        final(out)@ == old(out)@ + spec_quote(s@),
{
    let ghost sv = s@;
    out.append("\"");
    proof {
        reveal_strlit("\"");
        assert(sv.skip(0) =~= sv);
    }
    let n = s.unicode_len();
    let mut i: usize = 0;
    while i < n
        invariant
            0 <= i <= n == sv.len(),
            sv == s@,
            old(out)@ + seq!['"'] + spec_escape(sv) == out@ + spec_escape(sv.skip(i as int)),
        decreases n - i,
    {
        proof {
            assert(sv.skip(i as int)[0] == sv[i as int]);
            assert(sv.skip(i as int).drop_first() =~= sv.skip(i + 1));
        }
        let c = s.get_char(i);
        if c == '"' {
            out.append("\\\"");
            proof {
                reveal_strlit("\\\"");
                assert("\\\""@ =~= spec_escape_char(sv[i as int]));
            }
        } else if c == '\\' {
            out.append("\\\\");
            proof {
                reveal_strlit("\\\\");
                assert("\\\\"@ =~= spec_escape_char(sv[i as int]));
            }
        } else {
            let piece = s.substring_char(i, i + 1);
            out.append(piece);
            proof {
                assert(piece@ =~= spec_escape_char(sv[i as int]));
            }
        }
        proof {
            assert(out@ + spec_escape(sv.skip(i + 1)) =~= old(out)@ + seq!['"'] + spec_escape(sv));
        }
        i = i + 1;
    }
    proof {
        assert(sv.skip(n as int) =~= Seq::<char>::empty());
    }
    out.append("\"");
    proof {
        reveal_strlit("\"");
        assert(out@ =~= old(out)@ + spec_quote(sv));
    }
}

/// The canonical rendering of a request that the fingerprint hashes: a
/// debug-style rendering of the coordinates and the query, with string
/// contents quoted and escaped.  Equal requests render equally; the
/// rendering pins coordinates and query text.
pub open spec fn spec_cache_source(coordinates: MVTCoordinates, query: MVTQuery) -> Seq<char> {
    "MVTCoordinates { x: "@ + spec_dec(coordinates.x as nat) + ", y: "@ + spec_dec(
        coordinates.y as nat,
    ) + ", z: "@ + spec_dec(coordinates.z as nat) + " }MVTQuery { query: "@ + spec_quote(
        query.query@,
    ) + ", geo_col: "@ + spec_quote(query.geo_col@) + ", srid: "@ + spec_quote(query.srid@)
        + " }"@
}

/// The SHA-256 digest (32 bytes) of a string's UTF-8 bytes, named: it
/// depends on the characters alone.
pub uninterp spec fn sha256_digest_of(s: Seq<char>) -> Seq<u8>;

/// Relies on sha2's `Sha256`: hashing a string's UTF-8 bytes yields a
/// 32-byte digest that depends on those bytes alone.
#[verifier::external_body]
fn sha256_digest(t: &str) -> (digest: Vec<u8>)
    ensures
        digest@ == sha256_digest_of(t@),
        digest@.len() == 32,
{
    let mut hasher = Sha256::new();
    hasher.update(t);
    let digest = hasher.finalize();
    digest.to_vec()
}

/// The lowercase hex character of a nibble.
pub open spec fn spec_hex_digit(d: int) -> char {
    if d == 0 {
        '0'
    } else if d == 1 {
        '1'
    } else if d == 2 {
        '2'
    } else if d == 3 {
        '3'
    } else if d == 4 {
        '4'
    } else if d == 5 {
        '5'
    } else if d == 6 {
        '6'
    } else if d == 7 {
        '7'
    } else if d == 8 {
        '8'
    } else if d == 9 {
        '9'
    } else if d == 10 {
        'a'
    } else if d == 11 {
        'b'
    } else if d == 12 {
        'c'
    } else if d == 13 {
        'd'
    } else if d == 14 {
        'e'
    } else {
        'f'
    }
}

/// The lowercase hex rendering of a byte run, two characters a byte,
/// high nibble first.
pub open spec fn spec_hex_of_bytes(bytes: Seq<u8>) -> Seq<char>
    decreases bytes.len(),
{
    if bytes.len() == 0 {
        Seq::<char>::empty()
    } else {
        seq![
            spec_hex_digit(bytes[0] as int / 16),
            spec_hex_digit(bytes[0] as int % 16),
        ] + spec_hex_of_bytes(bytes.drop_first())
    }
}

fn hex_digit_str(d: u8) -> (s: &'static str)
    requires
        d < 16,
    ensures
        s@ =~= seq![spec_hex_digit(d as int)],
{
    proof {
        reveal_strlit("0");
        reveal_strlit("1");
        reveal_strlit("2");
        reveal_strlit("3");
        reveal_strlit("4");
        reveal_strlit("5");
        reveal_strlit("6");
        reveal_strlit("7");
        reveal_strlit("8");
        reveal_strlit("9");
        reveal_strlit("a");
        reveal_strlit("b");
        reveal_strlit("c");
        reveal_strlit("d");
        reveal_strlit("e");
        reveal_strlit("f");
    }
    if d == 0 {
        "0"
    } else if d == 1 {
        "1"
    } else if d == 2 {
        "2"
    } else if d == 3 {
        "3"
    } else if d == 4 {
        "4"
    } else if d == 5 {
        "5"
    } else if d == 6 {
        "6"
    } else if d == 7 {
        "7"
    } else if d == 8 {
        "8"
    } else if d == 9 {
        "9"
    } else if d == 10 {
        "a"
    } else if d == 11 {
        "b"
    } else if d == 12 {
        "c"
    } else if d == 13 {
        "d"
    } else if d == 14 {
        "e"
    } else {
        "f"
    }
}

/// Renders bytes as lowercase hex.
pub fn hex_of_bytes(bytes: &Vec<u8>) -> (out: String)
    ensures
        out@ == spec_hex_of_bytes(bytes@),
{
    let ghost bs = bytes@;
    let mut out = String::new();
    proof {
        assert(bs.skip(0) =~= bs);
    }
    let n = bytes.len();
    let mut i: usize = 0;
    while i < n
        invariant
            0 <= i <= n == bs.len(),
            bs == bytes@,
            spec_hex_of_bytes(bs) == out@ + spec_hex_of_bytes(bs.skip(i as int)),
        decreases n - i,
    {
        proof {
            assert(bs.skip(i as int)[0] == bs[i as int]);
            assert(bs.skip(i as int).drop_first() =~= bs.skip(i + 1));
        }
        let b = bytes[i];
        out.append(hex_digit_str(b / 16));
        out.append(hex_digit_str(b % 16));
        proof {
            assert(out@ + spec_hex_of_bytes(bs.skip(i + 1)) =~= spec_hex_of_bytes(bs));
        }
        i = i + 1;
    }
    proof {
        assert(bs.skip(n as int) =~= Seq::<u8>::empty());
        assert(out@ =~= spec_hex_of_bytes(bs));
    }
    out
}

/// The hex-rendered SHA-256 fingerprint of a string.
fn calculate_hash(t: &str) -> (hash: String)
    ensures
        hash@ == spec_hex_of_bytes(sha256_digest_of(t@)),
{
    let digest = sha256_digest(t);
    hex_of_bytes(&digest)
}

/// The cache key of a request: the hex SHA-256 fingerprint of its
/// canonical rendering.
pub fn get_cache_key(coordinates: &MVTCoordinates, query: &MVTQuery) -> (key: String)
    ensures
        key@ == spec_hex_of_bytes(sha256_digest_of(spec_cache_source(*coordinates, *query))),
{
    let mut source = String::new();
    source.append("MVTCoordinates { x: ");
    let xs = u32_to_dec_string(coordinates.x);
    source.append(xs.as_str());
    source.append(", y: ");
    let ys = u32_to_dec_string(coordinates.y);
    source.append(ys.as_str());
    source.append(", z: ");
    let zs = u32_to_dec_string(coordinates.z);
    source.append(zs.as_str());
    source.append(" }MVTQuery { query: ");
    append_quoted(&mut source, query.query.as_str());
    source.append(", geo_col: ");
    append_quoted(&mut source, query.geo_col.as_str());
    source.append(", srid: ");
    append_quoted(&mut source, query.srid.as_str());
    source.append(" }");
    proof {
        assert(source@ =~= spec_cache_source(*coordinates, *query));
    }
    calculate_hash(source.as_str())
}

/// Fingerprint determinism (one direction of the cache-key law):
/// requests with equal canonical renderings always fingerprint to the
/// same cache key.  The converse — distinct renderings giving distinct
/// fingerprints — is a collision-resistance property of SHA-256 and is
/// not stated here.
pub proof fn lemma_fingerprint_deterministic(
    c1: MVTCoordinates,
    q1: MVTQuery,
    c2: MVTCoordinates,
    q2: MVTQuery,
)
    requires
        spec_cache_source(c1, q1) == spec_cache_source(c2, q2),
    ensures
        spec_hex_of_bytes(sha256_digest_of(spec_cache_source(c1, q1))) == spec_hex_of_bytes(
            sha256_digest_of(spec_cache_source(c2, q2)),
        ),
{
}

/// The response for a tile result: `200` with the tile bytes on
/// success, `404` with an empty body on any tile error.
pub fn tile_response(result: Result<Vec<u8>, TileError>) -> (response: (u16, Vec<u8>))
    ensures
        match result {
            Ok(bytes) => response.0 == 200 && response.1 == bytes,
            Err(_) => response.0 == 404 && response.1@ =~= Seq::<u8>::empty(),
        },
{
    match result {
        Ok(bytes) => (200, bytes),
        Err(_) => (404, Vec::new()),
    }
}

/// The `Cache-Control` value a response carries: the configured one,
/// or "private, max-age=300" when none is configured.
pub fn cache_control_value(config: &Config) -> (value: String)
    ensures
        match config.cache_control_header {
            Some(h) => value@ == h@,
            None => value@ == "private, max-age=300"@,
        },
{
    match &config.cache_control_header {
        Some(h) => h.clone(),
        None => String::from_str("private, max-age=300"),
    }
}

} // verus!
