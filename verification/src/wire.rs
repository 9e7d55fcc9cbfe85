//! Protobuf wire-format primitives: varints, field keys, little-endian
//! doubles, packed repeated fields and length-delimited fields.  The
//! tile serializer is built from these.

use vstd::prelude::*;
use vstd::string::StrSliceExecFns;
use vstd::string::StringSliceAdditionalSpecFns;
use vstd::utf8::encode_utf8;

verus! {

/// The base-128 varint encoding of `v`, least significant group first,
/// the high bit of every byte but the last set.
pub open spec fn spec_varint(v: nat) -> Seq<u8>
    decreases v,
{
    if v < 128 {
        seq![v as u8]
    } else {
        seq![(128 + v % 128) as u8] + spec_varint(v / 128)
    }
}

/// The key introducing a field: field number and wire type packed into
/// one varint.
pub open spec fn spec_key(field: nat, wire_type: nat) -> Seq<u8> {
    spec_varint(field * 8 + wire_type)
}

/// A length-delimited field: key, byte length, payload.
pub open spec fn spec_len_delimited(field: nat, body: Seq<u8>) -> Seq<u8> {
    spec_key(field, 2) + spec_varint(body.len()) + body
}

/// A string field: its UTF-8 bytes, length-delimited.
pub open spec fn spec_string_field(field: nat, s: Seq<char>) -> Seq<u8> {
    spec_len_delimited(field, encode_utf8(s))
}

/// A varint field (wire type 0).
pub open spec fn spec_varint_field(field: nat, v: nat) -> Seq<u8> {
    spec_key(field, 0) + spec_varint(v)
}

/// The eight little-endian bytes of `v` (wire type 1).
pub open spec fn spec_le64(v: u64) -> Seq<u8> {
    seq![
        (v & 0xFF) as u8,
        ((v >> 8) & 0xFF) as u8,
        ((v >> 16) & 0xFF) as u8,
        ((v >> 24) & 0xFF) as u8,
        ((v >> 32) & 0xFF) as u8,
        ((v >> 40) & 0xFF) as u8,
        ((v >> 48) & 0xFF) as u8,
        ((v >> 56) & 0xFF) as u8,
    ]
}

/// The concatenated varints of a packed repeated field's values.
pub open spec fn spec_packed_varints(values: Seq<u32>) -> Seq<u8>
    decreases values.len(),
{
    if values.len() == 0 {
        Seq::<u8>::empty()
    } else {
        spec_varint(values[0] as nat) + spec_packed_varints(values.drop_first())
    }
}

/// The unsigned 64-bit value whose two's-complement bits are those of
/// `v`; protobuf's `int64` fields carry this value as a varint.
pub open spec fn spec_i64_wire(v: i64) -> nat {
    if v >= 0 {
        v as nat
    } else {
        (v + 0x1_0000_0000_0000_0000) as nat
    }
}

pub fn i64_wire(v: i64) -> (u: u64)
    ensures
        u as nat == spec_i64_wire(v),
{
    if v >= 0 {
        v as u64
    } else {
        let m = (-(v + 1)) as u64;
        u64::MAX - m
    }
}

/// Appends the varint encoding of `v`.
pub fn write_varint(out: &mut Vec<u8>, v: u64)
    ensures
        final(out)@ == old(out)@ + spec_varint(v as nat),
{
    let ghost data0 = out@;
    let mut x = v;
    while x >= 128
        invariant
            data0 + spec_varint(v as nat) == out@ + spec_varint(x as nat),
        decreases x,
    {
        out.push((x % 128 + 128) as u8);
        proof {
            assert(out@ + spec_varint((x / 128) as nat) =~= data0 + spec_varint(v as nat));
        }
        x = x / 128;
    }
    out.push(x as u8);
    proof {
        assert(out@ =~= data0 + spec_varint(v as nat));
    }
}

/// Appends the key of a field.
pub fn write_key(out: &mut Vec<u8>, field: u32, wire_type: u32)
    requires
        wire_type < 8,
    ensures
        final(out)@ == old(out)@ + spec_key(field as nat, wire_type as nat),
{
    write_varint(out, (field as u64) * 8 + (wire_type as u64));
}

/// Appends a varint field: key, then value.
pub fn write_varint_field(out: &mut Vec<u8>, field: u32, v: u64)
    ensures
        final(out)@ == old(out)@ + spec_varint_field(field as nat, v as nat),
{
    write_key(out, field, 0);
    write_varint(out, v);
    proof {
        assert(out@ =~= old(out)@ + spec_varint_field(field as nat, v as nat));
    }
}

/// Appends the eight little-endian bytes of `v`.
pub fn write_le64(out: &mut Vec<u8>, v: u64)
    ensures
        final(out)@ == old(out)@ + spec_le64(v),
{
    out.push((v & 0xFF) as u8);
    out.push(((v >> 8) & 0xFF) as u8);
    out.push(((v >> 16) & 0xFF) as u8);
    out.push(((v >> 24) & 0xFF) as u8);
    out.push(((v >> 32) & 0xFF) as u8);
    out.push(((v >> 40) & 0xFF) as u8);
    out.push(((v >> 48) & 0xFF) as u8);
    out.push(((v >> 56) & 0xFF) as u8);
    proof {
        assert(out@ =~= old(out)@ + spec_le64(v));
    }
}

/// Appends the concatenated varints of `values`.
pub fn write_packed_varints(out: &mut Vec<u8>, values: &Vec<u32>)
    ensures
        final(out)@ == old(out)@ + spec_packed_varints(values@),
{
    let ghost data0 = out@;
    let ghost vs = values@;
    proof {
        assert(vs.skip(0) =~= vs);
    }
    let n = values.len();
    let mut i: usize = 0;
    while i < n
        invariant
            0 <= i <= n == vs.len(),
            vs == values@,
            data0 + spec_packed_varints(vs) == out@ + spec_packed_varints(vs.skip(i as int)),
        decreases n - i,
    {
        proof {
            assert(vs.skip(i as int)[0] == vs[i as int]);
            assert(vs.skip(i as int).drop_first() =~= vs.skip(i + 1));
        }
        write_varint(out, values[i] as u64);
        proof {
            assert(out@ + spec_packed_varints(vs.skip(i + 1)) =~= data0 + spec_packed_varints(vs));
        }
        i = i + 1;
    }
    proof {
        assert(vs.skip(n as int) =~= Seq::<u32>::empty());
        assert(out@ =~= data0 + spec_packed_varints(vs));
    }
}

/// Appends a string field: key, UTF-8 byte length, bytes.
pub fn write_string_field(out: &mut Vec<u8>, field: u32, s: &str)
    ensures
        final(out)@ == old(out)@ + spec_string_field(field as nat, s@),
{
    let mut bytes = s.as_bytes_vec();
    write_key(out, field, 2);
    write_varint(out, bytes.len() as u64);
    out.append(&mut bytes);
    proof {
        assert(out@ =~= old(out)@ + spec_string_field(field as nat, s@));
    }
}

/// Appends a length-delimited field whose payload is `body`.
pub fn write_len_delimited(out: &mut Vec<u8>, field: u32, body: Vec<u8>)
    ensures
        final(out)@ == old(out)@ + spec_len_delimited(field as nat, body@),
{
    let mut payload = body;
    let ghost b0 = payload@;
    write_key(out, field, 2);
    write_varint(out, payload.len() as u64);
    out.append(&mut payload);
    proof {
        assert(out@ =~= old(out)@ + spec_len_delimited(field as nat, b0));
    }
}

} // verus!
