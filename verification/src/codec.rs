//! Byte encodings used by the store: 4-byte big-endian identifiers for
//! keys, and a fixed-layout record encoding for values.
//!
//! A record is encoded as three big-endian 32-bit fields (salary, bonus,
//! rating in hundredths) followed by the UTF-8 bytes of the name.

use vstd::prelude::*;
use vstd::utf8::{decode_utf8, encode_utf8, valid_utf8};

use crate::record::{Employee, EmployeeModel};

verus! {

/// The 4-byte big-endian encoding of a 32-bit identifier.
pub open spec fn be32(x: u32) -> Seq<u8> {
    seq![
        ((x >> 24) & 0xff) as u8,
        ((x >> 16) & 0xff) as u8,
        ((x >> 8) & 0xff) as u8,
        (x & 0xff) as u8,
    ]
}

/// The 32-bit value read back from 4 big-endian bytes.
pub open spec fn be32_val(s: Seq<u8>) -> u32
    recommends
        s.len() == 4,
{
    (((s[0] as u32) << 24) | ((s[1] as u32) << 16) | ((s[2] as u32) << 8) | (s[3] as u32)) as u32
}

/// Reading back the 4 big-endian bytes of `x` yields `x` again.
pub proof fn lemma_be32_roundtrip(x: u32)
    ensures
        be32(x).len() == 4,
        be32_val(be32(x)) == x,
{
    assert((((((x >> 24) & 0xff) as u8) as u32) << 24) | (((((x >> 16) & 0xff) as u8) as u32)
        << 16) | (((((x >> 8) & 0xff) as u8) as u32) << 8) | (((x & 0xff) as u8) as u32)
        == x) by (bit_vector);
}

/// The 4 big-endian bytes of the value read from 4 bytes are those
/// bytes again, stated over the bytes themselves.
proof fn lemma_be32_bytes(b0: u8, b1: u8, b2: u8, b3: u8)
    ensures
        be32(be32_val(seq![b0, b1, b2, b3])) =~= seq![b0, b1, b2, b3],
{
    assert((((((b0 as u32) << 24) | ((b1 as u32) << 16) | ((b2 as u32) << 8) | (b3 as u32))
        >> 24) & 0xff) as u8 == b0) by (bit_vector);
    assert((((((b0 as u32) << 24) | ((b1 as u32) << 16) | ((b2 as u32) << 8) | (b3 as u32))
        >> 16) & 0xff) as u8 == b1) by (bit_vector);
    assert((((((b0 as u32) << 24) | ((b1 as u32) << 16) | ((b2 as u32) << 8) | (b3 as u32))
        >> 8) & 0xff) as u8 == b2) by (bit_vector);
    assert(((((b0 as u32) << 24) | ((b1 as u32) << 16) | ((b2 as u32) << 8) | (b3 as u32))
        & 0xff) as u8 == b3) by (bit_vector);
}

/// Encoding the value read from any 4 bytes yields those bytes again.
pub proof fn lemma_be32_of_val(s: Seq<u8>)
    requires
        s.len() == 4,
    ensures
        be32(be32_val(s)) == s,
{
    assert(s =~= seq![s[0], s[1], s[2], s[3]]);
    lemma_be32_bytes(s[0], s[1], s[2], s[3]);
}

/// Distinct identifiers have distinct big-endian encodings.
pub proof fn lemma_be32_injective(a: u32, b: u32)
    requires
        be32(a) == be32(b),
    ensures
        a == b,
{
    lemma_be32_roundtrip(a);
    lemma_be32_roundtrip(b);
}

/// Strict lexicographic order on byte sequences: the order in which the
/// engine iterates its keys.
pub open spec fn lex_lt(a: Seq<u8>, b: Seq<u8>) -> bool
    decreases a.len(),
{
    if b.len() == 0 {
        false
    } else if a.len() == 0 {
        true
    } else if a[0] < b[0] {
        true
    } else if a[0] > b[0] {
        false
    } else {
        lex_lt(a.drop_first(), b.drop_first())
    }
}

/// On 4-byte big-endian keys, lexicographic order agrees with numeric
/// order of the identifiers.
pub proof fn lemma_be32_order(a: u32, b: u32)
    ensures
        lex_lt(be32(a), be32(b)) <==> a < b,
{
    let sa = be32(a);
    let sb = be32(b);
    assert(a < b <==> (((a >> 24) & 0xff) < ((b >> 24) & 0xff) || (((a >> 24) & 0xff) == ((b
        >> 24) & 0xff) && (((a >> 16) & 0xff) < ((b >> 16) & 0xff) || (((a >> 16) & 0xff) == ((
    b >> 16) & 0xff) && (((a >> 8) & 0xff) < ((b >> 8) & 0xff) || (((a >> 8) & 0xff) == ((b
        >> 8) & 0xff) && (a & 0xff) < (b & 0xff)))))))) by (bit_vector);
    assert((((a >> 24) & 0xff) as u8) as u32 == ((a >> 24) & 0xff) && (((a >> 16) & 0xff) as u8)
        as u32 == ((a >> 16) & 0xff) && (((a >> 8) & 0xff) as u8) as u32 == ((a >> 8) & 0xff)
        && ((a & 0xff) as u8) as u32 == (a & 0xff)) by (bit_vector);
    assert((((b >> 24) & 0xff) as u8) as u32 == ((b >> 24) & 0xff) && (((b >> 16) & 0xff) as u8)
        as u32 == ((b >> 16) & 0xff) && (((b >> 8) & 0xff) as u8) as u32 == ((b >> 8) & 0xff)
        && ((b & 0xff) as u8) as u32 == (b & 0xff)) by (bit_vector);
    assert(sa.drop_first() =~= seq![sa[1], sa[2], sa[3]]);
    assert(sb.drop_first() =~= seq![sb[1], sb[2], sb[3]]);
    assert(sa.drop_first().drop_first() =~= seq![sa[2], sa[3]]);
    assert(sb.drop_first().drop_first() =~= seq![sb[2], sb[3]]);
    assert(sa.drop_first().drop_first().drop_first() =~= seq![sa[3]]);
    assert(sb.drop_first().drop_first().drop_first() =~= seq![sb[3]]);
    assert(sa.drop_first().drop_first().drop_first().drop_first() =~= Seq::<u8>::empty());
    assert(sb.drop_first().drop_first().drop_first().drop_first() =~= Seq::<u8>::empty());
    assert(!lex_lt(Seq::<u8>::empty(), Seq::<u8>::empty()));
    assert(lex_lt(sa.drop_first().drop_first().drop_first(), sb.drop_first().drop_first()
        .drop_first()) <==> sa[3] < sb[3]);
    assert(lex_lt(sa.drop_first().drop_first(), sb.drop_first().drop_first()) <==> (sa[2]
        < sb[2] || (sa[2] == sb[2] && sa[3] < sb[3])));
    assert(lex_lt(sa.drop_first(), sb.drop_first()) <==> (sa[1] < sb[1] || (sa[1] == sb[1] && (
    sa[2] < sb[2] || (sa[2] == sb[2] && sa[3] < sb[3])))));
    assert(lex_lt(sa, sb) <==> (sa[0] < sb[0] || (sa[0] == sb[0] && lex_lt(sa.drop_first(),
        sb.drop_first()))));
}

/// Emits the 4 big-endian bytes of `x`.
pub fn u32_to_be(x: u32) -> (r: Vec<u8>)
    ensures
        r@ == be32(x),
{
    let mut out: Vec<u8> = Vec::new();
    out.push(((x >> 24) & 0xff) as u8);
    out.push(((x >> 16) & 0xff) as u8);
    out.push(((x >> 8) & 0xff) as u8);
    out.push((x & 0xff) as u8);
    proof {
        assert(out@ =~= be32(x));
    }
    out
}

/// Reads a 32-bit value from 4 big-endian bytes.
pub fn u32_from_be(b0: u8, b1: u8, b2: u8, b3: u8) -> (r: u32)
    ensures
        r == be32_val(seq![b0, b1, b2, b3]),
{
    ((b0 as u32) << 24) | ((b1 as u32) << 16) | ((b2 as u32) << 8) | (b3 as u32)
}

/// The byte encoding of a record: salary, bonus and rating as big-endian
/// 32-bit fields, then the UTF-8 bytes of the name.
pub open spec fn spec_encode(e: EmployeeModel) -> Seq<u8> {
    be32(e.salary) + be32(e.bonus) + be32(e.rating_centi) + encode_utf8(e.full_name)
}

/// The record read back from an encoding, or `None` where the bytes are
/// not a valid encoding (too short, or a name that is not UTF-8).
pub open spec fn spec_decode(b: Seq<u8>) -> Option<EmployeeModel> {
    if b.len() >= 12 && valid_utf8(b.skip(12)) {
        Some(
            EmployeeModel {
                salary: be32_val(b.subrange(0, 4)),
                bonus: be32_val(b.subrange(4, 8)),
                rating_centi: be32_val(b.subrange(8, 12)),
                full_name: decode_utf8(b.skip(12)),
            },
        )
    } else {
        None
    }
}

/// Decoding inverts encoding: every record comes back field for field.
pub proof fn lemma_codec_roundtrip(e: EmployeeModel)
    ensures
        spec_decode(spec_encode(e)) == Some(e),
{
    let b = spec_encode(e);
    lemma_be32_roundtrip(e.salary);
    lemma_be32_roundtrip(e.bonus);
    lemma_be32_roundtrip(e.rating_centi);
    assert(b.subrange(0, 4) =~= be32(e.salary));
    assert(b.subrange(4, 8) =~= be32(e.bonus));
    assert(b.subrange(8, 12) =~= be32(e.rating_centi));
    assert(b.skip(12) =~= encode_utf8(e.full_name));
    vstd::utf8::encode_utf8_valid_utf8(e.full_name);
    vstd::utf8::encode_utf8_decode_utf8(e.full_name);
}

/// Relies on `String::from_utf8`: it succeeds exactly on valid UTF-8 and
/// returns the characters that the bytes encode.
#[verifier::external_body]
fn bytes_to_string(v: Vec<u8>) -> (r: Option<String>)
    ensures
        r matches Some(s) ==> valid_utf8(v@) && s@ == decode_utf8(v@),
        r is None ==> !valid_utf8(v@),
{
    String::from_utf8(v).ok()
}

/// Encodes a record to bytes.
pub fn encode(e: &Employee) -> (r: Vec<u8>)
    ensures
        r@ == spec_encode(e@),
{
    let mut out = u32_to_be(e.salary);
    let mut bonus_bytes = u32_to_be(e.bonus);
    let mut rating_bytes = u32_to_be(e.rating_centi);
    out.append(&mut bonus_bytes);
    out.append(&mut rating_bytes);
    let name_bytes: &[u8] = e.full_name.as_str().as_bytes();
    let mut i: usize = 0;
    while i < name_bytes.len()
        invariant
            i <= name_bytes.len(),
            name_bytes@ == encode_utf8(e.full_name@),
            out@ == be32(e@.salary) + be32(e@.bonus) + be32(e@.rating_centi) + name_bytes@.take(
                i as int,
            ),
        decreases name_bytes.len() - i,
    {
        out.push(name_bytes[i]);
        proof {
            assert(name_bytes@.take(i + 1) =~= name_bytes@.take(i as int).push(name_bytes@[
                i as int]));
        }
        i = i + 1;
    }
    proof {
        assert(name_bytes@.take(name_bytes@.len() as int) =~= name_bytes@);
    }
    out
}

/// Decodes bytes back to a record; `None` exactly where the bytes are not
/// a valid encoding.
pub fn decode(b: &Vec<u8>) -> (r: Option<Employee>)
    ensures
        r matches Some(e) ==> spec_decode(b@) == Some(e@),
        r is None ==> spec_decode(b@) is None,
{
    if b.len() < 12 {
        return None;
    }
    let salary = u32_from_be(b[0], b[1], b[2], b[3]);
    let bonus = u32_from_be(b[4], b[5], b[6], b[7]);
    let rating_centi = u32_from_be(b[8], b[9], b[10], b[11]);
    proof {
        assert(seq![b@[0], b@[1], b@[2], b@[3]] =~= b@.subrange(0, 4));
        assert(seq![b@[4], b@[5], b@[6], b@[7]] =~= b@.subrange(4, 8));
        assert(seq![b@[8], b@[9], b@[10], b@[11]] =~= b@.subrange(8, 12));
    }
    let mut tail: Vec<u8> = Vec::new();
    let mut i: usize = 12;
    while i < b.len()
        invariant
            12 <= i <= b.len(),
            tail@ == b@.subrange(12, i as int),
        decreases b.len() - i,
    {
        tail.push(b[i]);
        proof {
            assert(b@.subrange(12, i + 1) =~= b@.subrange(12, i as int).push(b@[i as int]));
        }
        i = i + 1;
    }
    proof {
        assert(tail@ =~= b@.skip(12));
    }
    match bytes_to_string(tail) {
        Some(full_name) => Some(Employee { full_name, salary, bonus, rating_centi }),
        None => None,
    }
}

} // verus!
