//! The mutation layer: turns plain form values into store calls and maps
//! store outcomes to status codes and refresh signals, and serializes a
//! listing as a JSON document for download.

use vstd::prelude::*;
use vstd::utf8::encode_utf8;

use crate::record::{Employee, PAY_BOUND, RATING_CENTI_MAX};
use crate::store::StoreError;

verus! {

/// Status for a record that was created.
pub const STATUS_CREATED: u16 = 201;

/// Status for a call that succeeded.
pub const STATUS_OK: u16 = 200;

/// Status for a store failure.
pub const STATUS_SERVER_ERROR: u16 = 500;

/// Whether a record lies within the bounds the input form promises:
/// pay fields at most the pay bound, rating at most 1.
pub open spec fn spec_valid_record(e: Employee) -> bool {
    e.salary <= PAY_BOUND && e.bonus <= PAY_BOUND && e.rating_centi <= RATING_CENTI_MAX
}

/// Checks the bounds of a submitted record.
pub fn validate_record(e: &Employee) -> (r: bool)
    ensures
        r == spec_valid_record(*e),
{
    e.salary <= PAY_BOUND && e.bonus <= PAY_BOUND && e.rating_centi <= RATING_CENTI_MAX
}

/// What the front end is told after a create: the status, and whether to
/// re-fetch the roster and clear the input form.
pub struct CreateResponse {
    pub status: u16,
    pub refresh_roster: bool,
    pub clear_form: bool,
}

/// Maps the outcome of an `add` to the created status with both refresh
/// signals, or a server error with none.
pub fn create_response(outcome: &Result<u32, StoreError>) -> (r: CreateResponse)
    ensures
        outcome is Ok ==> r.status == STATUS_CREATED && r.refresh_roster && r.clear_form,
        outcome is Err ==> r.status == STATUS_SERVER_ERROR && !r.refresh_roster && !r.clear_form,
{
    match outcome {
        Ok(_) => CreateResponse { status: STATUS_CREATED, refresh_roster: true, clear_form: true },
        Err(_) => CreateResponse {
            status: STATUS_SERVER_ERROR,
            refresh_roster: false,
            clear_form: false,
        },
    }
}

/// Maps the outcome of a `remove` to a status: success whether or not
/// the identifier existed (delete is idempotent), server error only on
/// a store failure.
pub fn delete_response(outcome: &Result<Option<Employee>, StoreError>) -> (r: u16)
    ensures
        outcome is Ok ==> r == STATUS_OK,
        outcome is Err ==> r == STATUS_SERVER_ERROR,
{
    match outcome {
        Ok(_) => STATUS_OK,
        Err(_) => STATUS_SERVER_ERROR,
    }
}

/// The decimal digits of `n`, most significant first.
pub open spec fn spec_dec(n: int) -> Seq<u8>
    decreases n,
{
    if n < 10 {
        seq![(48 + n) as u8]
    } else {
        spec_dec(n / 10).push((48 + n % 10) as u8)
    }
}

/// Appends the decimal digits of `n`.
fn push_dec(out: &mut Vec<u8>, n: u32)
    ensures
        final(out)@ == old(out)@ + spec_dec(n as int),
    decreases n,
{
    if n < 10 {
        out.push((48 + n) as u8);
        proof {
            assert(out@ =~= old(out)@ + spec_dec(n as int));
        }
    } else {
        push_dec(out, n / 10);
        out.push((48 + n % 10) as u8);
        proof {
            assert(out@ =~= old(out)@ + spec_dec(n as int));
        }
    }
}

/// The lowercase hexadecimal digit of a value below 16.
pub open spec fn spec_hex_digit(n: u8) -> u8 {
    if n < 10 {
        (48 + n) as u8
    } else {
        (87 + n) as u8
    }
}

/// How one byte of a name appears inside a JSON string: quote and
/// backslash are escaped, control bytes become a `\u00..` escape, and
/// every other byte stands as itself.
pub open spec fn spec_escaped_byte(b: u8) -> Seq<u8> {
    if b == 34 || b == 92 {
        seq![92u8, b]
    } else if b < 32 {
        seq![92u8, 117u8, 48u8, 48u8, spec_hex_digit(b / 16), spec_hex_digit(b % 16)]
    } else {
        seq![b]
    }
}

/// A byte sequence escaped for a JSON string, byte for byte.
pub open spec fn spec_escaped(s: Seq<u8>) -> Seq<u8>
    decreases s.len(),
{
    if s.len() == 0 {
        Seq::empty()
    } else {
        spec_escaped_byte(s[0]) + spec_escaped(s.drop_first())
    }
}

/// Escaping distributes over appending one byte at the end.
proof fn lemma_escaped_push(s: Seq<u8>, b: u8)
    ensures
        spec_escaped(s.push(b)) == spec_escaped(s) + spec_escaped_byte(b),
    decreases s.len(),
{
    if s.len() == 0 {
        assert(s.push(b).drop_first() =~= Seq::<u8>::empty());
        assert(s.push(b)[0] == b);
        assert(spec_escaped(Seq::<u8>::empty()) =~= Seq::<u8>::empty());
        assert(spec_escaped(s.push(b)) =~= spec_escaped(s) + spec_escaped_byte(b));
    } else {
        assert(s.push(b).drop_first() =~= s.drop_first().push(b));
        lemma_escaped_push(s.drop_first(), b);
        assert(spec_escaped(s.push(b)) =~= spec_escaped(s) + spec_escaped_byte(b));
    }
}

/// Appends `s` escaped for a JSON string.
fn push_escaped(out: &mut Vec<u8>, s: &[u8])
    ensures
        final(out)@ == old(out)@ + spec_escaped(s@),
{
    let mut i: usize = 0;
    proof {
        assert(s@.take(0) =~= Seq::<u8>::empty());
        assert(out@ =~= old(out)@ + spec_escaped(s@.take(0)));
    }
    while i < s.len()
        invariant
            i <= s@.len(),
            out@ == old(out)@ + spec_escaped(s@.take(i as int)),
        decreases s@.len() - i,
    {
        let b = s[i];
        if b == 34 || b == 92 {
            out.push(92);
            out.push(b);
        } else if b < 32 {
            out.push(92);
            out.push(117);
            out.push(48);
            out.push(48);
            let hi = b / 16;
            let lo = b % 16;
            out.push(if hi < 10 { 48 + hi } else { 87 + hi });
            out.push(if lo < 10 { 48 + lo } else { 87 + lo });
        } else {
            out.push(b);
        }
        proof {
            assert(s@.take(i + 1) =~= s@.take(i as int).push(s@[i as int]));
            lemma_escaped_push(s@.take(i as int), s@[i as int]);
            assert(out@ =~= old(out)@ + spec_escaped(s@.take(i + 1)));
        }
        i = i + 1;
    }
    proof {
        assert(s@.take(s@.len() as int) =~= s@);
    }
}

/// The document fragment for one listed record: an array of identifier
/// and record object.
pub open spec fn spec_entry_json(id: u32, e: Employee) -> Seq<u8> {
    seq![91u8] + spec_dec(id as int) + lit_name() + spec_escaped(encode_utf8(e@.full_name))
        + lit_salary() + spec_dec(e.salary as int) + lit_bonus() + spec_dec(e.bonus as int)
        + lit_rating() + spec_dec(e.rating_centi as int) + seq![125u8, 93u8]
}

/// The bytes of `,{"full_name":"`.
pub open spec fn lit_name() -> Seq<u8> {
    seq![44u8, 123u8, 34u8, 102u8, 117u8, 108u8, 108u8, 95u8, 110u8, 97u8, 109u8, 101u8, 34u8, 58u8, 34u8]
}

/// The bytes of `","salary":`.
pub open spec fn lit_salary() -> Seq<u8> {
    seq![34u8, 44u8, 34u8, 115u8, 97u8, 108u8, 97u8, 114u8, 121u8, 34u8, 58u8]
}

/// The bytes of `,"bonus":`.
pub open spec fn lit_bonus() -> Seq<u8> {
    seq![44u8, 34u8, 98u8, 111u8, 110u8, 117u8, 115u8, 34u8, 58u8]
}

/// The bytes of `,"rating_centi":`.
pub open spec fn lit_rating() -> Seq<u8> {
    seq![44u8, 34u8, 114u8, 97u8, 116u8, 105u8, 110u8, 103u8, 95u8, 99u8, 101u8, 110u8, 116u8, 105u8, 34u8, 58u8]
}

/// Appends the bytes of `lit_name`.
fn push_lit_name(out: &mut Vec<u8>)
    ensures
        final(out)@ == old(out)@ + lit_name(),
{
    out.push(44);
    out.push(123);
    out.push(34);
    out.push(102);
    out.push(117);
    out.push(108);
    out.push(108);
    out.push(95);
    out.push(110);
    out.push(97);
    out.push(109);
    out.push(101);
    out.push(34);
    out.push(58);
    out.push(34);
    proof {
        assert(out@ =~= old(out)@ + lit_name());
    }
}

/// Appends the bytes of `lit_salary`.
fn push_lit_salary(out: &mut Vec<u8>)
    ensures
        final(out)@ == old(out)@ + lit_salary(),
{
    out.push(34);
    out.push(44);
    out.push(34);
    out.push(115);
    out.push(97);
    out.push(108);
    out.push(97);
    out.push(114);
    out.push(121);
    out.push(34);
    out.push(58);
    proof {
        assert(out@ =~= old(out)@ + lit_salary());
    }
}

/// Appends the bytes of `lit_bonus`.
fn push_lit_bonus(out: &mut Vec<u8>)
    ensures
        final(out)@ == old(out)@ + lit_bonus(),
{
    out.push(44);
    out.push(34);
    out.push(98);
    out.push(111);
    out.push(110);
    out.push(117);
    out.push(115);
    out.push(34);
    out.push(58);
    proof {
        assert(out@ =~= old(out)@ + lit_bonus());
    }
}

/// Appends the bytes of `lit_rating`.
fn push_lit_rating(out: &mut Vec<u8>)
    ensures
        final(out)@ == old(out)@ + lit_rating(),
{
    out.push(44);
    out.push(34);
    out.push(114);
    out.push(97);
    out.push(116);
    out.push(105);
    out.push(110);
    out.push(103);
    out.push(95);
    out.push(99);
    out.push(101);
    out.push(110);
    out.push(116);
    out.push(105);
    out.push(34);
    out.push(58);
    proof {
        assert(out@ =~= old(out)@ + lit_rating());
    }
}

/// Appends the document fragment of one listed record.
fn push_entry(out: &mut Vec<u8>, id: u32, e: &Employee)
    ensures
        final(out)@ == old(out)@ + spec_entry_json(id, *e),
{
    out.push(91);
    push_dec(out, id);
    push_lit_name(out);
    let name_bytes: &[u8] = e.full_name.as_str().as_bytes();
    push_escaped(out, name_bytes);
    push_lit_salary(out);
    push_dec(out, e.salary);
    push_lit_bonus(out);
    push_dec(out, e.bonus);
    push_lit_rating(out);
    push_dec(out, e.rating_centi);
    out.push(125);
    out.push(93);
    proof {
        assert(out@ =~= old(out)@ + spec_entry_json(id, *e));
    }
}

/// The document fragments of the listed records from position `i` on,
/// separated by commas.
pub open spec fn spec_entries_json(v: Seq<(u32, Employee)>, i: int) -> Seq<u8>
    decreases v.len() - i,
{
    if i < 0 || i >= v.len() {
        Seq::empty()
    } else if i + 1 < v.len() {
        spec_entry_json(v[i].0, v[i].1) + seq![44u8] + spec_entries_json(v, i + 1)
    } else {
        spec_entry_json(v[i].0, v[i].1)
    }
}

/// The export document of a listing: a JSON array of identifier-record
/// pairs, in the listing's order.
pub open spec fn spec_export_json(v: Seq<(u32, Employee)>) -> Seq<u8> {
    seq![91u8] + spec_entries_json(v, 0) + seq![93u8]
}

/// Appends the document fragments of the records from position `i` on.
fn push_entries(out: &mut Vec<u8>, v: &Vec<(u32, Employee)>, i: usize)
    requires
        i <= v@.len(),
    ensures
        final(out)@ == old(out)@ + spec_entries_json(v@, i as int),
    decreases v@.len() - i,
{
    if i < v.len() {
        let entry = &v[i];
        push_entry(out, entry.0, &entry.1);
        if i + 1 < v.len() {
            out.push(44);
            push_entries(out, v, i + 1);
        }
    }
    proof {
        assert(out@ =~= old(out)@ + spec_entries_json(v@, i as int));
    }
}

/// Serializes a listing as the export document, in the listing's order.
pub fn export_json(v: &Vec<(u32, Employee)>) -> (r: Vec<u8>)
    ensures
        r@ == spec_export_json(v@),
{
    let mut out: Vec<u8> = Vec::new();
    out.push(91);
    push_entries(&mut out, v, 0);
    out.push(93);
    proof {
        assert(out@ =~= spec_export_json(v@));
    }
    out
}

} // verus!
