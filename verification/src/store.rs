//! The record store: a persistent map from monotonically increasing
//! identifiers to employee records.
//!
//! Two namespaces live inside the engine: `records`, keyed by the 4-byte
//! big-endian identifier, and `sequence`, holding the single counter cell
//! under a sentinel key. The counter is read and then incremented on
//! every add, is never decremented, and an identifier is never reissued,
//! even after deletion.

use vstd::prelude::*;

use crate::codec;
use crate::codec::{be32, be32_val, spec_decode, spec_encode};
use crate::engine;
use crate::engine::{tree_crc, tree_entries};
use crate::record::{Employee, EmployeeModel};

verus! {

/// How a store operation fails.
///
/// `Storage` is an engine-level failure (or an identifier space that is
/// exhausted and cannot be advanced); `Encoding` means persisted bytes
/// were not a valid encoding, a data-integrity fault.
#[derive(Clone, Copy, Debug, PartialEq, Eq, Structural)]
pub enum StoreError {
    Storage,
    Encoding,
}

/// The empty namespace: no keys at all.
pub open spec fn empty_bytes_map() -> Map<Seq<u8>, Seq<u8>> {
    Map::empty()
}

/// The sentinel key of the counter cell: the bytes of `counter`.
pub open spec fn counter_key() -> Seq<u8> {
    seq![99u8, 111u8, 117u8, 110u8, 116u8, 101u8, 114u8]
}

/// The counter cell is readable: absent, or exactly 4 bytes.
pub open spec fn counter_wf(cell: Map<Seq<u8>, Seq<u8>>) -> bool {
    cell.contains_key(counter_key()) ==> cell[counter_key()].len() == 4
}

/// The next identifier to assign: the persisted counter, or 0 where the
/// cell was never written.
pub open spec fn counter_value(cell: Map<Seq<u8>, Seq<u8>>) -> u32 {
    if cell.contains_key(counter_key()) {
        be32_val(cell[counter_key()])
    } else {
        0
    }
}

/// The persistent record store.
pub struct Database {
    /// The open engine; held so the storage stays open for the store's
    /// lifetime.
    db: sled::Db,
    records: sled::Tree,
    sequence: sled::Tree,
}

/// What a successful `add` does: `id` is the counter value before the
/// call, the counter moves past it, and the encoded record is stored
/// under the identifier's big-endian key.
pub open spec fn add_step(pre: Database, post: Database, id: u32, e: EmployeeModel) -> bool {
    &&& id == pre.next_id()
    &&& id < u32::MAX
    &&& post.next_id() == id + 1
    &&& counter_wf(post.raw_counter())
    &&& post.raw_counter() == pre.raw_counter().insert(counter_key(), be32((id + 1) as u32))
    &&& post.raw_records() == pre.raw_records().insert(be32(id), spec_encode(e))
}

/// What a successful `remove` does: the identifier's key is gone, the
/// prior record (if any) is returned decoded, and the counter is
/// untouched.
pub open spec fn remove_step(
    pre: Database,
    post: Database,
    id: u32,
    prev: Option<EmployeeModel>,
) -> bool {
    &&& post.raw_records() == pre.raw_records().remove(be32(id))
    &&& match prev {
        Some(e) => pre.raw_records().contains_key(be32(id)) && spec_decode(
            pre.raw_records()[be32(id)],
        ) == Some(e),
        None => !pre.raw_records().contains_key(be32(id)),
    }
    &&& post.raw_counter() == pre.raw_counter()
}

/// An entry the listing cannot read: a key that is not a 4-byte
/// identifier, or a value that does not decode.
pub open spec fn corrupt_entry(m: Map<Seq<u8>, Seq<u8>>, k: Seq<u8>) -> bool {
    m.contains_key(k) && (k.len() != 4 || spec_decode(m[k]) is None)
}

/// A listing of the store: exactly the stored records, decoded, in
/// strictly ascending identifier order.
pub open spec fn listing_wf(s: Database, v: Seq<(u32, Employee)>) -> bool {
    &&& forall|i: int, j: int| 0 <= i < j < v.len() ==> (#[trigger] v[i]).0 < (#[trigger] v[j]).0
    &&& forall|i: int|
        0 <= i < v.len() ==> s.raw_records().contains_key(be32((#[trigger] v[i]).0))
            && spec_decode(s.raw_records()[be32(v[i].0)]) == Some(v[i].1@)
    &&& forall|k: Seq<u8>|
        #[trigger] s.raw_records().contains_key(k) ==> exists|i: int|
            0 <= i < v.len() && be32((#[trigger] v[i]).0) == k
}

impl Database {
    /// The `records` namespace: key bytes to value bytes.
    pub closed spec fn raw_records(self) -> Map<Seq<u8>, Seq<u8>> {
        tree_entries(self.records)
    }

    /// The `sequence` namespace holding the counter cell.
    pub closed spec fn raw_counter(self) -> Map<Seq<u8>, Seq<u8>> {
        tree_entries(self.sequence)
    }

    /// The next identifier this store will assign.
    pub open spec fn next_id(self) -> u32 {
        counter_value(self.raw_counter())
    }

    /// The integrity value over everything this store persists: the two
    /// namespaces' integrity values folded into one word, a function of
    /// their contents.
    pub closed spec fn digest(self) -> u32 {
        tree_crc(self.raw_records()) ^ (((tree_crc(self.raw_counter()) << 16) | (tree_crc(
            self.raw_counter(),
        ) >> 16)) as u32)
    }

    /// Relies on `sled::Config::{new, temporary, open}` and
    /// `Db::open_tree`: temporary storage starts empty, so both freshly
    /// opened trees hold nothing.
    #[verifier::external_body]
    fn open_temporary_trees(records_name: &str, sequence_name: &str) -> (r: Result<Database, sled::Error>)
        ensures
            r matches Ok(s) ==> s.raw_records() == empty_bytes_map() && s.raw_counter()
                == empty_bytes_map(),
    {
        let db = sled::Config::new().temporary(true).open()?;
        let records = db.open_tree(records_name)?;
        let sequence = db.open_tree(sequence_name)?;
        Ok(Database { db, records, sequence })
    }

    /// Relies on `sled::open` and `Db::open_tree`: opens durable storage
    /// at the path; the trees hold whatever was persisted there, of
    /// which nothing is claimed.
    #[verifier::external_body]
    fn open_trees_at(path: &str, records_name: &str, sequence_name: &str) -> (r: Result<Database, sled::Error>)
    {
        let db = sled::open(path)?;
        let records = db.open_tree(records_name)?;
        let sequence = db.open_tree(sequence_name)?;
        Ok(Database { db, records, sequence })
    }

    /// Opens a fresh store in temporary storage: empty, with the first
    /// identifier 0.
    pub fn temporary() -> (r: Result<Database, StoreError>)
        ensures
            r matches Ok(s) ==> s.raw_records() == empty_bytes_map() && s.next_id() == 0
                && counter_wf(s.raw_counter()),
    {
        match Self::open_temporary_trees("records", "sequence") {
            Ok(s) => Ok(s),
            Err(_) => Err(StoreError::Storage),
        }
    }

    /// Opens the store over durable storage at `path`, with whatever
    /// content was persisted there before.
    pub fn open_path(path: &str) -> Result<Database, StoreError> {
        match Self::open_trees_at(path, "records", "sequence") {
            Ok(s) => Ok(s),
            Err(_) => Err(StoreError::Storage),
        }
    }

    /// The bytes of the counter sentinel key.
    fn counter_key_bytes() -> (r: Vec<u8>)
        ensures
            r@ == counter_key(),
    {
        let mut k: Vec<u8> = Vec::new();
        k.push(99);
        k.push(111);
        k.push(117);
        k.push(110);
        k.push(116);
        k.push(101);
        k.push(114);
        proof {
            assert(k@ =~= counter_key());
        }
        k
    }

    /// Reads the persisted counter, 0 where the cell is absent.
    fn read_counter(&self) -> (r: Result<u32, StoreError>)
        ensures
            r matches Ok(c) ==> c == self.next_id() && counter_wf(self.raw_counter()),
            r matches Err(e) && e == StoreError::Encoding ==> !counter_wf(self.raw_counter()),
    {
        let key = Self::counter_key_bytes();
        match engine::tree_get(&self.sequence, key.as_slice()) {
            Err(_) => Err(StoreError::Storage),
            Ok(None) => Ok(0),
            Ok(Some(bytes)) => {
                if bytes.len() == 4 {
                    let c = codec::u32_from_be(bytes[0], bytes[1], bytes[2], bytes[3]);
                    proof {
                        assert(seq![bytes@[0], bytes@[1], bytes@[2], bytes@[3]] =~= bytes@);
                    }
                    Ok(c)
                } else {
                    Err(StoreError::Encoding)
                }
            },
        }
    }

    /// Persists a new counter value.
    fn write_counter(&mut self, value: u32) -> (r: Result<(), StoreError>)
        ensures
            final(self).records == old(self).records,
            final(self).db == old(self).db,
            r is Ok ==> final(self).raw_counter() == old(self).raw_counter().insert(
                counter_key(),
                be32(value),
            ),
            r is Err ==> final(self).raw_counter() == old(self).raw_counter()
                || final(self).raw_counter() == old(self).raw_counter().insert(
                counter_key(),
                be32(value),
            ),
            r matches Err(e) ==> e == StoreError::Storage,
    {
        let key = Self::counter_key_bytes();
        let data = codec::u32_to_be(value);
        match engine::tree_insert(&mut self.sequence, key.as_slice(), data.as_slice()) {
            Ok(()) => Ok(()),
            Err(_) => Err(StoreError::Storage),
        }
    }

    /// Adds a record: allocates the next identifier, advances the
    /// counter past it, and persists the encoded record under the
    /// identifier's big-endian key.
    ///
    /// The counter never goes backwards, even when the operation fails;
    /// an exhausted identifier space is reported as a storage failure
    /// with nothing written. The counter bump and the record write are
    /// two separate single-key engine operations, each atomic on its
    /// own: a failure between them can leave the counter already
    /// advanced with no record written, and the clauses below state
    /// exactly that window — the engine offers no two-tree atomicity to
    /// close it, and an abandoned identifier is harmless, never reused.
    pub fn add(&mut self, employee: &Employee) -> (r: Result<u32, StoreError>)
        ensures
            r matches Ok(id) ==> add_step(*old(self), *final(self), id, employee@),
            final(self).next_id() >= old(self).next_id(),
            r is Err ==> final(self).raw_records() == old(self).raw_records()
                || final(self).raw_records() == old(self).raw_records().insert(
                be32(old(self).next_id()),
                spec_encode(employee@),
            ),
            r matches Err(e) && e == StoreError::Encoding ==> !counter_wf(old(self).raw_counter()),
            old(self).next_id() == u32::MAX ==> r is Err && *final(self) == *old(self),
    {
        let c = match self.read_counter() {
            Ok(c) => c,
            Err(e) => {
                return Err(e);
            },
        };
        if c == u32::MAX {
            return Err(StoreError::Storage);
        }
        match self.write_counter(c + 1) {
            Ok(()) => (),
            Err(e) => {
                proof {
                    codec::lemma_be32_roundtrip((c + 1) as u32);
                }
                return Err(e);
            },
        }
        proof {
            codec::lemma_be32_roundtrip((c + 1) as u32);
        }
        let data = codec::encode(employee);
        let key = codec::u32_to_be(c);
        match engine::tree_insert(&mut self.records, key.as_slice(), data.as_slice()) {
            Ok(()) => Ok(c),
            Err(_) => Err(StoreError::Storage),
        }
    }

    /// Deletes the record under `id`, returning the prior record, or
    /// `None` where the identifier was never assigned or already
    /// removed — deletion is idempotent, absence is not an error.
    ///
    /// A stored value that no longer decodes is reported as an encoding
    /// failure.
    pub fn remove(&mut self, id: u32) -> (r: Result<Option<Employee>, StoreError>)
        ensures
            r matches Ok(prev) ==> remove_step(
                *old(self),
                *final(self),
                id,
                match prev {
                    Some(e) => Some(e@),
                    None => None,
                },
            ),
            final(self).next_id() == old(self).next_id(),
            final(self).raw_counter() == old(self).raw_counter(),
            r is Err ==> final(self).raw_records() == old(self).raw_records()
                || final(self).raw_records() == old(self).raw_records().remove(be32(id)),
            r matches Err(e) && e == StoreError::Encoding ==> corrupt_entry(
                old(self).raw_records(),
                be32(id),
            ),
            corrupt_entry(old(self).raw_records(), be32(id)) ==> !(r is Ok),
    {
        let key = codec::u32_to_be(id);
        match engine::tree_remove(&mut self.records, key.as_slice()) {
            Err(_) => Err(StoreError::Storage),
            Ok(None) => Ok(None),
            Ok(Some(bytes)) => match codec::decode(&bytes) {
                Some(e) => Ok(Some(e)),
                None => Err(StoreError::Encoding),
            },
        }
    }

    /// Lists every record, in strictly ascending identifier order. A
    /// single unreadable entry makes the whole call fail with an
    /// encoding error: nothing is silently skipped.
    pub fn get_all(&self) -> (r: Result<Vec<(u32, Employee)>, StoreError>)
        ensures
            r matches Ok(v) ==> listing_wf(*self, v@),
            r is Ok ==> forall|k: Seq<u8>| !(#[trigger] corrupt_entry(self.raw_records(), k)),
            r matches Err(e) && e == StoreError::Encoding ==> exists|k: Seq<u8>|
                corrupt_entry(self.raw_records(), k),
    {
        let scan = match engine::tree_scan(&self.records) {
            Ok(s) => s,
            Err(_) => {
                return Err(StoreError::Storage);
            },
        };
        let ghost m = self.raw_records();
        let mut out: Vec<(u32, Employee)> = Vec::new();
        let mut i: usize = 0;
        while i < scan.len()
            invariant
                i <= scan@.len(),
                out@.len() == i,
                m == self.raw_records(),
                forall|p: int|
                    0 <= p < scan@.len() ==> m.contains_pair((#[trigger] scan@[p]).0@, scan@[p].1@),
                forall|k: Seq<u8>|
                    #[trigger] m.contains_key(k) ==> exists|p: int|
                        0 <= p < scan@.len() && (#[trigger] scan@[p]).0@ == k,
                forall|p: int, q: int|
                    0 <= p < q < scan@.len() ==> codec::lex_lt(
                        (#[trigger] scan@[p]).0@,
                        (#[trigger] scan@[q]).0@,
                    ),
                forall|p: int|
                    0 <= p < i ==> be32((#[trigger] out@[p]).0) == scan@[p].0@ && spec_decode(
                        scan@[p].1@,
                    ) == Some(out@[p].1@),
            decreases scan@.len() - i,
        {
            let entry = &scan[i];
            if entry.0.len() != 4 {
                proof {
                    assert(corrupt_entry(m, scan@[i as int].0@));
                }
                return Err(StoreError::Encoding);
            }
            let id = codec::u32_from_be(entry.0[0], entry.0[1], entry.0[2], entry.0[3]);
            proof {
                assert(seq![
                    scan@[i as int].0@[0],
                    scan@[i as int].0@[1],
                    scan@[i as int].0@[2],
                    scan@[i as int].0@[3],
                ] =~= scan@[i as int].0@);
                codec::lemma_be32_of_val(scan@[i as int].0@);
            }
            let employee = match codec::decode(&entry.1) {
                Some(e) => e,
                None => {
                    proof {
                        assert(corrupt_entry(m, scan@[i as int].0@));
                    }
                    return Err(StoreError::Encoding);
                },
            };
            out.push((id, employee));
            i = i + 1;
        }
        proof {
            assert forall|p: int, q: int| 0 <= p < q < out@.len() implies (#[trigger] out@[p]).0 < (
            #[trigger] out@[q]).0 by {
                codec::lemma_be32_order(out@[p].0, out@[q].0);
            }
            assert forall|k: Seq<u8>| #[trigger] m.contains_key(k) implies exists|p: int|
                0 <= p < out@.len() && be32((#[trigger] out@[p]).0) == k by {
                let p = choose|p: int| 0 <= p < scan@.len() && (#[trigger] scan@[p]).0@ == k;
                assert(be32(out@[p].0) == k);
            }
            assert forall|k: Seq<u8>| !(#[trigger] corrupt_entry(m, k)) by {
                if m.contains_key(k) {
                    let p = choose|p: int|
                        0 <= p < out@.len() && be32((#[trigger] out@[p]).0) == k;
                    assert(m.contains_pair(scan@[p].0@, scan@[p].1@));
                    assert(spec_decode(m[k]) == Some(out@[p].1@));
                }
            }
        }
        Ok(out)
    }

    /// The integrity value over the full persisted content: each
    /// namespace's integrity value is read from the engine, and the two
    /// are folded into one word. A function of the two namespaces'
    /// contents, so it is stable across calls with no intervening
    /// change of content.
    pub fn checksum(&self) -> (r: Result<u32, StoreError>)
        ensures
            r matches Ok(c) ==> c == self.digest(),
    {
        let records_crc = match engine::tree_checksum(&self.records) {
            Ok(c) => c,
            Err(_) => {
                return Err(StoreError::Storage);
            },
        };
        let sequence_crc = match engine::tree_checksum(&self.sequence) {
            Ok(c) => c,
            Err(_) => {
                return Err(StoreError::Storage);
            },
        };
        Ok(records_crc ^ ((sequence_crc << 16) | (sequence_crc >> 16)))
    }
}

/// Uniqueness and monotonicity of identifiers, pairwise: across two
/// successful adds, where the counter has not gone backwards in between
/// (which every store operation guarantees), the later identifier is
/// strictly larger — so no identifier is ever issued twice, and none is
/// reissued after a deletion.
pub proof fn lemma_no_reissue(
    pre1: Database,
    post1: Database,
    id1: u32,
    e1: EmployeeModel,
    pre2: Database,
    post2: Database,
    id2: u32,
    e2: EmployeeModel,
)
    requires
        add_step(pre1, post1, id1, e1),
        add_step(pre2, post2, id2, e2),
        pre2.next_id() >= post1.next_id(),
    ensures
        id1 < id2,
{
}

/// Counters accumulate along a chain of adds: after `q - p` further
/// successful adds the counter has advanced by at least that much.
proof fn lemma_chain_counter(
    states: Seq<Database>,
    ids: Seq<u32>,
    recs: Seq<EmployeeModel>,
    p: int,
    q: int,
)
    requires
        states.len() == ids.len() + 1,
        recs.len() == ids.len(),
        forall|n: int|
            0 <= n < ids.len() ==> #[trigger] add_step(states[n], states[n + 1], ids[n], recs[n]),
        0 <= p <= q <= ids.len(),
    ensures
        states[q].next_id() >= states[p].next_id() + (q - p),
    decreases q - p,
{
    if p < q {
        lemma_chain_counter(states, ids, recs, p, q - 1);
        assert(add_step(states[q - 1], states[q - 1 + 1], ids[q - 1], recs[q - 1]));
    }
}

/// Uniqueness along any sequence of successful adds: identifiers come
/// out strictly increasing, so `n` adds yield `n` distinct identifiers,
/// and the set of identifiers has no collisions.
pub proof fn lemma_add_chain_increasing(states: Seq<Database>, ids: Seq<u32>, recs: Seq<EmployeeModel>)
    requires
        states.len() == ids.len() + 1,
        recs.len() == ids.len(),
        forall|n: int|
            0 <= n < ids.len() ==> #[trigger] add_step(states[n], states[n + 1], ids[n], recs[n]),
    ensures
        forall|p: int, q: int| 0 <= p < q < ids.len() ==> ids[p] < ids[q],
{
    assert forall|p: int, q: int| 0 <= p < q < ids.len() implies ids[p] < ids[q] by {
        assert(add_step(states[p], states[p + 1], ids[p], recs[p]));
        assert(add_step(states[q], states[q + 1], ids[q], recs[q]));
        lemma_chain_counter(states, ids, recs, p + 1, q);
    }
}

/// Round trip: after a successful add of record `e`, any successful
/// listing of the new state contains the pair of the new identifier and
/// `e`, field for field.
pub proof fn lemma_add_then_list(
    pre: Database,
    post: Database,
    id: u32,
    e: EmployeeModel,
    v: Seq<(u32, Employee)>,
)
    requires
        add_step(pre, post, id, e),
        listing_wf(post, v),
    ensures
        exists|i: int| 0 <= i < v.len() && (#[trigger] v[i]).0 == id && v[i].1@ == e,
{
    codec::lemma_codec_roundtrip(e);
    assert(post.raw_records().contains_key(be32(id)));
    let i = choose|i: int| 0 <= i < v.len() && be32((#[trigger] v[i]).0) == be32(id);
    codec::lemma_be32_injective(v[i].0, id);
    assert(post.raw_records()[be32(id)] == spec_encode(e));
    assert(v[i].0 == id && v[i].1@ == e);
}

/// Checksum stability: the digest is a function of the persisted
/// contents alone, so two states with the same namespaces — in
/// particular one state read twice with no intervening mutation —
/// carry the same checksum.
pub proof fn lemma_checksum_stable(s1: Database, s2: Database)
    requires
        s1.raw_records() == s2.raw_records(),
        s1.raw_counter() == s2.raw_counter(),
    ensures
        s1.digest() == s2.digest(),
{
}

/// A remove that found nothing changed no contents, so the digest — and
/// a later checksum read — is unchanged.
pub proof fn lemma_checksum_unchanged_by_absent_remove(pre: Database, post: Database, id: u32)
    requires
        remove_step(pre, post, id, None),
    ensures
        post.digest() == pre.digest(),
{
    assert(post.raw_records() =~= pre.raw_records());
}

/// From a fresh store the counter counts the adds: after `k` successful
/// adds the next identifier is exactly `k`.
proof fn lemma_fresh_chain_counter(
    states: Seq<Database>,
    ids: Seq<u32>,
    recs: Seq<EmployeeModel>,
    k: int,
)
    requires
        states.len() == ids.len() + 1,
        recs.len() == ids.len(),
        states[0].next_id() == 0,
        forall|n: int|
            0 <= n < ids.len() ==> #[trigger] add_step(states[n], states[n + 1], ids[n], recs[n]),
        0 <= k <= ids.len(),
    ensures
        states[k].next_id() == k,
    decreases k,
{
    if k > 0 {
        lemma_fresh_chain_counter(states, ids, recs, k - 1);
        assert(add_step(states[k - 1], states[k - 1 + 1], ids[k - 1], recs[k - 1]));
    }
}

/// A fresh store issues exactly the range: the k-th successful add
/// returns identifier k, so `n` adds from a fresh store issue exactly
/// the identifiers 0 to n-1, whatever the records.
pub proof fn lemma_fresh_chain_ids(states: Seq<Database>, ids: Seq<u32>, recs: Seq<EmployeeModel>)
    requires
        states.len() == ids.len() + 1,
        recs.len() == ids.len(),
        states[0].next_id() == 0,
        forall|n: int|
            0 <= n < ids.len() ==> #[trigger] add_step(states[n], states[n + 1], ids[n], recs[n]),
    ensures
        forall|k: int| 0 <= k < ids.len() ==> ids[k] == k,
{
    assert forall|k: int| 0 <= k < ids.len() implies ids[k] == k by {
        lemma_fresh_chain_counter(states, ids, recs, k);
        assert(add_step(states[k], states[k + 1], ids[k], recs[k]));
    }
}

/// Idempotent delete: removing the same identifier twice finds nothing
/// the second time — absence, not an error.
pub proof fn lemma_remove_idempotent(
    s0: Database,
    s1: Database,
    s2: Database,
    id: u32,
    p1: Option<EmployeeModel>,
    p2: Option<EmployeeModel>,
)
    requires
        remove_step(s0, s1, id, p1),
        remove_step(s1, s2, id, p2),
    ensures
        p2 is None,
{
    assert(!s1.raw_records().contains_key(be32(id)));
}

} // verus!
