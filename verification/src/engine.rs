//! The trusted boundary to the embedded key-value engine (sled).
//!
//! The engine persists ordered byte-keyed trees. Verified code never
//! touches it directly: every call goes through one of the wrappers
//! below, whose contracts speak of `tree_entries`, the map of key bytes
//! to value bytes a tree currently holds.

use vstd::prelude::*;

use crate::codec::lex_lt;

verus! {

#[verifier::external_type_specification]
#[verifier::external_body]
pub struct ExDb(sled::Db);

#[verifier::external_type_specification]
#[verifier::external_body]
pub struct ExTree(sled::Tree);

#[verifier::external_type_specification]
#[verifier::external_body]
pub struct ExSledError(sled::Error);

/// The entries a tree currently holds: key bytes to value bytes.
pub uninterp spec fn tree_entries(t: sled::Tree) -> Map<Seq<u8>, Seq<u8>>;

/// The integrity value of one tree: the CRC of its keys and values, a
/// function of that tree's contents alone.
pub uninterp spec fn tree_crc(entries: Map<Seq<u8>, Seq<u8>>) -> u32;

/// Relies on `sled::Tree::get`: returns the value stored at the key, or
/// `None` where the key is absent.
#[verifier::external_body]
pub(crate) fn tree_get(t: &sled::Tree, key: &[u8]) -> (r: Result<Option<Vec<u8>>, sled::Error>)
    ensures
        r matches Ok(v) ==> match v {
            Some(bytes) => tree_entries(*t).contains_key(key@) && bytes@ == tree_entries(*t)[key@],
            None => !tree_entries(*t).contains_key(key@),
        },
{
    match t.get(key) {
        Ok(Some(iv)) => Ok(Some(iv.to_vec())),
        Ok(None) => Ok(None),
        Err(e) => Err(e),
    }
}

/// Relies on `sled::Tree::insert`: atomically sets the key to the value.
/// On an engine error nothing is claimed beyond the write either having
/// applied or not.
#[verifier::external_body]
pub(crate) fn tree_insert(t: &mut sled::Tree, key: &[u8], value: &[u8]) -> (r: Result<(), sled::Error>)
    ensures
        r is Ok ==> tree_entries(*final(t)) == tree_entries(*old(t)).insert(key@, value@),
        r is Err ==> tree_entries(*final(t)) == tree_entries(*old(t)) || tree_entries(*final(t))
            == tree_entries(*old(t)).insert(key@, value@),
{
    match t.insert(key, value) {
        Ok(_) => Ok(()),
        Err(e) => Err(e),
    }
}

/// Relies on `sled::Tree::remove`: atomically deletes the key, returning
/// the prior value if one was present. On an engine error nothing is
/// claimed beyond the delete either having applied or not.
#[verifier::external_body]
pub(crate) fn tree_remove(t: &mut sled::Tree, key: &[u8]) -> (r: Result<Option<Vec<u8>>, sled::Error>)
    ensures
        r matches Ok(prev) ==> ({
            &&& tree_entries(*final(t)) == tree_entries(*old(t)).remove(key@)
            &&& match prev {
                Some(bytes) => tree_entries(*old(t)).contains_key(key@) && bytes@ == tree_entries(
                    *old(t),
                )[key@],
                None => !tree_entries(*old(t)).contains_key(key@),
            }
        }),
        r is Err ==> tree_entries(*final(t)) == tree_entries(*old(t)) || tree_entries(*final(t))
            == tree_entries(*old(t)).remove(key@),
{
    match t.remove(key) {
        Ok(Some(iv)) => Ok(Some(iv.to_vec())),
        Ok(None) => Ok(None),
        Err(e) => Err(e),
    }
}

/// Relies on `sled::Tree::iter`: walks every entry of the tree in
/// ascending lexicographic key order.
#[verifier::external_body]
pub(crate) fn tree_scan(t: &sled::Tree) -> (r: Result<Vec<(Vec<u8>, Vec<u8>)>, sled::Error>)
    ensures
        r matches Ok(v) ==> ({
            &&& forall|i: int|
                0 <= i < v@.len() ==> tree_entries(*t).contains_pair(
                    (#[trigger] v@[i]).0@,
                    v@[i].1@,
                )
            &&& forall|k: Seq<u8>|
                #[trigger] tree_entries(*t).contains_key(k) ==> exists|i: int|
                    0 <= i < v@.len() && (#[trigger] v@[i]).0@ == k
            &&& forall|i: int, j: int|
                0 <= i < j < v@.len() ==> lex_lt((#[trigger] v@[i]).0@, (#[trigger] v@[j]).0@)
        }),
{
    let mut out = Vec::new();
    for item in t.iter() {
        let (k, v) = item?;
        out.push((k.to_vec(), v.to_vec()));
    }
    Ok(out)
}

/// Relies on `sled::Tree::checksum`: the CRC32 of this one tree's keys
/// and values, walked in key order — a function of the tree's contents
/// and of nothing else.
#[verifier::external_body]
pub(crate) fn tree_checksum(t: &sled::Tree) -> (r: Result<u32, sled::Error>)
    ensures
        r matches Ok(c) ==> c == tree_crc(tree_entries(*t)),
{
    t.checksum()
}

} // verus!
