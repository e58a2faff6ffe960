//! Placement in the content-addressed file store.
//!
//! A stored file lives at `store/<hash[0..2]>/<hash[2..]>.<ext>`: the first
//! two hex characters of its content hash name the shard directory, the rest
//! plus the original extension name the file. Walking the tree reverses this:
//! the claimed hash of a leaf is its directory's name followed by its file
//! stem, and it is checked against the recomputed hash of the bytes.

use vstd::prelude::*;

use crate::strutil::str_eq;

verus! {

/// One leaf of the store tree, as the walk reports it: the hash claimed by
/// its path, and its extension.
pub struct StoreFile {
    pub hash: String,
    pub ext: String,
}

/// The mathematical value of a store leaf: its claimed hash and extension.
pub struct StoreFileV {
    pub hash: Seq<char>,
    pub ext: Seq<char>,
}

impl View for StoreFile {
    type V = StoreFileV;

    open spec fn view(&self) -> StoreFileV {
        StoreFileV { hash: self.hash@, ext: self.ext@ }
    }
}

/// The shard directory that holds a hash: its first two characters.
pub fn shard_dir_name(hash: &str) -> (r: String)
    requires
        hash@.len() >= 2,
    ensures
        r@ == hash@.subrange(0, 2),
{
    String::from_str(hash.substring_char(0, 2))
}

/// The file name of a stored hash within its shard directory: the remainder
/// of the hash, a dot, and the extension.
pub fn store_file_name(hash: &str, ext: &str) -> (r: String)
    requires
        hash@.len() >= 2,
    ensures
        r@ == hash@.skip(2) + "."@ + ext@,
{
    let mut r = String::from_str(hash.substring_char(2, hash.unicode_len()));
    proof {
        assert(hash@.subrange(2, hash@.len() as int) =~= hash@.skip(2));
    }
    r.append(".");
    r.append(ext);
    r
}

/// Splitting a hash into its shard name and file stem loses nothing: the two
/// parts reassemble to the hash itself.
pub proof fn lemma_placement_roundtrip(hash: Seq<char>)
    requires
        hash.len() >= 2,
    ensures
        hash.subrange(0, 2) + hash.skip(2) == hash,
{
    assert(hash.subrange(0, 2) + hash.skip(2) =~= hash);
}

/// The hash that a leaf's path claims: its shard directory's name followed by
/// its file stem.
pub fn claimed_hash(shard: &str, stem: &str) -> (r: String)
    ensures
        r@ == shard@ + stem@,
{
    let mut r = String::from_str(shard);
    r.append(stem);
    r
}

/// Examines one leaf of the store tree: reconstructs the claimed hash from
/// the shard directory's name and the file stem, and compares it against the
/// hash recomputed from the file's bytes. Returns the leaf as the walk
/// records it, and the mismatch description when the two hashes differ.
pub fn store_entry(shard: &str, stem: &str, ext: &str, real_hash: &str) -> (r: (
    StoreFile,
    Option<String>,
))
    ensures
        r.0@.hash == shard@ + stem@,
        r.0@.ext == ext@,
        r.1 matches Some(m) <==> shard@ + stem@ != real_hash@,
        r.1 matches Some(m) ==> m@ == "Expected "@ + (shard@ + stem@) + ", but real hash is "@
            + real_hash@,
{
    let claimed = claimed_hash(shard, stem);
    let file = StoreFile { hash: claimed, ext: String::from_str(ext) };
    if str_eq(file.hash.as_str(), real_hash) {
        (file, None)
    } else {
        let mut msg = String::from_str("Expected ");
        msg.append(file.hash.as_str());
        msg.append(", but real hash is ");
        msg.append(real_hash);
        (file, Some(msg))
    }
}

} // verus!
