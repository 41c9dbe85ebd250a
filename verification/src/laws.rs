//! The projection's laws: classification of real entries, classification of
//! unmatched paths, and idempotence of directory listing.

use vstd::prelude::*;

use crate::attr::{attr_of, dir_attr_spec, file_attr_spec};
use crate::fs::{byte_range, ArchiveFs};
use crate::listing::{
    entry_of, has_key, key_index, lemma_key_index, listing_has_name, listing_of, FileKind,
};
use crate::paths::{
    normalize_spec, to_native, to_virtual, virtual_byte, NATIVE_SEP, VIRT_SEP,
};

verus! {

/// Every archive entry is classified as a file of its declared decoded size:
/// the canonical virtual path of its key — native separators rewritten to
/// `/`, a root separator put in front — normalizes back to that very key,
/// and so matches the entry exactly. Stated for keys that hold no `/` of
/// their own and are not shadowed by an earlier entry with the same key;
/// for others the canonical path denotes a different node.
pub proof fn lemma_entry_classified_as_file(keys: Seq<Seq<u8>>, sizes: Seq<u64>, i: int)
    requires
        0 <= i < keys.len(),
        keys.len() == sizes.len(),
        forall|j: int| 0 <= j < keys[i].len() ==> keys[i][j] != VIRT_SEP,
        forall|j: int| 0 <= j < i ==> keys[j] != keys[i],
    ensures
        (attr_of(keys, sizes, seq![VIRT_SEP] + to_virtual(keys[i])) == file_attr_spec(
            sizes[i],
        )),
{
    let k = keys[i];
    let p = seq![VIRT_SEP] + to_virtual(k);
    assert(normalize_spec(p) =~= k) by {
        assert(to_native(p)[0] == NATIVE_SEP);
        assert forall|j: int| 0 <= j < k.len() implies to_native(p)[j + 1] == k[j] by {
            assert(p[j + 1] == virtual_byte(k[j]));
        }
        assert(to_native(p).skip(1) =~= k);
    }
    assert(has_key(keys, k));
    lemma_key_index(keys, k);
    let ki = key_index(keys, k);
    if ki < i {
        assert(keys[ki] != k);
    }
    if ki > i {
        assert(keys[i] != k);
    }
}

/// A path whose normalized key matches no entry is classified as a
/// directory, and its synthesized attributes report size 0 — whether or not
/// the path is a real prefix of any entry.
pub proof fn lemma_unmatched_is_directory(keys: Seq<Seq<u8>>, sizes: Seq<u64>, p: Seq<u8>)
    requires
        !has_key(keys, normalize_spec(p)),
    ensures
        attr_of(keys, sizes, p) == dir_attr_spec(),
        attr_of(keys, sizes, p).kind == FileKind::Directory,
        attr_of(keys, sizes, p).size == 0,
{
}

/// Every name appears at most once in a synthesized listing: deduplication
/// by first occurrence leaves no two entries sharing a name, however many
/// underlying keys alias the same immediate child.
pub proof fn lemma_listing_names_unique(keys: Seq<Seq<u8>>, path: Seq<u8>, i: int, j: int)
    requires
        0 <= i < j < listing_of(keys, path).len(),
    ensures
        listing_of(keys, path)[i].0 != listing_of(keys, path)[j].0,
    decreases keys.len(),
{
    if keys.len() > 0 {
        let prev = listing_of(keys.drop_last(), path);
        match entry_of(keys.last(), path) {
            Some(e) => {
                if listing_has_name(prev, e.0) {
                    lemma_listing_names_unique(keys.drop_last(), path, i, j);
                } else {
                    if j < prev.len() {
                        lemma_listing_names_unique(keys.drop_last(), path, i, j);
                    } else {
                        assert(listing_of(keys, path)[i] == prev[i]);
                        if prev[i].0 == e.0 {
                            assert(listing_has_name(prev, e.0));
                        }
                    }
                }
            },
            None => {
                lemma_listing_names_unique(keys.drop_last(), path, i, j);
            },
        }
    }
}

/// A synthesized listing is complete: the immediate child that any key of
/// the archive contributes under `path` appears, under its name, in the
/// listing of `path`.
pub proof fn lemma_listing_complete(keys: Seq<Seq<u8>>, path: Seq<u8>, i: int)
    requires
        0 <= i < keys.len(),
        entry_of(keys[i], path) is Some,
    ensures
        listing_has_name(listing_of(keys, path), entry_of(keys[i], path).unwrap().0),
    decreases keys.len(),
{
    let l = listing_of(keys, path);
    let prev = listing_of(keys.drop_last(), path);
    if i == keys.len() - 1 {
        let e = entry_of(keys.last(), path).unwrap();
        if !listing_has_name(prev, e.0) {
            assert(l[prev.len() as int].0 == e.0);
        }
    } else {
        assert(keys.drop_last()[i] == keys[i]);
        lemma_listing_complete(keys.drop_last(), path, i);
        let name = entry_of(keys[i], path).unwrap().0;
        let w = choose|w: int| 0 <= w < prev.len() && prev[w].0 == name;
        assert(l[w].0 == name);
    }
}

/// Reading from the start of a file: for `n` at most the content length the
/// byte range is exactly the first `n` decoded bytes, and asking for more
/// than the content yields all of it, short but without error.
pub proof fn lemma_byte_range_prefix(d: Seq<u8>, n: int)
    requires
        0 <= n,
    ensures
        n <= d.len() ==> byte_range(d, 0, n) == d.take(n),
        n > d.len() ==> byte_range(d, 0, n) == d,
{
    if n <= d.len() {
        assert(byte_range(d, 0, n) =~= d.take(n));
    } else {
        assert(byte_range(d, 0, n) =~= d);
    }
}

/// Listing a directory is idempotent: over an unchanged archive, any two
/// results that `readdir`'s contract admits for the same path are one and
/// the same ordered listing.
pub proof fn lemma_list_directory_idempotent(
    fs: ArchiveFs,
    path: Seq<u8>,
    r1: Seq<(Seq<u8>, FileKind)>,
    r2: Seq<(Seq<u8>, FileKind)>,
)
    requires
        r1 == listing_of(fs.keys(), path),
        r2 == listing_of(fs.keys(), path),
    ensures
        r1 == r2,
{
}

} // verus!
