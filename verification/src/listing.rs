//! Classification of native keys and synthesis of directory listings out of
//! the archive's flat key space.

use vstd::prelude::*;

use crate::paths::{
    bytes_eq, components_of, split_components, to_virtual, views_of, NATIVE_SEP, VIRT_SEP,
};

verus! {

/// What a virtual path stands for: an archive entry, or a synthesized
/// directory.
#[derive(Clone, Copy, Debug, PartialEq, Eq, Structural)]
pub enum FileKind {
    File,
    Directory,
}

/// One synthesized entry of a directory listing: an immediate child name and
/// its kind.
#[derive(Debug)]
pub struct DirEntry {
    pub name: Vec<u8>,
    pub kind: FileKind,
}

impl DirEntry {
    /// The mathematical value of a listing entry.
    pub open spec fn view_pair(self) -> (Seq<u8>, FileKind) {
        (self.name@, self.kind)
    }
}

/// Whether some key of `keys` is exactly `k`.
pub open spec fn has_key(keys: Seq<Seq<u8>>, k: Seq<u8>) -> bool {
    exists|i: int| 0 <= i < keys.len() && keys[i] == k
}

/// The position of the first key of `keys` that is exactly `k`.
pub open spec fn key_index(keys: Seq<Seq<u8>>, k: Seq<u8>) -> int
    decreases keys.len(),
{
    if keys.len() == 0 {
        0
    } else if keys[0] == k {
        0
    } else {
        1 + key_index(keys.skip(1), k)
    }
}

/// When `k` occurs in `keys`, `key_index` is the position of its first
/// occurrence.
pub proof fn lemma_key_index(keys: Seq<Seq<u8>>, k: Seq<u8>)
    requires
        has_key(keys, k),
    ensures
        0 <= key_index(keys, k) < keys.len(),
        keys[key_index(keys, k)] == k,
        forall|j: int| 0 <= j < key_index(keys, k) ==> keys[j] != k,
    decreases keys.len(),
{
    if keys.len() > 0 && keys[0] != k {
        let t = keys.skip(1);
        assert(has_key(t, k)) by {
            let w = choose|i: int| 0 <= i < keys.len() && keys[i] == k;
            assert(t[w - 1] == k);
        }
        lemma_key_index(t, k);
        assert(forall|j: int| 1 <= j < key_index(keys, k) ==> keys[j] == t[j - 1]);
    }
}

/// The immediate child, under directory path `path`, contributed by the
/// archive entry with native key `key`: the first component of the key's
/// canonical virtual path beyond `path`, a `File` when it is the last
/// component and a `Directory` otherwise. `None` when the key does not lie
/// strictly below `path` — in particular for every key when `path` is not
/// absolute, since the canonical path always is.
pub open spec fn entry_of(key: Seq<u8>, path: Seq<u8>) -> Option<(Seq<u8>, FileKind)> {
    let ck = components_of(to_virtual(key));
    let cp = components_of(path);
    if path.len() > 0 && path[0] == VIRT_SEP && cp.len() < ck.len() && ck.take(
        cp.len() as int,
    ) == cp {
        Some(
            (
                ck[cp.len() as int],
                if ck.len() > cp.len() + 1 {
                    FileKind::Directory
                } else {
                    FileKind::File
                },
            ),
        )
    } else {
        None
    }
}

/// Whether the listing `l` already holds an entry named `name`.
pub open spec fn listing_has_name(l: Seq<(Seq<u8>, FileKind)>, name: Seq<u8>) -> bool {
    exists|i: int| 0 <= i < l.len() && l[i].0 == name
}

/// The synthesized listing of directory `path` over the archive's keys in
/// enumeration order: each key's immediate child, deduplicated by name with
/// the first occurrence winning and the order of first occurrence kept.
pub open spec fn listing_of(keys: Seq<Seq<u8>>, path: Seq<u8>) -> Seq<(Seq<u8>, FileKind)>
    decreases keys.len(),
{
    if keys.len() == 0 {
        Seq::empty()
    } else {
        let prev = listing_of(keys.drop_last(), path);
        match entry_of(keys.last(), path) {
            Some(e) => {
                if listing_has_name(prev, e.0) {
                    prev
                } else {
                    prev.push(e)
                }
            },
            None => prev,
        }
    }
}

/// The mathematical values of a listing.
pub open spec fn entry_views(l: Seq<DirEntry>) -> Seq<(Seq<u8>, FileKind)> {
    Seq::new(l.len(), |i: int| l[i].view_pair())
}

/// Whether the listing built so far already holds an entry named `name`.
pub fn listing_contains(l: &Vec<DirEntry>, name: &[u8]) -> (r: bool)
    ensures
        r == listing_has_name(entry_views(l@), name@),
{
    let mut i: usize = 0;
    while i < l.len()
        invariant
            i <= l@.len(),
            forall|j: int| 0 <= j < i ==> l@[j].name@ != name@,
        decreases l@.len() - i,
    {
        if bytes_eq(l[i].name.as_slice(), name) {
            assert(entry_views(l@)[i as int].0 == name@);
            return true;
        }
        i += 1;
    }
    proof {
        assert forall|j: int| 0 <= j < entry_views(l@).len() implies entry_views(l@)[j].0
            != name@ by {
            assert(l@[j].name@ != name@);
        }
    }
    false
}

/// Rewrites a native key into virtual-path form.
fn to_virtual_vec(key: &[u8]) -> (r: Vec<u8>)
    ensures
        r@ == to_virtual(key@),
{
    let mut out: Vec<u8> = Vec::new();
    let mut i: usize = 0;
    while i < key.len()
        invariant
            i <= key@.len(),
            out@ =~= to_virtual(key@).subrange(0, i as int),
        decreases key@.len() - i,
    {
        let b = key[i];
        out.push(if b == NATIVE_SEP { VIRT_SEP } else { b });
        i += 1;
        assert(out@ =~= to_virtual(key@).subrange(0, i as int));
    }
    proof {
        assert(to_virtual(key@).subrange(0, key@.len() as int) =~= to_virtual(key@));
    }
    out
}

/// The immediate child, under directory path `path`, contributed by the
/// archive entry with native key `name`, or `None` when the entry does not
/// lie strictly below `path`.
pub fn convert_name(name: &[u8], path: &[u8]) -> (r: Option<DirEntry>)
    ensures
        match r {
            Some(e) => entry_of(name@, path@) == Some(e.view_pair()),
            None => entry_of(name@, path@) is None,
        },
{
    if path.len() == 0 || path[0] != VIRT_SEP {
        return None;
    }
    let virt = to_virtual_vec(name);
    let ck = split_components(virt.as_slice());
    let cp = split_components(path);
    if cp.len() >= ck.len() {
        return None;
    }
    let mut i: usize = 0;
    while i < cp.len()
        invariant
            i <= cp@.len(),
            cp@.len() < ck@.len(),
            views_of(ck@) == components_of(to_virtual(name@)),
            views_of(cp@) == components_of(path@),
            forall|j: int| 0 <= j < i ==> views_of(ck@)[j] == views_of(cp@)[j],
        decreases cp@.len() - i,
    {
        if !bytes_eq(ck[i].as_slice(), cp[i].as_slice()) {
            proof {
                let ckv = components_of(to_virtual(name@));
                let cpv = components_of(path@);
                assert(ckv.take(cpv.len() as int)[i as int] != cpv[i as int]);
            }
            return None;
        }
        i += 1;
    }
    proof {
        let ckv = components_of(to_virtual(name@));
        let cpv = components_of(path@);
        assert(ckv.take(cpv.len() as int) =~= cpv);
    }
    let mut child: Vec<u8> = Vec::new();
    child.extend_from_slice(ck[cp.len()].as_slice());
    assert(child@ =~= components_of(to_virtual(name@))[cp@.len() as int]);
    let kind = if ck.len() > cp.len() + 1 {
        FileKind::Directory
    } else {
        FileKind::File
    };
    Some(DirEntry { name: child, kind })
}

} // verus!
