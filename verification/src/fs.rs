//! The projection itself: an archive opened from bytes, its table of
//! contents, and the filesystem-call surface — classification, attribute
//! synthesis, directory listing, and byte-range reads.

use vstd::prelude::*;

use crate::attr::{attr_of, dir_attr, file_attr, FileAttrData};
use crate::listing::{
    convert_name, entry_views, has_key, key_index, lemma_key_index, listing_contains, listing_of,
    DirEntry,
};
use crate::paths::{bytes_eq, join_path, join_spec, normalize, normalize_spec};
use crate::zipio::{
    archive_entries, parsed_entries, zip_entry_data, zip_entry_meta, zip_len, zip_open,
    zip_parses, EntryModel,
};

verus! {

/// The failure this projection can report.
#[derive(Clone, Copy, Debug, PartialEq, Eq, Structural)]
pub enum SnapshotError {
    DummyError,
}

/// One row of the table of contents: an entry's native key and its declared
/// decoded size.
pub struct TocEntry {
    pub key: Vec<u8>,
    pub size: u64,
}

/// A read-only archive projected as a file tree. The table of contents is
/// taken from the container once, when the archive is opened; byte-range
/// reads go back to the container for a fresh decode stream.
pub struct ArchiveFs {
    archive: zip::ZipArchive<std::io::Cursor<Vec<u8>>>,
    toc: Vec<TocEntry>,
}

/// Whether every entry of a table can be opened for its name and size.
pub open spec fn all_openable(es: Seq<EntryModel>) -> bool {
    forall|i: int| 0 <= i < es.len() ==> es[i].openable
}

/// The bytes of `d` from position `off` on, at most `n` of them: short at the
/// end of `d`, empty when `off` lies beyond it.
pub open spec fn byte_range(d: Seq<u8>, off: int, n: int) -> Seq<u8> {
    if off >= d.len() {
        Seq::empty()
    } else if off + n >= d.len() {
        d.subrange(off, d.len() as int)
    } else {
        d.subrange(off, off + n)
    }
}

/// Copies out of `data` the bytes from `offset` on, at most `count` of them.
pub fn take_range(data: &[u8], offset: u64, count: u32) -> (r: Vec<u8>)
    ensures
        r@ == byte_range(data@, offset as int, count as int),
{
    if offset >= data.len() as u64 {
        let out: Vec<u8> = Vec::new();
        assert(out@ =~= byte_range(data@, offset as int, count as int));
        return out;
    }
    let start: usize = offset as usize;
    let remaining: usize = data.len() - start;
    let take: usize = if (count as u64) < (remaining as u64) {
        count as usize
    } else {
        remaining
    };
    let mut out: Vec<u8> = Vec::new();
    let mut i: usize = 0;
    while i < take
        invariant
            data@.len() <= usize::MAX,
            start + take <= data@.len(),
            i <= take,
            out@ =~= data@.subrange(start as int, start as int + i as int),
        decreases take - i,
    {
        proof {
            assert(start + i < data@.len());
        }
        out.push(data[start + i]);
        i += 1;
        assert(out@ =~= data@.subrange(start as int, start as int + i as int));
    }
    proof {
        assert(out@ =~= byte_range(data@, offset as int, count as int));
    }
    out
}

impl ArchiveFs {
    /// The archive's native keys, in enumeration order.
    pub closed spec fn keys(self) -> Seq<Seq<u8>> {
        Seq::new(self.toc@.len(), |i: int| self.toc@[i].key@)
    }

    /// The declared decoded size of each entry, in enumeration order.
    pub closed spec fn sizes(self) -> Seq<u64> {
        Seq::new(self.toc@.len(), |i: int| self.toc@[i].size)
    }

    /// The underlying container's entry table.
    pub closed spec fn entries(self) -> Seq<EntryModel> {
        archive_entries(self.archive)
    }

    /// The table of contents mirrors the container's entry table.
    pub closed spec fn wf(self) -> bool {
        &&& self.keys().len() == self.entries().len()
        &&& forall|i: int|
            0 <= i < self.entries().len() ==> self.keys()[i] == self.entries()[i].key
                && self.sizes()[i] == self.entries()[i].size
    }

    /// Opens an archive from its container bytes: parses the container and
    /// takes its table of contents. Succeeds exactly when the bytes parse as
    /// a valid archive and every entry of its table can be opened, and then
    /// projects exactly that archive's entry set; fails otherwise.
    pub fn from_zip(input: Vec<u8>) -> (r: Result<ArchiveFs, SnapshotError>)
        ensures
            r is Ok <==> zip_parses(input@) && all_openable(parsed_entries(input@)),
            r matches Ok(fs) ==> fs.wf() && fs.entries() == parsed_entries(input@),
            r is Err ==> r matches Err(SnapshotError::DummyError),
    {
        let z = zip_open(input);
        match z {
            None => Err(SnapshotError::DummyError),
            Some(mut z) => {
                let n = zip_len(&z);
                let mut toc: Vec<TocEntry> = Vec::new();
                let mut i: usize = 0;
                while i < n
                    invariant
                        archive_entries(z) == parsed_entries(input@),
                        n == archive_entries(z).len(),
                        i <= n,
                        toc@.len() == i,
                        forall|j: int|
                            0 <= j < i ==> toc@[j].key@ == archive_entries(z)[j].key
                                && toc@[j].size == archive_entries(z)[j].size,
                        forall|j: int| 0 <= j < i ==> archive_entries(z)[j].openable,
                    decreases n - i,
                {
                    match zip_entry_meta(&mut z, i) {
                        None => {
                            assert(!all_openable(parsed_entries(input@)));
                            return Err(SnapshotError::DummyError);
                        },
                        Some(m) => {
                            toc.push(TocEntry { key: m.0, size: m.1 });
                        },
                    }
                    i += 1;
                }
                let fs = ArchiveFs { archive: z, toc };
                proof {
                    assert(fs.wf());
                    assert(all_openable(parsed_entries(input@)));
                }
                Ok(fs)
            },
        }
    }

    /// The position of the entry whose native key is exactly `key`, first
    /// occurrence in enumeration order, or `None` when no key matches.
    fn find_entry(&self, key: &[u8]) -> (r: Option<usize>)
        ensures
            match r {
                Some(i) => has_key(self.keys(), key@) && i == key_index(self.keys(), key@)
                    && i < self.toc@.len(),
                None => !has_key(self.keys(), key@),
            },
    {
        let mut i: usize = 0;
        let n = self.toc.len();
        while i < n
            invariant
                n == self.toc@.len(),
                i <= n,
                forall|j: int| 0 <= j < i ==> self.keys()[j] != key@,
            decreases n - i,
        {
            if bytes_eq(self.toc[i].key.as_slice(), key) {
                proof {
                    assert(self.keys()[i as int] == key@);
                    lemma_key_index(self.keys(), key@);
                    let ki = key_index(self.keys(), key@);
                    if ki < i {
                        assert(self.keys()[ki] != key@);
                    }
                    if ki > i {
                        assert(self.keys()[i as int] != key@);
                    }
                }
                return Some(i);
            }
            i += 1;
        }
        proof {
            assert forall|j: int| 0 <= j < self.keys().len() implies self.keys()[j] != key@ by {}
        }
        None
    }

    /// Rewrites a virtual path into the native key the container is asked
    /// for.
    pub fn to_zip_path(&self, path: &[u8]) -> (r: Vec<u8>)
        ensures
            r@ == normalize_spec(path@),
    {
        normalize(path)
    }

    /// Whether `path` is classified as a directory: true exactly when its
    /// normalized key matches no entry.
    pub fn is_directory(&self, path: &[u8]) -> (r: bool)
        ensures
            r == !has_key(self.keys(), normalize_spec(path@)),
    {
        let key = normalize(path);
        self.find_entry(key.as_slice()).is_none()
    }

    /// The declared decoded size of the entry `path` classifies to.
    pub fn get_size(&self, path: &[u8]) -> (r: u64)
        requires
            has_key(self.keys(), normalize_spec(path@)),
        ensures
            r == self.sizes()[key_index(self.keys(), normalize_spec(path@))],
    {
        let key = normalize(path);
        let i = self.find_entry(key.as_slice()).unwrap();
        self.toc[i].size
    }

    /// The synthesized attributes of `path`: the matching entry's size for a
    /// file, the fixed directory record otherwise. Never fails.
    pub fn getattr(&self, path: &[u8]) -> (r: FileAttrData)
        ensures
            r == attr_of(self.keys(), self.sizes(), path@),
    {
        let key = normalize(path);
        match self.find_entry(key.as_slice()) {
            Some(i) => file_attr(self.toc[i].size),
            None => dir_attr(),
        }
    }

    /// The attributes of the child `name` of directory `parent`: delegates
    /// to `getattr` on the joined path.
    pub fn lookup(&self, parent: &[u8], name: &[u8]) -> (r: FileAttrData)
        ensures
            r == attr_of(self.keys(), self.sizes(), join_spec(parent@, name@)),
    {
        let joined = join_path(parent, name);
        self.getattr(joined.as_slice())
    }

    /// The synthesized listing of directory `path`: every immediate child of
    /// `path` under some entry, first occurrence of each name winning, in
    /// enumeration order of first occurrence.
    pub fn readdir(&self, path: &[u8]) -> (r: Vec<DirEntry>)
        ensures
            entry_views(r@) == listing_of(self.keys(), path@),
    {
        let mut out: Vec<DirEntry> = Vec::new();
        let mut i: usize = 0;
        let n = self.toc.len();
        proof {
            assert(self.keys().take(0) =~= Seq::<Seq<u8>>::empty());
        }
        while i < n
            invariant
                n == self.toc@.len(),
                i <= n,
                entry_views(out@) =~= listing_of(self.keys().take(i as int), path@),
            decreases n - i,
        {
            let ghost pre = out@;
            let e = convert_name(self.toc[i].key.as_slice(), path);
            match e {
                Some(entry) => {
                    if !listing_contains(&out, entry.name.as_slice()) {
                        out.push(entry);
                        proof {
                            assert(entry_views(out@) =~= entry_views(pre).push(
                                entry.view_pair(),
                            ));
                        }
                    }
                },
                None => {},
            }
            proof {
                let ks = self.keys();
                assert(ks.take(i + 1).drop_last() =~= ks.take(i as int));
                assert(ks.take(i + 1).last() == ks[i as int]);
                assert(ks[i as int] == self.toc@[i as int].key@);
            }
            i += 1;
            assert(entry_views(out@) =~= listing_of(self.keys().take(i as int), path@));
        }
        proof {
            assert(self.keys().take(n as int) =~= self.keys());
        }
        out
    }

    /// Reads at most `size` decoded bytes of the file at `path`, starting
    /// `offset` bytes into its content; short at the end of the content,
    /// empty beyond it. Succeeds exactly when `path` is classified as a file
    /// and the container can decode the matching entry; fails when `path` is
    /// classified as a directory, or when the entry cannot be decoded.
    pub fn read(&mut self, path: &[u8], offset: u64, size: u32) -> (r: Result<
        Vec<u8>,
        SnapshotError,
    >)
        requires
            old(self).wf(),
        ensures
            final(self).wf(),
            final(self).keys() == old(self).keys(),
            final(self).sizes() == old(self).sizes(),
            final(self).entries() == old(self).entries(),
            r is Ok <==> has_key(old(self).keys(), normalize_spec(path@)) && old(self).entries()[
                key_index(old(self).keys(), normalize_spec(path@))
            ].decodable,
            r matches Ok(v) ==> v@ == byte_range(
                old(self).entries()[key_index(old(self).keys(), normalize_spec(path@))].data,
                offset as int,
                size as int,
            ),
            r is Err ==> r matches Err(SnapshotError::DummyError),
    {
        let key = normalize(path);
        let idx = self.find_entry(key.as_slice());
        match idx {
            None => Err(SnapshotError::DummyError),
            Some(i) => {
                match zip_entry_data(&mut self.archive, i) {
                    None => Err(SnapshotError::DummyError),
                    Some(data) => Ok(take_range(data.as_slice(), offset, size)),
                }
            },
        }
    }
}

/// What well-formedness ties together, spelled out for callers: the keys
/// and sizes the projection reports are exactly the container table's keys
/// and declared sizes, row for row.
pub proof fn lemma_wf_table(fs: ArchiveFs)
    requires
        fs.wf(),
    ensures
        fs.keys().len() == fs.entries().len(),
        fs.sizes().len() == fs.entries().len(),
        forall|i: int|
            0 <= i < fs.entries().len() ==> fs.keys()[i] == fs.entries()[i].key && fs.sizes()[i]
                == fs.entries()[i].size,
{
}

} // verus!
