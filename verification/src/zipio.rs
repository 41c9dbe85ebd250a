//! The trusted boundary to the archive container: the `zip` crate parses the
//! container, keeps its entry table, and decodes entry byte streams. Verus
//! sees the archive only through the contracts in this module; everything
//! said here is backed by the `zip` crate's source.

use vstd::prelude::*;

verus! {

/// Declares std::io::Cursor, the in-memory byte source the container reads
/// from, so that it can stand as the archive's type parameter.
#[verifier::external_type_specification]
#[verifier::external_body]
#[verifier::reject_recursive_types(T)]
pub struct ExCursor<T>(std::io::Cursor<T>);

/// Declares zip::ZipArchive, the parsed container: its entry table and its
/// decode cursor. Opaque here; its contents are spoken of only through
/// `archive_entries`.
#[verifier::external_type_specification]
#[verifier::external_body]
#[verifier::reject_recursive_types(R)]
pub struct ExZipArchive<R>(zip::ZipArchive<R>);

/// The mathematical model of one archive entry: its native key, its declared
/// decoded size, its decoded byte content, and whether the container can
/// open it (the entry is not encrypted, its local header is readable, its
/// compression method is supported) and fully decode it. All five are fixed
/// by the archive's bytes, so they are functions of the archive value.
pub struct EntryModel {
    pub key: Seq<u8>,
    pub size: u64,
    pub data: Seq<u8>,
    pub openable: bool,
    pub decodable: bool,
}

/// The archive's entry table, in enumeration order.
pub uninterp spec fn archive_entries(
    z: zip::ZipArchive<std::io::Cursor<Vec<u8>>>,
) -> Seq<EntryModel>;

/// Whether `data` parses as a valid archive container.
pub uninterp spec fn zip_parses(data: Seq<u8>) -> bool;

/// The entry table that parsing `data` yields, meaningful when `data`
/// parses.
pub uninterp spec fn parsed_entries(data: Seq<u8>) -> Seq<EntryModel>;

/// Relies on zip::ZipArchive::new: parsing the central directory of the
/// given bytes succeeds exactly when they form a valid archive, and both the
/// outcome and the resulting entry table depend on the bytes alone.
#[verifier::external_body]
pub(crate) fn zip_open(input: Vec<u8>) -> (r: Option<zip::ZipArchive<std::io::Cursor<Vec<u8>>>>)
    ensures
        r is Some <==> zip_parses(input@),
        r matches Some(z) ==> archive_entries(z) == parsed_entries(input@),
{
    zip::ZipArchive::new(std::io::Cursor::new(input)).ok()
}

/// Relies on zip::ZipArchive::len: the number of entries in the archive's
/// table.
#[verifier::external_body]
pub(crate) fn zip_len(z: &zip::ZipArchive<std::io::Cursor<Vec<u8>>>) -> (n: usize)
    ensures
        n == archive_entries(*z).len(),
{
    z.len()
}

/// Relies on zip::ZipArchive::by_index, zip::read::ZipFile::name and
/// zip::read::ZipFile::size: opening an entry succeeds exactly when the
/// index is in range and the entry is openable, and then hands out its
/// stored name and declared uncompressed size; it never changes the entry
/// table.
#[verifier::external_body]
pub(crate) fn zip_entry_meta(
    z: &mut zip::ZipArchive<std::io::Cursor<Vec<u8>>>,
    i: usize,
) -> (r: Option<(Vec<u8>, u64)>)
    ensures
        archive_entries(*final(z)) == archive_entries(*old(z)),
        r is Some <==> i < archive_entries(*old(z)).len() && archive_entries(*old(z))[
            i as int
        ].openable,
        r matches Some(m) ==> m.0@ == archive_entries(*old(z))[i as int].key && m.1
            == archive_entries(*old(z))[i as int].size,
{
    match z.by_index(i) {
        Ok(f) => Some((f.name().as_bytes().to_vec(), f.size())),
        Err(_) => None,
    }
}

/// Relies on zip::ZipArchive::by_index and std::io::Read::read_to_end: a
/// fresh decode stream over the entry yields its decoded content in full,
/// succeeding exactly when the index is in range and the entry decodes;
/// outcome and content depend on the archive value and the index alone, and
/// decoding never changes the entry table.
#[verifier::external_body]
pub(crate) fn zip_entry_data(
    z: &mut zip::ZipArchive<std::io::Cursor<Vec<u8>>>,
    i: usize,
) -> (r: Option<Vec<u8>>)
    ensures
        archive_entries(*final(z)) == archive_entries(*old(z)),
        r is Some <==> i < archive_entries(*old(z)).len() && archive_entries(*old(z))[
            i as int
        ].decodable,
        r matches Some(v) ==> v@ == archive_entries(*old(z))[i as int].data,
{
    match z.by_index(i) {
        Ok(mut f) => {
            let mut v = Vec::new();
            match std::io::Read::read_to_end(&mut f, &mut v) {
                Ok(_) => Some(v),
                Err(_) => None,
            }
        },
        Err(_) => None,
    }
}

} // verus!
