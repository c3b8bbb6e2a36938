//! The archive reader, behind a narrow trusted interface.
//!
//! Parsing the zip container and decompressing entry contents are the
//! responsibility of the `zip` crate.  This module declares the crate's
//! archive handle and error type to the verifier, models the archive's
//! contents as a sequence of entry records, and wraps the handful of
//! reader calls the extraction logic needs, each with a contract over that
//! model.

use crate::ZipExtractError;
use vstd::prelude::*;

verus! {

#[verifier::external_type_specification]
#[verifier::external_body]
#[verifier::reject_recursive_types(R)]
pub struct ExZipArchive<R>(zip::ZipArchive<R>);

#[verifier::external_type_specification]
#[verifier::external_body]
#[verifier::reject_recursive_types(T)]
pub struct ExCursor<T>(std::io::Cursor<T>);

#[verifier::external_type_specification]
#[verifier::external_body]
pub struct ExZipError(zip::result::ZipError);

#[verifier::external_type_specification]
#[verifier::external_body]
pub struct ExIoError(std::io::Error);

/// An archive handle over an in-memory byte source.
pub type Archive = zip::ZipArchive<std::io::Cursor<Vec<u8>>>;

/// The model of one archive entry: its stored name bytes, its POSIX
/// permission bits when the archive carries them, and its decompressed
/// content.
pub ghost struct EntrySpec {
    pub name_raw: Seq<u8>,
    pub mode: Option<u32>,
    pub content: Seq<u8>,
}

/// The entries an archive handle holds, in the archive's stored order.
pub uninterp spec fn archive_entries(a: Archive) -> Seq<EntrySpec>;

/// The full byte source an archive handle was opened over.
pub uninterp spec fn archive_bytes(a: Archive) -> Seq<u8>;

/// Whether the `zip` crate accepts these bytes as an archive.
pub uninterp spec fn zip_parses(b: Seq<u8>) -> bool;

/// The entries the `zip` crate reads out of these bytes, in stored order.
pub uninterp spec fn zip_entries_of(b: Seq<u8>) -> Seq<EntrySpec>;

/// Whether the `zip` crate can return entry `i`'s metadata out of these
/// bytes.  The reader refuses an entry with a crafted header or an
/// unsupported feature; over an in-memory source that outcome is a
/// function of the bytes and the index alone.
pub uninterp spec fn zip_meta_ok(b: Seq<u8>, i: int) -> bool;

/// Whether the `zip` crate can return entry `i`'s whole decompressed
/// content out of these bytes: the entry's header is readable, its
/// compression method supported, and its data decompresses with a
/// matching checksum.  Over an in-memory source that outcome is a
/// function of the bytes and the index alone.
pub uninterp spec fn zip_content_ok(b: Seq<u8>, i: int) -> bool;

/// The per-entry metadata the extraction logic reads: the stored name
/// bytes and the optional POSIX permission bits.
pub struct EntryMeta {
    pub name_raw: Vec<u8>,
    pub mode: Option<u32>,
}

impl EntryMeta {
    /// Whether this metadata is the metadata of the entry `e`.
    pub open spec fn describes(self, e: EntrySpec) -> bool {
        self.name_raw@ == e.name_raw && self.mode == e.mode
    }
}

/// Relies on zip::ZipArchive::new, which parses the central directory of
/// the byte source; a pure function of the bytes.
#[verifier::external_body]
pub(crate) fn open_archive(bytes: Vec<u8>) -> (r: Result<Archive, zip::result::ZipError>)
    ensures
        r is Ok <==> zip_parses(bytes@),
        r matches Ok(a) ==> archive_entries(a) == zip_entries_of(bytes@) && archive_bytes(a)
            == bytes@,
{
    zip::ZipArchive::new(std::io::Cursor::new(bytes))
}

/// Relies on zip::ZipArchive::len, the number of entries in the archive.
#[verifier::external_body]
pub(crate) fn entry_count(a: &Archive) -> (n: usize)
    ensures
        n == archive_entries(*a).len(),
{
    a.len()
}

/// Relies on zip::ZipArchive::by_index for the entry's stored name bytes
/// (ZipFile::name_raw) and permission bits (ZipFile::unix_mode); it
/// succeeds or fails deterministically in the bytes and the index, and
/// reading an entry never changes what the archive holds.
#[verifier::external_body]
pub(crate) fn entry_meta(a: &mut Archive, i: usize) -> (r: Result<
    EntryMeta,
    zip::result::ZipError,
>)
    requires
        i < archive_entries(*old(a)).len(),
    ensures
        archive_entries(*final(a)) == archive_entries(*old(a)),
        archive_bytes(*final(a)) == archive_bytes(*old(a)),
        r is Ok <==> zip_meta_ok(archive_bytes(*old(a)), i as int),
        r matches Ok(m) ==> m.describes(archive_entries(*old(a))[i as int]),
{
    let f = a.by_index(i)?;
    Ok(EntryMeta { name_raw: f.name_raw().to_vec(), mode: f.unix_mode() })
}

/// Relies on zip::ZipArchive::by_index and std::io::Read::read_to_end on
/// the returned entry reader, which yields the entry's whole decompressed
/// content; it succeeds or fails deterministically in the bytes and the
/// index, and reading an entry never changes what the archive holds.
#[verifier::external_body]
pub(crate) fn entry_content(a: &mut Archive, i: usize) -> (r: Result<Vec<u8>, ZipExtractError>)
    requires
        i < archive_entries(*old(a)).len(),
    ensures
        archive_entries(*final(a)) == archive_entries(*old(a)),
        archive_bytes(*final(a)) == archive_bytes(*old(a)),
        r is Ok <==> zip_content_ok(archive_bytes(*old(a)), i as int),
        r matches Ok(c) ==> c@ == archive_entries(*old(a))[i as int].content,
        r matches Err(e) ==> e is Zip || e is Io,
{
    let mut f = match a.by_index(i) {
        Ok(f) => f,
        Err(e) => return Err(ZipExtractError::Zip(e)),
    };
    let mut buf = Vec::new();
    match std::io::Read::read_to_end(&mut f, &mut buf) {
        Ok(_) => Ok(buf),
        Err(e) => Err(ZipExtractError::Io(e)),
    }
}

} // verus!
