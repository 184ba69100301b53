//! Outside types that the library carries, and the calls it makes into them.

use vstd::prelude::*;
use std::io::Write;

verus! {

#[verifier::external_type_specification]
#[verifier::external_body]
pub struct ExIoError(std::io::Error);

#[verifier::external_type_specification]
#[verifier::external_body]
pub struct ExZipError(zip::result::ZipError);

} // verus!

verus! {

/// Relies on `std::io::Error::from(ErrorKind::UnexpectedEof)`: the error that a
/// read of a header from a shorter file reports.
#[verifier::external_body]
pub(crate) fn unexpected_eof() -> std::io::Error {
    std::io::Error::from(std::io::ErrorKind::UnexpectedEof)
}

} // verus!

verus! {

/// A zip archive being written to an in-memory buffer. Its contents are
/// spoken of through `zip_entries`.
#[verifier::external_body]
pub struct ArchiveWriter {
    inner: zip::ZipWriter<std::io::Cursor<Vec<u8>>>,
}

/// The entries that a zip writer holds so far, in the order they were started:
/// the stored name, whether it is a directory, and the uncompressed bytes
/// written to it.
pub uninterp spec fn zip_entries(z: ArchiveWriter) -> Seq<(Seq<char>, bool, Seq<u8>)>;

/// Whether the writer is still open: no call on it has failed, and it has not
/// been finished.
pub uninterp spec fn zip_open(z: ArchiveWriter) -> bool;

/// The bytes of the archive that finishing a zip writer in this state produces.
pub uninterp spec fn zip_finished_bytes(z: ArchiveWriter) -> Seq<u8>;

/// The most bytes that one file entry may hold while its size and its
/// compressed size both stay within the 32-bit fields of a zip entry.
pub const ZIP_ENTRY_LIMIT: u64 = 0xF000_0000;

/// The most uncompressed bytes a file entry can take before writing fails.
pub const ZIP_FILE_MAX: u64 = 0xFFFF_FFFF;

/// The name under which a directory is stored: a `/` is appended unless the
/// name ends in `/` or `\`.
pub open spec fn stored_dir_name(name: Seq<char>) -> Seq<char> {
    if name.len() > 0 && (name.last() == '/' || name.last() == '\\') {
        name
    } else {
        name.push('/')
    }
}

/// Whether the entry written last, if any, is small enough to be closed.
pub open spec fn last_entry_closable(es: Seq<(Seq<char>, bool, Seq<u8>)>) -> bool {
    es.len() > 0 ==> es.last().2.len() <= ZIP_ENTRY_LIMIT
}

/// Relies on `zip::ZipWriter::new` over an empty in-memory buffer: an open
/// writer that holds no entry yet.
#[verifier::external_body]
pub(crate) fn new_zip_writer() -> (z: ArchiveWriter)
    ensures
        zip_entries(z) == Seq::<(Seq<char>, bool, Seq<u8>)>::empty(),
        zip_open(z),
{
    ArchiveWriter { inner: zip::ZipWriter::new(std::io::Cursor::new(Vec::new())) }
}

/// Relies on `zip::ZipWriter::start_file` with `FileOptions::default()` (the
/// Deflated method, as the `deflate` feature makes it) at compression `level`.
/// It closes the entry written last and appends a file entry of that name, with
/// no bytes yet. On an open writer it fails only where the last entry is too
/// large to close or the level is outside deflate's 0 to 9.
#[verifier::external_body]
pub(crate) fn zip_start_file(z: &mut ArchiveWriter, name: &str, level: i32) -> (r: Result<(), zip::result::ZipError>)
    ensures
        r is Ok ==> zip_entries(*final(z)) == zip_entries(*old(z)).push((name@, false, Seq::empty())),
        r is Ok ==> zip_open(*final(z)),
        zip_open(*old(z)) && last_entry_closable(zip_entries(*old(z))) && 0 <= level <= 9 ==> r is Ok,
{
    let o = zip::write::FileOptions::default().compression_level(Some(level));
    z.inner.start_file(name, o)
}

/// Relies on `std::io::Write::write_all` of `zip::ZipWriter`: on success the
/// bytes are appended to the file entry started last. Writing bytes fails
/// where no file entry is open, or where the entry would pass
/// `ZIP_FILE_MAX` bytes; writing none changes nothing.
#[verifier::external_body]
pub(crate) fn zip_write_all(
    z: &mut ArchiveWriter,
    data: &[u8],
) -> (r: Result<(), std::io::Error>)
    ensures
        r is Ok && data@.len() > 0 ==> zip_entries(*old(z)).len() > 0 && !zip_entries(*old(z)).last().1,
        r is Ok ==> zip_entries(*final(z)) == if zip_entries(*old(z)).len() == 0 {
            zip_entries(*old(z))
        } else {
            zip_entries(*old(z)).update(
                zip_entries(*old(z)).len() - 1,
                (
                    zip_entries(*old(z)).last().0,
                    zip_entries(*old(z)).last().1,
                    zip_entries(*old(z)).last().2 + data@,
                ),
            )
        },
        r is Ok ==> zip_open(*final(z)) == zip_open(*old(z)),
        (zip_open(*old(z)) && zip_entries(*old(z)).len() > 0 && !zip_entries(*old(z)).last().1
            && zip_entries(*old(z)).last().2.len() + data@.len() <= ZIP_FILE_MAX) ==> r is Ok,
{
    z.inner.write_all(data)
}

/// Relies on `zip::ZipWriter::add_directory` with `FileOptions::default()`:
/// it closes the entry written last and appends a directory entry, stored
/// under `stored_dir_name`. On an open writer it fails only where the last
/// entry is too large to close.
#[verifier::external_body]
pub(crate) fn zip_add_directory(z: &mut ArchiveWriter, name: &str) -> (r: Result<(), zip::result::ZipError>)
    ensures
        r is Ok ==> zip_entries(*final(z)) == zip_entries(*old(z)).push((stored_dir_name(name@), true, Seq::empty())),
        r is Ok ==> zip_open(*final(z)),
        zip_open(*old(z)) && last_entry_closable(zip_entries(*old(z))) ==> r is Ok,
{
    z.inner.add_directory(name, zip::write::FileOptions::default())
}

/// Relies on `zip::ZipWriter::finish`: on success it returns the buffer that
/// now holds the whole archive. On an open writer it fails only where the last
/// entry is too large to close.
#[verifier::external_body]
pub(crate) fn zip_finish(z: &mut ArchiveWriter) -> (r: Result<Vec<u8>, zip::result::ZipError>)
    ensures
        r matches Ok(b) ==> b@ == zip_finished_bytes(*old(z)),
        zip_open(*old(z)) && last_entry_closable(zip_entries(*old(z))) ==> r is Ok,
{
    z.inner.finish().map(|c| c.into_inner())
}

} // verus!
