//! Packing: from the documents and entries of a directory to the bytes of its
//! container file.

use vstd::prelude::*;
use crate::archive::{archive_entries, build_archive, files_within_limit, is_archive_of, ArchiveFile};
use crate::container::{archive_of, build_container, container_bytes, fits_header, lemma_archive_round_trip};
use crate::header::header_decode;
use crate::error::PackError;
use crate::header::HEADER_SIZE;

verus! {

/// The localization section: the document's bytes, or nothing where it is
/// absent.
pub open spec fn localization_bytes(loc: Option<Vec<u8>>) -> Seq<u8> {
    match loc {
        Some(l) => l@,
        None => Seq::empty(),
    }
}

/// Whether `f` is a container of this metadata and localization around an
/// archive of exactly these files.
pub open spec fn is_container_of(f: Seq<u8>, meta: Seq<u8>, loc: Seq<u8>, files: Seq<ArchiveFile>) -> bool {
    exists|a: Seq<u8>| #[trigger] is_archive_of(a, archive_entries(files)) && f == container_bytes(meta, loc, a)
}

/// The bytes of a container file. `metadata` is the required metadata
/// document, `None` where it could not be read from `metadata_path`;
/// `localization` is the optional localization document; `files` are the
/// entries of the tree. Missing metadata fails before anything else is done,
/// so nothing is produced to be written. With the metadata present, packing
/// succeeds whenever the offsets fit the header and every file fits a plain
/// zip entry.
pub fn pack_container(
    metadata: Option<Vec<u8>>,
    metadata_path: String,
    localization: Option<Vec<u8>>,
    files: &Vec<ArchiveFile>,
) -> (r: Result<Vec<u8>, PackError>)
    ensures
        metadata is None <==> r matches Err(PackError::MissingDatapackJson(_)),
        metadata is None ==> (r matches Err(PackError::MissingDatapackJson(p)) && p@ == metadata_path@),
        (metadata matches Some(m) && !fits_header(m@.len(), localization_bytes(localization).len()))
            ==> r is Err,
        (metadata matches Some(m) && fits_header(m@.len(), localization_bytes(localization).len())
            && files_within_limit(files@)) ==> r is Ok,
        r matches Err(PackError::OffsetTooLarge) ==> (metadata matches Some(m)
            && !fits_header(m@.len(), localization_bytes(localization).len())),
        r matches Ok(f) ==> (metadata matches Some(m)
            && is_container_of(f@, m@, localization_bytes(localization), files@)),
        r matches Err(e) ==> e is MissingDatapackJson || e is Zip || e is IO || e is OffsetTooLarge,
{
    let meta = match metadata {
        Some(m) => m,
        None => return Err(PackError::MissingDatapackJson(metadata_path)),
    };
    let loc = match localization {
        Some(l) => l,
        None => Vec::new(),
    };
    let archive = match build_archive(files) {
        Ok(a) => a,
        Err(e) => return Err(e),
    };
    match build_container(&meta, &loc, &archive) {
        Ok(f) => {
            assert(is_archive_of(archive@, archive_entries(files@)));
            Ok(f)
        },
        Err(e) => Err(e),
    }
}

/// Unpacking a packed container finds its header valid and, from the archive
/// offset on, exactly an archive of the packed files.
pub proof fn lemma_pack_unpack(f: Seq<u8>, meta: Seq<u8>, loc: Seq<u8>, files: Seq<ArchiveFile>)
    requires
        is_container_of(f, meta, loc, files),
        fits_header(meta.len(), loc.len()),
    ensures
        f.len() >= HEADER_SIZE,
        header_decode(f.take(HEADER_SIZE as int)) matches Ok(c)
            && is_archive_of(archive_of(c, f), archive_entries(files)),
{
    let a = choose|a: Seq<u8>| #[trigger] is_archive_of(a, archive_entries(files)) && f == container_bytes(meta, loc, a);
    lemma_archive_round_trip(meta, loc, a);
    let c = header_decode(f.take(HEADER_SIZE as int))->Ok_0;
    assert(archive_of(c, f) == a);
}

} // verus!
