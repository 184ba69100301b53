//! Building the archive section from the selected entries.

use vstd::prelude::*;
use crate::error::PackError;
use crate::outside::{
    new_zip_writer, stored_dir_name, zip_add_directory, zip_entries, zip_finish, zip_finished_bytes,
    zip_open, zip_start_file, zip_write_all, ArchiveWriter, ZIP_ENTRY_LIMIT,
};

verus! {

/// The compression level used for every file: the fastest one.
pub const COMPRESSION_LEVEL: i32 = 0;

/// An entry with its contents, ready to be stored.
pub struct ArchiveFile {
    pub name: String,
    pub is_dir: bool,
    /// The file's bytes; ignored for a directory.
    pub contents: Vec<u8>,
}

impl View for ArchiveFile {
    type V = (Seq<char>, bool, Seq<u8>);

    open spec fn view(&self) -> (Seq<char>, bool, Seq<u8>) {
        (self.name@, self.is_dir, self.contents@)
    }
}

/// The archive entry that a file stands for: a directory is stored under its
/// name with a trailing `/`, and holds no bytes.
pub open spec fn entry_of(f: (Seq<char>, bool, Seq<u8>)) -> (Seq<char>, bool, Seq<u8>) {
    if f.1 { (stored_dir_name(f.0), true, Seq::empty()) } else { f }
}

/// Whether every file is small enough for a plain (not zip64) entry.
pub open spec fn files_within_limit(files: Seq<ArchiveFile>) -> bool {
    forall|i: int| 0 <= i < files.len() ==> (#[trigger] files[i]).contents@.len() <= ZIP_ENTRY_LIMIT
}

/// The entries of an archive of `files`, in order.
pub open spec fn archive_entries(files: Seq<ArchiveFile>) -> Seq<(Seq<char>, bool, Seq<u8>)> {
    files.map_values(|f: ArchiveFile| entry_of(f@))
}

/// Whether `b` is an archive that holds exactly these entries, in this order.
pub open spec fn is_archive_of(b: Seq<u8>, entries: Seq<(Seq<char>, bool, Seq<u8>)>) -> bool {
    exists|z: ArchiveWriter|
        #[trigger] zip_entries(z) == entries && b == zip_finished_bytes(z)
}

/// Builds an archive of `files`, in order: each file is stored deflated at the
/// fastest level, each directory as an empty placeholder. It succeeds whenever
/// every file fits a plain zip entry.
pub fn build_archive(files: &Vec<ArchiveFile>) -> (r: Result<Vec<u8>, PackError>)
    ensures
        r matches Ok(b) ==> is_archive_of(b@, archive_entries(files@)),
        files_within_limit(files@) ==> r is Ok,
        r matches Err(e) ==> e is Zip || e is IO,
{
    let mut z = new_zip_writer();
    let mut k: usize = 0;
    while k < files.len()
        invariant
            k <= files@.len(),
            zip_entries(z) == archive_entries(files@.take(k as int)),
            zip_open(z),
        decreases files@.len() - k,
    {
        let f = &files[k];
        let ghost before = zip_entries(z);
        assert(files@.take(k + 1) =~= files@.take(k as int).push(*f));
        proof {
            if k > 0 && files_within_limit(files@) {
                assert(before.last() == entry_of(files@[k - 1]@));
                assert(files@[k - 1].contents@.len() <= ZIP_ENTRY_LIMIT);
            }
        }
        if f.is_dir {
            match zip_add_directory(&mut z, f.name.as_str()) {
                Ok(()) => {},
                Err(e) => return Err(PackError::Zip(e)),
            }
        } else {
            match zip_start_file(&mut z, f.name.as_str(), COMPRESSION_LEVEL) {
                Ok(()) => {},
                Err(e) => return Err(PackError::Zip(e)),
            }
            match zip_write_all(&mut z, f.contents.as_slice()) {
                Ok(()) => {},
                Err(e) => return Err(PackError::IO(e)),
            }
            assert(Seq::<u8>::empty() + f.contents@ =~= f.contents@);
        }
        assert(zip_entries(z) =~= archive_entries(files@.take(k + 1)));
        k = k + 1;
    }
    assert(files@.take(k as int) =~= files@);
    proof {
        if k > 0 && files_within_limit(files@) {
            assert(zip_entries(z).last() == entry_of(files@[k - 1]@));
            assert(files@[k - 1].contents@.len() <= ZIP_ENTRY_LIMIT);
        }
    }
    let ghost done = z;
    match zip_finish(&mut z) {
        Ok(b) => {
            assert(zip_entries(done) == archive_entries(files@));
            Ok(b)
        },
        Err(e) => Err(PackError::Zip(e)),
    }
}

} // verus!
