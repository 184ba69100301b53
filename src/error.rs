use vstd::prelude::*;

verus! {

/// Why packing a directory failed.
#[derive(Debug)]
pub enum PackError {
    /// Reading or writing a file failed.
    IO(std::io::Error),
    /// The archive component refused an entry.
    Zip(zip::result::ZipError),
    /// The given path is not a directory.
    NotAFolder(String),
    /// No usable name could be taken from the path.
    CantGetFilename(String),
    /// The mandatory metadata document is missing.
    MissingDatapackJson(String),
    /// An offset of the header does not fit in eight hex digits.
    OffsetTooLarge,
}

/// Why unpacking a container failed.
#[derive(Debug)]
pub enum UnpackError {
    /// Reading the container or writing the extracted tree failed.
    IO(std::io::Error),
    /// The archive section is not a valid archive.
    Zip(zip::result::ZipError),
    /// The header does not start with the magic value.
    MissingMagicNumber,
    /// The archive offset of the header is not hex text.
    IvalidOffsets,
}

} // verus!
