//! The container layout: header, metadata, localization and archive, in that
//! order, and the way back from a container to its archive section.

use vstd::prelude::*;
use crate::error::{PackError, UnpackError};
use crate::header::{
    decode_header, encode_header, header_bytes, header_decode, lemma_header_round_trip,
    lemma_offset_field_parses, lemma_offset_field_shape, is_offset_field, offset_field, parse_hex,
    HEADER_SIZE, MAX_OFFSET,
};
use crate::outside::unexpected_eof;

verus! {

/// Where the localization section begins.
pub open spec fn localization_offset(meta_len: nat) -> nat {
    HEADER_SIZE as nat + meta_len
}

/// Where the archive section begins.
pub open spec fn archive_offset(meta_len: nat, loc_len: nat) -> nat {
    HEADER_SIZE as nat + meta_len + loc_len
}

/// Whether the offsets of a container with these sections fit in the header.
pub open spec fn fits_header(meta_len: nat, loc_len: nat) -> bool {
    archive_offset(meta_len, loc_len) <= MAX_OFFSET
}

/// The container that holds these three sections.
pub open spec fn container_bytes(meta: Seq<u8>, loc: Seq<u8>, archive: Seq<u8>) -> Seq<u8> {
    header_bytes(
        HEADER_SIZE as nat,
        localization_offset(meta.len()),
        archive_offset(meta.len(), loc.len()),
    ) + meta + loc + archive
}

/// What unpacking finds in a container: the bytes from the archive offset to
/// the end, or nothing where the offset lies past the end.
pub open spec fn archive_of(c: u64, file: Seq<u8>) -> Seq<u8> {
    if c <= file.len() { file.skip(c as int) } else { Seq::empty() }
}

/// Computes where the localization and archive sections begin.
pub fn section_offsets(meta_len: usize, loc_len: usize) -> (r: Result<(u32, u32), PackError>)
    ensures
        fits_header(meta_len as nat, loc_len as nat) <==> r is Ok,
        r matches Ok((b, c)) ==> b == localization_offset(meta_len as nat)
            && c == archive_offset(meta_len as nat, loc_len as nat),
        r matches Err(e) ==> e is OffsetTooLarge,
{
    let max: usize = MAX_OFFSET as usize;
    if meta_len > max - HEADER_SIZE || loc_len > max - HEADER_SIZE - meta_len {
        return Err(PackError::OffsetTooLarge);
    }
    let b = HEADER_SIZE + meta_len;
    let c = b + loc_len;
    Ok((b as u32, c as u32))
}

fn append_bytes(out: &mut Vec<u8>, data: &Vec<u8>)
    ensures
        final(out)@ == old(out)@ + data@,
{
    let mut i: usize = 0;
    let ghost start = out@;
    while i < data.len()
        invariant
            i <= data@.len(),
            out@ == start + data@.take(i as int),
        decreases data@.len() - i,
    {
        out.push(data[i]);
        i = i + 1;
        assert(out@ =~= start + data@.take(i as int));
    }
    assert(data@.take(i as int) =~= data@);
}

/// Lays out a container: the header, then the metadata, the localization and
/// the archive. Fails only where the archive offset does not fit the header.
pub fn build_container(meta: &Vec<u8>, loc: &Vec<u8>, archive: &Vec<u8>) -> (r: Result<Vec<u8>, PackError>)
    ensures
        fits_header(meta@.len(), loc@.len()) <==> r is Ok,
        r matches Ok(f) ==> f@ == container_bytes(meta@, loc@, archive@),
        r matches Err(e) ==> e is OffsetTooLarge,
{
    let (b, c) = match section_offsets(meta.len(), loc.len()) {
        Ok(o) => o,
        Err(e) => return Err(e),
    };
    let mut out = encode_header(HEADER_SIZE as u32, b, c);
    append_bytes(&mut out, meta);
    append_bytes(&mut out, loc);
    append_bytes(&mut out, archive);
    Ok(out)
}

/// The archive section of a container file: the header is checked for its
/// magic value, and the bytes from the archive offset to the end are returned.
/// A file shorter than a header fails as a read past its end does.
pub fn archive_section(file: &Vec<u8>) -> (r: Result<Vec<u8>, UnpackError>)
    ensures
        file@.len() < HEADER_SIZE ==> r matches Err(UnpackError::IO(_)),
        file@.len() >= HEADER_SIZE ==> match header_decode(file@.take(HEADER_SIZE as int)) {
            Ok(c) => r matches Ok(a) && a@ == archive_of(c, file@),
            Err(e) => r == Err::<Vec<u8>, UnpackError>(e),
        },
{
    if file.len() < HEADER_SIZE {
        return Err(UnpackError::IO(unexpected_eof()));
    }
    let header = slice_prefix(file, HEADER_SIZE);
    let c = match decode_header(header.as_slice()) {
        Ok(c) => c,
        Err(e) => return Err(e),
    };
    let mut out: Vec<u8> = Vec::new();
    if c <= file.len() as u64 {
        let mut i: usize = c as usize;
        while i < file.len()
            invariant
                c <= i <= file@.len(),
                out@ == file@.subrange(c as int, i as int),
            decreases file@.len() - i,
        {
            out.push(file[i]);
            i = i + 1;
            assert(out@ =~= file@.subrange(c as int, i as int));
        }
        assert(out@ =~= file@.skip(c as int));
    }
    Ok(out)
}

fn slice_prefix(file: &Vec<u8>, n: usize) -> (r: Vec<u8>)
    requires
        n <= file@.len(),
    ensures
        r@ == file@.take(n as int),
{
    let mut out: Vec<u8> = Vec::new();
    let mut i: usize = 0;
    while i < n
        invariant
            i <= n <= file@.len(),
            out@ == file@.take(i as int),
        decreases n - i,
    {
        out.push(file[i]);
        i = i + 1;
        assert(out@ =~= file@.take(i as int));
    }
    out
}

/// Packing then locating the archive gives back exactly the archive that was
/// packed, whatever the metadata and localization sections hold.
pub proof fn lemma_archive_round_trip(meta: Seq<u8>, loc: Seq<u8>, archive: Seq<u8>)
    requires
        fits_header(meta.len(), loc.len()),
    ensures
        header_decode(container_bytes(meta, loc, archive).take(HEADER_SIZE as int))
            == Ok::<u64, UnpackError>(archive_offset(meta.len(), loc.len()) as u64),
        archive_of(
            archive_offset(meta.len(), loc.len()) as u64,
            container_bytes(meta, loc, archive),
        ) == archive,
{
    let a = HEADER_SIZE as nat;
    let b = localization_offset(meta.len());
    let c = archive_offset(meta.len(), loc.len());
    let f = container_bytes(meta, loc, archive);
    lemma_header_round_trip(a, b, c);
    assert(f.take(HEADER_SIZE as int) =~= header_bytes(a, b, c));
    assert(f.skip(c as int) =~= archive);
}

/// In the header of a container with metadata of length `m` and localization
/// of length `l`, the second offset reads `37 + m`, the third `37 + m + l`,
/// and the archive runs from the third offset to the end of the file.
pub proof fn lemma_offsets(meta: Seq<u8>, loc: Seq<u8>, archive: Seq<u8>)
    requires
        fits_header(meta.len(), loc.len()),
    ensures
        parse_hex(container_bytes(meta, loc, archive).subrange(9, 17)) == Some(HEADER_SIZE as nat),
        parse_hex(container_bytes(meta, loc, archive).subrange(19, 27)) == Some(localization_offset(meta.len())),
        parse_hex(container_bytes(meta, loc, archive).subrange(29, 37))
            == Some(archive_offset(meta.len(), loc.len())),
        container_bytes(meta, loc, archive).len() - (HEADER_SIZE + meta.len() + loc.len())
            == archive.len(),
{
    let a = HEADER_SIZE as nat;
    let b = localization_offset(meta.len());
    let c = archive_offset(meta.len(), loc.len());
    let f = container_bytes(meta, loc, archive);
    lemma_offset_field_parses(a);
    lemma_offset_field_parses(b);
    lemma_offset_field_parses(c);
    assert(f.subrange(9, 17) =~= offset_field(a).subrange(2, 10));
    assert(f.subrange(19, 27) =~= offset_field(b).subrange(2, 10));
    assert(f.subrange(29, 37) =~= offset_field(c).subrange(2, 10));
}

/// A container is at least a header long; the header starts with the magic
/// value and holds three fields of the form `0x[0-9a-f]{8}`.
pub proof fn lemma_header_shape(meta: Seq<u8>, loc: Seq<u8>, archive: Seq<u8>)
    ensures
        container_bytes(meta, loc, archive).len() >= HEADER_SIZE,
        container_bytes(meta, loc, archive).take(7) == crate::header::magic(),
        is_offset_field(container_bytes(meta, loc, archive).subrange(7, 17)),
        is_offset_field(container_bytes(meta, loc, archive).subrange(17, 27)),
        is_offset_field(container_bytes(meta, loc, archive).subrange(27, 37)),
{
    let b = localization_offset(meta.len());
    let c = archive_offset(meta.len(), loc.len());
    let f = container_bytes(meta, loc, archive);
    lemma_offset_field_shape(HEADER_SIZE as nat);
    lemma_offset_field_shape(b);
    lemma_offset_field_shape(c);
    assert(f.take(7) =~= crate::header::magic());
    assert(f.subrange(7, 17) =~= offset_field(HEADER_SIZE as nat));
    assert(f.subrange(17, 27) =~= offset_field(b));
    assert(f.subrange(27, 37) =~= offset_field(c));
}

/// Without localization bytes the second and third offsets are the same.
pub proof fn lemma_absent_localization(meta: Seq<u8>, archive: Seq<u8>)
    ensures
        container_bytes(meta, Seq::empty(), archive).subrange(17, 27)
            == container_bytes(meta, Seq::empty(), archive).subrange(27, 37),
{
    let f = container_bytes(meta, Seq::empty(), archive);
    let b = localization_offset(meta.len());
    assert(f.subrange(17, 27) =~= offset_field(b));
    assert(f.subrange(27, 37) =~= offset_field(b));
}

} // verus!
