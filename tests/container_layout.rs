use coretools_rs::archive::{build_archive, ArchiveFile};
use coretools_rs::container::{archive_section, build_container, section_offsets};
use coretools_rs::pack::pack_container;
use coretools_rs::tree::{is_container_file_name, output_file_name, select_entries, WalkedEntry};
use coretools_rs::{PackError, UnpackError};
use std::io::Read;

fn walked(relative: &str, is_file: bool) -> WalkedEntry {
    WalkedEntry { relative: relative.to_string(), is_file }
}

fn file(name: &str, contents: &[u8]) -> ArchiveFile {
    ArchiveFile { name: name.to_string(), is_dir: false, contents: contents.to_vec() }
}

fn dir(name: &str) -> ArchiveFile {
    ArchiveFile { name: name.to_string(), is_dir: true, contents: Vec::new() }
}

fn read_entry(blob: &[u8], name: &str) -> Vec<u8> {
    let mut archive = zip::ZipArchive::new(std::io::Cursor::new(blob)).unwrap();
    let mut entry = archive.by_name(name).unwrap();
    let mut out = Vec::new();
    entry.read_to_end(&mut out).unwrap();
    out
}

fn entry_names(blob: &[u8]) -> Vec<String> {
    let archive = zip::ZipArchive::new(std::io::Cursor::new(blob)).unwrap();
    let mut names: Vec<String> = archive.file_names().map(|n| n.to_string()).collect();
    names.sort();
    names
}

#[test]
fn offsets_follow_section_lengths() {
    assert_eq!(section_offsets(2, 0).unwrap(), (39, 39));
    assert_eq!(section_offsets(10, 5).unwrap(), (47, 52));
    assert_eq!(section_offsets(0, 0).unwrap(), (37, 37));
}

#[test]
fn offsets_too_large_are_refused() {
    assert!(matches!(section_offsets(0xffff_ffff - 37, 1), Err(PackError::OffsetTooLarge)));
    assert_eq!(section_offsets(0xffff_ffff - 37, 0).unwrap(), (0xffff_ffff, 0xffff_ffff));
}

#[test]
fn container_sections_in_order() {
    let f = build_container(&b"{}".to_vec(), &b"k,v".to_vec(), &b"ARCH".to_vec()).unwrap();
    assert_eq!(f, b"COREPKG0x000000250x000000270x0000002a{}k,vARCH".to_vec());
}

#[test]
fn archive_section_round_trip() {
    let archive = b"some archive bytes".to_vec();
    let f = build_container(&b"{\"a\":1}".to_vec(), &b"id,text\n".to_vec(), &archive).unwrap();
    assert_eq!(archive_section(&f).unwrap(), archive);
    let offset_c = 37 + 7 + 8;
    assert_eq!(f.len() - offset_c, archive.len());
}

#[test]
fn archive_section_short_file_is_io_error() {
    let r = archive_section(&b"COREPKG0x00".to_vec());
    assert!(matches!(r, Err(UnpackError::IO(e)) if e.kind() == std::io::ErrorKind::UnexpectedEof));
}

#[test]
fn archive_section_offset_past_end_is_empty() {
    let mut f = b"COREPKG0x000000250x000000250x000000ff".to_vec();
    f.extend_from_slice(b"tail");
    assert_eq!(archive_section(&f).unwrap(), Vec::<u8>::new());
}

#[test]
fn archive_section_corrupt_magic() {
    let mut f = build_container(&b"{}".to_vec(), &Vec::new(), &b"zip".to_vec()).unwrap();
    f[3] = b'x';
    assert!(matches!(archive_section(&f), Err(UnpackError::MissingMagicNumber)));
}

#[test]
fn selection_skips_root_and_containers() {
    let walk = vec![
        walked("", false),
        walked("datapack.json", true),
        walked("bin", false),
        walked("bin/mymod.corepackage", true),
        walked("old.corepackage", false),
        walked(".corepackage", true),
        walked("bin/.corepackage", true),
        walked("notes.corepackage.txt", true),
    ];
    let items = select_entries(&walk);
    let got: Vec<(String, bool)> = items.iter().map(|i| (i.name.clone(), i.is_dir)).collect();
    assert_eq!(
        got,
        vec![
            ("datapack.json".to_string(), false),
            ("bin".to_string(), true),
            ("old.corepackage".to_string(), true),
            (".corepackage".to_string(), false),
            ("bin/.corepackage".to_string(), false),
            ("notes.corepackage.txt".to_string(), false),
        ]
    );
}

#[test]
fn output_name_keeps_full_directory_name() {
    assert_eq!(output_file_name("mymod"), "mymod.corepackage");
    assert_eq!(output_file_name("mod.v2"), "mod.v2.corepackage");
    assert_eq!(output_file_name(".hidden"), ".hidden.corepackage");
    assert_eq!(output_file_name("a.b.c"), "a.b.c.corepackage");
}

#[test]
fn archive_holds_files_and_empty_directories() {
    let blob = build_archive(&vec![dir("empty"), dir("data"), file("data/a.txt", b"abc"), file("z.bin", b"")]).unwrap();
    assert_eq!(entry_names(&blob), vec!["data/", "data/a.txt", "empty/", "z.bin"]);
    assert_eq!(read_entry(&blob, "data/a.txt"), b"abc".to_vec());
    assert_eq!(read_entry(&blob, "z.bin"), Vec::<u8>::new());
    let archive = zip::ZipArchive::new(std::io::Cursor::new(&blob[..])).unwrap();
    assert!(archive.len() == 4);
}

#[test]
fn pack_missing_metadata_fails() {
    let r = pack_container(None, "mymod/datapack.json".to_string(), None, &vec![file("x", b"1")]);
    match r {
        Err(PackError::MissingDatapackJson(p)) => assert_eq!(p, "mymod/datapack.json"),
        _ => panic!("expected the missing metadata error"),
    }
}

#[test]
fn pack_absent_localization_has_equal_offsets() {
    let f = pack_container(Some(b"{\"n\":2}".to_vec()), "datapack.json".to_string(), None, &vec![file("a", b"1")]).unwrap();
    assert_eq!(&f[17..27], &f[27..37]);
    assert_eq!(&f[17..27], b"0x0000002c");
}

#[test]
fn pack_with_localization() {
    let f = pack_container(
        Some(b"{}".to_vec()),
        "datapack.json".to_string(),
        Some(b"id,en\n".to_vec()),
        &vec![file("loc/text.csv", b"id,en\n")],
    )
    .unwrap();
    assert_eq!(&f[..37], b"COREPKG0x000000250x000000270x0000002d");
    assert_eq!(&f[37..45], b"{}id,en\n");
    let blob = archive_section(&f).unwrap();
    assert_eq!(blob, f[45..].to_vec());
    assert_eq!(read_entry(&blob, "loc/text.csv"), b"id,en\n".to_vec());
}

#[test]
fn concrete_scenario() {
    let walk = vec![
        walked("", false),
        walked("datapack.json", true),
        walked("data", false),
        walked("data/a.txt", true),
    ];
    let items = select_entries(&walk);
    let files: Vec<ArchiveFile> = items
        .iter()
        .map(|i| {
            let contents: &[u8] = match i.name.as_str() {
                "datapack.json" => b"{}",
                "data/a.txt" => b"xyz",
                _ => b"",
            };
            ArchiveFile { name: i.name.clone(), is_dir: i.is_dir, contents: contents.to_vec() }
        })
        .collect();
    let f = pack_container(Some(b"{}".to_vec()), "datapack.json".to_string(), None, &files).unwrap();
    assert_eq!(&f[..7], b"COREPKG");
    assert_eq!(&f[7..17], b"0x00000025");
    assert_eq!(&f[17..27], b"0x00000027");
    assert_eq!(&f[27..37], b"0x00000027");
    assert_eq!(&f[37..39], b"{}");
    let blob = archive_section(&f).unwrap();
    assert_eq!(blob.len(), f.len() - 39);
    assert_eq!(read_entry(&blob, "data/a.txt"), b"xyz".to_vec());
    assert_eq!(entry_names(&blob), vec!["data/", "data/a.txt", "datapack.json"]);
}

#[test]
fn container_extension_detection() {
    assert!(is_container_file_name("bin/mymod.corepackage"));
    assert!(is_container_file_name("x.corepackage"));
    assert!(is_container_file_name("a..corepackage"));
    assert!(!is_container_file_name(".corepackage"));
    assert!(!is_container_file_name("bin/.corepackage"));
    assert!(!is_container_file_name("x.corepackag"));
    assert!(!is_container_file_name("x.corepackage.bak"));
    assert!(!is_container_file_name("corepackage"));
}

#[test]
fn directory_names_get_one_trailing_slash() {
    let blob = build_archive(&vec![dir("a"), dir("b/"), file("b/c", b"1")]).unwrap();
    assert_eq!(entry_names(&blob), vec!["a/", "b/", "b/c"]);
}
