use std::io::{Cursor, Write};

use gitripper::archive::Archive;
use gitripper::extract::{extract_archive, read_records};
use gitripper::plan::plan_paths;
use gitripper::{extract_zip, ErrorKind, ExtractError, Extraction, WriteStrategy};
use zip::write::SimpleFileOptions;
use zip::{CompressionMethod, ZipWriter};

fn stored() -> SimpleFileOptions {
    SimpleFileOptions::default().compression_method(CompressionMethod::Stored)
}

fn build_archive(entries: &[(&str, Option<&[u8]>)]) -> Vec<u8> {
    let mut writer = ZipWriter::new(Cursor::new(Vec::new()));
    for (name, content) in entries {
        match content {
            Some(bytes) => {
                writer.start_file(*name, SimpleFileOptions::default()).unwrap();
                writer.write_all(bytes).unwrap();
            }
            None => {
                writer.add_directory(*name, SimpleFileOptions::default()).unwrap();
            }
        }
    }
    writer.finish().unwrap().into_inner()
}

fn listing(extraction: &Extraction) -> Vec<(String, bool, Vec<u8>, usize)> {
    extraction
        .entries
        .iter()
        .map(|e| (e.rel_path.to_text(), e.is_dir, e.data.clone(), e._file_idx))
        .collect()
}

#[test]
fn common_prefix_is_stripped() {
    let bytes = build_archive(&[
        ("proj-main/", None),
        ("proj-main/src/a.txt", Some(b"hi")),
        ("proj-main/src/", None),
    ]);
    let extraction = extract_zip(&bytes).unwrap();
    assert_eq!(extraction.root_prefix.as_deref(), Some("proj-main"));
    assert_eq!(
        listing(&extraction),
        vec![
            ("src/a.txt".to_string(), false, b"hi".to_vec(), 1),
            ("src".to_string(), true, Vec::new(), 2),
        ]
    );
    assert_eq!(extraction.entries[0]._data_size, 2);
    assert_eq!(extraction.entries[1]._data_size, 0);
    assert_eq!(extraction.strategy, WriteStrategy::Sequential);
    for entry in &extraction.entries {
        assert_ne!(entry.rel_path.first().unwrap(), "proj-main");
    }
}

#[test]
fn different_tops_are_kept() {
    let bytes = build_archive(&[("a/file1.txt", Some(b"x")), ("b/file2.txt", Some(b"y"))]);
    let extraction = extract_zip(&bytes).unwrap();
    assert_eq!(extraction.root_prefix, None);
    assert_eq!(
        listing(&extraction),
        vec![
            ("a/file1.txt".to_string(), false, b"x".to_vec(), 0),
            ("b/file2.txt".to_string(), false, b"y".to_vec(), 1),
        ]
    );
}

#[test]
fn parent_traversal_is_refused() {
    let bytes = build_archive(&[("ok/a.txt", Some(b"a")), ("../outside.txt", Some(b"evil"))]);
    let error = extract_zip(&bytes).unwrap_err();
    assert_eq!(error, ExtractError::UnsafePath { index: 1 });
    assert_eq!(error.kind(), ErrorKind::PathSafety);
    assert_eq!(error.message(), "Zip archive holds an entry outside the destination.");
}

#[test]
fn traversal_from_inside_a_directory_is_refused() {
    let bytes = build_archive(&[("a/../../outside.txt", Some(b"evil")), ("b", Some(b"b"))]);
    assert_eq!(extract_zip(&bytes).unwrap_err(), ExtractError::UnsafePath { index: 0 });
}

#[test]
fn absolute_names_are_refused() {
    let bytes = build_archive(&[("a.txt", Some(b"a")), ("b.txt", Some(b"b")), ("/etc/passwd", Some(b"x"))]);
    assert_eq!(extract_zip(&bytes).unwrap_err(), ExtractError::UnsafePath { index: 2 });
}

#[test]
fn a_detour_inside_the_destination_is_resolved() {
    let bytes = build_archive(&[("top/a/../b.txt", Some(b"b")), ("top/c.txt", Some(b"c"))]);
    let extraction = extract_zip(&bytes).unwrap();
    assert_eq!(extraction.root_prefix.as_deref(), Some("top"));
    assert_eq!(
        listing(&extraction),
        vec![("b.txt".to_string(), false, b"b".to_vec(), 0), ("c.txt".to_string(), false, b"c".to_vec(), 1)]
    );
}

#[test]
fn empty_archive_is_a_format_error() {
    let bytes = build_archive(&[]);
    let error = extract_zip(&bytes).unwrap_err();
    assert_eq!(error, ExtractError::EmptyArchive);
    assert_eq!(error.kind(), ErrorKind::Format);
    assert_eq!(error.message(), "Zip archive is empty.");
}

#[test]
fn garbage_is_no_archive() {
    let error = extract_zip(b"this is not a zip file").unwrap_err();
    assert_eq!(error, ExtractError::InvalidArchive);
    assert_eq!(error.kind(), ErrorKind::Format);
    assert_eq!(error.message(), "Zip archive cannot be read.");
    assert_eq!(extract_zip(b"").unwrap_err(), ExtractError::InvalidArchive);
}

#[test]
fn damaged_content_is_reported_with_its_index() {
    let mut writer = ZipWriter::new(Cursor::new(Vec::new()));
    writer.start_file("r/first.txt", stored()).unwrap();
    writer.write_all(b"first content").unwrap();
    writer.start_file("r/second.txt", stored()).unwrap();
    writer.write_all(b"SECOND CONTENT").unwrap();
    let mut bytes = writer.finish().unwrap().into_inner();
    let needle = b"SECOND CONTENT";
    let at = bytes.windows(needle.len()).position(|w| w == needle).unwrap();
    bytes[at] = b'X';
    let error = extract_zip(&bytes).unwrap_err();
    assert_eq!(error, ExtractError::CorruptEntry { index: 1 });
    assert_eq!(error.kind(), ErrorKind::Format);
    assert_eq!(error.message(), "Zip archive holds an unreadable entry.");
}

#[test]
fn damaged_content_of_a_dropped_entry_is_not_read() {
    let mut writer = ZipWriter::new(Cursor::new(Vec::new()));
    writer.start_file("only.txt", stored()).unwrap();
    writer.write_all(b"NEVER LOOKED AT").unwrap();
    let mut bytes = writer.finish().unwrap().into_inner();
    let needle = b"NEVER LOOKED AT";
    let at = bytes.windows(needle.len()).position(|w| w == needle).unwrap();
    bytes[at] = b'X';
    let extraction = extract_zip(&bytes).unwrap();
    assert_eq!(extraction.root_prefix.as_deref(), Some("only.txt"));
    assert!(extraction.entries.is_empty());
}

#[test]
fn an_unsafe_name_wins_over_damaged_content() {
    let mut writer = ZipWriter::new(Cursor::new(Vec::new()));
    writer.start_file("a/first.txt", stored()).unwrap();
    writer.write_all(b"DAMAGED CONTENT").unwrap();
    writer.start_file("../b.txt", stored()).unwrap();
    writer.write_all(b"b").unwrap();
    let mut bytes = writer.finish().unwrap().into_inner();
    let needle = b"DAMAGED CONTENT";
    let at = bytes.windows(needle.len()).position(|w| w == needle).unwrap();
    bytes[at] = b'X';
    assert_eq!(extract_zip(&bytes).unwrap_err(), ExtractError::UnsafePath { index: 1 });
}

#[test]
fn a_single_top_level_file_is_its_own_root() {
    let bytes = build_archive(&[("README", Some(b"text"))]);
    let extraction = extract_zip(&bytes).unwrap();
    assert_eq!(extraction.root_prefix.as_deref(), Some("README"));
    assert!(extraction.entries.is_empty());
}

#[test]
fn a_repeated_root_is_stripped_once() {
    let bytes = build_archive(&[("c/c/x.txt", Some(b"x")), ("c/y.txt", Some(b"y"))]);
    let extraction = extract_zip(&bytes).unwrap();
    assert_eq!(extraction.root_prefix.as_deref(), Some("c"));
    assert_eq!(extraction.entries[0].rel_path.to_text(), "c/x.txt");
    assert_eq!(extraction.entries[1].rel_path.to_text(), "y.txt");
}

#[test]
fn mode_bits_are_carried_over() {
    let mut writer = ZipWriter::new(Cursor::new(Vec::new()));
    writer
        .start_file("r/run.sh", SimpleFileOptions::default().unix_permissions(0o755))
        .unwrap();
    writer.write_all(b"#!/bin/sh\n").unwrap();
    writer
        .start_file("r/plain.txt", SimpleFileOptions::default().unix_permissions(0o600))
        .unwrap();
    writer.write_all(b"p").unwrap();
    let bytes = writer.finish().unwrap().into_inner();
    let extraction = extract_zip(&bytes).unwrap();
    assert_eq!(extraction.entries[0].unix_mode, Some(0o100755));
    assert_eq!(extraction.entries[1].unix_mode, Some(0o100600));
}

#[test]
fn compressed_content_is_read_back_exactly() {
    let content: Vec<u8> = (0..200_000u32).map(|i| (i % 251) as u8).collect();
    let mut writer = ZipWriter::new(Cursor::new(Vec::new()));
    writer
        .start_file(
            "data/blob.bin",
            SimpleFileOptions::default().compression_method(CompressionMethod::Deflated),
        )
        .unwrap();
    writer.write_all(&content).unwrap();
    writer.start_file("data/empty.bin", SimpleFileOptions::default()).unwrap();
    let bytes = writer.finish().unwrap().into_inner();
    assert!(bytes.len() < content.len());
    let extraction = extract_zip(&bytes).unwrap();
    assert_eq!(extraction.entries.len(), 2);
    assert_eq!(extraction.entries[0].data, content);
    assert_eq!(extraction.entries[0]._data_size, 200_000);
    assert!(extraction.entries[1].data.is_empty());
    assert_eq!(extraction.entries[1]._data_size, 0);
    assert!(!extraction.entries[1].is_dir);
}

#[test]
fn large_archives_are_written_side_by_side() {
    let big = vec![b'a'; 6 * 1024 * 1024];
    let mut writer = ZipWriter::new(Cursor::new(Vec::new()));
    writer.start_file("big/one.bin", stored()).unwrap();
    writer.write_all(&big).unwrap();
    writer.start_file("big/two.bin", stored()).unwrap();
    writer.write_all(&big).unwrap();
    let bytes = writer.finish().unwrap().into_inner();
    let extraction = extract_zip(&bytes).unwrap();
    assert_eq!(extraction.strategy, WriteStrategy::Parallel);
    assert_eq!(extraction.entries.len(), 2);

    let half = vec![b'a'; 5 * 1024 * 1024];
    let mut writer = ZipWriter::new(Cursor::new(Vec::new()));
    writer.start_file("big/one.bin", stored()).unwrap();
    writer.write_all(&half).unwrap();
    writer.start_file("big/two.bin", stored()).unwrap();
    writer.write_all(&half).unwrap();
    let bytes = writer.finish().unwrap().into_inner();
    assert_eq!(extract_zip(&bytes).unwrap().strategy, WriteStrategy::Sequential);
}

#[test]
fn extracting_twice_gives_the_same_entries() {
    let bytes = build_archive(&[
        ("p/", None),
        ("p/a.txt", Some(b"alpha")),
        ("p/d/", None),
        ("p/d/b.txt", Some(b"beta")),
    ]);
    let first = extract_zip(&bytes).unwrap();
    let second = extract_zip(&bytes).unwrap();
    assert_eq!(first.root_prefix, second.root_prefix);
    assert_eq!(first.strategy, second.strategy);
    assert_eq!(listing(&first), listing(&second));
}

#[test]
fn archive_gives_records_and_content_by_index() {
    let bytes = build_archive(&[("dir/", None), ("dir/a.txt", Some(b"hello")), ("w\\x.txt", Some(b"w"))]);
    let mut archive = Archive::open(&bytes).unwrap();
    assert_eq!(archive.len(), 3);

    let dir = archive.record(0).unwrap();
    assert_eq!(dir.name, "dir/");
    assert_eq!(dir.enclosed.as_deref(), Some("dir"));
    assert_eq!(dir.size, 0);
    assert!(dir.is_directory());

    let file = archive.record(1).unwrap();
    assert_eq!(file.name, "dir/a.txt");
    assert_eq!(file.enclosed.as_deref(), Some("dir/a.txt"));
    assert_eq!(file.size, 5);
    assert!(!file.is_directory());
    assert_eq!(archive.content(1).unwrap(), b"hello".to_vec());
    assert_eq!(archive.content(1).unwrap(), b"hello".to_vec());
    assert_eq!(archive.content(0).unwrap(), Vec::<u8>::new());

    let windows = archive.record(2).unwrap();
    assert_eq!(windows.name, "w\\x.txt");
    assert_eq!(windows.enclosed.as_deref(), Some("w/x.txt"));

    assert_eq!(archive.record(3).unwrap_err(), ExtractError::CorruptEntry { index: 3 });
    assert_eq!(archive.content(3).unwrap_err(), ExtractError::CorruptEntry { index: 3 });
    assert_eq!(archive.len(), 3);
}

#[test]
fn archive_refuses_what_is_no_container() {
    assert_eq!(Archive::open(b"PK nothing here").err(), Some(ExtractError::InvalidArchive));
    let empty = build_archive(&[]);
    assert_eq!(Archive::open(&empty).unwrap().len(), 0);
}

#[test]
fn the_passes_can_be_run_one_by_one() {
    let bytes = build_archive(&[("x/", None), ("x/a", Some(b"1")), ("x/b/", None), ("x/b/c", Some(b"22"))]);
    let mut archive = Archive::open(&bytes).unwrap();
    let records = read_records(&archive).unwrap();
    assert_eq!(records.len(), 4);
    let plan = plan_paths(&records).unwrap();
    assert_eq!(plan.root_prefix.as_deref(), Some("x"));
    let texts: Vec<String> = plan.rel_paths.iter().map(|p| p.to_text()).collect();
    assert_eq!(texts, vec!["", "a", "b", "b/c"]);

    let whole = extract_archive(&mut archive).unwrap();
    let texts: Vec<String> = whole.entries.iter().map(|e| e.rel_path.to_text()).collect();
    assert_eq!(texts, vec!["a", "b", "b/c"]);
    let indices: Vec<usize> = whole.entries.iter().map(|e| e._file_idx).collect();
    assert_eq!(indices, vec![1, 2, 3]);
    assert_eq!(whole.entries[2].data, b"22".to_vec());
    assert_eq!(extract_archive(&mut archive).unwrap().entries.len(), 3);
}
