use std::io::{Cursor, Write};
use std::path::Path;

use gitripper::{extract_zip, write_entry, Extraction, MemEntry, WriteStep, WriteStrategy};
use zip::write::SimpleFileOptions;
use zip::{CompressionMethod, ZipWriter};

fn build_archive(entries: &[(&str, Option<&[u8]>)]) -> Vec<u8> {
    let mut writer = ZipWriter::new(Cursor::new(Vec::new()));
    let options = SimpleFileOptions::default().compression_method(CompressionMethod::Stored);
    for (name, content) in entries {
        match content {
            Some(bytes) => {
                writer.start_file(*name, options).unwrap();
                writer.write_all(bytes).unwrap();
            }
            None => {
                writer.add_directory(*name, options).unwrap();
            }
        }
    }
    writer.finish().unwrap().into_inner()
}

fn perform(entry: &MemEntry, dest: &Path) {
    for step in write_entry(entry) {
        match step {
            WriteStep::CreateDirs { path } => {
                fs_extra::dir::create_all(dest.join(path.to_text()), false).unwrap();
            }
            WriteStep::WriteFile { path, content } => {
                let text = std::str::from_utf8(content).unwrap();
                fs_extra::file::write_all(dest.join(path.to_text()), text).unwrap();
            }
            WriteStep::SetMode { .. } => {}
        }
    }
}

fn write_in_order(extraction: &Extraction, dest: &Path) {
    for entry in &extraction.entries {
        perform(entry, dest);
    }
}

fn write_backwards(extraction: &Extraction, dest: &Path) {
    for entry in extraction.entries.iter().rev() {
        perform(entry, dest);
    }
}

fn tree(dest: &Path) -> (Vec<String>, Vec<(String, String)>) {
    let content = fs_extra::dir::get_dir_content(dest).unwrap();
    let root = dest.to_string_lossy().into_owned();
    let mut dirs: Vec<String> = content
        .directories
        .iter()
        .map(|d| d.strip_prefix(&root).unwrap().trim_start_matches('/').to_string())
        .filter(|d| !d.is_empty())
        .collect();
    dirs.sort();
    let mut files: Vec<(String, String)> = content
        .files
        .iter()
        .map(|f| {
            (
                f.strip_prefix(&root).unwrap().trim_start_matches('/').to_string(),
                fs_extra::file::read_to_string(f).unwrap(),
            )
        })
        .collect();
    files.sort();
    (dirs, files)
}

#[test]
fn common_prefix_on_disk() {
    let bytes = build_archive(&[
        ("proj-main/", None),
        ("proj-main/src/a.txt", Some(b"hi")),
        ("proj-main/src/", None),
    ]);
    let extraction = extract_zip(&bytes).unwrap();
    let temp = tempfile::tempdir().unwrap();
    write_in_order(&extraction, temp.path());
    assert!(!temp.path().join("proj-main").exists());
    assert!(temp.path().join("src").is_dir());
    assert_eq!(fs_extra::file::read_to_string(temp.path().join("src/a.txt")).unwrap(), "hi");
    assert_eq!(
        tree(temp.path()),
        (vec!["src".to_string()], vec![("src/a.txt".to_string(), "hi".to_string())])
    );
}

#[test]
fn different_tops_on_disk() {
    let bytes = build_archive(&[("a/file1.txt", Some(b"x")), ("b/file2.txt", Some(b"y"))]);
    let extraction = extract_zip(&bytes).unwrap();
    let temp = tempfile::tempdir().unwrap();
    write_in_order(&extraction, temp.path());
    assert_eq!(fs_extra::file::read_to_string(temp.path().join("a/file1.txt")).unwrap(), "x");
    assert_eq!(fs_extra::file::read_to_string(temp.path().join("b/file2.txt")).unwrap(), "y");
    assert_eq!(
        tree(temp.path()),
        (
            vec!["a".to_string(), "b".to_string()],
            vec![
                ("a/file1.txt".to_string(), "x".to_string()),
                ("b/file2.txt".to_string(), "y".to_string())
            ]
        )
    );
}

#[test]
fn parent_traversal_writes_nothing() {
    let bytes = build_archive(&[("../outside.txt", Some(b"evil"))]);
    let outer = tempfile::tempdir().unwrap();
    let dest = outer.path().join("dest");
    assert!(extract_zip(&bytes).is_err());
    assert!(!dest.exists());
    assert!(!outer.path().join("outside.txt").exists());
}

#[test]
fn an_empty_archive_leaves_the_destination_absent() {
    let bytes = build_archive(&[]);
    let outer = tempfile::tempdir().unwrap();
    let dest = outer.path().join("dest");
    assert!(extract_zip(&bytes).is_err());
    assert!(!dest.exists());
}

#[test]
fn extracting_twice_gives_identical_trees() {
    let bytes = build_archive(&[
        ("r/", None),
        ("r/a.txt", Some(b"alpha")),
        ("r/deep/", None),
        ("r/deep/er/b.txt", Some(b"beta")),
        ("r/empty/", None),
    ]);
    let first = tempfile::tempdir().unwrap();
    let second = tempfile::tempdir().unwrap();
    write_in_order(&extract_zip(&bytes).unwrap(), first.path());
    write_in_order(&extract_zip(&bytes).unwrap(), second.path());
    let expected_dirs: Vec<String> =
        ["deep", "deep/er", "empty"].iter().map(|d| d.to_string()).collect();
    assert_eq!(tree(first.path()).0, expected_dirs);
    assert_eq!(tree(first.path()), tree(second.path()));
}

#[test]
fn the_order_of_writing_does_not_change_the_tree() {
    let filler = vec![b'z'; 4 * 1024 * 1024];
    let bytes = build_archive(&[
        ("r/one.txt", Some(&filler)),
        ("r/d/", None),
        ("r/d/two.txt", Some(&filler)),
        ("r/d/e/three.txt", Some(&filler)),
        ("r/last/", None),
    ]);
    let extraction = extract_zip(&bytes).unwrap();
    assert_eq!(extraction.strategy, WriteStrategy::Parallel);
    let forwards = tempfile::tempdir().unwrap();
    let backwards = tempfile::tempdir().unwrap();
    write_in_order(&extraction, forwards.path());
    write_backwards(&extraction, backwards.path());
    let written = tree(forwards.path());
    assert_eq!(written.0, vec!["d".to_string(), "d/e".to_string(), "last".to_string()]);
    assert_eq!(written.1.len(), 3);
    assert_eq!(written.1[0].1.len(), 4 * 1024 * 1024);
    assert_eq!(written, tree(backwards.path()));
}
