use std::path::Path;

use gitripper::{write_entry, MemEntry, RelPath, WriteStep};

fn perform(entry: &MemEntry, dest: &Path) {
    for step in write_entry(entry) {
        match step {
            WriteStep::CreateDirs { path } => {
                fs_extra::dir::create_all(dest.join(path.to_text()), false).unwrap();
            }
            WriteStep::WriteFile { path, content } => {
                let text = std::str::from_utf8(content).unwrap();
                fs_extra::file::write_all(dest.join(path.to_text()), text).unwrap();
            }
            WriteStep::SetMode { .. } => {}
        }
    }
}

fn describe(steps: &[WriteStep]) -> Vec<String> {
    steps
        .iter()
        .map(|step| match step {
            WriteStep::CreateDirs { path } => format!("dirs {}", path.to_text()),
            WriteStep::WriteFile { path, content } => {
                format!("file {} {:?}", path.to_text(), content)
            }
            WriteStep::SetMode { path, mode } => format!("mode {} {:o}", path.to_text(), mode),
        })
        .collect()
}

#[test]
fn test_write_entry_file() {
    let temp_dir = tempfile::tempdir().unwrap();
    let dest = temp_dir.path();

    let entry = MemEntry {
        rel_path: RelPath::parse("test.txt").unwrap(),
        is_dir: false,
        _data_size: 11,
        unix_mode: Some(0o644),
        _file_idx: 0,
        data: b"hello world".to_vec(),
    };

    perform(&entry, dest);

    let file_path = dest.join("test.txt");
    assert!(file_path.exists());
    let content = fs_extra::file::read_to_string(&file_path).unwrap();
    assert_eq!(content, "hello world");
}

#[test]
fn test_write_entry_nested_file() {
    let temp_dir = tempfile::tempdir().unwrap();
    let dest = temp_dir.path();

    let entry = MemEntry {
        rel_path: RelPath::parse("nested/dir/test.txt").unwrap(),
        is_dir: false,
        _data_size: 5,
        unix_mode: Some(0o644),
        _file_idx: 0,
        data: b"hello".to_vec(),
    };

    perform(&entry, dest);

    let file_path = dest.join("nested/dir/test.txt");
    assert!(file_path.exists());
    let content = fs_extra::file::read_to_string(&file_path).unwrap();
    assert_eq!(content, "hello");
}

#[test]
fn test_write_entry_directory() {
    let temp_dir = tempfile::tempdir().unwrap();
    let dest = temp_dir.path();

    let entry = MemEntry {
        rel_path: RelPath::parse("mydir").unwrap(),
        is_dir: true,
        _data_size: 0,
        unix_mode: None,
        _file_idx: 0,
        data: Vec::new(),
    };

    perform(&entry, dest);

    let dir_path = dest.join("mydir");
    assert!(dir_path.is_dir());
}

#[test]
fn steps_of_a_file_with_mode_bits() {
    let entry = MemEntry {
        rel_path: RelPath::parse("nested/dir/test.txt").unwrap(),
        is_dir: false,
        _data_size: 2,
        unix_mode: Some(0o755),
        _file_idx: 0,
        data: vec![104, 105],
    };
    let steps = write_entry(&entry);
    assert_eq!(
        describe(&steps),
        vec!["dirs nested/dir", "file nested/dir/test.txt [104, 105]", "mode nested/dir/test.txt 755"]
    );
    assert!(steps[0].must_succeed());
    assert!(steps[1].must_succeed());
    assert!(!steps[2].must_succeed());
}

#[test]
fn steps_of_a_file_without_mode_bits() {
    let entry = MemEntry {
        rel_path: RelPath::parse("top.txt").unwrap(),
        is_dir: false,
        _data_size: 0,
        unix_mode: None,
        _file_idx: 0,
        data: Vec::new(),
    };
    assert_eq!(describe(&write_entry(&entry)), vec!["dirs ", "file top.txt []"]);
}

#[test]
fn steps_of_a_directory_never_write_or_set_modes() {
    let entry = MemEntry {
        rel_path: RelPath::parse("a/b").unwrap(),
        is_dir: true,
        _data_size: 0,
        unix_mode: Some(0o700),
        _file_idx: 0,
        data: Vec::new(),
    };
    assert_eq!(describe(&write_entry(&entry)), vec!["dirs a/b"]);
}

#[test]
fn writing_a_directory_twice_is_no_error() {
    let temp_dir = tempfile::tempdir().unwrap();
    let dest = temp_dir.path();
    let entry = MemEntry {
        rel_path: RelPath::parse("a/b").unwrap(),
        is_dir: true,
        _data_size: 0,
        unix_mode: None,
        _file_idx: 0,
        data: Vec::new(),
    };
    perform(&entry, dest);
    perform(&entry, dest);
    assert!(dest.join("a/b").is_dir());
}

#[test]
fn writing_a_file_again_replaces_its_content() {
    let temp_dir = tempfile::tempdir().unwrap();
    let dest = temp_dir.path();
    let mut entry = MemEntry {
        rel_path: RelPath::parse("a/f.txt").unwrap(),
        is_dir: false,
        _data_size: 10,
        unix_mode: None,
        _file_idx: 0,
        data: b"first long".to_vec(),
    };
    perform(&entry, dest);
    entry.data = b"second".to_vec();
    perform(&entry, dest);
    assert_eq!(fs_extra::file::read_to_string(dest.join("a/f.txt")).unwrap(), "second");
}
