//! The records of an archive and the entries made from them.

use crate::path::{all_plain, spec_parse, RelPath};
use crate::text::chars_of;
use vstd::prelude::*;

verus! {

/// What an archive records of one entry, before any content is read.
#[derive(Debug)]
pub struct RawEntry {
    /// The name as stored, relative to the archive.
    pub name: String,
    /// The text of the stored name made safe, where it can be.
    pub enclosed: Option<String>,
    /// The POSIX mode bits, where the archive recorded some.
    pub unix_mode: Option<u32>,
    /// The declared size of the content once decompressed.
    pub size: u64,
}

/// A `RawEntry` as a value of the model.
pub struct RawEntryView {
    pub name: Seq<char>,
    pub enclosed: Option<Seq<char>>,
    pub unix_mode: Option<u32>,
    pub size: u64,
}

impl View for RawEntry {
    type V = RawEntryView;

    open spec fn view(&self) -> RawEntryView {
        RawEntryView {
            name: self.name@,
            enclosed: self.enclosed.deep_view(),
            unix_mode: self.unix_mode,
            size: self.size,
        }
    }
}

impl DeepView for RawEntry {
    type V = RawEntryView;

    open spec fn deep_view(&self) -> RawEntryView {
        self@
    }
}

/// Whether a stored name denotes a directory: it ends with a separator.
pub open spec fn is_directory_name(name: Seq<char>) -> bool {
    name.len() > 0 && name.last() == '/'
}

/// Whether a stored name is absolute: it starts with a separator.
pub open spec fn is_rooted_name(name: Seq<char>) -> bool {
    name.len() > 0 && name[0] == '/'
}

/// The enclosed path of a record: the path that its enclosed name spells.
/// There is none where the stored name is absolute, where the archive
/// reader found no safe name, or where the name it gave is not made of plain
/// components.
pub open spec fn enclosed_path(record: RawEntryView) -> Option<Seq<Seq<char>>> {
    if is_rooted_name(record.name) {
        None
    } else {
        match record.enclosed {
            Some(text) => spec_parse(text),
            None => None,
        }
    }
}

/// An entry ready to be written: its place below the destination, and for a
/// file its content.
#[derive(Debug)]
pub struct MemEntry {
    /// The path below the destination. It is never empty.
    pub rel_path: RelPath,
    /// Whether the entry is a directory.
    pub is_dir: bool,
    /// The declared size of a file, and 0 for a directory.
    pub _data_size: u64,
    /// The POSIX mode bits, where the archive recorded some.
    pub unix_mode: Option<u32>,
    /// The index of the entry in its archive.
    pub _file_idx: usize,
    /// The content of a file. A directory has none.
    pub data: Vec<u8>,
}

/// A `MemEntry` as a value of the model.
pub struct MemEntryView {
    pub rel_path: Seq<Seq<char>>,
    pub is_dir: bool,
    pub data_size: u64,
    pub unix_mode: Option<u32>,
    pub file_idx: usize,
    pub data: Seq<u8>,
}

impl View for MemEntry {
    type V = MemEntryView;

    open spec fn view(&self) -> MemEntryView {
        MemEntryView {
            rel_path: self.rel_path@,
            is_dir: self.is_dir,
            data_size: self._data_size,
            unix_mode: self.unix_mode,
            file_idx: self._file_idx,
            data: self.data@,
        }
    }
}

impl DeepView for MemEntry {
    type V = MemEntryView;

    open spec fn deep_view(&self) -> MemEntryView {
        self@
    }
}

impl MemEntryView {
    /// What holds of every entry that extraction hands out: the path is not
    /// empty and made of plain components, so it names a place strictly
    /// below the destination, and a directory carries no content.
    pub open spec fn well_formed(self) -> bool {
        &&& self.rel_path.len() > 0
        &&& all_plain(self.rel_path)
        &&& self.is_dir ==> self.data.len() == 0 && self.data_size == 0
    }
}

/// The entry made from the record at `index`, placed at `rel_path`, with
/// `content` read from the archive. A record whose name denotes a directory
/// gives a directory without content and of size 0, whatever `content`
/// holds. Any other record gives a file with the content and the declared
/// size. The mode bits are carried over as they are.
pub open spec fn mem_entry(
    record: RawEntryView,
    rel_path: Seq<Seq<char>>,
    index: usize,
    content: Seq<u8>,
) -> MemEntryView {
    let is_dir = is_directory_name(record.name);
    MemEntryView {
        rel_path,
        is_dir,
        data_size: if is_dir {
            0
        } else {
            record.size
        },
        unix_mode: record.unix_mode,
        file_idx: index,
        data: if is_dir {
            Seq::<u8>::empty()
        } else {
            content
        },
    }
}

impl RawEntry {
    /// Whether the stored name denotes a directory.
    pub fn is_directory(&self) -> (b: bool)
        ensures
            b == is_directory_name(self.name@),
    {
        let chars = chars_of(self.name.as_str());
        let n = chars.len();
        n > 0 && chars[n - 1] == '/'
    }

    /// Whether the stored name is absolute.
    pub fn is_rooted(&self) -> (b: bool)
        ensures
            b == is_rooted_name(self.name@),
    {
        let chars = chars_of(self.name.as_str());
        chars.len() > 0 && chars[0] == '/'
    }

    /// The enclosed path of the record, if it has one.
    pub fn enclosed_path(&self) -> (path: Option<RelPath>)
        ensures
            path.deep_view() == enclosed_path(self@),
    {
        if self.is_rooted() {
            return None;
        }
        match &self.enclosed {
            Some(text) => RelPath::parse(text.as_str()),
            None => None,
        }
    }
}

/// Makes the entry of the record at `index`, placed at `rel_path`. For a
/// file, `content` is what was read from the archive; for a directory it is
/// dropped.
pub fn materialize_entry(record: &RawEntry, rel_path: RelPath, index: usize, content: Vec<u8>) -> (entry:
    MemEntry)
    ensures
        entry@ == mem_entry(record@, rel_path@, index, content@),
        rel_path@.len() > 0 ==> entry@.well_formed(),
{
    proof {
        use_type_invariant(&rel_path);
    }
    if record.is_directory() {
        MemEntry {
            rel_path,
            is_dir: true,
            _data_size: 0,
            unix_mode: record.unix_mode,
            _file_idx: index,
            data: Vec::new(),
        }
    } else {
        MemEntry {
            rel_path,
            is_dir: false,
            _data_size: record.size,
            unix_mode: record.unix_mode,
            _file_idx: index,
            data: content,
        }
    }
}

} // verus!
