//! What writing one entry consists of.
//!
//! The library touches no disk. For each entry it lists the steps to take
//! below the destination, in the order to take them; whoever holds the
//! destination performs them.

use crate::entry::{MemEntry, MemEntryView};
use crate::path::{parent_of, RelPath};
use vstd::prelude::*;

verus! {

/// One step of writing an entry. Paths are relative to the destination.
#[derive(Debug)]
pub enum WriteStep<'a> {
    /// Create the directory at `path` and every missing directory above it.
    /// A directory that exists already is left as it is. The empty path is
    /// the destination itself.
    CreateDirs { path: RelPath },
    /// Create the file at `path`, or empty it if it exists, and write all of
    /// `content` to it.
    WriteFile { path: RelPath, content: &'a Vec<u8> },
    /// Try to give the file at `path` the POSIX mode bits `mode`. A failure
    /// of this step is not a failure of the write.
    SetMode { path: RelPath, mode: u32 },
}

/// A `WriteStep` as a value of the model.
pub enum WriteStepView {
    CreateDirs { path: Seq<Seq<char>> },
    WriteFile { path: Seq<Seq<char>>, content: Seq<u8> },
    SetMode { path: Seq<Seq<char>>, mode: u32 },
}

impl<'a> View for WriteStep<'a> {
    type V = WriteStepView;

    open spec fn view(&self) -> WriteStepView {
        match self {
            WriteStep::CreateDirs { path } => WriteStepView::CreateDirs { path: path@ },
            WriteStep::WriteFile { path, content } => WriteStepView::WriteFile {
                path: path@,
                content: content@,
            },
            WriteStep::SetMode { path, mode } => WriteStepView::SetMode { path: path@, mode: *mode },
        }
    }
}

impl<'a> DeepView for WriteStep<'a> {
    type V = WriteStepView;

    open spec fn deep_view(&self) -> WriteStepView {
        self@
    }
}

/// Whether a failure of `step` fails the write: every step but the setting
/// of mode bits.
pub open spec fn is_required(step: WriteStepView) -> bool {
    !(step is SetMode)
}

/// The steps that write `entry`. A directory is created together with the
/// directories above it. A file has the directories above it created, then
/// its content written, then, where the archive recorded mode bits, these
/// bits set.
pub open spec fn write_steps(entry: MemEntryView) -> Seq<WriteStepView> {
    if entry.is_dir {
        seq![WriteStepView::CreateDirs { path: entry.rel_path }]
    } else {
        let create = WriteStepView::CreateDirs { path: parent_of(entry.rel_path) };
        let write = WriteStepView::WriteFile { path: entry.rel_path, content: entry.data };
        match entry.unix_mode {
            Some(mode) => seq![create, write, WriteStepView::SetMode { path: entry.rel_path, mode }],
            None => seq![create, write],
        }
    }
}

impl<'a> WriteStep<'a> {
    /// Whether a failure of this step fails the write.
    pub fn must_succeed(&self) -> (b: bool)
        ensures
            b == is_required(self@),
    {
        match self {
            WriteStep::SetMode { .. } => false,
            _ => true,
        }
    }
}

/// Lists the steps that write `entry` below the destination, in order.
pub fn write_entry<'a>(entry: &'a MemEntry) -> (steps: Vec<WriteStep<'a>>)
    ensures
        steps.deep_view() == write_steps(entry@),
{
    let mut steps: Vec<WriteStep<'a>> = Vec::new();
    if entry.is_dir {
        steps.push(WriteStep::CreateDirs { path: entry.rel_path.clone() });
    } else {
        steps.push(WriteStep::CreateDirs { path: entry.rel_path.parent() });
        steps.push(WriteStep::WriteFile { path: entry.rel_path.clone(), content: &entry.data });
        match entry.unix_mode {
            Some(mode) => {
                steps.push(WriteStep::SetMode { path: entry.rel_path.clone(), mode });
            },
            None => {},
        }
    }
    steps
}

} // verus!
