//! What holds of every extraction.
//!
//! The statements here relate the entries of a container, as the reader
//! finds them, to the entries that extraction hands out and to the tree that
//! writing them leaves.

use crate::archive::{zip_contents, StoredEntry};
use crate::entry::{enclosed_path, is_directory_name, MemEntryView};
use crate::error::{ErrorKind, ExtractError};
use crate::extract::{all_readable, all_recorded, contents_of, entry_at, extraction_of};
use crate::extract::{materialized, records_of, spec_extract};
use crate::extract::{lemma_materialized_complete, lemma_materialized_sound, ExtractionView};
use crate::path::{all_plain, is_plain_component, parent_of};
use crate::plan::{all_enclosed, enclosed_paths, stripped_paths};
use crate::plan::{lemma_no_root_keeps_paths, lemma_shared_root_is_removed};
use crate::prefix::{common_root, first_component, shares_root};
use crate::tree::{coherent, leads_to, makes_directory, makes_file, steps_of, touched, tree_of, Node};
use crate::tree::{lemma_steps_of_entries, lemma_tree_domain, lemma_tree_nodes};
use crate::writer::{write_steps, WriteStepView};
use vstd::prelude::*;

verus! {

/// The enclosed path of the entry at `i`.
pub open spec fn enclosed_at(stored: Seq<StoredEntry>, i: int) -> Seq<Seq<char>> {
    enclosed_path(stored[i].record->0)->0
}

/// What an extraction that succeeds is made of: every entry has a record
/// and an enclosed path, the root is the common first component of these
/// paths, and the entries are made from the paths without that root.
pub proof fn lemma_extraction_unfolds(stored: Seq<StoredEntry>)
    requires
        extraction_of(stored) is Ok,
    ensures
        stored.len() > 0,
        all_recorded(stored),
        all_enclosed(records_of(stored)),
        extraction_of(stored)->Ok_0.root_prefix == common_root(enclosed_paths(records_of(stored))),
        extraction_of(stored)->Ok_0.entries == materialized(
            records_of(stored),
            stripped_paths(
                enclosed_paths(records_of(stored)),
                common_root(enclosed_paths(records_of(stored))),
            ),
            contents_of(stored),
            stored.len(),
        ),
        all_readable(
            records_of(stored),
            stripped_paths(
                enclosed_paths(records_of(stored)),
                common_root(enclosed_paths(records_of(stored))),
            ),
            contents_of(stored),
        ),
        forall|i: int|
            0 <= i < stored.len() ==> #[trigger] enclosed_paths(records_of(stored))[i] == enclosed_at(
                stored,
                i,
            ),
{
}

/// An archive without entries is refused as malformed, and so nothing is
/// written for it.
pub proof fn lemma_empty_archive_is_refused()
    ensures
        spec_extract(Some(Seq::<StoredEntry>::empty())) == Err::<ExtractionView, ExtractError>(
            ExtractError::EmptyArchive,
        ),
        ExtractError::EmptyArchive.spec_kind() == ErrorKind::Format,
{
}

/// Extracting the same bytes twice gives the same outcome: the same
/// refusal, or the same entries and so the same tree.
pub proof fn lemma_extraction_is_repeatable(
    bytes: Seq<u8>,
    first: Result<ExtractionView, ExtractError>,
    second: Result<ExtractionView, ExtractError>,
)
    requires
        first == spec_extract(zip_contents(bytes)),
        second == spec_extract(zip_contents(bytes)),
    ensures
        first == second,
        first is Ok ==> tree_of(first->Ok_0.entries) == tree_of(second->Ok_0.entries),
{
}

/// Every entry with a path that is not empty has a node at its path.
pub proof fn lemma_entry_paths_are_nodes(entries: Seq<MemEntryView>, k: int)
    requires
        0 <= k < entries.len(),
        entries[k].rel_path.len() > 0,
    ensures
        tree_of(entries).dom().contains(entries[k].rel_path),
{
    let entry = entries[k];
    let path = entry.rel_path;
    let steps = steps_of(entries);
    let step = if entry.is_dir {
        WriteStepView::CreateDirs { path }
    } else {
        WriteStepView::WriteFile { path, content: entry.data }
    };
    assert(write_steps(entry).contains(step)) by {
        if entry.is_dir {
            assert(write_steps(entry)[0] == step);
        } else {
            assert(write_steps(entry)[1] == step);
        }
    }
    lemma_steps_of_entries(entries);
    assert(steps.contains(step));
    let j = choose|j: int| 0 <= j < steps.len() && steps[j] == step;
    assert(path.take(path.len() as int) == path);
    assert(makes_directory(steps[j], path) || makes_file(steps[j], path));
    assert(touched(steps, path));
    lemma_tree_domain(steps);
}

/// Every node of the tree is the path of an entry or a directory above one.
pub proof fn lemma_nodes_come_from_entries(entries: Seq<MemEntryView>, at: Seq<Seq<char>>)
    requires
        forall|k: int| 0 <= k < entries.len() ==> (#[trigger] entries[k]).rel_path.len() > 0,
        tree_of(entries).dom().contains(at),
    ensures
        exists|k: int| 0 <= k < entries.len() && leads_to(at, (#[trigger] entries[k]).rel_path),
{
    let steps = steps_of(entries);
    lemma_tree_domain(steps);
    assert(touched(steps, at));
    let j = choose|j: int|
        0 <= j < steps.len() && (makes_directory(#[trigger] steps[j], at) || makes_file(
            steps[j],
            at,
        ));
    let step = steps[j];
    assert(steps.contains(step));
    lemma_steps_of_entries(entries);
    let k = choose|k: int| 0 <= k < entries.len() && write_steps(#[trigger] entries[k]).contains(step);
    let entry = entries[k];
    let path = entry.rel_path;
    let own = write_steps(entry);
    let m = choose|m: int| 0 <= m < own.len() && own[m] == step;
    assert(leads_to(at, path)) by {
        if makes_file(step, at) {
            assert(at == path);
            assert(path.take(path.len() as int) == path);
        } else {
            let made = step->CreateDirs_path;
            assert(leads_to(at, made));
            if made != path {
                assert(made == parent_of(path));
                assert(made == path.drop_last());
                assert(path.take(at.len() as int) == made.take(at.len() as int));
            }
        }
    }
}

/// Nothing is written outside the destination: where every entry has a
/// path of plain components that is not empty, so has every node of the
/// tree. No node is the destination itself, and no node is reached through
/// `..`, through an absolute path or through an empty name.
pub proof fn lemma_tree_stays_inside(entries: Seq<MemEntryView>)
    requires
        forall|k: int| 0 <= k < entries.len() ==> (#[trigger] entries[k]).well_formed(),
    ensures
        forall|at: Seq<Seq<char>>| #[trigger]
            tree_of(entries).dom().contains(at) ==> at.len() > 0 && all_plain(at),
{
    assert forall|at: Seq<Seq<char>>| #[trigger] tree_of(entries).dom().contains(at) implies at.len()
        > 0 && all_plain(at) by {
        lemma_nodes_come_from_entries(entries, at);
        let k = choose|k: int| 0 <= k < entries.len() && leads_to(at, (#[trigger] entries[k]).rel_path);
        let path = entries[k].rel_path;
        assert(entries[k].well_formed());
        assert forall|i: int| 0 <= i < at.len() implies is_plain_component(#[trigger] at[i]) by {
            assert(path.take(at.len() as int)[i] == path[i]);
            assert(is_plain_component(path[i]));
        }
    }
}

/// Where every enclosed path starts with one and the same component, that
/// component is the root, and each entry lies at its enclosed path without
/// the root: what the archive holds below its top-level directory appears
/// directly below the destination.
pub proof fn lemma_shared_root_is_stripped(stored: Seq<StoredEntry>, root: Seq<char>)
    requires
        stored.len() <= usize::MAX,
        extraction_of(stored) is Ok,
        root.len() > 0,
        forall|i: int| 0 <= i < stored.len() ==> first_component(#[trigger] enclosed_at(stored, i))
            == root,
    ensures
        extraction_of(stored)->Ok_0.root_prefix == Some(root),
        forall|k: int|
            0 <= k < extraction_of(stored)->Ok_0.entries.len() ==> {
                let entry = #[trigger] extraction_of(stored)->Ok_0.entries[k];
                &&& entry.file_idx < stored.len()
                &&& entry.rel_path.len() > 0
                &&& entry.rel_path == enclosed_at(stored, entry.file_idx as int).drop_first()
            },
        forall|m: int|
            0 <= m < stored.len() && (#[trigger] enclosed_at(stored, m)).len() > 1 ==> tree_of(
                extraction_of(stored)->Ok_0.entries,
            ).dom().contains(enclosed_at(stored, m).drop_first()),
{
    lemma_extraction_unfolds(stored);
    let records = records_of(stored);
    let paths = enclosed_paths(records);
    assert(shares_root(paths, root)) by {
        assert forall|i: int| 0 <= i < paths.len() implies #[trigger] first_component(paths[i])
            == root by {
            assert(paths[i] == enclosed_at(stored, i));
        }
    }
    assert(first_component(paths[0]) == root);
    assert(common_root(paths) == Some(root));
    lemma_shared_root_is_removed(records, root);
    let rel_paths = stripped_paths(paths, Some(root));
    lemma_materialized_sound(records, rel_paths, contents_of(stored), stored.len());
    let entries = extraction_of(stored)->Ok_0.entries;
    assert forall|k: int| 0 <= k < entries.len() implies {
        let entry = #[trigger] entries[k];
        &&& entry.file_idx < stored.len()
        &&& entry.rel_path.len() > 0
        &&& entry.rel_path == enclosed_at(stored, entry.file_idx as int).drop_first()
    } by {
        let i = entries[k].file_idx as int;
        assert(entries[k] == entry_at(records, rel_paths, contents_of(stored), i));
        assert(paths[i] == enclosed_at(stored, i));
        assert(records[i] == stored[i].record->0);
    }
    assert forall|m: int|
        0 <= m < stored.len() && (#[trigger] enclosed_at(stored, m)).len() > 1 implies tree_of(
        entries,
    ).dom().contains(enclosed_at(stored, m).drop_first()) by {
        assert(paths[m] == enclosed_at(stored, m));
        assert(first_component(paths[m]) == root);
        assert(rel_paths[m] == paths[m].drop_first());
        lemma_materialized_complete(records, rel_paths, contents_of(stored), stored.len(), m);
        let entry = entry_at(records, rel_paths, contents_of(stored), m);
        let k = choose|k: int| 0 <= k < entries.len() && entries[k] == entry;
        lemma_entry_paths_are_nodes(entries, k);
    }
}

/// Where every enclosed path starts with one and the same component, and
/// none of them repeats it as its second component, the tree holds no node
/// of that name directly below the destination.
pub proof fn lemma_shared_root_leaves_no_node(stored: Seq<StoredEntry>, root: Seq<char>)
    requires
        stored.len() <= usize::MAX,
        extraction_of(stored) is Ok,
        root.len() > 0,
        forall|i: int| 0 <= i < stored.len() ==> first_component(#[trigger] enclosed_at(stored, i))
            == root,
        forall|i: int|
            0 <= i < stored.len() && (#[trigger] enclosed_at(stored, i)).len() >= 2 ==> enclosed_at(
                stored,
                i,
            )[1] != root,
    ensures
        !tree_of(extraction_of(stored)->Ok_0.entries).dom().contains(seq![root]),
{
    lemma_shared_root_is_stripped(stored, root);
    let entries = extraction_of(stored)->Ok_0.entries;
    let at = seq![root];
    if tree_of(entries).dom().contains(at) {
        lemma_nodes_come_from_entries(entries, at);
        let k = choose|k: int| 0 <= k < entries.len() && leads_to(at, (#[trigger] entries[k]).rel_path);
        let path = entries[k].rel_path;
        let i = entries[k].file_idx as int;
        assert(path.take(1)[0] == at[0]);
        assert(path[0] == root);
        assert(path == enclosed_at(stored, i).drop_first());
        assert(path[0] == enclosed_at(stored, i)[1]);
        assert(false);
    }
}

/// Where two enclosed paths start differently, or one has no first
/// component, there is no root; every entry lies at its enclosed path as it
/// is, and every enclosed path that is not empty is a node of the tree.
pub proof fn lemma_disagreement_keeps_paths(stored: Seq<StoredEntry>, i: int, j: int)
    requires
        stored.len() <= usize::MAX,
        extraction_of(stored) is Ok,
        0 <= i < stored.len(),
        0 <= j < stored.len(),
        first_component(enclosed_at(stored, i)) != first_component(enclosed_at(stored, j))
            || first_component(enclosed_at(stored, i)).len() == 0,
    ensures
        extraction_of(stored)->Ok_0.root_prefix is None,
        forall|k: int|
            0 <= k < extraction_of(stored)->Ok_0.entries.len() ==> {
                let entry = #[trigger] extraction_of(stored)->Ok_0.entries[k];
                &&& entry.file_idx < stored.len()
                &&& entry.rel_path == enclosed_at(stored, entry.file_idx as int)
            },
        forall|m: int|
            0 <= m < stored.len() && (#[trigger] enclosed_at(stored, m)).len() > 0 ==> tree_of(
                extraction_of(stored)->Ok_0.entries,
            ).dom().contains(enclosed_at(stored, m)),
{
    lemma_extraction_unfolds(stored);
    let records = records_of(stored);
    let paths = enclosed_paths(records);
    assert(paths[i] == enclosed_at(stored, i));
    assert(paths[j] == enclosed_at(stored, j));
    assert(common_root(paths) is None) by {
        if common_root(paths) is Some {
            let root = first_component(paths[0]);
            assert(shares_root(paths, root));
            assert(first_component(paths[i]) == root);
            assert(first_component(paths[j]) == root);
        }
    }
    lemma_no_root_keeps_paths(records);
    let rel_paths = stripped_paths(paths, None);
    let entries = extraction_of(stored)->Ok_0.entries;
    lemma_materialized_sound(records, rel_paths, contents_of(stored), stored.len());
    assert forall|k: int| 0 <= k < entries.len() implies {
        let entry = #[trigger] entries[k];
        &&& entry.file_idx < stored.len()
        &&& entry.rel_path == enclosed_at(stored, entry.file_idx as int)
    } by {
        let m = entries[k].file_idx as int;
        assert(entries[k] == entry_at(records, rel_paths, contents_of(stored), m));
        assert(paths[m] == enclosed_at(stored, m));
    }
    assert forall|m: int|
        0 <= m < stored.len() && (#[trigger] enclosed_at(stored, m)).len() > 0 implies tree_of(
        entries,
    ).dom().contains(enclosed_at(stored, m)) by {
        assert(paths[m] == enclosed_at(stored, m));
        assert(rel_paths[m] == paths[m]);
        lemma_materialized_complete(records, rel_paths, contents_of(stored), stored.len(), m);
        let entry = entry_at(records, rel_paths, contents_of(stored), m);
        let k = choose|k: int| 0 <= k < entries.len() && entries[k] == entry;
        lemma_entry_paths_are_nodes(entries, k);
    }
}

/// A directory entry carries no content and a file entry carries exactly
/// the content stored in the archive.
pub proof fn lemma_entries_carry_stored_content(stored: Seq<StoredEntry>)
    requires
        stored.len() <= usize::MAX,
        extraction_of(stored) is Ok,
    ensures
        forall|k: int|
            0 <= k < extraction_of(stored)->Ok_0.entries.len() ==> {
                let entry = #[trigger] extraction_of(stored)->Ok_0.entries[k];
                let source = stored[entry.file_idx as int];
                &&& entry.file_idx < stored.len()
                &&& entry.is_dir == is_directory_name((source.record->0).name)
                &&& entry.is_dir ==> entry.data.len() == 0
                &&& !entry.is_dir ==> source.content == Some(entry.data)
            },
{
    lemma_extraction_unfolds(stored);
    let records = records_of(stored);
    let paths = enclosed_paths(records);
    let rel_paths = stripped_paths(paths, common_root(paths));
    let entries = extraction_of(stored)->Ok_0.entries;
    lemma_materialized_sound(records, rel_paths, contents_of(stored), stored.len());
    assert forall|k: int| 0 <= k < entries.len() implies {
        let entry = #[trigger] entries[k];
        let source = stored[entry.file_idx as int];
        &&& entry.file_idx < stored.len()
        &&& entry.is_dir == is_directory_name((source.record->0).name)
        &&& entry.is_dir ==> entry.data.len() == 0
        &&& !entry.is_dir ==> source.content == Some(entry.data)
    } by {
        let m = entries[k].file_idx as int;
        assert(entries[k] == entry_at(records, rel_paths, contents_of(stored), m));
        assert(rel_paths[m].len() > 0);
    }
}

/// Where the steps of the entries are coherent, the tree holds a directory
/// at the path of every directory entry, and at the path of every file entry
/// a file with exactly the content of the entry.
pub proof fn lemma_entries_become_nodes(entries: Seq<MemEntryView>)
    requires
        coherent(steps_of(entries)),
    ensures
        forall|k: int|
            0 <= k < entries.len() && (#[trigger] entries[k]).rel_path.len() > 0 ==> {
                &&& tree_of(entries).dom().contains(entries[k].rel_path)
                &&& entries[k].is_dir ==> tree_of(entries)[entries[k].rel_path] == Node::Directory
                &&& !entries[k].is_dir ==> tree_of(entries)[entries[k].rel_path] == (Node::File {
                    content: entries[k].data,
                })
            },
{
    let steps = steps_of(entries);
    lemma_steps_of_entries(entries);
    lemma_tree_nodes(steps);
    assert forall|k: int|
        0 <= k < entries.len() && (#[trigger] entries[k]).rel_path.len() > 0 implies {
        &&& tree_of(entries).dom().contains(entries[k].rel_path)
        &&& entries[k].is_dir ==> tree_of(entries)[entries[k].rel_path] == Node::Directory
        &&& !entries[k].is_dir ==> tree_of(entries)[entries[k].rel_path] == (Node::File {
            content: entries[k].data,
        })
    } by {
        let entry = entries[k];
        let path = entry.rel_path;
        lemma_entry_paths_are_nodes(entries, k);
        let step = if entry.is_dir {
            WriteStepView::CreateDirs { path }
        } else {
            WriteStepView::WriteFile { path, content: entry.data }
        };
        assert(write_steps(entry).contains(step)) by {
            if entry.is_dir {
                assert(write_steps(entry)[0] == step);
            } else {
                assert(write_steps(entry)[1] == step);
            }
        }
        assert(steps.contains(step));
        let j = choose|j: int| 0 <= j < steps.len() && steps[j] == step;
        if entry.is_dir {
            assert(path.take(path.len() as int) == path);
            assert(makes_directory(steps[j], path));
        } else {
            assert(steps[j] is WriteFile);
        }
    }
}

} // verus!
