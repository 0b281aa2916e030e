//! From the bytes of an archive to the entries to write.
//!
//! Extraction reads the whole archive before anything is written. It runs
//! in two passes. The first reads the record of every entry and plans the
//! paths; the second reads the content of every file that is kept. A
//! failure in either pass ends the extraction with nothing to write.

use crate::archive::{zip_contents, Archive, StoredEntry};
use crate::entry::{is_directory_name, materialize_entry, mem_entry};
use crate::entry::{MemEntry, MemEntryView, RawEntry, RawEntryView};
use crate::error::ExtractError;
use crate::path::RelPath;
use crate::plan::{plan_paths, spec_plan_paths, PathPlan, PathPlanView};
use crate::schedule::{schedule, strategy_for, total_payload, WriteStrategy};
use vstd::prelude::*;

verus! {

/// What there is to write for one archive.
#[derive(Debug)]
pub struct Extraction {
    /// The top-level directory that was removed from every path, if any.
    pub root_prefix: Option<String>,
    /// The entries to write, in the order of the archive.
    pub entries: Vec<MemEntry>,
    /// How to write them.
    pub strategy: WriteStrategy,
}

/// An `Extraction` as a value of the model.
pub struct ExtractionView {
    pub root_prefix: Option<Seq<char>>,
    pub entries: Seq<MemEntryView>,
    pub strategy: WriteStrategy,
}

impl View for Extraction {
    type V = ExtractionView;

    open spec fn view(&self) -> ExtractionView {
        ExtractionView {
            root_prefix: self.root_prefix.deep_view(),
            entries: self.entries.deep_view(),
            strategy: self.strategy,
        }
    }
}

/// What was read of one entry of a container: its record, unless that
/// cannot be read, and its content, unless that cannot be read.
#[derive(Debug)]
pub struct EntryRead {
    pub record: Option<RawEntry>,
    pub content: Option<Vec<u8>>,
}

impl View for EntryRead {
    type V = StoredEntry;

    open spec fn view(&self) -> StoredEntry {
        StoredEntry { record: self.record.deep_view(), content: self.content.deep_view() }
    }
}

impl DeepView for EntryRead {
    type V = StoredEntry;

    open spec fn deep_view(&self) -> StoredEntry {
        self@
    }
}

/// Whether the entry at `i` is the first one without a record.
pub open spec fn is_first_without_record(stored: Seq<StoredEntry>, i: int) -> bool {
    &&& 0 <= i < stored.len()
    &&& stored[i].record is None
    &&& forall|j: int| 0 <= j < i ==> (#[trigger] stored[j]).record is Some
}

/// Whether every entry has a record.
pub open spec fn all_recorded(stored: Seq<StoredEntry>) -> bool {
    forall|i: int| 0 <= i < stored.len() ==> (#[trigger] stored[i]).record is Some
}

/// The records of the entries, in order.
pub open spec fn records_of(stored: Seq<StoredEntry>) -> Seq<RawEntryView> {
    Seq::new(stored.len(), |i: int| stored[i].record->0)
}

/// What reading the content of each entry gives, in order.
pub open spec fn contents_of(stored: Seq<StoredEntry>) -> Seq<Option<Seq<u8>>> {
    Seq::new(stored.len(), |i: int| stored[i].content)
}

/// Whether the content of an entry is read: the entry is kept, that is its
/// path is not empty, and it is a file.
pub open spec fn needs_content(record: RawEntryView, rel_path: Seq<Seq<char>>) -> bool {
    rel_path.len() > 0 && !is_directory_name(record.name)
}

/// Whether the entry at `i` is the first one whose content is needed and
/// cannot be read.
pub open spec fn is_first_unreadable(
    records: Seq<RawEntryView>,
    rel_paths: Seq<Seq<Seq<char>>>,
    contents: Seq<Option<Seq<u8>>>,
    i: int,
) -> bool {
    &&& 0 <= i < records.len()
    &&& needs_content(records[i], rel_paths[i])
    &&& contents[i] is None
    &&& forall|j: int|
        0 <= j < i && needs_content(#[trigger] records[j], rel_paths[j]) ==> contents[j] is Some
}

/// Whether the content of every entry that needs it can be read.
pub open spec fn all_readable(
    records: Seq<RawEntryView>,
    rel_paths: Seq<Seq<Seq<char>>>,
    contents: Seq<Option<Seq<u8>>>,
) -> bool {
    forall|i: int|
        0 <= i < records.len() && needs_content(#[trigger] records[i], rel_paths[i])
            ==> contents[i] is Some
}

/// The entry that the archive entry at `i` gives.
pub open spec fn entry_at(
    records: Seq<RawEntryView>,
    rel_paths: Seq<Seq<Seq<char>>>,
    contents: Seq<Option<Seq<u8>>>,
    i: int,
) -> MemEntryView {
    mem_entry(records[i], rel_paths[i], i as usize, contents[i]->0)
}

/// The entries made from the first `n` entries of the archive, in order.
/// An entry whose path is empty stands for the destination itself and is
/// left out.
pub open spec fn materialized(
    records: Seq<RawEntryView>,
    rel_paths: Seq<Seq<Seq<char>>>,
    contents: Seq<Option<Seq<u8>>>,
    n: nat,
) -> Seq<MemEntryView>
    decreases n,
{
    if n == 0 {
        Seq::<MemEntryView>::empty()
    } else {
        let i = (n - 1) as int;
        let before = materialized(records, rel_paths, contents, (n - 1) as nat);
        if rel_paths[i].len() == 0 {
            before
        } else {
            before.push(entry_at(records, rel_paths, contents, i))
        }
    }
}

/// What is made of the records of an archive, placed by `plan`, and of
/// what reading their contents gave. Where the content of a kept file
/// cannot be read, the first such entry is reported. Otherwise the entries
/// are those of the archive in order, without those left out, written by the
/// strategy that their total size asks for.
pub open spec fn assembled(
    records: Seq<RawEntryView>,
    plan: PathPlanView,
    contents: Seq<Option<Seq<u8>>>,
) -> Result<ExtractionView, ExtractError> {
    if !all_readable(records, plan.rel_paths, contents) {
        Err(
            ExtractError::CorruptEntry {
                index: (choose|i: int| is_first_unreadable(records, plan.rel_paths, contents, i)) as usize,
            },
        )
    } else {
        let entries = materialized(records, plan.rel_paths, contents, records.len());
        Ok(
            ExtractionView {
                root_prefix: plan.root_prefix,
                entries,
                strategy: strategy_for(total_payload(entries)),
            },
        )
    }
}

/// What extraction makes of the entries of a container. An empty container
/// is refused; so is one with an entry without a record, then one with an
/// entry without an enclosed path, then one with a kept file whose content
/// cannot be read, each time naming the first such entry. Otherwise the
/// entries are those of the archive, placed by the path plan.
pub open spec fn extraction_of(stored: Seq<StoredEntry>) -> Result<ExtractionView, ExtractError> {
    if stored.len() == 0 {
        Err(ExtractError::EmptyArchive)
    } else if !all_recorded(stored) {
        Err(
            ExtractError::CorruptEntry {
                index: (choose|i: int| is_first_without_record(stored, i)) as usize,
            },
        )
    } else {
        match spec_plan_paths(records_of(stored)) {
            Err(e) => Err(e),
            Ok(plan) => assembled(records_of(stored), plan, contents_of(stored)),
        }
    }
}

/// What extraction makes of the bytes of an archive: bytes that are no
/// container are refused, a container is extracted by its entries.
pub open spec fn spec_extract(contents: Option<Seq<StoredEntry>>) -> Result<
    ExtractionView,
    ExtractError,
> {
    match contents {
        None => Err(ExtractError::InvalidArchive),
        Some(stored) => extraction_of(stored),
    }
}

/// There is at most one first entry without a record.
pub proof fn lemma_first_without_record_unique(stored: Seq<StoredEntry>, i: int)
    requires
        is_first_without_record(stored, i),
    ensures
        (choose|k: int| is_first_without_record(stored, k)) == i,
        !all_recorded(stored),
{
    let k = choose|k: int| is_first_without_record(stored, k);
    assert(is_first_without_record(stored, k));
    if k < i {
        assert(stored[k].record is Some);
    }
    if i < k {
        assert(stored[i].record is Some);
    }
}

/// There is at most one first entry whose content is needed and cannot be
/// read.
pub proof fn lemma_first_unreadable_unique(
    records: Seq<RawEntryView>,
    rel_paths: Seq<Seq<Seq<char>>>,
    contents: Seq<Option<Seq<u8>>>,
    i: int,
)
    requires
        is_first_unreadable(records, rel_paths, contents, i),
    ensures
        (choose|k: int| is_first_unreadable(records, rel_paths, contents, k)) == i,
        !all_readable(records, rel_paths, contents),
{
    let k = choose|k: int| is_first_unreadable(records, rel_paths, contents, k);
    assert(is_first_unreadable(records, rel_paths, contents, k));
    if k < i {
        assert(needs_content(records[k], rel_paths[k]));
    }
    if i < k {
        assert(needs_content(records[i], rel_paths[i]));
    }
}

/// Every entry made comes from an archive entry with a path that is not
/// empty, carries the index of that entry, and entries come in the order of
/// the archive.
pub proof fn lemma_materialized_sound(
    records: Seq<RawEntryView>,
    rel_paths: Seq<Seq<Seq<char>>>,
    contents: Seq<Option<Seq<u8>>>,
    n: nat,
)
    requires
        n <= usize::MAX,
    ensures
        forall|k: int|
            0 <= k < materialized(records, rel_paths, contents, n).len() ==> {
                let entry = #[trigger] materialized(records, rel_paths, contents, n)[k];
                &&& entry.file_idx < n
                &&& rel_paths[entry.file_idx as int].len() > 0
                &&& entry == entry_at(records, rel_paths, contents, entry.file_idx as int)
            },
        forall|k: int, l: int|
            0 <= k < l < materialized(records, rel_paths, contents, n).len() ==> (
            #[trigger] materialized(records, rel_paths, contents, n)[k]).file_idx < (
            #[trigger] materialized(records, rel_paths, contents, n)[l]).file_idx,
    decreases n,
{
    if n > 0 {
        lemma_materialized_sound(records, rel_paths, contents, (n - 1) as nat);
    }
}

/// Every archive entry with a path that is not empty gives an entry.
pub proof fn lemma_materialized_complete(
    records: Seq<RawEntryView>,
    rel_paths: Seq<Seq<Seq<char>>>,
    contents: Seq<Option<Seq<u8>>>,
    n: nat,
    i: int,
)
    requires
        0 <= i < n,
        rel_paths[i].len() > 0,
    ensures
        materialized(records, rel_paths, contents, n).contains(
            entry_at(records, rel_paths, contents, i),
        ),
    decreases n,
{
    let all = materialized(records, rel_paths, contents, n);
    let before = materialized(records, rel_paths, contents, (n - 1) as nat);
    let entry = entry_at(records, rel_paths, contents, i);
    if i == n - 1 {
        assert(all == before.push(entry));
        assert(all[all.len() - 1] == entry);
    } else {
        lemma_materialized_complete(records, rel_paths, contents, (n - 1) as nat, i);
        let k = choose|k: int| 0 <= k < before.len() && before[k] == entry;
        assert(all[k] == before[k]);
    }
}

/// Contents that are not needed do not show in the entries made.
pub proof fn lemma_materialized_ignores_unneeded(
    records: Seq<RawEntryView>,
    rel_paths: Seq<Seq<Seq<char>>>,
    first: Seq<Option<Seq<u8>>>,
    second: Seq<Option<Seq<u8>>>,
    n: nat,
)
    requires
        forall|i: int|
            0 <= i < n && needs_content(#[trigger] records[i], rel_paths[i]) ==> first[i]
                == second[i],
    ensures
        materialized(records, rel_paths, first, n) == materialized(records, rel_paths, second, n),
    decreases n,
{
    if n > 0 {
        lemma_materialized_ignores_unneeded(records, rel_paths, first, second, (n - 1) as nat);
        let i = n - 1;
        if rel_paths[i].len() > 0 && !is_directory_name(records[i].name) {
            assert(needs_content(records[i], rel_paths[i]));
        }
    }
}

/// What is assembled depends on the contents of the kept files only.
pub proof fn lemma_assembled_ignores_unneeded(
    records: Seq<RawEntryView>,
    plan: PathPlanView,
    first: Seq<Option<Seq<u8>>>,
    second: Seq<Option<Seq<u8>>>,
)
    requires
        forall|i: int|
            0 <= i < records.len() && needs_content(#[trigger] records[i], plan.rel_paths[i])
                ==> first[i] == second[i],
    ensures
        assembled(records, plan, first) == assembled(records, plan, second),
{
    let paths = plan.rel_paths;
    if all_readable(records, paths, first) {
        assert(all_readable(records, paths, second));
        lemma_materialized_ignores_unneeded(records, paths, first, second, records.len());
    } else {
        let i = choose|i: int|
            0 <= i < records.len() && needs_content(#[trigger] records[i], paths[i]) && first[i]
                is None;
        assert(!all_readable(records, paths, second));
        lemma_some_first_unreadable(records, paths, first, i);
        let k = choose|k: int| is_first_unreadable(records, paths, first, k);
        assert(is_first_unreadable(records, paths, second, k)) by {
            assert(needs_content(records[k], paths[k]));
        }
        lemma_first_unreadable_unique(records, paths, second, k);
    }
}

/// Where the content of some kept file cannot be read, there is a first
/// such file.
pub proof fn lemma_some_first_unreadable(
    records: Seq<RawEntryView>,
    rel_paths: Seq<Seq<Seq<char>>>,
    contents: Seq<Option<Seq<u8>>>,
    i: int,
)
    requires
        0 <= i < records.len(),
        needs_content(records[i], rel_paths[i]),
        contents[i] is None,
    ensures
        exists|k: int| is_first_unreadable(records, rel_paths, contents, k),
    decreases i,
{
    if forall|j: int|
        0 <= j < i && needs_content(#[trigger] records[j], rel_paths[j]) ==> contents[j] is Some {
        assert(is_first_unreadable(records, rel_paths, contents, i));
    } else {
        let j = choose|j: int|
            0 <= j < i && needs_content(#[trigger] records[j], rel_paths[j]) && !(contents[j]
                is Some);
        lemma_some_first_unreadable(records, rel_paths, contents, j);
    }
}

/// Whether the content of the entry of `record`, placed at `rel_path`, is
/// read.
pub fn wants_content(record: &RawEntry, rel_path: &RelPath) -> (b: bool)
    ensures
        b == needs_content(record@, rel_path@),
{
    !rel_path.is_empty() && !record.is_directory()
}

/// Makes the entries of an archive from its records, their places and what
/// reading their contents gave. A content that is there for a directory or
/// for an entry that is left out is dropped.
pub(crate) fn assemble(records: &Vec<RawEntry>, plan: PathPlan, contents: Vec<Option<Vec<u8>>>) -> (r:
    Result<Extraction, ExtractError>)
    requires
        plan.rel_paths.len() == records.len(),
        contents.len() == records.len(),
    ensures
        match r {
            Ok(extraction) => {
                &&& assembled(records.deep_view(), plan@, contents.deep_view()) == Ok::<
                    ExtractionView,
                    ExtractError,
                >(extraction@)
                &&& forall|k: int|
                    0 <= k < extraction.entries.len() ==> (#[trigger] extraction.entries[k])@.well_formed()
            },
            Err(e) => assembled(records.deep_view(), plan@, contents.deep_view()) == Err::<
                ExtractionView,
                ExtractError,
            >(e),
        },
{
    let ghost model = records.deep_view();
    let ghost paths = plan.rel_paths.deep_view();
    let ghost given = contents.deep_view();
    let PathPlan { root_prefix, rel_paths } = plan;
    let mut rest = contents;
    let mut entries: Vec<MemEntry> = Vec::new();
    let mut index: usize = 0;
    for rel_path in it: rel_paths.into_iter()
        invariant
            model == records.deep_view(),
            paths == plan@.rel_paths,
            given == contents.deep_view(),
            it.seq().len() == paths.len(),
            paths.len() == records.len(),
            rest.len() == records.len(),
            given.len() == records.len(),
            index == it.index(),
            forall|j: int| 0 <= j < paths.len() ==> it.seq()[j]@ == #[trigger] paths[j],
            forall|j: int| index <= j < rest.len() ==> rest[j].deep_view() == #[trigger] given[j],
            forall|j: int|
                0 <= j < index && needs_content(#[trigger] model[j], paths[j]) ==> given[j] is Some,
            entries.deep_view() == materialized(model, paths, given, index as nat),
            forall|k: int| 0 <= k < entries.len() ==> (#[trigger] entries[k])@.well_formed(),
    {
        let ghost before = entries.deep_view();
        proof {
            assert(rel_path@ == paths[index as int]);
            assert(model[index as int] == records[index as int]@);
            assert(rest[index as int].deep_view() == given[index as int]);
        }
        let record = &records[index];
        if wants_content(record, &rel_path) {
            match rest[index].take() {
                Some(content) => {
                    proof {
                        assert(content.deep_view() =~= content@);
                    }
                    let entry = materialize_entry(record, rel_path, index, content);
                    entries.push(entry);
                    proof {
                        assert(entries.deep_view() == before.push(entries[entries.len() - 1]@));
                    }
                },
                None => {
                    proof {
                        assert(is_first_unreadable(model, paths, given, index as int));
                        lemma_first_unreadable_unique(model, paths, given, index as int);
                    }
                    return Err(ExtractError::CorruptEntry { index });
                },
            }
        } else if !rel_path.is_empty() {
            let entry = materialize_entry(record, rel_path, index, Vec::new());
            entries.push(entry);
            proof {
                assert(entries.deep_view() == before.push(entries[entries.len() - 1]@));
            }
        }
        index += 1;
    }
    proof {
        assert(all_readable(model, paths, given));
    }
    let strategy = schedule(&entries);
    Ok(Extraction { root_prefix, entries, strategy })
}

/// Extracts what was read of a container: refuses an empty one and one
/// with an entry without a record, plans the paths and makes the entries.
pub fn extract_entries(stored: Vec<EntryRead>) -> (r: Result<Extraction, ExtractError>)
    ensures
        match r {
            Ok(extraction) => {
                &&& extraction_of(stored.deep_view()) == Ok::<ExtractionView, ExtractError>(
                    extraction@,
                )
                &&& forall|k: int|
                    0 <= k < extraction.entries.len() ==> (#[trigger] extraction.entries[k])@.well_formed()
            },
            Err(e) => extraction_of(stored.deep_view()) == Err::<ExtractionView, ExtractError>(e),
        },
{
    let ghost model = stored.deep_view();
    let n = stored.len();
    if n == 0 {
        return Err(ExtractError::EmptyArchive);
    }
    let mut records: Vec<RawEntry> = Vec::new();
    let mut contents: Vec<Option<Vec<u8>>> = Vec::new();
    let mut index: usize = 0;
    for item in it: stored.into_iter()
        invariant
            model == stored.deep_view(),
            model.len() == n,
            n > 0,
            it.seq().len() == model.len(),
            forall|j: int| 0 <= j < model.len() ==> it.seq()[j]@ == #[trigger] model[j],
            index == it.index(),
            records.len() == index,
            contents.len() == index,
            forall|j: int| 0 <= j < index ==> (#[trigger] model[j]).record == Some(records[j]@),
            forall|j: int| 0 <= j < index ==> contents[j].deep_view() == (#[trigger] model[j]).content,
    {
        proof {
            assert(item@ == model[index as int]);
        }
        let EntryRead { record, content } = item;
        match record {
            Some(record) => {
                records.push(record);
                contents.push(content);
            },
            None => {
                proof {
                    assert(is_first_without_record(model, index as int));
                    lemma_first_without_record_unique(model, index as int);
                }
                return Err(ExtractError::CorruptEntry { index });
            },
        }
        index += 1;
    }
    proof {
        assert(all_recorded(model));
        assert(records.deep_view() == records_of(model));
        assert(contents.deep_view() == contents_of(model));
    }
    match plan_paths(&records) {
        Ok(plan) => {
            proof {
                assert(plan@.rel_paths.len() == records.deep_view().len());
            }
            assemble(&records, plan, contents)
        },
        Err(e) => Err(e),
    }
}

/// Reads the record of every entry of `archive`, in order.
pub fn read_records(archive: &Archive) -> (r: Result<Vec<RawEntry>, ExtractError>)
    ensures
        match r {
            Ok(records) => all_recorded(archive@) && records.deep_view() == records_of(archive@),
            Err(e) => exists|i: int|
                is_first_without_record(archive@, i) && e == (ExtractError::CorruptEntry {
                    index: i as usize,
                }),
        },
{
    let n = archive.len();
    let mut records: Vec<RawEntry> = Vec::new();
    let mut i: usize = 0;
    while i < n
        invariant
            n == archive@.len(),
            i <= n,
            records.len() == i,
            forall|j: int| 0 <= j < i ==> (#[trigger] archive@[j]).record == Some(records[j]@),
        decreases n - i,
    {
        match archive.record(i) {
            Ok(record) => {
                records.push(record);
            },
            Err(e) => {
                assert(is_first_without_record(archive@, i as int));
                return Err(e);
            },
        }
        i += 1;
    }
    proof {
        assert(records.deep_view() == records_of(archive@));
    }
    Ok(records)
}

/// Reads the content of every entry of `archive` that needs it: the files
/// that are kept. The other entries get none.
pub(crate) fn read_contents(archive: &mut Archive, records: &Vec<RawEntry>, rel_paths: &Vec<RelPath>) -> (r:
    Result<Vec<Option<Vec<u8>>>, ExtractError>)
    requires
        records.len() == old(archive)@.len(),
        rel_paths.len() == records.len(),
    ensures
        final(archive)@ == old(archive)@,
        match r {
            Ok(contents) => {
                &&& contents.len() == records.len()
                &&& forall|i: int|
                    0 <= i < contents.len() ==> (#[trigger] contents[i]).deep_view() == if needs_content(
                        records[i]@,
                        rel_paths[i]@,
                    ) {
                        old(archive)@[i].content
                    } else {
                        None
                    }
                &&& all_readable(
                    records.deep_view(),
                    rel_paths.deep_view(),
                    contents_of(old(archive)@),
                )
            },
            Err(e) => exists|i: int|
                is_first_unreadable(
                    records.deep_view(),
                    rel_paths.deep_view(),
                    contents_of(old(archive)@),
                    i,
                ) && e == (ExtractError::CorruptEntry { index: i as usize }),
        },
{
    let ghost stored = archive@;
    let n = records.len();
    let mut contents: Vec<Option<Vec<u8>>> = Vec::new();
    let mut i: usize = 0;
    while i < n
        invariant
            archive@ == stored,
            stored == old(archive)@,
            n == records.len(),
            n == stored.len(),
            n == rel_paths.len(),
            i <= n,
            contents.len() == i,
            forall|j: int|
                0 <= j < i ==> (#[trigger] contents[j]).deep_view() == if needs_content(
                    records[j]@,
                    rel_paths[j]@,
                ) {
                    stored[j].content
                } else {
                    None
                },
            forall|j: int|
                0 <= j < i && needs_content(
                    #[trigger] records.deep_view()[j],
                    rel_paths.deep_view()[j],
                ) ==> contents_of(stored)[j] is Some,
        decreases n - i,
    {
        if wants_content(&records[i], &rel_paths[i]) {
            match archive.content(i) {
                Ok(content) => {
                    contents.push(Some(content));
                },
                Err(e) => {
                    proof {
                        assert(is_first_unreadable(
                            records.deep_view(),
                            rel_paths.deep_view(),
                            contents_of(stored),
                            i as int,
                        ));
                    }
                    return Err(e);
                },
            }
        } else {
            contents.push(None);
        }
        i += 1;
    }
    Ok(contents)
}

/// Extracts an opened archive: reads every record, plans the paths, reads
/// the content of the files that are kept and makes the entries. The
/// archive holds the same entries afterwards.
pub fn extract_archive(archive: &mut Archive) -> (r: Result<Extraction, ExtractError>)
    ensures
        final(archive)@ == old(archive)@,
        match r {
            Ok(extraction) => {
                &&& extraction_of(old(archive)@) == Ok::<ExtractionView, ExtractError>(extraction@)
                &&& forall|k: int|
                    0 <= k < extraction.entries.len() ==> (#[trigger] extraction.entries[k])@.well_formed()
            },
            Err(e) => extraction_of(old(archive)@) == Err::<ExtractionView, ExtractError>(e),
        },
{
    let ghost stored = archive@;
    if archive.len() == 0 {
        return Err(ExtractError::EmptyArchive);
    }
    let records = match read_records(archive) {
        Ok(records) => records,
        Err(e) => {
            proof {
                let i = choose|i: int|
                    is_first_without_record(stored, i) && e == (ExtractError::CorruptEntry {
                        index: i as usize,
                    });
                lemma_first_without_record_unique(stored, i);
            }
            return Err(e);
        },
    };
    let plan = match plan_paths(&records) {
        Ok(plan) => plan,
        Err(e) => {
            return Err(e);
        },
    };
    let ghost model = records.deep_view();
    let ghost planned = plan@;
    proof {
        assert(model.len() == stored.len());
        assert(planned.rel_paths.len() == model.len());
    }
    let contents = match read_contents(archive, &records, &plan.rel_paths) {
        Ok(contents) => contents,
        Err(e) => {
            proof {
                let i = choose|i: int|
                    is_first_unreadable(model, planned.rel_paths, contents_of(stored), i) && e == (
                    ExtractError::CorruptEntry { index: i as usize });
                lemma_first_unreadable_unique(model, planned.rel_paths, contents_of(stored), i);
            }
            return Err(e);
        },
    };
    proof {
        assert forall|i: int|
            0 <= i < model.len() && needs_content(
                #[trigger] model[i],
                planned.rel_paths[i],
            ) implies contents.deep_view()[i] == contents_of(stored)[i] by {
            assert(contents[i].deep_view() == stored[i].content);
        }
        lemma_assembled_ignores_unneeded(
            model,
            planned,
            contents.deep_view(),
            contents_of(stored),
        );
    }
    assemble(&records, plan, contents)
}

/// Plans the extraction of the archive held in `archive_bytes`: which
/// entries to write, where, with what content, and in which manner. Nothing
/// is written here, and nothing is to be written when an error comes back.
pub fn extract_zip(archive_bytes: &[u8]) -> (r: Result<Extraction, ExtractError>)
    ensures
        match r {
            Ok(extraction) => {
                &&& spec_extract(zip_contents(archive_bytes@)) == Ok::<ExtractionView, ExtractError>(
                    extraction@,
                )
                &&& forall|k: int|
                    0 <= k < extraction.entries.len() ==> (#[trigger] extraction.entries[k])@.well_formed()
            },
            Err(e) => spec_extract(zip_contents(archive_bytes@)) == Err::<
                ExtractionView,
                ExtractError,
            >(e),
        },
{
    match Archive::open(archive_bytes) {
        Ok(mut archive) => extract_archive(&mut archive),
        Err(e) => Err(e),
    }
}

} // verus!
