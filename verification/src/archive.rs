//! Reading ZIP containers.
//!
//! The container format is read by the `zip` crate. What it finds in a run
//! of bytes is not restated here: it is given a name, `zip_contents`, and
//! the functions of this module say how their results relate to it. An
//! opened archive is a value of that crate; what it holds is named
//! `archive_contents`.

use crate::entry::{RawEntry, RawEntryView};
use crate::error::ExtractError;
use std::io::Cursor;
use std::io::Read;
use vstd::prelude::*;
use zip::result::ZipError;
use zip::ZipArchive;

verus! {

/// `zip::ZipArchive`, an opened container over a reader.
#[verifier::external_type_specification]
#[verifier::external_body]
#[verifier::reject_recursive_types(R)]
pub struct ExZipArchive<R>(ZipArchive<R>);

/// `std::io::Cursor`, a reader over bytes held in memory.
#[verifier::external_type_specification]
#[verifier::external_body]
#[verifier::reject_recursive_types(T)]
pub struct ExCursor<T>(Cursor<T>);

/// `zip::result::ZipError`, the failure of a read.
#[verifier::external_type_specification]
#[verifier::external_body]
pub struct ExZipError(ZipError);

/// What a container holds at one index.
pub struct StoredEntry {
    /// The record of the entry, where its name can be decoded.
    pub record: Option<RawEntryView>,
    /// The content of the entry, where it can be read and passes its
    /// checksum.
    pub content: Option<Seq<u8>>,
}

/// The entries that the `zip` reader finds in `bytes`, in the order of the
/// central directory, or nothing where `bytes` do not parse as a container.
/// The enclosed names are those that the reader computes on the platform
/// the library is built for.
pub uninterp spec fn zip_contents(bytes: Seq<u8>) -> Option<Seq<StoredEntry>>;

/// The entries of an opened archive.
pub uninterp spec fn archive_contents(archive: ZipArchive<Cursor<&[u8]>>) -> Seq<StoredEntry>;

/// `ZipArchive::new` over a cursor on `bytes`. It parses the central
/// directory of the container: it succeeds exactly when `bytes` hold
/// one, and the archive then has the entries found there.
#[verifier::external_body]
fn open_container<'a>(bytes: &'a [u8]) -> (r: Result<ZipArchive<Cursor<&'a [u8]>>, ZipError>)
    ensures
        match r {
            Ok(archive) => zip_contents(bytes@) == Some(archive_contents(archive)),
            Err(_) => zip_contents(bytes@) is None,
        },
{
    ZipArchive::new(Cursor::new(bytes))
}

/// `ZipArchive::len`: the number of entries.
#[verifier::external_body]
fn container_len(archive: &ZipArchive<Cursor<&[u8]>>) -> (n: usize)
    ensures
        n == archive_contents(*archive).len(),
{
    archive.len()
}

/// `ZipArchive::by_index_data` and the getters `name`, `enclosed_name`,
/// `unix_mode` and `size` of the entry it returns. The entry is found
/// exactly when `index` is below the length; the record is read from the
/// central directory, and the read fails only where the name cannot be
/// decoded.
#[verifier::external_body]
fn container_record(archive: &ZipArchive<Cursor<&[u8]>>, index: usize) -> (r: Result<
    RawEntry,
    ZipError,
>)
    ensures
        index < archive_contents(*archive).len() ==> match r {
            Ok(record) => archive_contents(*archive)[index as int].record == Some(record@),
            Err(_) => archive_contents(*archive)[index as int].record is None,
        },
        index >= archive_contents(*archive).len() ==> r is Err,
{
    let entry = archive.by_index_data(index)?;
    Ok(
        RawEntry {
            name: entry.name()?.into_owned(),
            enclosed: entry.enclosed_name().map(|path| path.to_string_lossy().into_owned()),
            unix_mode: entry.unix_mode(),
            size: entry.size(),
        },
    )
}

/// `ZipArchive::by_index` and `Read::read_to_end` on the entry it returns:
/// the whole content, decompressed and checked against its checksum. The
/// archive holds the same entries afterwards.
#[verifier::external_body]
fn container_content(archive: &mut ZipArchive<Cursor<&[u8]>>, index: usize) -> (r: Result<
    Vec<u8>,
    ZipError,
>)
    ensures
        archive_contents(*final(archive)) == archive_contents(*old(archive)),
        index < archive_contents(*old(archive)).len() ==> match r {
            Ok(content) => archive_contents(*old(archive))[index as int].content == Some(content@),
            Err(_) => archive_contents(*old(archive))[index as int].content is None,
        },
        index >= archive_contents(*old(archive)).len() ==> r is Err,
{
    let mut file = archive.by_index(index)?;
    let mut content = Vec::new();
    file.read_to_end(&mut content)?;
    Ok(content)
}

/// An opened ZIP container: a list of entries that can be read by index.
pub struct Archive<'a> {
    inner: ZipArchive<Cursor<&'a [u8]>>,
}

impl<'a> View for Archive<'a> {
    type V = Seq<StoredEntry>;

    closed spec fn view(&self) -> Seq<StoredEntry> {
        archive_contents(self.inner)
    }
}

impl<'a> Archive<'a> {
    /// Opens the container held in `bytes`. Bytes that do not parse as a
    /// container are refused with `InvalidArchive`.
    pub fn open(bytes: &'a [u8]) -> (r: Result<Archive<'a>, ExtractError>)
        ensures
            match r {
                Ok(archive) => zip_contents(bytes@) == Some(archive@),
                Err(e) => zip_contents(bytes@) is None && e == ExtractError::InvalidArchive,
            },
    {
        match open_container(bytes) {
            Ok(inner) => Ok(Archive { inner }),
            Err(_) => Err(ExtractError::InvalidArchive),
        }
    }

    /// The number of entries.
    pub fn len(&self) -> (n: usize)
        ensures
            n == self@.len(),
    {
        container_len(&self.inner)
    }

    /// The record of the entry at `index`. An index past the end, and an
    /// entry without a readable record, are refused with `CorruptEntry`.
    pub fn record(&self, index: usize) -> (r: Result<RawEntry, ExtractError>)
        ensures
            match r {
                Ok(record) => index < self@.len() && self@[index as int].record == Some(record@),
                Err(e) => e == (ExtractError::CorruptEntry { index }) && (index < self@.len()
                    ==> self@[index as int].record is None),
            },
    {
        match container_record(&self.inner, index) {
            Ok(record) => Ok(record),
            Err(_) => Err(ExtractError::CorruptEntry { index }),
        }
    }

    /// The content of the entry at `index`. An index past the end, and an
    /// entry whose content cannot be read, are refused with `CorruptEntry`.
    /// The archive holds the same entries afterwards.
    pub fn content(&mut self, index: usize) -> (r: Result<Vec<u8>, ExtractError>)
        ensures
            final(self)@ == old(self)@,
            match r {
                Ok(content) => index < old(self)@.len() && old(self)@[index as int].content == Some(
                    content@,
                ),
                Err(e) => e == (ExtractError::CorruptEntry { index }) && (index < old(self)@.len()
                    ==> old(self)@[index as int].content is None),
            },
    {
        match container_content(&mut self.inner, index) {
            Ok(content) => Ok(content),
            Err(_) => Err(ExtractError::CorruptEntry { index }),
        }
    }
}

} // verus!
