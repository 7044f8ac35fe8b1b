//! The files of an ISO image.

use crate::error::{LiveError, Refusal};
use crate::text;
use vstd::prelude::*;
use vstd::string::*;

verus! {

/// A file of an ISO image: the extent of the image that holds its bytes.
#[derive(Debug)]
pub struct IsoFile {
    /// The name of the file in its directory.
    pub name: String,
    /// Where the file begins in the image.
    pub offset: u64,
    /// The number of bytes of the file.
    pub length: u32,
}

/// A file of an ISO image with its name as a sequence.
#[verifier::ext_equal]
pub struct IsoFileView {
    pub name: Seq<char>,
    pub offset: u64,
    pub length: u32,
}

impl View for IsoFile {
    type V = IsoFileView;

    open spec fn view(&self) -> IsoFileView {
        IsoFileView { name: self.name@, offset: self.offset, length: self.length }
    }
}

impl Clone for IsoFile {
    fn clone(&self) -> (r: IsoFile)
        ensures
            r@ == self@,
    {
        IsoFile { name: self.name.clone(), offset: self.offset, length: self.length }
    }
}

/// What lies at a path of an ISO image.
#[derive(Debug)]
pub enum DirectoryRecord {
    Directory,
    File(IsoFile),
}

/// A directory record with its name as a sequence.
pub enum RecordView {
    Directory,
    File(IsoFileView),
}

impl View for DirectoryRecord {
    type V = RecordView;

    open spec fn view(&self) -> RecordView {
        match *self {
            DirectoryRecord::Directory => RecordView::Directory,
            DirectoryRecord::File(file) => RecordView::File(file@),
        }
    }
}

/// A path of an ISO image, and what lies there.
#[derive(Debug)]
pub struct IsoEntry {
    pub path: String,
    pub record: DirectoryRecord,
}

/// An entry with its path as a sequence.
pub struct EntryView {
    pub path: Seq<char>,
    pub record: RecordView,
}

impl View for IsoEntry {
    type V = EntryView;

    open spec fn view(&self) -> EntryView {
        EntryView { path: self.path@, record: self.record@ }
    }
}

/// An ISO image: the bytes of the image file, and the entries of its
/// directory tree.
#[derive(Debug)]
pub struct IsoFs {
    pub file: Vec<u8>,
    pub entries: Vec<IsoEntry>,
}

/// An ISO image with its parts as sequences.
pub struct IsoView {
    pub file: Seq<u8>,
    pub entries: Seq<EntryView>,
}

/// The views of a list of entries.
pub open spec fn entry_views(v: Seq<IsoEntry>) -> Seq<EntryView> {
    v.map_values(|e: IsoEntry| e@)
}

impl View for IsoFs {
    type V = IsoView;

    open spec fn view(&self) -> IsoView {
        IsoView { file: self.file@, entries: entry_views(self.entries@) }
    }
}

/// What a list of entries has at a path: the first entry for it.
pub open spec fn record_at(entries: Seq<EntryView>, path: Seq<char>) -> Option<RecordView>
    decreases entries.len(),
{
    if entries.len() == 0 {
        None
    } else if entries.first().path == path {
        Some(entries.first().record)
    } else {
        record_at(entries.drop_first(), path)
    }
}

/// The file at a path, or why there is none.
pub open spec fn file_at(entries: Seq<EntryView>, path: Seq<char>) -> Result<IsoFileView, Refusal> {
    match record_at(entries, path) {
        None => Err(Refusal::NotFound { path }),
        Some(RecordView::Directory) => Err(Refusal::NotAFile { path }),
        Some(RecordView::File(file)) => Ok(file),
    }
}

/// Whether there is a directory at a path, or why not.
pub open spec fn directory_at(entries: Seq<EntryView>, path: Seq<char>) -> Result<(), Refusal> {
    match record_at(entries, path) {
        None => Err(Refusal::NotFound { path }),
        Some(RecordView::Directory) => Ok(()),
        Some(RecordView::File(_)) => Err(Refusal::NotADirectory { path }),
    }
}

/// The bytes of a file, as far as the image holds them.
pub open spec fn file_bytes(image: Seq<u8>, file: IsoFileView) -> Seq<u8> {
    if file.offset >= image.len() {
        Seq::empty()
    } else if file.offset + file.length >= image.len() {
        image.skip(file.offset as int)
    } else {
        image.subrange(file.offset as int, file.offset + file.length)
    }
}

impl IsoFs {
    /// What lies at a path.
    pub fn get_path(&self, path: &str) -> (r: Result<&DirectoryRecord, LiveError>)
        ensures
            match r {
                Ok(record) => record_at(self@.entries, path@) == Some(record@),
                Err(e) => record_at(self@.entries, path@) is None && e@ == (Refusal::NotFound {
                    path: path@,
                }),
            },
    {
        let ghost entries = self@.entries;
        let mut i: usize = 0;
        assert(entries.skip(0) =~= entries);
        while i < self.entries.len()
            invariant
                i <= self.entries.len(),
                entries == self@.entries,
                record_at(entries, path@) == record_at(entries.skip(i as int), path@),
            decreases self.entries.len() - i,
        {
            assert(entries.skip(i as int).drop_first() =~= entries.skip(i + 1));
            assert(entries.skip(i as int).first() == self.entries@[i as int]@);
            if text::same_text(self.entries[i].path.as_str(), path) {
                return Ok(&self.entries[i].record);
            }
            i = i + 1;
        }
        Err(LiveError::NotFound { path: path.to_owned() })
    }

    /// The file at a path.
    pub fn get_file(&self, path: &str) -> (r: Result<IsoFile, LiveError>)
        ensures
            match r {
                Ok(file) => file_at(self@.entries, path@) == Ok::<IsoFileView, Refusal>(file@),
                Err(e) => file_at(self@.entries, path@) == Err::<IsoFileView, Refusal>(e@),
            },
    {
        match self.get_path(path) {
            Ok(DirectoryRecord::File(file)) => Ok(file.clone()),
            Ok(DirectoryRecord::Directory) => Err(LiveError::NotAFile { path: path.to_owned() }),
            Err(e) => Err(e),
        }
    }

    /// Checks that there is a directory at a path.
    pub fn get_directory(&self, path: &str) -> (r: Result<(), LiveError>)
        ensures
            match r {
                Ok(()) => directory_at(self@.entries, path@) is Ok,
                Err(e) => directory_at(self@.entries, path@) == Err::<(), Refusal>(e@),
            },
    {
        match self.get_path(path) {
            Ok(DirectoryRecord::File(_)) => Err(LiveError::NotADirectory { path: path.to_owned() }),
            Ok(DirectoryRecord::Directory) => Ok(()),
            Err(e) => Err(e),
        }
    }

    /// The bytes of a file, as far as the image holds them.
    pub fn read_file(&self, file: &IsoFile) -> (r: &[u8])
        ensures
            r@ == file_bytes(self@.file, file@),
    {
        let size: usize = self.file.len();
        let start: usize = if file.offset >= size as u64 {
            size
        } else {
            file.offset as usize
        };
        let end: usize = if file.length as u64 >= (size - start) as u64 {
            size
        } else {
            start + file.length as usize
        };
        let r: &[u8] = &self.file.as_slice()[start..end];
        assert(r@ =~= file_bytes(self@.file, file@));
        r
    }
}

} // verus!
