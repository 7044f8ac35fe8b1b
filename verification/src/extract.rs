//! The boot files of an image, and the list of its entries.

use crate::cmdline::IsoExtractPxeConfig;
use crate::error::{LiveError, Refusal};
use crate::iso;
use crate::iso::{DirectoryRecord, EntryView, IsoFile, IsoFileView, IsoFs, RecordView};
use crate::text;
use vstd::prelude::*;
use vstd::string::*;

verus! {

/// The directory of an image that holds the files of a network boot.
pub const ISO_PXEBOOT_DIR: &'static str = "IMAGES/PXEBOOT";

/// A file of an image, and the name that it is extracted under.
#[derive(Debug)]
pub struct PxeFile {
    pub name: String,
    pub file: IsoFile,
}

/// An extracted file with its parts as sequences.
pub struct PxeFileView {
    pub name: Seq<char>,
    pub file: IsoFileView,
}

impl View for PxeFile {
    type V = PxeFileView;

    open spec fn view(&self) -> PxeFileView {
        PxeFileView { name: self.name@, file: self.file@ }
    }
}

/// The views of a list of extracted files.
pub open spec fn pxe_views(v: Seq<PxeFile>) -> Seq<PxeFileView> {
    v.map_values(|f: PxeFile| f@)
}

/// Whether a path is one of an entry of a directory.
pub open spec fn is_child(dir: Seq<char>, path: Seq<char>) -> bool {
    &&& dir.push('/').is_prefix_of(path)
    &&& text::last_component_start(path) == dir.len() + 1
}

/// The files of a directory, in the order of the entries, each under a name made
/// of a common beginning and its own name in lower case.
pub open spec fn pxe_files(entries: Seq<EntryView>, dir: Seq<char>, base: Seq<char>) -> Seq<
    PxeFileView,
>
    decreases entries.len(),
{
    if entries.len() == 0 {
        Seq::empty()
    } else {
        let before = pxe_files(entries.drop_last(), dir, base);
        match entries.last().record {
            RecordView::File(file) => if is_child(dir, entries.last().path) {
                before.push(PxeFileView { name: base + text::lowercase(file.name), file })
            } else {
                before
            },
            RecordView::Directory => before,
        }
    }
}

/// The outcome of `iso extract pxe`.
pub open spec fn pxe_outcome(r: Result<Vec<PxeFile>, LiveError>) -> Result<
    Seq<PxeFileView>,
    Refusal,
> {
    match r {
        Ok(files) => Ok(pxe_views(files@)),
        Err(e) => Err(e@),
    }
}

/// The beginning of the names of the files that are extracted from the image at
/// a path: its file name without an extension, and a dash.
pub open spec fn pxe_base(input: Seq<char>) -> Seq<char> {
    text::file_stem(text::file_name(input)->0) + "-"@
}

/// Whether a path is one of an entry of a directory.
fn child_of(dir: &str, path: &str) -> (r: bool)
    ensures
        r == is_child(dir@, path@),
{
    let prefix = text::joined(dir, "/");
    proof {
        reveal_strlit("/");
        assert(prefix@ =~= dir@.push('/'));
    }
    text::has_prefix(path, prefix.as_str()) && text::component_start(path)
        == prefix.as_str().unicode_len()
}

/// `iso extract pxe`: the boot files, and the names to extract them under.
pub fn iso_extract_pxe(config: &IsoExtractPxeConfig, image: &IsoFs) -> (r: Result<
    Vec<PxeFile>,
    LiveError,
>)
    requires
        text::file_name(config.input@) is Some,
    ensures
        pxe_outcome(r) == (match iso::directory_at(image@.entries, ISO_PXEBOOT_DIR@) {
            Err(e) => Err(e),
            Ok(()) => Ok(
                pxe_files(image@.entries, ISO_PXEBOOT_DIR@, pxe_base(config.input@)),
            ),
        }),
{
    match image.get_directory(ISO_PXEBOOT_DIR) {
        Ok(()) => {},
        Err(e) => {
            return Err(e);
        },
    }
    let mut base = match text::path_file_name(config.input.as_str()) {
        Some(name) => text::stem(name.as_str()),
        None => String::new(),
    };
    base.append("-");
    let ghost all = image@.entries;
    let mut r: Vec<PxeFile> = Vec::new();
    let mut i: usize = 0;
    assert(pxe_views(r@) =~= pxe_files(all.take(0), ISO_PXEBOOT_DIR@, base@));
    while i < image.entries.len()
        invariant
            i <= image.entries.len(),
            all == image@.entries,
            pxe_views(r@) == pxe_files(all.take(i as int), ISO_PXEBOOT_DIR@, base@),
        decreases image.entries.len() - i,
    {
        assert(all.take(i + 1).drop_last() =~= all.take(i as int));
        assert(all.take(i + 1).last() == image.entries@[i as int]@);
        let ghost before = pxe_views(r@);
        match &image.entries[i].record {
            DirectoryRecord::Directory => {},
            DirectoryRecord::File(file) => {
                if child_of(ISO_PXEBOOT_DIR, image.entries[i].path.as_str()) {
                    let lower = text::to_lowercase(file.name.as_str());
                    let name = text::joined(base.as_str(), lower.as_str());
                    let found = PxeFile { name, file: file.clone() };
                    let ghost view = found@;
                    r.push(found);
                    assert(pxe_views(r@) =~= before.push(view));
                }
            },
        }
        i = i + 1;
    }
    assert(all.take(i as int) =~= all);
    Ok(r)
}

/// The paths of a list of entries.
pub open spec fn paths_of(entries: Seq<EntryView>) -> Seq<Seq<char>> {
    entries.map_values(|e: EntryView| e.path)
}

/// `iso inspect`: the paths of all entries of an image.
pub fn iso_inspect(image: &IsoFs) -> (r: Vec<String>)
    ensures
        text::texts(r@) == paths_of(image@.entries),
{
    let mut r: Vec<String> = Vec::new();
    let ghost all = paths_of(image@.entries);
    let mut i: usize = 0;
    assert(text::texts(r@) =~= all.take(0));
    while i < image.entries.len()
        invariant
            i <= image.entries.len(),
            all == paths_of(image@.entries),
            text::texts(r@) == all.take(i as int),
        decreases image.entries.len() - i,
    {
        let ghost before = text::texts(r@);
        r.push(image.entries[i].path.clone());
        assert(text::texts(r@) =~= before.push(all[i as int]));
        assert(all.take(i + 1) =~= all.take(i as int).push(all[i as int]));
        i = i + 1;
    }
    assert(all.take(i as int) =~= all);
    r
}

} // verus!
