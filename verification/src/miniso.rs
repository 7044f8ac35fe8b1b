//! Minimal images: extracting one from a full image, packing one into it, and
//! the kargs of an extracted one.

use crate::cmdline::IsoExtractMinimalIsoConfig;
use crate::editor;
use crate::editor::{EditView, KargsEditor};
use crate::error;
use crate::error::{LiveError, Refusal};
use crate::initrd::Initrd;
use crate::iso;
use crate::iso::{DirectoryRecord, EntryView, IsoFile, IsoFileView, IsoFs, IsoView, RecordView};
use crate::iso_config;
use crate::iso_config::{ConfigView, IsoConfig, INITRD_IGNITION_PATH};
use crate::kargs;
use crate::kargs::{InfoView, KargEmbedInfo};
use crate::region::{WriteOp, WriteView};
use crate::text;
use vstd::prelude::*;
use vstd::string::*;

verus! {

/// The file of a full image that is the root file system.
pub const ISO_ROOTFS_PATH: &'static str = "IMAGES/PXEBOOT/ROOTFS.IMG";

/// The file of a full image that a minimal image is packed into.
pub const ISO_MINISO_PATH: &'static str = "COREOS/MINISO.DAT";

/// What the karg begins with that names a live image.
pub const LIVEISO_KARG_PREFIX: &'static str = "coreos.liveiso=";

/// What the karg begins with that names the root file system to fetch.
pub const ROOTFS_URL_KARG_PREFIX: &'static str = "coreos.live.rootfs_url=";

/// Why no minimal image is extracted from an image: it has been customised.
pub open spec fn minimal_refused(config: ConfigView) -> Option<Refusal> {
    if config.initrd.files.contains_key(INITRD_IGNITION_PATH@) {
        Some(Refusal::MinimalIgnitionPresent)
    } else {
        match config.kargs {
            None => Some(Refusal::KargAreasMissing),
            Some(areas) => if areas.args != areas.default {
                Some(Refusal::MinimalKargsChanged)
            } else if iso_config::has_network(config.initrd.files) {
                Some(Refusal::MinimalNetworkPresent)
            } else {
                None
            },
        }
    }
}

impl IsoConfig {
    /// Checks that a minimal image can be extracted.
    pub fn check_minimal(&self) -> (r: Result<(), LiveError>)
        ensures
            match r {
                Ok(()) => minimal_refused(self@) is None,
                Err(e) => minimal_refused(self@) == Some(e@),
            },
    {
        if self.have_ignition() {
            return Err(LiveError::MinimalIgnitionPresent);
        }
        match (self.kargs(), self.kargs_default()) {
            (Ok(kargs), Ok(default)) => if !text::same_text(kargs, default) {
                Err(LiveError::MinimalKargsChanged)
            } else if self.have_network() {
                Err(LiveError::MinimalNetworkPresent)
            } else {
                Ok(())
            },
            (Err(e), _) => Err(e),
            (_, Err(e)) => Err(e),
        }
    }
}

/// The files of a full image that a minimal image is extracted from.
#[derive(Debug)]
pub struct MinimalParts {
    /// The root file system, if it is asked for.
    pub rootfs: Option<Result<IsoFile, LiveError>>,
    /// The packed minimal image.
    pub data: Result<IsoFile, LiveError>,
}

/// The parts with their names as sequences.
pub struct PartsView {
    pub rootfs: Option<Result<IsoFileView, Refusal>>,
    pub data: Result<IsoFileView, Refusal>,
}

impl View for MinimalParts {
    type V = PartsView;

    open spec fn view(&self) -> PartsView {
        PartsView {
            rootfs: match self.rootfs {
                Some(rootfs) => Some(error::outcome(rootfs)),
                None => None,
            },
            data: error::outcome(self.data),
        }
    }
}

/// The files of a full image that a minimal image is extracted from.
pub open spec fn minimal_parts(image: IsoView, with_rootfs: bool) -> PartsView {
    PartsView {
        rootfs: if with_rootfs {
            Some(iso::file_at(image.entries, ISO_ROOTFS_PATH@))
        } else {
            None
        },
        data: iso::file_at(image.entries, ISO_MINISO_PATH@),
    }
}

/// `iso extract minimal-iso`: the files to take from an image that is as it was
/// built.
pub fn iso_extract_minimal_iso<
    D: Fn(&[u8]) -> Result<Initrd, String>,
    P: Fn(&[u8]) -> Result<KargEmbedInfo, String>,
>(config: &IsoExtractMinimalIsoConfig, image: &IsoFs, decode: &D, parse: &P) -> (r: Result<
    MinimalParts,
    LiveError,
>)
    requires
        forall|bytes: &[u8]| call_requires(*decode, (bytes,)),
        forall|bytes: &[u8]| call_requires(*parse, (bytes,)),
    ensures
        exists|read: Result<ConfigView, Refusal>| #[trigger]
            iso_config::config_read(image@, *decode, *parse, read) && error::outcome(r)
                == match read {
                Err(e) => Err(e),
                Ok(iso) => match minimal_refused(iso) {
                    Some(e) => Err(e),
                    None => Ok(minimal_parts(image@, config.output_rootfs is Some)),
                },
            },
{
    let read = IsoConfig::for_iso(image, decode, parse);
    assert(iso_config::config_read(image@, *decode, *parse, error::outcome(read)));
    let iso = match read {
        Ok(iso) => iso,
        Err(e) => {
            return Err(e);
        },
    };
    match iso.check_minimal() {
        Ok(()) => {},
        Err(e) => {
            return Err(e);
        },
    }
    let rootfs = if config.output_rootfs.is_some() {
        Some(image.get_file(ISO_ROOTFS_PATH))
    } else {
        None
    };
    Ok(MinimalParts { rootfs, data: image.get_file(ISO_MINISO_PATH) })
}

/// A file of an image and its path.
#[derive(Debug)]
pub struct ListedFile {
    pub path: String,
    pub file: IsoFile,
}

/// The files among the entries of an image, by path. Of two with one path the
/// later counts.
pub open spec fn files_of(entries: Seq<EntryView>) -> Map<Seq<char>, IsoFileView>
    decreases entries.len(),
{
    if entries.len() == 0 {
        Map::empty()
    } else {
        let before = files_of(entries.drop_last());
        match entries.last().record {
            RecordView::Directory => before,
            RecordView::File(file) => before.insert(entries.last().path, file),
        }
    }
}

/// Whether a list holds the files of a map, each once.
pub open spec fn lists(v: Seq<ListedFile>, files: Map<Seq<char>, IsoFileView>) -> bool {
    &&& forall|i: int, j: int|
        0 <= i < j < v.len() ==> (#[trigger] v[i]).path@ != (#[trigger] v[j]).path@
    &&& forall|i: int|
        0 <= i < v.len() ==> files.contains_key((#[trigger] v[i]).path@) && files[v[i].path@]
            == v[i].file@
    &&& forall|path: Seq<char>| #[trigger]
        files.contains_key(path) ==> exists|i: int|
            0 <= i < v.len() && (#[trigger] v[i]).path@ == path
}

/// Puts a file into a list, in place of one with the same path.
fn list_file(v: &mut Vec<ListedFile>, path: &str, file: IsoFile, Ghost(files): Ghost<
    Map<Seq<char>, IsoFileView>,
>)
    requires
        lists(old(v)@, files),
    ensures
        lists(final(v)@, files.insert(path@, file@)),
{
    let ghost before = v@;
    let ghost after_files = files.insert(path@, file@);
    let mut i: usize = 0;
    while i < v.len()
        invariant
            i <= v.len(),
            v@ == before,
            lists(before, files),
            after_files == files.insert(path@, file@),
            forall|k: int| 0 <= k < i ==> (#[trigger] before[k]).path@ != path@,
        decreases v.len() - i,
    {
        if text::same_text(v[i].path.as_str(), path) {
            v.set(i, ListedFile { path: path.to_owned(), file });
            proof {
                assert forall|a: int, b: int| 0 <= a < b < v@.len() implies (
                #[trigger] v@[a]).path@ != (#[trigger] v@[b]).path@ by {
                    assert(before[a].path@ != before[b].path@);
                }
                assert forall|a: int| 0 <= a < v@.len() implies after_files.contains_key(
                    (#[trigger] v@[a]).path@,
                ) && after_files[v@[a].path@] == v@[a].file@ by {
                    if a != i {
                        assert(before[a] == v@[a]);
                        if a < i {
                            assert(before[a].path@ != before[i as int].path@);
                        } else {
                            assert(before[i as int].path@ != before[a].path@);
                        }
                    }
                }
                assert forall|p: Seq<char>| #[trigger] after_files.contains_key(p) implies exists|
                    a: int,
                |
                    0 <= a < v@.len() && (#[trigger] v@[a]).path@ == p by {
                    if p == path@ {
                        assert(v@[i as int].path@ == p);
                    } else {
                        assert(files.contains_key(p));
                        let a = choose|a: int|
                            0 <= a < before.len() && (#[trigger] before[a]).path@ == p;
                        assert(v@[a].path@ == p);
                    }
                }
            }
            return;
        }
        i = i + 1;
    }
    v.push(ListedFile { path: path.to_owned(), file });
    proof {
        let n = before.len() as int;
        assert forall|a: int, b: int| 0 <= a < b < v@.len() implies (#[trigger] v@[a]).path@ != (
        #[trigger] v@[b]).path@ by {
            assert(v@[a] == before[a]);
            if b < n {
                assert(v@[b] == before[b]);
            }
        }
        assert forall|a: int| 0 <= a < v@.len() implies after_files.contains_key(
            (#[trigger] v@[a]).path@,
        ) && after_files[v@[a].path@] == v@[a].file@ by {
            if a < n {
                assert(v@[a] == before[a]);
            }
        }
        assert forall|p: Seq<char>| #[trigger] after_files.contains_key(p) implies exists|a: int|
            0 <= a < v@.len() && (#[trigger] v@[a]).path@ == p by {
            if p == path@ {
                assert(v@[n].path@ == p);
            } else {
                assert(files.contains_key(p));
                let a = choose|a: int| 0 <= a < before.len() && (#[trigger] before[a]).path@ == p;
                assert(v@[a].path@ == p);
            }
        }
    }
}

/// The files of an image, each path once.
pub fn collect_iso_files(image: &IsoFs) -> (r: Vec<ListedFile>)
    ensures
        lists(r@, files_of(image@.entries)),
        r@.len() == 0 <==> files_of(image@.entries) == Map::<Seq<char>, IsoFileView>::empty(),
{
    let mut r: Vec<ListedFile> = Vec::new();
    let ghost all = image@.entries;
    let mut i: usize = 0;
    assert(files_of(all.take(0)) =~= Map::<Seq<char>, IsoFileView>::empty());
    while i < image.entries.len()
        invariant
            i <= image.entries.len(),
            all == image@.entries,
            lists(r@, files_of(all.take(i as int))),
        decreases image.entries.len() - i,
    {
        assert(all.take(i + 1).drop_last() =~= all.take(i as int));
        assert(all.take(i + 1).last() == image.entries@[i as int]@);
        match &image.entries[i].record {
            DirectoryRecord::Directory => {},
            DirectoryRecord::File(file) => {
                list_file(
                    &mut r,
                    image.entries[i].path.as_str(),
                    file.clone(),
                    Ghost(files_of(all.take(i as int))),
                );
            },
        }
        i = i + 1;
    }
    assert(all.take(i as int) =~= all);
    proof {
        let files = files_of(all);
        if r@.len() == 0 {
            assert forall|p: Seq<char>| !#[trigger] files.contains_key(p) by {
            }
            assert(files =~= Map::<Seq<char>, IsoFileView>::empty());
        } else {
            assert(files.contains_key(r@[0].path@));
        }
    }
    r
}

/// What a minimal image is packed from.
#[derive(Debug)]
pub struct PackPlan {
    pub full_files: Vec<ListedFile>,
    pub minimal_files: Vec<ListedFile>,
}

/// `iso extract pack-minimal-iso`: the files of both images.
pub fn iso_pack_minimal_iso(full: &IsoFs, minimal: &IsoFs) -> (r: Result<PackPlan, LiveError>)
    ensures
        ({
            let full_files = files_of(full@.entries);
            let minimal_files = files_of(minimal@.entries);
            let none = Map::<Seq<char>, IsoFileView>::empty();
            match r {
                Ok(plan) => {
                    &&& full_files != none
                    &&& minimal_files != none
                    &&& lists(plan.full_files@, full_files)
                    &&& lists(plan.minimal_files@, minimal_files)
                },
                Err(e) => {
                    ||| full_files == none && e@ == Refusal::NoFilesInFullIso
                    ||| full_files != none && minimal_files == none && e@
                        == Refusal::NoFilesInMinimalIso
                },
            }
        }),
{
    let full_files = collect_iso_files(full);
    let minimal_files = collect_iso_files(minimal);
    if full_files.is_empty() {
        return Err(LiveError::NoFilesInFullIso);
    }
    if minimal_files.is_empty() {
        return Err(LiveError::NoFilesInMinimalIso);
    }
    Ok(PackPlan { full_files, minimal_files })
}

/// The write that puts a packed minimal image into its file.
pub open spec fn miniso_write(image: IsoView, data: Seq<u8>) -> Result<WriteView, Refusal> {
    match iso::file_at(image.entries, ISO_MINISO_PATH@) {
        Err(e) => Err(e),
        Ok(file) => if data.len() > file.length {
            Err(
                Refusal::MinisoTooLarge {
                    needed: data.len() as usize,
                    file_length: file.length,
                },
            )
        } else {
            Ok(WriteView { offset: file.offset, data })
        },
    }
}

/// The write that puts a packed minimal image into its file of the full image.
pub fn packed_write(full: &IsoFs, data: Vec<u8>) -> (r: Result<WriteOp, LiveError>)
    ensures
        error::outcome(r) == miniso_write(full@, data@),
{
    match full.get_file(ISO_MINISO_PATH) {
        Err(e) => Err(e),
        Ok(file) => if data.len() as u64 > file.length as u64 {
            Err(LiveError::MinisoTooLarge { needed: data.len(), file_length: file.length })
        } else {
            Ok(WriteOp { offset: file.offset, data })
        },
    }
}

/// The first of a list of words that begins with a prefix.
pub open spec fn first_with_prefix(words: Seq<Seq<char>>, prefix: Seq<char>) -> Option<Seq<char>>
    decreases words.len(),
{
    if words.len() == 0 {
        None
    } else if prefix.is_prefix_of(words.first()) {
        Some(words.first())
    } else {
        first_with_prefix(words.drop_first(), prefix)
    }
}

/// The karg that names a live image.
pub open spec fn liveiso_karg(kargs: Seq<char>) -> Option<Seq<char>> {
    first_with_prefix(text::words(kargs), LIVEISO_KARG_PREFIX@)
}

/// The karg that names a live image.
pub fn find_liveiso_karg(kargs: &str) -> (r: Option<String>)
    ensures
        match r {
            Some(karg) => liveiso_karg(kargs@) == Some(karg@),
            None => liveiso_karg(kargs@) is None,
        },
{
    let words = text::split_ascii_whitespace(kargs);
    let ghost all = text::texts(words@);
    let mut i: usize = 0;
    assert(all.skip(0) =~= all);
    while i < words.len()
        invariant
            i <= words.len(),
            all == text::texts(words@),
            first_with_prefix(all, LIVEISO_KARG_PREFIX@) == first_with_prefix(
                all.skip(i as int),
                LIVEISO_KARG_PREFIX@,
            ),
            all == text::words(kargs@),
        decreases words.len() - i,
    {
        assert(all.skip(i as int).first() == words@[i as int]@);
        assert(all.skip(i as int).drop_first() =~= all.skip(i + 1));
        if text::has_prefix(words[i].as_str(), LIVEISO_KARG_PREFIX) {
            return Some(words[i].clone());
        }
        i = i + 1;
    }
    None
}

/// The edit that deletes one karg.
pub open spec fn delete_edit(karg: Seq<char>) -> EditView {
    EditView { delete: seq![karg], ..editor::no_edit() }
}

/// The edit that appends one karg.
pub open spec fn append_edit(karg: Seq<char>) -> EditView {
    EditView { append: seq![karg], ..editor::no_edit() }
}

/// The kargs of a minimal image, and those that it is to be reset to.
pub struct MinisoView {
    pub config: ConfigView,
    pub default: Seq<char>,
}

/// How a minimal image is told where to fetch the root file system from, once it
/// does not name a live image any more.
pub open spec fn rootfs_named<K: Fn(&KargsEditor, &str) -> Result<String, String>>(
    config: ConfigView,
    default: Seq<char>,
    url: Option<Seq<char>>,
    edit: K,
    r: Result<MinisoView, Refusal>,
) -> bool {
    match url {
        None => r == Ok::<MinisoView, Refusal>(MinisoView { config, default }),
        Some(url) => if text::words(url).len() > 1 {
            r == Err::<MinisoView, Refusal>(Refusal::UrlHasWhitespace { url })
        } else {
            exists|kargs: Result<Seq<char>, Refusal>| #[trigger]
                editor::edited(
                    append_edit(ROOTFS_URL_KARG_PREFIX@ + url),
                    default,
                    edit,
                    kargs,
                ) && r == match kargs {
                    Err(e) => Err(e),
                    Ok(kargs) => match config.with_kargs(kargs) {
                        Err(e) => Err(e),
                        Ok(config) => Ok(MinisoView { config, default }),
                    },
                }
        },
    }
}

/// How a minimal image gets the kargs that it is to be reset to.
pub open spec fn default_chosen<K: Fn(&KargsEditor, &str) -> Result<String, String>>(
    config: ConfigView,
    default: Result<Seq<char>, Refusal>,
    url: Option<Seq<char>>,
    edit: K,
    r: Result<MinisoView, Refusal>,
) -> bool {
    match default {
        Err(e) => r == Err::<MinisoView, Refusal>(e),
        Ok(default) => match config.with_kargs(default) {
            Err(e) => r == Err::<MinisoView, Refusal>(e),
            Ok(config) => rootfs_named(config, default, url, edit, r),
        },
    }
}

/// How the kargs of a minimal image are modified: the one that names a live
/// image is deleted, and one that names the root file system may be added.
pub open spec fn miniso_kargs<K: Fn(&KargsEditor, &str) -> Result<String, String>>(
    config: ConfigView,
    url: Option<Seq<char>>,
    edit: K,
    r: Result<MinisoView, Refusal>,
) -> bool {
    match config.kargs {
        None => r == Err::<MinisoView, Refusal>(Refusal::KargAreasMissing),
        Some(areas) => match liveiso_karg(areas.args) {
            None => r == Err::<MinisoView, Refusal>(Refusal::LiveisoKargMissing),
            Some(karg) => exists|kargs: Result<Seq<char>, Refusal>| #[trigger]
                editor::edited(delete_edit(karg), areas.args, edit, kargs)
                    && default_chosen(config, kargs, url, edit, r),
        },
    }
}

/// A minimal image with modified kargs.
#[derive(Debug)]
pub struct MinisoKargs {
    pub config: IsoConfig,
    /// The kargs that the image is to be reset to.
    pub default: String,
}

impl View for MinisoKargs {
    type V = MinisoView;

    open spec fn view(&self) -> MinisoView {
        MinisoView { config: self.config@, default: self.default@ }
    }
}

/// The view of a text that may be absent.
pub open spec fn optional_url(url: Option<&String>) -> Option<Seq<char>> {
    match url {
        Some(url) => Some(url@),
        None => None,
    }
}

fn one_text(s: String) -> (r: Vec<String>)
    ensures
        text::texts(r@) == seq![s@],
{
    let mut r: Vec<String> = Vec::new();
    r.push(s);
    assert(text::texts(r@) =~= seq![s@]);
    r
}

/// Tells a minimal image where to fetch the root file system from.
fn name_rootfs<K: Fn(&KargsEditor, &str) -> Result<String, String>>(
    config: IsoConfig,
    default: String,
    rootfs_url: Option<&String>,
    edit: &K,
) -> (r: Result<MinisoKargs, LiveError>)
    requires
        forall|editor: &KargsEditor, kargs: &str| call_requires(*edit, (editor, kargs)),
    ensures
        rootfs_named(config@, default@, optional_url(rootfs_url), *edit, error::outcome(r)),
        config@.wf() ==> (r matches Ok(miniso) ==> miniso.config@.wf()),
{
    let mut config = config;
    if let Some(url) = rootfs_url {
        if text::split_ascii_whitespace(url.as_str()).len() > 1 {
            proof {
                assert(text::words(url@).len() > 1);
            }
            return Err(LiveError::UrlHasWhitespace { url: url.clone() });
        }
        let append = one_text(text::joined(ROOTFS_URL_KARG_PREFIX, url.as_str()));
        let editor = KargsEditor::new().append(&append);
        assert(editor@ =~= append_edit(ROOTFS_URL_KARG_PREFIX@ + url@));
        let edited = editor.apply_to(default.as_str(), edit);
        assert(editor::edited(
            append_edit(ROOTFS_URL_KARG_PREFIX@ + url@),
            default@,
            *edit,
            error::outcome(edited),
        ));
        match edited {
            Ok(kargs) => match config.set_kargs(kargs.as_str()) {
                Ok(()) => {},
                Err(e) => {
                    return Err(e);
                },
            },
            Err(e) => {
                return Err(e);
            },
        }
    }
    Ok(MinisoKargs { config, default })
}

/// Modifies the kargs of a minimal image.
pub fn modify_kargs_of<K: Fn(&KargsEditor, &str) -> Result<String, String>>(
    config: IsoConfig,
    rootfs_url: Option<&String>,
    edit: &K,
) -> (r: Result<MinisoKargs, LiveError>)
    requires
        forall|editor: &KargsEditor, kargs: &str| call_requires(*edit, (editor, kargs)),
    ensures
        miniso_kargs(config@, optional_url(rootfs_url), *edit, error::outcome(r)),
        config@.wf() ==> (r matches Ok(miniso) ==> miniso.config@.wf()),
{
    let mut config = config;
    let ghost start = config@;
    let ghost url = optional_url(rootfs_url);
    let kargs = match config.kargs() {
        Ok(kargs) => kargs,
        Err(e) => {
            return Err(e);
        },
    };
    let karg = match find_liveiso_karg(kargs) {
        Some(karg) => karg,
        None => {
            return Err(LiveError::LiveisoKargMissing);
        },
    };
    let ghost karg_text = karg@;
    let ghost args = kargs@;
    let delete = one_text(karg);
    let editor = KargsEditor::new().delete(&delete);
    assert(editor@ =~= delete_edit(karg_text));
    let edited = editor.apply_to(kargs, edit);
    let ghost edited_outcome = error::outcome(edited);
    assert(editor::edited(delete_edit(karg_text), args, *edit, edited_outcome));
    proof {
        let areas = start.kargs->0;
        let found = liveiso_karg(areas.args)->0;
        assert(found == karg_text);
        assert(editor::edited(delete_edit(found), areas.args, *edit, edited_outcome));
    }
    let new_default = match edited {
        Ok(kargs) => kargs,
        Err(e) => {
            assert(default_chosen(start, edited_outcome, url, *edit, Err(e@)));
            assert(miniso_kargs(start, url, *edit, Err(e@)));
            return Err(e);
        },
    };
    match config.set_kargs(new_default.as_str()) {
        Ok(()) => {},
        Err(e) => {
            assert(default_chosen(start, edited_outcome, url, *edit, Err(e@)));
            assert(miniso_kargs(start, url, *edit, Err(e@)));
            return Err(e);
        },
    }
    let r = name_rootfs(config, new_default, rootfs_url, edit);
    assert(default_chosen(start, edited_outcome, url, *edit, error::outcome(r)));
    assert(miniso_kargs(start, url, *edit, error::outcome(r)));
    r
}

/// The kargs of a minimal image, modified: it does not name a live image any
/// more, and may name the root file system to fetch.
pub fn modify_miniso_kargs<
    D: Fn(&[u8]) -> Result<Initrd, String>,
    P: Fn(&[u8]) -> Result<KargEmbedInfo, String>,
    K: Fn(&KargsEditor, &str) -> Result<String, String>,
>(image: &IsoFs, rootfs_url: Option<&String>, decode: &D, parse: &P, edit: &K) -> (r: Result<
    MinisoKargs,
    LiveError,
>)
    requires
        forall|bytes: &[u8]| call_requires(*decode, (bytes,)),
        forall|bytes: &[u8]| call_requires(*parse, (bytes,)),
        forall|editor: &KargsEditor, kargs: &str| call_requires(*edit, (editor, kargs)),
    ensures
        exists|read: Result<ConfigView, Refusal>| #[trigger]
            iso_config::config_read(image@, *decode, *parse, read) && match read {
                Err(e) => error::outcome(r) == Err::<MinisoView, Refusal>(e),
                Ok(config) => miniso_kargs(
                    config,
                    optional_url(rootfs_url),
                    *edit,
                    error::outcome(r),
                ),
            },
        r matches Ok(miniso) ==> miniso.config@.wf(),
{
    let read = IsoConfig::for_iso(image, decode, parse);
    assert(iso_config::config_read(image@, *decode, *parse, error::outcome(read)));
    match read {
        Ok(config) => modify_kargs_of(config, rootfs_url, edit),
        Err(e) => Err(e),
    }
}

/// How the kargs that an image is reset to are replaced in its description.
pub open spec fn default_updated<
    P: Fn(&[u8]) -> Result<KargEmbedInfo, String>,
    G: Fn(&KargEmbedInfo) -> Result<String, String>,
>(
    image: IsoView,
    default: Seq<char>,
    parse: P,
    to_json: G,
    r: Result<WriteView, Refusal>,
) -> bool {
    exists|info: Result<Option<KargEmbedInfo>, LiveError>| #[trigger]
        kargs::info_read(image, parse, info) && match info {
            Err(e) => r == Err::<WriteView, Refusal>(e@),
            Ok(None) => r == Err::<WriteView, Refusal>(Refusal::KargInfoMissing),
            Ok(Some(info)) => kargs::info_updated(
                image,
                InfoView { default, ..info@ },
                to_json,
                r,
            ),
        }
}

/// The write that replaces the kargs that an image is reset to.
pub fn update_miniso_default<
    P: Fn(&[u8]) -> Result<KargEmbedInfo, String>,
    G: Fn(&KargEmbedInfo) -> Result<String, String>,
>(image: &IsoFs, default: String, parse: &P, to_json: &G) -> (r: Result<WriteOp, LiveError>)
    requires
        forall|bytes: &[u8]| call_requires(*parse, (bytes,)),
        forall|info: &KargEmbedInfo| call_requires(*to_json, (info,)),
    ensures
        default_updated(image@, default@, *parse, *to_json, error::outcome(r)),
{
    let read = KargEmbedInfo::for_iso(image, parse);
    assert(kargs::info_read(image@, *parse, read));
    match read {
        Ok(Some(found)) => {
            let info = KargEmbedInfo { default, files: found.files, size: found.size };
            info.update_iso(image, to_json)
        },
        Ok(None) => Err(LiveError::KargInfoMissing),
        Err(e) => Err(e),
    }
}

} // verus!
