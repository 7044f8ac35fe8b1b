//! Putting network settings into an initramfs, and getting them out again.

use crate::error;
use crate::error::{LiveError, Refusal};
use crate::initrd;
use crate::initrd::{Initrd, Member};
use crate::input;
use crate::input::{InputFile, InputView};
use crate::iso_config;
use crate::text;
use vstd::prelude::*;
use vstd::string::*;
use vstd::utf8::*;

verus! {

/// The files of an initramfs after a keyfile has been added, or why it cannot
/// be.
pub open spec fn keyfile_added(files: Map<Seq<char>, Seq<u8>>, keyfile: InputView) -> Result<
    Map<Seq<char>, Seq<u8>>,
    Refusal,
> {
    match (keyfile.bytes(), input::named(keyfile.path)) {
        (Err(e), _) => Err(e),
        (_, Err(e)) => Err(e),
        (Ok(data), Ok(name)) => if files.contains_key(iso_config::keyfile_path(name)) {
            Err(Refusal::DuplicateKeyfile { name })
        } else {
            Ok(files.insert(iso_config::keyfile_path(name), data))
        },
    }
}

/// How far keyfiles can be added one after the other: the files of the initramfs
/// then, and the error that ended it, if any.
pub open spec fn keyfiles_added(
    files: Map<Seq<char>, Seq<u8>>,
    keyfiles: Seq<InputView>,
) -> (Map<Seq<char>, Seq<u8>>, Option<Refusal>)
    decreases keyfiles.len(),
{
    if keyfiles.len() == 0 {
        (files, None)
    } else {
        let before = keyfiles_added(files, keyfiles.drop_last());
        match (before.1, keyfile_added(before.0, keyfiles.last())) {
            (Some(_), _) => before,
            (None, Ok(after)) => (after, None),
            (None, Err(e)) => (before.0, Some(e)),
        }
    }
}

/// The view of an error that may be absent.
pub open spec fn refusal_of(r: Result<(), LiveError>) -> Option<Refusal> {
    match r {
        Ok(()) => None,
        Err(e) => Some(e@),
    }
}

proof fn lemma_adding_stopped(
    files: Map<Seq<char>, Seq<u8>>,
    keyfiles: Seq<InputView>,
    n: int,
)
    requires
        0 <= n <= keyfiles.len(),
        keyfiles_added(files, keyfiles.take(n)).1 is Some,
    ensures
        keyfiles_added(files, keyfiles) == keyfiles_added(files, keyfiles.take(n)),
    decreases keyfiles.len() - n,
{
    if n < keyfiles.len() {
        assert(keyfiles.take(n + 1).drop_last() =~= keyfiles.take(n));
        lemma_adding_stopped(files, keyfiles, n + 1);
    } else {
        assert(keyfiles.take(n) =~= keyfiles);
    }
}

/// Adds a keyfile to an initramfs.
pub fn embed_keyfile(files: &mut Initrd, keyfile: &InputFile) -> (r: Result<(), LiveError>)
    ensures
        match r {
            Ok(()) => keyfile_added(old(files)@, keyfile@) == Ok::<
                Map<Seq<char>, Seq<u8>>,
                Refusal,
            >(final(files)@),
            Err(e) => keyfile_added(old(files)@, keyfile@) == Err::<
                Map<Seq<char>, Seq<u8>>,
                Refusal,
            >(e@) && final(files)@ == old(files)@,
        },
{
    let data = match keyfile.bytes() {
        Ok(data) => data,
        Err(e) => {
            return Err(e);
        },
    };
    let name = match input::filename(keyfile.path.as_str()) {
        Ok(name) => name,
        Err(e) => {
            return Err(e);
        },
    };
    let path = iso_config::keyfile_path_text(name.as_str());
    if files.get(path.as_str()).is_some() {
        return Err(LiveError::DuplicateKeyfile { name });
    }
    files.add(path.as_str(), data);
    Ok(())
}

/// Adds keyfiles to an initramfs, up to the first that cannot be added.
pub fn initrd_network_embed(files: &mut Initrd, keyfiles: &Vec<InputFile>) -> (r: Result<
    (),
    LiveError,
>)
    ensures
        keyfiles_added(old(files)@, input::input_views(keyfiles@)) == (
            final(files)@,
            refusal_of(r),
        ),
{
    let ghost start = files@;
    let ghost all = input::input_views(keyfiles@);
    let mut i: usize = 0;
    assert(all.take(0) =~= Seq::<InputView>::empty());
    while i < keyfiles.len()
        invariant
            i <= keyfiles.len(),
            start == old(files)@,
            all == input::input_views(keyfiles@),
            keyfiles_added(start, all.take(i as int)) == (files@, None::<Refusal>),
        decreases keyfiles.len() - i,
    {
        assert(all.take(i + 1).drop_last() =~= all.take(i as int));
        assert(all.take(i + 1).last() == keyfiles@[i as int]@);
        match embed_keyfile(files, &keyfiles[i]) {
            Ok(()) => {},
            Err(e) => {
                proof {
                    lemma_adding_stopped(start, all, i + 1);
                }
                return Err(e);
            },
        }
        i = i + 1;
    }
    assert(all.take(i as int) =~= all);
    Ok(())
}

/// A file that was taken out of an initramfs.
#[derive(Debug)]
pub struct ExtractedFile {
    pub name: String,
    pub contents: Vec<u8>,
}

/// An extracted file with its parts as sequences.
pub struct ExtractedView {
    pub name: Seq<char>,
    pub contents: Seq<u8>,
}

impl View for ExtractedFile {
    type V = ExtractedView;

    open spec fn view(&self) -> ExtractedView {
        ExtractedView { name: self.name@, contents: self.contents@ }
    }
}

/// The views of a list of extracted files.
pub open spec fn extracted_views(v: Seq<ExtractedFile>) -> Seq<ExtractedView> {
    v.map_values(|f: ExtractedFile| f@)
}

/// The network settings of an initramfs, up to the first that cannot be named.
#[derive(Debug)]
pub struct Extraction {
    pub files: Vec<ExtractedFile>,
    /// Why not all network settings are there.
    pub refusal: Option<LiveError>,
}

/// An extraction with its parts as views.
#[verifier::ext_equal]
pub struct ExtractionView {
    pub files: Seq<ExtractedView>,
    pub refusal: Option<Refusal>,
}

impl View for Extraction {
    type V = ExtractionView;

    open spec fn view(&self) -> ExtractionView {
        ExtractionView {
            files: extracted_views(self.files@),
            refusal: match self.refusal {
                Some(e) => Some(e@),
                None => None,
            },
        }
    }
}

/// The extraction of a list of files: each is named by the final component of
/// its path.
pub open spec fn extraction_of(members: Seq<Member>) -> ExtractionView
    decreases members.len(),
{
    if members.len() == 0 {
        ExtractionView { files: Seq::empty(), refusal: None }
    } else {
        let before = extraction_of(members.drop_last());
        match (before.refusal, input::named(members.last().path@)) {
            (Some(_), _) => before,
            (None, Ok(name)) => ExtractionView {
                files: before.files.push(
                    ExtractedView { name, contents: members.last().data@ },
                ),
                ..before
            },
            (None, Err(e)) => ExtractionView { refusal: Some(e), ..before },
        }
    }
}

/// How the network settings of an initramfs are taken out: in the order of their
/// paths.
pub open spec fn network_extracted(
    files: Map<Seq<char>, Seq<u8>>,
    r: Result<ExtractionView, Refusal>,
) -> bool {
    if !iso_config::has_network(files) {
        r == Err::<ExtractionView, Refusal>(Refusal::NoNetwork)
    } else {
        exists|members: Seq<Member>|
            {
                &&& #[trigger] initrd::paths_increase(members)
                &&& initrd::files_by_path(members) == iso_config::network_files(files)
                &&& r == Ok::<ExtractionView, Refusal>(extraction_of(members))
            }
    }
}

proof fn lemma_extraction_stopped(members: Seq<Member>, n: int)
    requires
        0 <= n <= members.len(),
        extraction_of(members.take(n)).refusal is Some,
    ensures
        extraction_of(members) == extraction_of(members.take(n)),
    decreases members.len() - n,
{
    if n < members.len() {
        assert(members.take(n + 1).drop_last() =~= members.take(n));
        lemma_extraction_stopped(members, n + 1);
    } else {
        assert(members.take(n) =~= members);
    }
}

/// Takes the network settings out of an initramfs.
pub fn initrd_network_extract(files: &Initrd) -> (r: Result<Extraction, LiveError>)
    ensures
        network_extracted(files@, error::outcome(r)),
{
    let found = iso_config::find_network(files);
    if found.is_empty() {
        return Err(LiveError::NoNetwork);
    }
    let mut out: Vec<ExtractedFile> = Vec::new();
    let ghost all = found@;
    let mut i: usize = 0;
    assert(extracted_views(out@) =~= extraction_of(all.take(0)).files);
    while i < found.len()
        invariant
            i <= found.len(),
            all == found@,
            initrd::paths_increase(all),
            initrd::files_by_path(all) == iso_config::network_files(files@),
            iso_config::has_network(files@),
            extraction_of(all.take(i as int)) == (ExtractionView {
                files: extracted_views(out@),
                refusal: None,
            }),
        decreases found.len() - i,
    {
        assert(all.take(i + 1).drop_last() =~= all.take(i as int));
        assert(all.take(i + 1).last() == found@[i as int]);
        let ghost before = extracted_views(out@);
        match input::filename(found[i].path.as_str()) {
            Ok(name) => {
                let contents = found[i].data.clone();
                assert(contents@ =~= found@[i as int].data@);
                let file = ExtractedFile { name, contents };
                let ghost view = file@;
                out.push(file);
                assert(extracted_views(out@) =~= before.push(view));
            },
            Err(e) => {
                proof {
                    lemma_extraction_stopped(all, i + 1);
                }
                return Ok(Extraction { files: out, refusal: Some(e) });
            },
        }
        i = i + 1;
    }
    assert(all.take(i as int) =~= all);
    Ok(Extraction { files: out, refusal: None })
}

/// The line above a file in a listing.
pub open spec fn listing_header(name: Seq<char>) -> Seq<char> {
    "########## "@ + name + " ##########\n"@
}

/// The listing of files: each below a line with its name, with empty lines
/// between them.
pub open spec fn listing_of(files: Seq<ExtractedView>) -> Seq<u8>
    decreases files.len(),
{
    if files.len() == 0 {
        Seq::empty()
    } else {
        let gap = if files.len() > 1 {
            seq![10u8]
        } else {
            Seq::empty()
        };
        listing_of(files.drop_last()) + gap + encode_utf8(listing_header(files.last().name))
            + files.last().contents
    }
}

impl Extraction {
    /// The files as a text. The empty line that parts a file from the one before
    /// it is there too for a file at which the extraction stopped.
    pub fn listing(&self) -> (r: Vec<u8>)
        ensures
            r@ == if self@.refusal is Some && self@.files.len() > 0 {
                listing_of(self@.files) + seq![10u8]
            } else {
                listing_of(self@.files)
            },
    {
        let mut r: Vec<u8> = Vec::new();
        let ghost all = self@.files;
        let mut i: usize = 0;
        assert(r@ =~= listing_of(all.take(0)));
        while i < self.files.len()
            invariant
                i <= self.files.len(),
                all == self@.files,
                r@ == listing_of(all.take(i as int)),
            decreases self.files.len() - i,
        {
            assert(all.take(i + 1).drop_last() =~= all.take(i as int));
            assert(all.take(i + 1).last() == self.files@[i as int]@);
            let ghost before = r@;
            let ghost gap = if i > 0 {
                seq![10u8]
            } else {
                Seq::empty()
            };
            if i > 0 {
                r.push(10);
            }
            assert(r@ =~= before + gap);
            let mut header = text::joined("########## ", self.files[i].name.as_str());
            header.append(" ##########\n");
            let ghost with_gap = r@;
            r.extend_from_slice(header.as_str().as_bytes());
            assert(r@ =~= with_gap + encode_utf8(header@));
            let ghost with_header = r@;
            r.extend_from_slice(self.files[i].contents.as_slice());
            assert(r@ =~= with_header + self.files@[i as int].contents@);
            i = i + 1;
        }
        assert(all.take(i as int) =~= all);
        if self.refusal.is_some() && self.files.len() > 0 {
            r.push(10);
            assert(r@ =~= listing_of(all) + seq![10u8]);
        }
        r
    }
}

} // verus!
