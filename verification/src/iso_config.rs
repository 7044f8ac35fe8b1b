//! The customisation of a live image: its embedded initramfs and its kargs.

use crate::embed;
use crate::embed::{EmbedView, InitrdEmbedArea};
use crate::error;
use crate::error::{LiveError, Refusal};
use crate::glob;
use crate::glob::GlobMatcher;
use crate::initrd;
use crate::initrd::{Initrd, Member};
use crate::iso::{IsoFs, IsoView};
use crate::kargs;
use crate::kargs::{AreasView, KargEmbedAreas, KargEmbedInfo};
use crate::region;
use crate::region::{Region, RegionView, Segment, SegmentView, WriteOp, WriteView};
use crate::stream;
use crate::text;
use vstd::prelude::*;
use vstd::string::*;

verus! {

/// Where an initramfs holds an Ignition config.
pub const INITRD_IGNITION_PATH: &'static str = "config.ign";

/// Where an initramfs holds network settings.
pub const INITRD_NETWORK_DIR: &'static str = "etc/coreos-firstboot-network";

/// Whether a path of an initramfs is one of network settings.
pub open spec fn is_network_path(path: Seq<char>) -> bool {
    (INITRD_NETWORK_DIR@ + "/"@).is_prefix_of(path)
}

/// The pattern of the paths of network settings.
pub open spec fn network_pattern() -> Seq<char> {
    INITRD_NETWORK_DIR@ + "/*"@
}

/// Where the network settings of a name lie in an initramfs.
pub open spec fn keyfile_path(name: Seq<char>) -> Seq<char> {
    INITRD_NETWORK_DIR@ + "/"@ + name
}

/// Where the network settings of a name lie in an initramfs.
pub fn keyfile_path_text(name: &str) -> (r: String)
    ensures
        r@ == keyfile_path(name@),
{
    let mut r = text::joined(INITRD_NETWORK_DIR, "/");
    r.append(name);
    r
}

/// The network settings among the files of an initramfs.
pub open spec fn network_files(files: Map<Seq<char>, Seq<u8>>) -> Map<Seq<char>, Seq<u8>> {
    files.restrict(Set::new(|path: Seq<char>| is_network_path(path)))
}

/// The files of an initramfs without the network settings.
pub open spec fn without_network(files: Map<Seq<char>, Seq<u8>>) -> Map<Seq<char>, Seq<u8>> {
    files.remove_keys(Set::new(|path: Seq<char>| is_network_path(path)))
}

/// Whether there are network settings among the files of an initramfs.
pub open spec fn has_network(files: Map<Seq<char>, Seq<u8>>) -> bool {
    exists|path: Seq<char>| #[trigger] files.contains_key(path) && is_network_path(path)
}

/// The pattern matches the paths of network settings and no others.
pub proof fn lemma_network_pattern(path: Seq<char>)
    ensures
        glob::glob_match(network_pattern(), path) <==> is_network_path(path),
{
    let prefix = INITRD_NETWORK_DIR@ + "/"@;
    reveal_strlit("etc/coreos-firstboot-network");
    reveal_strlit("/");
    reveal_strlit("/*");
    assert(network_pattern() =~= prefix.push('*'));
    assert(!prefix.contains('*')) by {
        assert forall|i: int| 0 <= i < prefix.len() implies prefix[i] != '*' by {
            if i < INITRD_NETWORK_DIR@.len() {
                assert(prefix[i] == INITRD_NETWORK_DIR@[i]);
            }
        }
    }
    glob::lemma_glob_prefix(prefix, path);
}

/// The matching files for the pattern are the network settings.
pub proof fn lemma_network_files(files: Map<Seq<char>, Seq<u8>>)
    ensures
        initrd::matching_files(files, seq![network_pattern()]) == network_files(files),
{
    assert forall|path: Seq<char>|
        #[trigger] glob::any_match(seq![network_pattern()], path) == is_network_path(path) by {
        lemma_network_pattern(path);
        let patterns = seq![network_pattern()];
        if is_network_path(path) {
            assert(glob::glob_match(patterns[0], path));
        }
    }
    assert(initrd::matching_files(files, seq![network_pattern()]) =~= network_files(files));
}

/// The matcher for the paths of network settings.
pub fn network_matcher() -> (r: GlobMatcher)
    ensures
        r@ == seq![network_pattern()],
{
    let mut patterns: Vec<String> = Vec::new();
    patterns.push(text::joined(INITRD_NETWORK_DIR, "/*"));
    assert(text::texts(patterns@) =~= seq![network_pattern()]);
    GlobMatcher::new(patterns)
}

/// The network settings of an initramfs, in the order of their paths.
pub fn find_network(files: &Initrd) -> (r: Vec<Member>)
    ensures
        initrd::paths_increase(r@),
        initrd::files_by_path(r@) == network_files(files@),
        r@.len() > 0 <==> has_network(files@),
{
    let r = files.find(&network_matcher());
    proof {
        lemma_network_files(files@);
        if r@.len() > 0 {
            initrd::lemma_files_by_path(r@, r@[0].path@);
            assert(network_files(files@).contains_key(r@[0].path@));
            assert(files@.contains_key(r@[0].path@));
        }
        if has_network(files@) {
            let path = choose|path: Seq<char>| #[trigger]
                files@.contains_key(path) && is_network_path(path);
            assert(network_files(files@).contains_key(path));
            initrd::lemma_files_by_path(r@, path);
        }
    }
    r
}

/// Takes the network settings out of an initramfs.
fn remove_network_files(files: &mut Initrd)
    ensures
        final(files)@ == without_network(old(files)@),
{
    let found = find_network(files);
    let ghost all = files@;
    let mut i: usize = 0;
    while i < found.len()
        invariant
            i <= found.len(),
            forall|path: Seq<char>|
                #![trigger files@.dom().contains(path)]
                files@.contains_key(path) <==> all.contains_key(path) && forall|k: int|
                    0 <= k < i ==> (#[trigger] found@[k]).path@ != path,
            forall|path: Seq<char>| #[trigger]
                files@.contains_key(path) ==> files@[path] == all[path],
        decreases found.len() - i,
    {
        let ghost before = files@;
        files.remove(found[i].path.as_str());
        assert forall|path: Seq<char>|
            #![trigger files@.dom().contains(path)]
            files@.contains_key(path) <==> all.contains_key(path) && forall|k: int|
                0 <= k < i + 1 ==> (#[trigger] found@[k]).path@ != path by {
            assert(before.dom().contains(path) == before.contains_key(path));
            if files@.contains_key(path) {
                assert(before.contains_key(path));
            } else if before.contains_key(path) {
                assert(found@[i as int].path@ == path);
            } else if all.contains_key(path) {
                let k = choose|k: int| 0 <= k < i && (#[trigger] found@[k]).path@ == path;
                assert(found@[k].path@ == path);
            }
        }
        i = i + 1;
    }
    proof {
        let expected = without_network(all);
        assert forall|path: Seq<char>|
            #![trigger files@.dom().contains(path)]
            files@.contains_key(path) == expected.contains_key(path) by {
            initrd::lemma_files_by_path(found@, path);
            assert(network_files(all).contains_key(path) <==> all.contains_key(path)
                && is_network_path(path));
        }
        assert(files@.dom() =~= expected.dom());
        assert(files@ =~= expected);
    }
}

/// What of a live image can be customised.
#[derive(Debug)]
pub struct IsoConfig {
    /// The embedded initramfs.
    pub initrd: InitrdEmbedArea,
    /// The kargs, if the image has karg embed areas.
    pub kargs: Option<KargEmbedAreas>,
}

/// The customisation of an image with its parts as views.
#[verifier::ext_equal]
pub struct ConfigView {
    pub initrd: EmbedView,
    pub kargs: Option<AreasView>,
}

/// The view of karg embed areas that may be absent.
pub open spec fn optional_areas(areas: Option<KargEmbedAreas>) -> Option<AreasView> {
    match areas {
        Some(areas) => Some(areas@),
        None => None,
    }
}

impl View for IsoConfig {
    type V = ConfigView;

    open spec fn view(&self) -> ConfigView {
        ConfigView { initrd: self.initrd@, kargs: optional_areas(self.kargs) }
    }
}

impl ConfigView {
    /// Both parts are well-formed.
    pub open spec fn wf(self) -> bool {
        &&& self.initrd.wf()
        &&& self.kargs matches Some(areas) ==> areas.wf()
    }

    /// The customisation with other files in the initramfs.
    pub open spec fn with_files(self, files: Map<Seq<char>, Seq<u8>>) -> ConfigView {
        ConfigView {
            initrd: EmbedView {
                region: RegionView { modified: true, ..self.initrd.region },
                files,
            },
            ..self
        }
    }

    /// The customisation with other kargs, or why they cannot be set.
    pub open spec fn with_kargs(self, kargs: Seq<char>) -> Result<ConfigView, Refusal> {
        match self.kargs {
            None => Err(Refusal::KargAreasMissing),
            Some(areas) => {
                let trimmed = text::trimmed(kargs);
                if crate::area::area_fits(trimmed, areas.length as nat) {
                    Ok(ConfigView { kargs: Some(areas.with_kargs(trimmed)), ..self })
                } else {
                    Err(
                        Refusal::KargsTooLarge {
                            needed: crate::area::area_need(trimmed),
                            available: areas.length,
                        },
                    )
                }
            },
        }
    }

    /// The regions of the image that the customisation lies in, given that of
    /// the initramfs with its contents.
    pub open spec fn regions(self, initrd: RegionView) -> Seq<RegionView> {
        seq![initrd] + match self.kargs {
            Some(areas) => areas.regions,
            None => Seq::empty(),
        }
    }
}

/// How the customisation of an image is read.
pub open spec fn config_read<
    D: Fn(&[u8]) -> Result<Initrd, String>,
    P: Fn(&[u8]) -> Result<KargEmbedInfo, String>,
>(image: IsoView, decode: D, parse: P, r: Result<ConfigView, Refusal>) -> bool {
    exists|area: Result<EmbedView, Refusal>| #[trigger]
        embed::embed_read(image, decode, area) && match area {
            Err(e) => r == Err::<ConfigView, Refusal>(e),
            Ok(area) => exists|kargs: Result<Option<AreasView>, Refusal>| #[trigger]
                kargs::areas_read(image, parse, kargs) && r == (match kargs {
                    Err(e) => Err(e),
                    Ok(kargs) => Ok(ConfigView { initrd: area, kargs }),
                }),
        }
}

/// The writes that put a customisation in place, given the region of its
/// initramfs.
pub open spec fn config_writes(config: ConfigView, initrd: RegionView) -> Result<
    Seq<WriteView>,
    Refusal,
> {
    match kargs::first_unfit(config.regions(initrd)) {
        Some(e) => Err(e),
        None => Ok(region::region_writes(config.regions(initrd))),
    }
}

/// The copy of an image with a customisation put in place, given the region of
/// its initramfs.
pub open spec fn config_copy(config: ConfigView, initrd: RegionView) -> Result<
    Seq<SegmentView>,
    Refusal,
> {
    let sorted = region::modified_in_order(config.regions(initrd));
    match region::first_fault(sorted, 0) {
        Some(e) => Err(e),
        None => Ok(region::copy_plan(sorted, 0)),
    }
}

/// The outcome of planning writes, with views.
pub open spec fn writes_outcome(r: Result<Vec<WriteOp>, LiveError>) -> Result<
    Seq<WriteView>,
    Refusal,
> {
    match r {
        Ok(ops) => Ok(region::writes(ops@)),
        Err(e) => Err(e@),
    }
}

/// The outcome of planning a copy, with views.
pub open spec fn copy_outcome(r: Result<Vec<Segment>, LiveError>) -> Result<
    Seq<SegmentView>,
    Refusal,
> {
    match r {
        Ok(plan) => Ok(region::segments(plan@)),
        Err(e) => Err(e@),
    }
}

/// How the writes for a customisation are planned.
pub open spec fn config_written<E: Fn(&Initrd) -> Result<Vec<u8>, String>>(
    config: ConfigView,
    encode: E,
    r: Result<Seq<WriteView>, Refusal>,
) -> bool {
    exists|initrd: Result<RegionView, Refusal>| #[trigger]
        embed::embed_encoded(config.initrd, encode, initrd) && r == (match initrd {
            Err(e) => Err(e),
            Ok(initrd) => config_writes(config, initrd),
        })
}

/// How the copy for a customisation is planned.
pub open spec fn config_streamed<E: Fn(&Initrd) -> Result<Vec<u8>, String>>(
    config: ConfigView,
    encode: E,
    r: Result<Seq<SegmentView>, Refusal>,
) -> bool {
    exists|initrd: Result<RegionView, Refusal>| #[trigger]
        embed::embed_encoded(config.initrd, encode, initrd) && r == (match initrd {
            Err(e) => Err(e),
            Ok(initrd) => config_copy(config, initrd),
        })
}

impl IsoConfig {
    /// Reads the customisation of an image.
    pub fn for_iso<
        D: Fn(&[u8]) -> Result<Initrd, String>,
        P: Fn(&[u8]) -> Result<KargEmbedInfo, String>,
    >(image: &IsoFs, decode: &D, parse: &P) -> (r: Result<IsoConfig, LiveError>)
        requires
            forall|bytes: &[u8]| call_requires(*decode, (bytes,)),
            forall|bytes: &[u8]| call_requires(*parse, (bytes,)),
        ensures
            config_read(image@, *decode, *parse, error::outcome(r)),
            r matches Ok(config) ==> config@.wf(),
    {
        let area = InitrdEmbedArea::for_iso(image, decode);
        let ghost area_outcome = error::outcome(area);
        assert(embed::embed_read(image@, *decode, area_outcome));
        let initrd = match area {
            Ok(initrd) => initrd,
            Err(e) => {
                return Err(e);
            },
        };
        let found = KargEmbedAreas::for_iso(image, parse);
        let ghost kargs_outcome = error::optional_outcome(found);
        assert(kargs::areas_read(image@, *parse, kargs_outcome));
        match found {
            Ok(kargs) => Ok(IsoConfig { initrd, kargs }),
            Err(e) => Err(e),
        }
    }

    /// Whether there is an embedded Ignition config.
    pub fn have_ignition(&self) -> (r: bool)
        ensures
            r == self@.initrd.files.contains_key(INITRD_IGNITION_PATH@),
    {
        self.initrd().get(INITRD_IGNITION_PATH).is_some()
    }

    /// Whether there are embedded network settings.
    pub fn have_network(&self) -> (r: bool)
        ensures
            r == has_network(self@.initrd.files),
    {
        !find_network(self.initrd()).is_empty()
    }

    /// Takes the network settings out of the initramfs.
    pub fn remove_network(&mut self)
        ensures
            final(self)@ == old(self)@.with_files(without_network(old(self)@.initrd.files)),
    {
        remove_network_files(self.initrd_mut());
    }

    /// The embedded initramfs.
    pub fn initrd(&self) -> (r: &Initrd)
        ensures
            *r == self.initrd.initrd,
    {
        self.initrd.initrd()
    }

    /// The embedded initramfs, to be changed.
    pub fn initrd_mut(&mut self) -> (r: &mut Initrd)
        ensures
            *r == old(self).initrd.initrd,
            final(self).initrd.initrd == *final(r),
            final(self)@ == old(self)@.with_files(final(r)@),
    {
        self.initrd.initrd_mut()
    }

    /// The kargs of the image.
    pub fn kargs(&self) -> (r: Result<&str, LiveError>)
        ensures
            match r {
                Ok(kargs) => self@.kargs matches Some(areas) && kargs@ == areas.args,
                Err(e) => self@.kargs is None && e@ == Refusal::KargAreasMissing,
            },
    {
        match self.unwrap_kargs() {
            Ok(areas) => Ok(areas.kargs()),
            Err(e) => Err(e),
        }
    }

    /// The kargs that the image was built with.
    pub fn kargs_default(&self) -> (r: Result<&str, LiveError>)
        ensures
            match r {
                Ok(kargs) => self@.kargs matches Some(areas) && kargs@ == areas.default,
                Err(e) => self@.kargs is None && e@ == Refusal::KargAreasMissing,
            },
    {
        match self.unwrap_kargs() {
            Ok(areas) => Ok(areas.kargs_default()),
            Err(e) => Err(e),
        }
    }

    /// Sets the kargs of the image.
    pub fn set_kargs(&mut self, kargs: &str) -> (r: Result<(), LiveError>)
        ensures
            match r {
                Ok(()) => old(self)@.with_kargs(kargs@) == Ok::<ConfigView, Refusal>(final(self)@),
                Err(e) => old(self)@.with_kargs(kargs@) == Err::<ConfigView, Refusal>(e@)
                    && final(self)@ == old(self)@,
            },
            old(self)@.wf() ==> final(self)@.wf(),
    {
        match self.unwrap_kargs_mut() {
            Ok(areas) => areas.set_kargs(kargs),
            Err(e) => Err(e),
        }
    }

    /// The karg embed areas.
    pub fn unwrap_kargs(&self) -> (r: Result<&KargEmbedAreas, LiveError>)
        ensures
            match r {
                Ok(areas) => self.kargs == Some(*areas),
                Err(e) => self.kargs is None && e@ == Refusal::KargAreasMissing,
            },
    {
        match &self.kargs {
            Some(areas) => Ok(areas),
            None => Err(LiveError::KargAreasMissing),
        }
    }

    /// The karg embed areas, to be changed.
    pub fn unwrap_kargs_mut(&mut self) -> (r: Result<&mut KargEmbedAreas, LiveError>)
        ensures
            match r {
                Ok(areas) => {
                    &&& old(self).kargs == Some(*areas)
                    &&& final(self).kargs == Some(*final(areas))
                    &&& final(self).initrd == old(self).initrd
                },
                Err(e) => {
                    &&& old(self).kargs is None
                    &&& e@ == Refusal::KargAreasMissing
                    &&& *final(self) == *old(self)
                },
            },
    {
        match &mut self.kargs {
            Some(areas) => Ok(areas),
            None => Err(LiveError::KargAreasMissing),
        }
    }

    /// The writes that put the customisation in place.
    pub fn write<E: Fn(&Initrd) -> Result<Vec<u8>, String>>(&self, encode: &E) -> (r: Result<
        Vec<WriteOp>,
        LiveError,
    >)
        requires
            forall|initrd: &Initrd| call_requires(*encode, (initrd,)),
        ensures
            config_written(self@, *encode, writes_outcome(r)),
    {
        let region = self.initrd.region(encode);
        let ghost outcome = error::outcome(region);
        assert(embed::embed_encoded(self@.initrd, *encode, outcome));
        match region {
            Ok(region) => self.write_with(&region),
            Err(e) => Err(e),
        }
    }

    /// The writes that put the customisation in place, given the region of its
    /// initramfs with its contents.
    pub fn write_with(&self, initrd: &Region) -> (r: Result<Vec<WriteOp>, LiveError>)
        ensures
            writes_outcome(r) == config_writes(self@, initrd@),
    {
        let ghost areas = match self@.kargs {
            Some(areas) => areas.regions,
            None => Seq::empty(),
        };
        let ghost all = self@.regions(initrd@);
        proof {
            assert(all.first() == initrd@);
            assert(all.drop_first() =~= areas);
            lemma_writes_of_first(initrd@, areas);
        }
        let mut ops: Vec<WriteOp> = Vec::new();
        match initrd.write() {
            Err(e) => {
                return Err(e);
            },
            Ok(Some(op)) => {
                ops.push(op);
            },
            Ok(None) => {},
        }
        let ghost head = region::writes(ops@);
        match &self.kargs {
            None => {
                assert(areas =~= Seq::<RegionView>::empty());
                assert(kargs::first_unfit(areas) is None);
                assert(kargs::first_unfit(all) is None);
                assert(region::region_writes(areas) =~= Seq::<WriteView>::empty());
                assert(region::writes(ops@) =~= region::region_writes(all));
                Ok(ops)
            },
            Some(kargs) => {
                let mut rest = match kargs.write() {
                    Ok(rest) => rest,
                    Err(e) => {
                        return Err(e);
                    },
                };
                let ghost tail = region::writes(rest@);
                ops.append(&mut rest);
                assert(region::writes(ops@) =~= head + tail);
                assert(region::writes(ops@) =~= region::region_writes(all));
                Ok(ops)
            },
        }
    }

    /// The copy of the image with the customisation put in place.
    pub fn stream<E: Fn(&Initrd) -> Result<Vec<u8>, String>>(&self, encode: &E) -> (r: Result<
        Vec<Segment>,
        LiveError,
    >)
        requires
            self@.wf(),
            forall|initrd: &Initrd| call_requires(*encode, (initrd,)),
        ensures
            config_streamed(self@, *encode, copy_outcome(r)),
    {
        let region = self.initrd.region(encode);
        let ghost outcome = error::outcome(region);
        assert(embed::embed_encoded(self@.initrd, *encode, outcome));
        match region {
            Ok(region) => self.stream_with(&region),
            Err(e) => Err(e),
        }
    }

    /// The copy of the image with the customisation put in place, given the
    /// region of its initramfs with its contents.
    pub fn stream_with(&self, initrd: &Region) -> (r: Result<Vec<Segment>, LiveError>)
        requires
            self@.wf(),
            initrd@.end() <= u64::MAX,
        ensures
            copy_outcome(r) == config_copy(self@, initrd@),
    {
        let ghost all = self@.regions(initrd@);
        let mut regions: Vec<&Region> = Vec::new();
        regions.push(initrd);
        if let Some(kargs) = &self.kargs {
            let mut i: usize = 0;
            let ghost areas = kargs@.regions;
            assert(region::regions_of(regions@) =~= seq![initrd@] + areas.take(0));
            while i < kargs.regions.len()
                invariant
                    i <= kargs.regions.len(),
                    areas == stream::region_views(kargs.regions@),
                    region::regions_of(regions@) == seq![initrd@] + areas.take(i as int),
                decreases kargs.regions.len() - i,
            {
                let ghost before = region::regions_of(regions@);
                regions.push(&kargs.regions[i]);
                assert(region::regions_of(regions@) =~= before.push(areas[i as int]));
                assert(areas.take(i + 1) =~= areas.take(i as int).push(areas[i as int]));
                assert(region::regions_of(regions@) =~= seq![initrd@] + areas.take(i + 1));
                i = i + 1;
            }
            assert(areas.take(i as int) =~= areas);
        }
        assert(region::regions_of(regions@) =~= all);
        assert forall|k: int| 0 <= k < all.len() && (#[trigger] all[k]).modified implies all[k].end()
            <= u64::MAX by {
            if k > 0 {
                assert(all[k] == self@.kargs->0.regions[k - 1]);
            }
        }
        stream::stream(&regions)
    }
}

/// The writes of a list are those of its first region and then of the others.
proof fn lemma_writes_of_first(first: RegionView, rest: Seq<RegionView>)
    ensures
        region::region_writes(seq![first] + rest) == (match region::region_write(first) {
            Some(write) => seq![write],
            None => Seq::empty(),
        }) + region::region_writes(rest),
    decreases rest.len(),
{
    let all = seq![first] + rest;
    if rest.len() == 0 {
        assert(all.drop_last() =~= Seq::<RegionView>::empty());
        assert(all.last() == first);
        reveal_with_fuel(region::region_writes, 2);
        assert(region::region_writes(all) =~= (match region::region_write(first) {
            Some(write) => seq![write],
            None => Seq::empty(),
        }) + region::region_writes(rest));
    } else {
        assert(all.drop_last() =~= seq![first] + rest.drop_last());
        assert(all.last() == rest.last());
        lemma_writes_of_first(first, rest.drop_last());
        assert(region::region_writes(all) =~= (match region::region_write(first) {
            Some(write) => seq![write],
            None => Seq::empty(),
        }) + region::region_writes(rest));
    }
}

} // verus!
