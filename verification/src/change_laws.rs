//! What holds of images that are changed more than once.

use crate::area;
use crate::byte_laws;
use crate::cmdline::IsoCustomizeConfig;
use crate::command_laws;
use crate::compose;
use crate::compose::DestView;
use crate::customize;
use crate::customize::{
    CommonView, FileUse, InstallConfig, InstallerFileView, LiveView, NoticeView, OsFeatures,
    Progress, Stages,
};
use crate::customize_commands;
use crate::editor;
use crate::editor::{EditView, KargsEditor};
use crate::embed;
use crate::embed::EmbedView;
use crate::error::{LiveError, Refusal};
use crate::ignition;
use crate::ignition::{Directive, DirectiveView, Ignition};
use crate::initrd::Initrd;
use crate::input::InputView;
use crate::iso;
use crate::iso::IsoView;
use crate::iso_commands;
use crate::iso_config;
use crate::iso_config::{ConfigView, INITRD_IGNITION_PATH};
use crate::kargs;
use crate::kargs::{AreasView, InfoView, KargEmbedInfo};
use crate::laws;
use crate::miniso;
use crate::miniso::MinisoView;
use crate::read_back;
use crate::region;
use crate::region::{RegionView, WriteView};
use crate::series;
use crate::stream;
use crate::text;
use vstd::prelude::*;
use vstd::string::*;
use vstd::utf8::*;

verus! {

/// Images of which each differs from the one before it at most by customisation
/// do so all together.
pub proof fn law_changes_keep_to_customisation(images: Seq<IsoView>, configs: Seq<ConfigView>)
    requires
        images.len() > 0,
        images.len() == configs.len(),
        forall|i: int|
            0 < i < images.len() ==> byte_laws::differ_by_customisation(
                images[i - 1],
                configs[i - 1],
                #[trigger] images[i],
                configs[i],
            ),
    ensures
        byte_laws::differ_by_customisation(
            images.first(),
            configs.first(),
            images.last(),
            configs.last(),
        ),
    decreases images.len(),
{
    let n = images.len() - 1;
    if n == 0 {
        byte_laws::law_differ_by_customisation(
            images[0],
            configs[0],
            images[0],
            configs[0],
            images[0],
            configs[0],
        );
    } else {
        let images_before = images.drop_last();
        let configs_before = configs.drop_last();
        assert forall|i: int|
            0 < i < images_before.len() implies byte_laws::differ_by_customisation(
            images_before[i - 1],
            configs_before[i - 1],
            #[trigger] images_before[i],
            configs_before[i],
        ) by {
            assert(images_before[i] == images[i]);
        }
        law_changes_keep_to_customisation(images_before, configs_before);
        assert(byte_laws::differ_by_customisation(
            images[n - 1],
            configs[n - 1],
            images[n],
            configs[n],
        ));
        byte_laws::law_differ_by_customisation(
            images[0],
            configs[0],
            images[n - 1],
            configs[n - 1],
            images[n],
            configs[n],
        );
    }
}

/// Karg embed areas that are alike but for their kargs are the same once they get
/// the same kargs.
proof fn lemma_same_kargs(a: AreasView, b: AreasView, kargs: Seq<char>)
    requires
        read_back::same_areas(a, b),
    ensures
        a.with_kargs(kargs) == b.with_kargs(kargs),
{
    let x = a.with_kargs(kargs);
    let y = b.with_kargs(kargs);
    assert forall|i: int| 0 <= i < x.regions.len() implies x.regions[i] == y.regions[i] by {
        assert(read_back::place(a.regions[i]) == read_back::place(b.regions[i]));
    }
    assert(x.regions =~= y.regions);
}

/// Customisations that lie in the same places are the same once they get the same
/// files and the same kargs.
proof fn lemma_same_altered(
    a: ConfigView,
    b: ConfigView,
    files: Map<Seq<char>, Seq<u8>>,
    kargs: Seq<char>,
)
    requires
        byte_laws::same_places(a, b),
        embed::emptied(a.initrd.region) == a.initrd.region,
        embed::emptied(b.initrd.region) == b.initrd.region,
    ensures
        a.with_files(files).initrd == b.with_files(files).initrd,
        a.with_files(files).with_kargs(kargs) == b.with_files(files).with_kargs(kargs),
{
    assert(read_back::place(a.initrd.region) == read_back::place(b.initrd.region));
    if a.kargs is Some {
        lemma_same_kargs(a.kargs->0, b.kargs->0, text::trimmed(kargs));
    }
}

/// The embed area of an image that was read is not modified, and its contents are
/// left out.
proof fn lemma_read_initrd<
    D: Fn(&[u8]) -> Result<Initrd, String>,
    P: Fn(&[u8]) -> Result<KargEmbedInfo, String>,
>(image: IsoView, decode: D, parse: P, read: ConfigView)
    requires
        iso_config::config_read(image, decode, parse, Ok(read)),
    ensures
        embed::embed_read(image, decode, Ok(read.initrd)),
        embed::embed_region(image) matches Ok(found) && read.initrd.region == embed::emptied(found),
        embed::emptied(read.initrd.region) == read.initrd.region,
        !read.initrd.region.modified,
{
}

/// A reset that is written covers the whole customisation of an image.
proof fn lemma_reset_covers(read: ConfigView, new: ConfigView, p: int)
    requires
        iso_commands::all_restored(read) == Ok::<ConfigView, Refusal>(new),
        byte_laws::in_customisation(read, p),
    ensures
        byte_laws::writes_to(new, p),
{
    if !read.initrd.region.covers(p) {
        let areas = read.kargs->0;
        let i = choose|i: int|
            0 <= i < areas.regions.len() && (#[trigger] areas.regions[i]).covers(p);
        assert(new.kargs->0.regions[i].modified && new.kargs->0.regions[i].covers(p));
    }
}

/// Images that differ at most by customisation are the same image, byte for byte,
/// once they have been reset; and either both can be reset or neither.
pub proof fn law_resets_meet<
    D: Fn(&[u8]) -> Result<Initrd, String>,
    P: Fn(&[u8]) -> Result<KargEmbedInfo, String>,
    E: Fn(&Initrd) -> Result<Vec<u8>, String>,
>(
    a: IsoView,
    b: IsoView,
    decode: D,
    parse: P,
    encode: E,
    read_a: ConfigView,
    read_b: ConfigView,
    after_a: Seq<u8>,
    after_b: Seq<u8>,
)
    requires
        iso_config::config_read(a, decode, parse, Ok(read_a)),
        iso_config::config_read(b, decode, parse, Ok(read_b)),
        byte_laws::differ_by_customisation(a, read_a, b, read_b),
    ensures
        iso_commands::all_restored(read_a) == iso_commands::all_restored(read_b),
        iso_commands::all_restored(read_a) matches Ok(new) ==> byte_laws::becomes(
            a.file,
            new,
            encode,
            after_a,
        ) && byte_laws::becomes(b.file, new, encode, after_b) ==> after_a == after_b,
{
    let none = Map::<Seq<char>, Seq<u8>>::empty();
    lemma_read_initrd(a, decode, parse, read_a);
    lemma_read_initrd(b, decode, parse, read_b);
    if read_a.kargs is Some {
        lemma_same_altered(read_a, read_b, none, read_a.kargs->0.default);
    }
    if iso_commands::all_restored(read_a) is Ok {
        let new = iso_commands::all_restored(read_a)->Ok_0;
        if byte_laws::becomes(a.file, new, encode, after_a) && byte_laws::becomes(
            b.file,
            new,
            encode,
            after_b,
        ) {
            assert forall|p: int|
                0 <= p < a.file.len() && !byte_laws::writes_to(new, p) implies #[trigger] a.file[p]
                == b.file[p] by {
                if byte_laws::in_customisation(read_a, p) {
                    lemma_reset_covers(read_a, new, p);
                }
            }
            byte_laws::law_same_change(a.file, b.file, new, new, encode, after_a, after_b);
        }
    }
}

/// An embed area without files, as it is written.
pub open spec fn cleared(region: RegionView) -> RegionView {
    RegionView { contents: Seq::new(region.length as nat, |i: int| 0u8), ..region }
}

/// An image that has been reset holds zeros alone in its embed area and the kargs
/// that it was built with in each karg embed area, and is unchanged otherwise.
///
/// This holds where the regions that are written agree with each other.
pub proof fn law_reset_bytes<
    D: Fn(&[u8]) -> Result<Initrd, String>,
    P: Fn(&[u8]) -> Result<KargEmbedInfo, String>,
    E: Fn(&Initrd) -> Result<Vec<u8>, String>,
>(
    image: IsoView,
    decode: D,
    parse: P,
    encode: E,
    read: ConfigView,
    new: ConfigView,
    after: Seq<u8>,
)
    requires
        iso_config::config_read(image, decode, parse, Ok(read)),
        iso_commands::all_restored(read) == Ok::<ConfigView, Refusal>(new),
        stream::agree(new.regions(cleared(new.initrd.region))),
        byte_laws::becomes(image.file, new, encode, after),
    ensures
        after.len() == image.file.len(),
        read_back::holds(after, cleared(read.initrd.region)),
        read.kargs matches Some(areas) && forall|i: int|
            0 <= i < areas.regions.len() ==> read_back::holds(
                after,
                (RegionView {
                    contents: area::area_bytes(text::trimmed(areas.default), areas.length as nat),
                    ..#[trigger] areas.regions[i]
                }),
            ),
        forall|p: int|
            0 <= p < image.file.len() && !byte_laws::in_customisation(read, p)
                ==> #[trigger] after[p] == image.file[p],
{
    let areas = read.kargs->0;
    let none = Map::<Seq<char>, Seq<u8>>::empty();
    byte_laws::lemma_altered_places(read, Some(none), Some(areas.default), new);
    byte_laws::lemma_change_in_place(image, decode, parse, read, encode, new, after);
    let written = byte_laws::lemma_becomes(image.file, new, encode, after);
    assert(written.contents =~= cleared(new.initrd.region).contents);
    assert(written == cleared(new.initrd.region));
    let regions = new.regions(written);
    stream::law_write_regions(image.file, regions);
    assert(regions[0] == written);
    assert(regions[0].modified);
    assert forall|i: int| 0 <= i < areas.regions.len() implies read_back::holds(
        after,
        (RegionView {
            contents: area::area_bytes(text::trimmed(areas.default), areas.length as nat),
            ..#[trigger] areas.regions[i]
        }),
    ) by {
        assert(regions[i + 1] == new.kargs->0.regions[i]);
        assert(regions[i + 1].modified);
    }
}

/// An image that has been reset is read as one without files, with the kargs that it
/// was built with; and these are the same as before.
///
/// This holds where the regions that are written agree with each other, and where
/// the written image holds the same as before in what describes the karg embed
/// areas.
pub proof fn law_reset_read_back<
    D: Fn(&[u8]) -> Result<Initrd, String>,
    P: Fn(&[u8]) -> Result<KargEmbedInfo, String>,
    E: Fn(&Initrd) -> Result<Vec<u8>, String>,
>(
    image: IsoView,
    decode: D,
    parse: P,
    encode: E,
    read: ConfigView,
    new: ConfigView,
    after: Seq<u8>,
    again: Result<ConfigView, Refusal>,
)
    requires
        laws::steady_parser(parse),
        iso_config::config_read(image, decode, parse, Ok(read)),
        iso_commands::all_restored(read) == Ok::<ConfigView, Refusal>(new),
        stream::agree(new.regions(cleared(new.initrd.region))),
        byte_laws::becomes(image.file, new, encode, after),
        laws::same_description(image, after),
        iso_config::config_read((IsoView { file: after, ..image }), decode, parse, again),
    ensures
        again matches Ok(found) && {
            &&& found.initrd.files == Map::<Seq<char>, Seq<u8>>::empty()
            &&& found.kargs matches Some(areas) && {
                &&& areas.default == read.kargs->0.default
                &&& areas.args == text::trimmed(areas.default)
            }
        },
{
    let none = Map::<Seq<char>, Seq<u8>>::empty();
    let written = byte_laws::lemma_becomes(image.file, new, encode, after);
    assert(written.contents =~= cleared(new.initrd.region).contents);
    assert(written == cleared(new.initrd.region));
    laws::law_config_read_back(
        image,
        decode,
        parse,
        encode,
        read,
        Some(none),
        Some(read.kargs->0.default),
        new,
        written,
        after,
        again,
    );
}

/// Images that differ at most by their kargs are the same image, byte for byte,
/// once the kargs have been reset, which changes the karg embed areas alone; and
/// either both can be reset or neither.
pub proof fn law_kargs_resets_meet<
    D: Fn(&[u8]) -> Result<Initrd, String>,
    P: Fn(&[u8]) -> Result<KargEmbedInfo, String>,
    E: Fn(&Initrd) -> Result<Vec<u8>, String>,
>(
    a: IsoView,
    b: IsoView,
    decode: D,
    parse: P,
    encode: E,
    read_a: ConfigView,
    read_b: ConfigView,
    new_a: ConfigView,
    new_b: ConfigView,
    after_a: Seq<u8>,
    after_b: Seq<u8>,
)
    requires
        iso_config::config_read(a, decode, parse, Ok(read_a)),
        iso_config::config_read(b, decode, parse, Ok(read_b)),
        byte_laws::differ_by_kargs(a, read_a, b, read_b),
        iso_commands::kargs_restored(read_a) == Ok::<ConfigView, Refusal>(new_a),
        byte_laws::becomes(a.file, new_a, encode, after_a),
    ensures
        after_a.len() == a.file.len(),
        forall|p: int|
            0 <= p < a.file.len() && !byte_laws::in_kargs(read_a, p) ==> #[trigger] after_a[p]
                == a.file[p],
        iso_commands::kargs_restored(read_b) is Ok,
        iso_commands::kargs_restored(read_b) == Ok::<ConfigView, Refusal>(new_b)
            && byte_laws::becomes(b.file, new_b, encode, after_b) ==> after_a == after_b,
{
    lemma_read_initrd(a, decode, parse, read_a);
    lemma_read_initrd(b, decode, parse, read_b);
    let areas = read_a.kargs->0;
    lemma_same_kargs(areas, read_b.kargs->0, text::trimmed(areas.default));
    byte_laws::lemma_altered_places(read_a, None, Some(areas.default), new_a);
    byte_laws::lemma_change_in_place(a, decode, parse, read_a, encode, new_a, after_a);
    if iso_commands::kargs_restored(read_b) == Ok::<ConfigView, Refusal>(new_b)
        && byte_laws::becomes(b.file, new_b, encode, after_b) {
        assert forall|p: int|
            0 <= p < a.file.len() && !byte_laws::writes_to(new_a, p) implies #[trigger] a.file[p]
            == b.file[p] by {
            if byte_laws::in_kargs(read_a, p) {
                let i = choose|i: int|
                    0 <= i < areas.regions.len() && (#[trigger] areas.regions[i]).covers(p);
                assert(new_a.kargs->0.regions[i].modified && new_a.kargs->0.regions[i].covers(p));
            }
        }
        byte_laws::law_same_change(a.file, b.file, new_a, new_b, encode, after_a, after_b);
    }
}

/// Other files that are written to an image are put into its embed area, and no
/// other byte of the image changes.
proof fn lemma_files_in_place<
    D: Fn(&[u8]) -> Result<Initrd, String>,
    P: Fn(&[u8]) -> Result<KargEmbedInfo, String>,
    E: Fn(&Initrd) -> Result<Vec<u8>, String>,
>(
    image: IsoView,
    decode: D,
    parse: P,
    encode: E,
    read: ConfigView,
    files: Map<Seq<char>, Seq<u8>>,
    after: Seq<u8>,
) -> (written: RegionView)
    requires
        iso_config::config_read(image, decode, parse, Ok(read)),
        byte_laws::becomes(image.file, read.with_files(files), encode, after),
    ensures
        embed::embed_encoded(read.with_files(files).initrd, encode, Ok(written)),
        written == (RegionView {
            contents: written.contents,
            modified: true,
            ..read.initrd.region
        }),
        written.fits(),
        read_back::holds(after, written),
        after.len() == image.file.len(),
        forall|p: int|
            0 <= p < image.file.len() && !read.initrd.region.covers(p) ==> #[trigger] after[p]
                == image.file[p],
{
    let config = read.with_files(files);
    laws::lemma_read_kargs(image, decode, parse, read);
    byte_laws::lemma_altered_places(read, Some(files), None, config);
    byte_laws::lemma_change_in_place(image, decode, parse, read, encode, config, after);
    let written = byte_laws::lemma_becomes(image.file, config, encode, after);
    let regions = config.regions(written);
    assert(regions[0] == written);
    assert(regions[0].modified);
    assert forall|k: int| 0 < k < regions.len() implies !(#[trigger] regions[k]).modified by {
        assert(regions[k] == read.kargs->0.regions[k - 1]);
    }
    stream::law_write_regions(image.file, regions);
    assert forall|p: int|
        0 <= p < image.file.len() && !read.initrd.region.covers(p) implies #[trigger] after[p]
        == image.file[p] by {
        byte_laws::lemma_covered(config, written, p);
    }
    written
}

/// An Ignition config that is embedded in an image without one and removed again
/// leaves the image as it was, byte for byte.
///
/// This holds where the initramfs is decoded as it was encoded, and where the
/// embed area was blank, or held what its files are always encoded as.
pub proof fn law_embed_then_remove<
    D: Fn(&[u8]) -> Result<Initrd, String>,
    P: Fn(&[u8]) -> Result<KargEmbedInfo, String>,
    E: Fn(&Initrd) -> Result<Vec<u8>, String>,
>(
    image: IsoView,
    decode: D,
    parse: P,
    encode: E,
    read: ConfigView,
    ignition: Seq<u8>,
    force: bool,
    config: ConfigView,
    embedded: Seq<u8>,
    again: ConfigView,
    after: Seq<u8>,
)
    requires
        laws::inverse(decode, encode),
        laws::never_blank(encode),
        iso_config::config_read(image, decode, parse, Ok(read)),
        embed::embed_region(image) matches Ok(found) && (embed::blank(found.contents) || (
        byte_laws::steady_writer::<Initrd, E>(encode) && embed::embed_encoded(
            read.initrd,
            encode,
            Ok(found),
        ))),
        !read.initrd.files.contains_key(INITRD_IGNITION_PATH@),
        iso_commands::ignition_embedded(read, ignition, force) == Ok::<ConfigView, Refusal>(config),
        byte_laws::becomes(image.file, config, encode, embedded),
        iso_config::config_read((IsoView { file: embedded, ..image }), decode, parse, Ok(again)),
        byte_laws::becomes(embedded, iso_commands::ignition_removed(again), encode, after),
    ensures
        after == image.file,
{
    let image2 = IsoView { file: embedded, ..image };
    let removed = iso_commands::ignition_removed(again);
    let found = embed::embed_region(image)->Ok_0;
    lemma_read_initrd(image, decode, parse, read);
    lemma_read_initrd(image2, decode, parse, again);
    let written = lemma_files_in_place(
        image,
        decode,
        parse,
        encode,
        read,
        config.initrd.files,
        embedded,
    );
    laws::law_initrd_read_back(
        image,
        config.initrd,
        decode,
        encode,
        written,
        embedded,
        Ok(again.initrd),
    );
    assert(removed.initrd.files =~= read.initrd.files);
    let restored = lemma_files_in_place(
        image2,
        decode,
        parse,
        encode,
        again,
        removed.initrd.files,
        after,
    );
    assert(restored.contents =~= found.contents) by {
        if !embed::blank(found.contents) {
            let before = RegionView { contents: found.contents, ..removed.initrd.region };
            lemma_encoded_elsewhere(read.initrd, removed.initrd, encode, found);
            byte_laws::lemma_encoded_once(removed.initrd, encode, restored, Ok(before));
        }
    }
    assert forall|p: int| 0 <= p < image.file.len() implies after[p] == image.file[p] by {
        if found.covers(p) {
            let i: int = p - found.offset;
            assert(after.subrange(found.offset as int, found.end())[i] == after[p]);
            assert(image.file.subrange(found.offset as int, found.end())[i] == image.file[p]);
        } else {
            assert(embedded[p] == image.file[p]);
        }
    }
    assert(after =~= image.file);
}

/// The same files are encoded alike in areas of one length.
proof fn lemma_encoded_elsewhere<E: Fn(&Initrd) -> Result<Vec<u8>, String>>(
    a: EmbedView,
    b: EmbedView,
    encode: E,
    written: RegionView,
)
    requires
        a.files == b.files,
        a.region.length == b.region.length,
        embed::embed_encoded(a, encode, Ok(written)),
    ensures
        embed::embed_encoded(
            b,
            encode,
            Ok((RegionView { contents: written.contents, ..b.region })),
        ),
{
    let there = RegionView { contents: written.contents, ..b.region };
    if a.files != Map::<Seq<char>, Seq<u8>>::empty() {
        let (initrd, encoded) = choose|initrd: &Initrd, encoded: Result<Vec<u8>, String>|
            {
                &&& initrd@ == a.files
                &&& #[trigger] call_ensures(encode, (initrd,), encoded)
                &&& Ok::<RegionView, Refusal>(written) == match encoded {
                    Ok(bytes) => embed::filled_region(a.region, bytes@),
                    Err(reason) => Err(Refusal::EncodeInitrd { reason: reason@ }),
                }
            };
        let data = encoded->Ok_0@;
        assert(embed::filled_region(b.region, data) == Ok::<RegionView, Refusal>(there));
        assert(call_ensures(encode, (initrd,), encoded));
    }
}

/// Whether kargs are always edited in the same way.
pub open spec fn steady_edit<K: Fn(&KargsEditor, &str) -> Result<String, String>>(edit: K) -> bool {
    forall|
        ea: &KargsEditor,
        a: &str,
        ra: Result<String, String>,
        eb: &KargsEditor,
        b: &str,
        rb: Result<String, String>,
    |
        #![trigger call_ensures(edit, (ea, a), ra), call_ensures(edit, (eb, b), rb)]
        call_ensures(edit, (ea, a), ra) && call_ensures(edit, (eb, b), rb) && ea@ == eb@ && a@ == b@
            ==> (match (ra, rb) {
            (Ok(x), Ok(y)) => x@ == y@,
            (Err(_), Err(_)) => true,
            _ => false,
        })
}

/// Whether a list of features is always parsed in the same way.
pub open spec fn steady_features<F: Fn(&[u8]) -> Result<OsFeatures, String>>(parse: F) -> bool {
    forall|a: &[u8], b: &[u8], ra: Result<OsFeatures, String>, rb: Result<OsFeatures, String>|
        #![trigger call_ensures(parse, (a,), ra), call_ensures(parse, (b,), rb)]
        call_ensures(parse, (a,), ra) && call_ensures(parse, (b,), rb) && a@ == b@ ==> (match (
            ra,
            rb,
        ) {
            (Ok(x), Ok(y)) => x == y,
            (Err(_), Err(_)) => true,
            _ => false,
        })
}

/// Whether two files hold the same list of features for the entries of an image.
pub open spec fn same_features(image: IsoView, after: Seq<u8>) -> bool {
    iso::file_at(image.entries, customize_commands::ISO_FEATURES_PATH@) matches Ok(file)
        ==> read_back::alike(image.file, after, file.offset as int, file.length as int)
}

/// An Ignition config of ours is written in one way.
proof fn lemma_ignition_once<B: Fn(&Ignition) -> Result<Vec<u8>, String>>(
    directives: Seq<DirectiveView>,
    to_bytes: B,
    a: Seq<u8>,
    b: Seq<u8>,
)
    requires
        byte_laws::steady_writer::<Ignition, B>(to_bytes),
        compose::ignition_encoded(directives, to_bytes, Ok(a)),
        compose::ignition_encoded(directives, to_bytes, Ok(b)),
    ensures
        a == b,
{
    let (ca, ra) = choose|config: &Ignition, out: Result<Vec<u8>, String>|
        {
            &&& config@ == directives
            &&& #[trigger] call_ensures(to_bytes, (config,), out)
            &&& Ok::<Seq<u8>, Refusal>(a) == compose::encoding_outcome(out)
        };
    let (cb, rb) = choose|config: &Ignition, out: Result<Vec<u8>, String>|
        {
            &&& config@ == directives
            &&& #[trigger] call_ensures(to_bytes, (config,), out)
            &&& Ok::<Seq<u8>, Refusal>(b) == compose::encoding_outcome(out)
        };
    assert(call_ensures(to_bytes, (ca,), ra) && call_ensures(to_bytes, (cb,), rb));
}

/// A list of directives that a config takes is added in one way.
pub proof fn lemma_added_once<A: Fn(&Ignition, &Directive) -> Result<(), String>>(
    config: Seq<DirectiveView>,
    directives: Seq<DirectiveView>,
    accept: A,
    all: Seq<DirectiveView>,
)
    requires
        ignition::directives_added(config, directives, accept, Ok(all)),
    ensures
        all == config + directives,
    decreases directives.len(),
{
    let start = Ok::<Seq<DirectiveView>, Seq<char>>(config);
    if directives.len() == 0 {
        series::lemma_no_steps(start, directives, ignition::adding_step(accept), Ok(all));
        assert(config + directives =~= config);
    } else {
        let before = series::lemma_last_step(
            start,
            directives,
            ignition::adding_step(accept),
            Ok(all),
        );
        lemma_added_once(config, directives.drop_last(), accept, before->Ok_0);
        assert(config + directives =~= (config + directives.drop_last()).push(directives.last()));
    }
}

/// The Ignition config of the destination system is put into the live system in
/// one way.
proof fn lemma_dest_once<
    A: Fn(&Ignition, &Directive) -> Result<(), String>,
    B: Fn(&Ignition) -> Result<Vec<u8>, String>,
>(v: LiveView, accept: A, to_bytes: B, a: LiveView, b: LiveView)
    requires
        byte_laws::steady_writer::<Ignition, B>(to_bytes),
        compose::with_dest(v, accept, to_bytes, Ok(a)),
        compose::with_dest(v, accept, to_bytes, Ok(b)),
    ensures
        a == b,
{
    if compose::dest_document(v) is Some {
        let document = compose::dest_document(v)->0;
        let da = choose|data: Result<Seq<u8>, Refusal>| #[trigger]
            compose::dest_encoded(document, accept, to_bytes, data) && match data {
                Ok(data) => compose::dest_embedded(v, data, accept, Ok(a)),
                Err(e) => Ok::<LiveView, Refusal>(a) == Err::<LiveView, Refusal>(e),
            };
        let db = choose|data: Result<Seq<u8>, Refusal>| #[trigger]
            compose::dest_encoded(document, accept, to_bytes, data) && match data {
                Ok(data) => compose::dest_embedded(v, data, accept, Ok(b)),
                Err(e) => Ok::<LiveView, Refusal>(b) == Err::<LiveView, Refusal>(e),
            };
        match document {
            DestView::User { source } => {},
            DestView::Own { config, additions } => {
                let ca = choose|complete: Result<Seq<DirectiveView>, Seq<char>>| #[trigger]
                    ignition::directives_added(config, additions, accept, complete)
                        && match complete {
                        Ok(directives) => compose::ignition_encoded(directives, to_bytes, da),
                        Err(reason) => da == Err::<Seq<u8>, Refusal>(
                            Refusal::AddDirective { reason },
                        ),
                    };
                let cb = choose|complete: Result<Seq<DirectiveView>, Seq<char>>| #[trigger]
                    ignition::directives_added(config, additions, accept, complete)
                        && match complete {
                        Ok(directives) => compose::ignition_encoded(directives, to_bytes, db),
                        Err(reason) => db == Err::<Seq<u8>, Refusal>(
                            Refusal::AddDirective { reason },
                        ),
                    };
                lemma_added_once(config, additions, accept, ca->Ok_0);
                lemma_added_once(config, additions, accept, cb->Ok_0);
                lemma_ignition_once(config + additions, to_bytes, da->Ok_0, db->Ok_0);
            },
        }
        assert(da == db);
    }
}

/// The parameters of the installer are put into the live system in one way.
proof fn lemma_installer_once<
    A: Fn(&Ignition, &Directive) -> Result<(), String>,
    Y: Fn(&InstallConfig) -> Result<Vec<u8>, String>,
>(v: LiveView, accept: A, to_yaml: Y, a: LiveView, b: LiveView)
    requires
        byte_laws::steady_writer::<InstallConfig, Y>(to_yaml),
        compose::with_installer(v, accept, to_yaml, Ok(a)),
        compose::with_installer(v, accept, to_yaml, Ok(b)),
    ensures
        a == b,
{
    let rest = LiveView { installer: None, ..v };
    if compose::final_parameters(v) is Some {
        let parameters = compose::final_parameters(v)->0;
        let (ca, ra) = choose|config: &InstallConfig, out: Result<Vec<u8>, String>|
            {
                &&& config@ == parameters
                &&& #[trigger] call_ensures(to_yaml, (config,), out)
                &&& compose::parameters_added(rest, out, accept, Ok(a))
            };
        let (cb, rb) = choose|config: &InstallConfig, out: Result<Vec<u8>, String>|
            {
                &&& config@ == parameters
                &&& #[trigger] call_ensures(to_yaml, (config,), out)
                &&& compose::parameters_added(rest, out, accept, Ok(b))
            };
        assert(call_ensures(to_yaml, (ca,), ra) && call_ensures(to_yaml, (cb,), rb));
        assert(ra->Ok_0@ == rb->Ok_0@);
    }
}

/// A customisation becomes an initramfs in these steps.
pub proof fn lemma_made_steps<
    A: Fn(&Ignition, &Directive) -> Result<(), String>,
    B: Fn(&Ignition) -> Result<Vec<u8>, String>,
    Y: Fn(&InstallConfig) -> Result<Vec<u8>, String>,
>(v: LiveView, accept: A, to_bytes: B, to_yaml: Y, files: Map<Seq<char>, Seq<u8>>) -> (steps: (
    LiveView,
    LiveView,
    Seq<u8>,
))
    requires
        compose::made_initrd(v, accept, to_bytes, to_yaml, Ok(files)),
    ensures
        compose::with_dest(v, accept, to_bytes, Ok(steps.0)),
        compose::with_installer(steps.0, accept, to_yaml, Ok(steps.1)),
        compose::ignition_encoded(steps.1.live, to_bytes, Ok(steps.2)),
        files == steps.1.files.insert(INITRD_IGNITION_PATH@, steps.2),
{
    let r = Ok::<Map<Seq<char>, Seq<u8>>, Refusal>(files);
    let dest = choose|dest: Result<LiveView, Refusal>| #[trigger]
        compose::with_dest(v, accept, to_bytes, dest) && match dest {
            Err(e) => r == Err::<Map<Seq<char>, Seq<u8>>, Refusal>(e),
            Ok(dest) => exists|installer: Result<LiveView, Refusal>| #[trigger]
                compose::with_installer(dest, accept, to_yaml, installer) && match installer {
                    Err(e) => r == Err::<Map<Seq<char>, Seq<u8>>, Refusal>(e),
                    Ok(installer) => compose::with_live(installer, to_bytes, r),
                },
        };
    let d = dest->Ok_0;
    let installer = choose|installer: Result<LiveView, Refusal>| #[trigger]
        compose::with_installer(d, accept, to_yaml, installer) && match installer {
            Err(e) => r == Err::<Map<Seq<char>, Seq<u8>>, Refusal>(e),
            Ok(installer) => compose::with_live(installer, to_bytes, r),
        };
    let i = installer->Ok_0;
    let data = choose|data: Result<Seq<u8>, Refusal>| #[trigger]
        compose::ignition_encoded(i.live, to_bytes, data) && r == match data {
            Ok(data) => Ok(i.files.insert(INITRD_IGNITION_PATH@, data)),
            Err(e) => Err(e),
        };
    (d, i, data->Ok_0)
}

/// The initramfs that a customisation becomes is always the same, if what is
/// written into it is.
pub proof fn law_made_once<
    A: Fn(&Ignition, &Directive) -> Result<(), String>,
    B: Fn(&Ignition) -> Result<Vec<u8>, String>,
    Y: Fn(&InstallConfig) -> Result<Vec<u8>, String>,
>(
    v: LiveView,
    accept: A,
    to_bytes: B,
    to_yaml: Y,
    a: Map<Seq<char>, Seq<u8>>,
    b: Map<Seq<char>, Seq<u8>>,
)
    requires
        byte_laws::steady_writer::<Ignition, B>(to_bytes),
        byte_laws::steady_writer::<InstallConfig, Y>(to_yaml),
        compose::made_initrd(v, accept, to_bytes, to_yaml, Ok(a)),
        compose::made_initrd(v, accept, to_bytes, to_yaml, Ok(b)),
    ensures
        a == b,
{
    let (dest_a, installer_a, data_a) = lemma_made_steps(v, accept, to_bytes, to_yaml, a);
    let (dest_b, installer_b, data_b) = lemma_made_steps(v, accept, to_bytes, to_yaml, b);
    lemma_dest_once(v, accept, to_bytes, dest_a, dest_b);
    lemma_installer_once(dest_a, accept, to_yaml, installer_a, installer_b);
    lemma_ignition_once(installer_a.live, to_bytes, data_a, data_b);
}

/// An input file that is not refused is used in one way.
proof fn lemma_file_once<A: Fn(&Ignition, &Directive) -> Result<(), String>>(
    u: FileUse,
    v: LiveView,
    file: InputView,
    accept: A,
    p: Progress,
    q: Progress,
)
    requires
        customize::file_step(u, v, file, accept, p),
        customize::file_step(u, v, file, accept, q),
        p.refusal is None,
        q.refusal is None,
    ensures
        p == q,
{
}

/// Input files of which none is refused are used in one way.
pub proof fn lemma_files_once<A: Fn(&Ignition, &Directive) -> Result<(), String>>(
    u: FileUse,
    start: Progress,
    files: Seq<InputView>,
    accept: A,
    p: Progress,
    q: Progress,
)
    requires
        customize::files_used(u, start, files, accept, p),
        customize::files_used(u, start, files, accept, q),
        p.refusal is None,
        q.refusal is None,
    ensures
        p == q,
        start.refusal is None,
    decreases files.len(),
{
    let next = customize::next_file(u, accept);
    if files.len() > 0 {
        let x = series::lemma_last_step(start, files, next, p);
        let y = series::lemma_last_step(start, files, next, q);
        lemma_files_once(u, start, files.drop_last(), accept, x, y);
        lemma_file_once(u, x.live, files.last(), accept, p, q);
    } else {
        series::lemma_no_steps(start, files, next, p);
        series::lemma_no_steps(start, files, next, q);
    }
}

/// Installer configs of which none is refused are added in one way.
pub proof fn lemma_configs_once<A: Fn(&Ignition, &Directive) -> Result<(), String>>(
    start: Progress,
    configs: Seq<InstallerFileView>,
    accept: A,
    p: Progress,
    q: Progress,
)
    requires
        customize::configs_used(start, configs, accept, p),
        customize::configs_used(start, configs, accept, q),
        p.refusal is None,
        q.refusal is None,
    ensures
        p == q,
        start.refusal is None,
    decreases configs.len(),
{
    let next = customize::next_config(accept);
    if configs.len() > 0 {
        let x = series::lemma_last_step(start, configs, next, p);
        let y = series::lemma_last_step(start, configs, next, q);
        lemma_configs_once(start, configs.drop_last(), accept, x, y);
    } else {
        series::lemma_no_steps(start, configs, next, p);
        series::lemma_no_steps(start, configs, next, q);
    }
}

/// Common customisations of which none is refused lead to one customisation,
/// however often they are applied.
pub proof fn law_applied_once<A: Fn(&Ignition, &Directive) -> Result<(), String>>(
    v: LiveView,
    common: CommonView,
    accept: A,
    p: Progress,
    q: Progress,
)
    requires
        customize::common_applied(v, common, accept, p),
        customize::common_applied(v, common, accept, q),
        p.refusal is None,
        q.refusal is None,
    ensures
        p == q,
{
    let a = choose|s: Stages| #[trigger]
        customize::goes_through(v, common, accept, s) && p == s.live;
    let b = choose|s: Stages| #[trigger]
        customize::goes_through(v, common, accept, s) && q == s.live;
    // none of the stages was refused
    lemma_files_once(FileUse::LiveIgnition, a.installer, common.live_ignition, accept, p, p);
    lemma_files_once(FileUse::LiveIgnition, b.installer, common.live_ignition, accept, q, q);
    lemma_configs_once(a.post, common.installer_config, accept, a.installer, a.installer);
    lemma_configs_once(b.post, common.installer_config, accept, b.installer, b.installer);
    lemma_files_once(FileUse::PostInstall, a.pre, common.post_install, accept, a.post, a.post);
    lemma_files_once(FileUse::PostInstall, b.pre, common.post_install, accept, b.post, b.post);
    lemma_files_once(FileUse::PreInstall, a.ca, common.pre_install, accept, a.pre, a.pre);
    lemma_files_once(FileUse::PreInstall, b.ca, common.pre_install, accept, b.pre, b.pre);
    lemma_files_once(FileUse::IgnitionCa, a.network, common.ignition_ca, accept, a.ca, a.ca);
    lemma_files_once(FileUse::IgnitionCa, b.network, common.ignition_ca, accept, b.ca, b.ca);
    let set_a = a.dest.and_step(Ok(customize::parameters_set(a.dest.live, common)));
    let set_b = b.dest.and_step(Ok(customize::parameters_set(b.dest.live, common)));
    let keyfiles = common.network_keyfile;
    lemma_files_once(FileUse::NetworkKeyfile, set_a, keyfiles, accept, a.network, a.network);
    lemma_files_once(FileUse::NetworkKeyfile, set_b, keyfiles, accept, b.network, b.network);
    // so that each leads to the same
    let start = customize::reached(v);
    lemma_files_once(FileUse::DestIgnition, start, common.dest_ignition, accept, a.dest, b.dest);
    lemma_files_once(FileUse::NetworkKeyfile, set_a, keyfiles, accept, a.network, b.network);
    lemma_files_once(FileUse::IgnitionCa, a.network, common.ignition_ca, accept, a.ca, b.ca);
    lemma_files_once(FileUse::PreInstall, a.ca, common.pre_install, accept, a.pre, b.pre);
    lemma_files_once(FileUse::PostInstall, a.pre, common.post_install, accept, a.post, b.post);
    lemma_configs_once(a.post, common.installer_config, accept, a.installer, b.installer);
    lemma_files_once(FileUse::LiveIgnition, a.installer, common.live_ignition, accept, p, q);
}

/// Kargs are edited in one way.
proof fn lemma_edited_once<K: Fn(&KargsEditor, &str) -> Result<String, String>>(
    editor: EditView,
    kargs: Seq<char>,
    edit: K,
    a: Seq<char>,
    b: Seq<char>,
)
    requires
        steady_edit(edit),
        editor::edited(editor, kargs, edit, Ok(a)),
        editor::edited(editor, kargs, edit, Ok(b)),
    ensures
        a == b,
{
    let (ea, ka, ra) = choose|e: &KargsEditor, s: &str, out: Result<String, String>|
        {
            &&& e@ == editor
            &&& s@ == kargs
            &&& #[trigger] call_ensures(edit, (e, s), out)
            &&& Ok::<Seq<char>, Refusal>(a) == match out {
                Ok(kargs) => Ok(kargs@),
                Err(reason) => Err(Refusal::EditKargs { reason: reason@ }),
            }
        };
    let (eb, kb, rb) = choose|e: &KargsEditor, s: &str, out: Result<String, String>|
        {
            &&& e@ == editor
            &&& s@ == kargs
            &&& #[trigger] call_ensures(edit, (e, s), out)
            &&& Ok::<Seq<char>, Refusal>(b) == match out {
                Ok(kargs) => Ok(kargs@),
                Err(reason) => Err(Refusal::EditKargs { reason: reason@ }),
            }
        };
    assert(call_ensures(edit, (ea, ka), ra) && call_ensures(edit, (eb, kb), rb));
}

/// What a customisation puts into an image: the files and the edited kargs.
proof fn lemma_customized_steps<
    A: Fn(&Ignition, &Directive) -> Result<(), String>,
    B: Fn(&Ignition) -> Result<Vec<u8>, String>,
    Y: Fn(&InstallConfig) -> Result<Vec<u8>, String>,
    K: Fn(&KargsEditor, &str) -> Result<String, String>,
>(
    config: IsoCustomizeConfig,
    iso: ConfigView,
    features: OsFeatures,
    accept: A,
    to_bytes: B,
    to_yaml: Y,
    edit: K,
    issued: Seq<NoticeView>,
    new: ConfigView,
) -> (steps: (Map<Seq<char>, Seq<u8>>, Seq<char>))
    requires
        customize_commands::config_customized(
            config,
            iso,
            features,
            accept,
            to_bytes,
            to_yaml,
            edit,
            issued,
            Ok(new),
        ),
    ensures
        customize_commands::live_initrd_made(
            config.common@,
            features,
            accept,
            to_bytes,
            to_yaml,
            issued,
            Ok(steps.0),
        ),
        iso.kargs matches Some(areas) && editor::edited(
            customize_commands::live_edit(config),
            areas.default,
            edit,
            Ok(steps.1),
        ),
        iso.with_files(steps.0).with_kargs(steps.1) == Ok::<ConfigView, Refusal>(new),
{
    let ok = Ok::<ConfigView, Refusal>(new);
    let files = choose|files: Result<Map<Seq<char>, Seq<u8>>, Refusal>| #[trigger]
        customize_commands::live_initrd_made(
            config.common@,
            features,
            accept,
            to_bytes,
            to_yaml,
            issued,
            files,
        ) && match files {
            Ok(files) => customize_commands::default_kargs_edited(
                iso.with_files(files),
                customize_commands::live_edit(config),
                edit,
                ok,
            ),
            Err(e) => ok == Err::<ConfigView, Refusal>(e),
        };
    let mid = iso.with_files(files->Ok_0);
    let kargs = choose|kargs: Result<Seq<char>, Refusal>| #[trigger]
        editor::edited(
            customize_commands::live_edit(config),
            mid.kargs->0.default,
            edit,
            kargs,
        ) && ok == match kargs {
            Ok(kargs) => mid.with_kargs(kargs),
            Err(e) => Err(e),
        };
    (files->Ok_0, kargs->Ok_0)
}

/// The features of an image are read in one way.
proof fn lemma_features_once<F: Fn(&[u8]) -> Result<OsFeatures, String>>(
    image: IsoView,
    after: Seq<u8>,
    parse: F,
    a: OsFeatures,
    b: OsFeatures,
)
    requires
        steady_features(parse),
        after.len() == image.file.len(),
        same_features(image, after),
        customize_commands::image_features(image, parse, Ok(a)),
        customize_commands::image_features((IsoView { file: after, ..image }), parse, Ok(b)),
    ensures
        a == b,
{
    match iso::file_at(image.entries, customize_commands::ISO_FEATURES_PATH@) {
        Err(_) => {},
        Ok(file) => {
            assert(iso::file_bytes(after, file) =~= iso::file_bytes(image.file, file));
            let (ba, ra) = choose|bytes: &[u8], out: Result<OsFeatures, String>|
                {
                    &&& bytes@ == iso::file_bytes(image.file, file)
                    &&& #[trigger] call_ensures(parse, (bytes,), out)
                    &&& Ok::<OsFeatures, Refusal>(a) == match out {
                        Ok(features) => Ok(features),
                        Err(reason) => Err(Refusal::ParseFeatures { reason: reason@ }),
                    }
                };
            let (bb, rb) = choose|bytes: &[u8], out: Result<OsFeatures, String>|
                {
                    &&& bytes@ == iso::file_bytes(image.file, file)
                    &&& #[trigger] call_ensures(parse, (bytes,), out)
                    &&& Ok::<OsFeatures, Refusal>(b) == match out {
                        Ok(features) => Ok(features),
                        Err(reason) => Err(Refusal::ParseFeatures { reason: reason@ }),
                    }
                };
            assert(call_ensures(parse, (ba,), ra) && call_ensures(parse, (bb,), rb));
        },
    }
}

/// What is read of an image on the way to its customisation.
proof fn lemma_customized_reads<
    D: Fn(&[u8]) -> Result<Initrd, String>,
    P: Fn(&[u8]) -> Result<KargEmbedInfo, String>,
    F: Fn(&[u8]) -> Result<OsFeatures, String>,
    A: Fn(&Ignition, &Directive) -> Result<(), String>,
    B: Fn(&Ignition) -> Result<Vec<u8>, String>,
    Y: Fn(&InstallConfig) -> Result<Vec<u8>, String>,
    K: Fn(&KargsEditor, &str) -> Result<String, String>,
>(
    config: IsoCustomizeConfig,
    image: IsoView,
    decode: D,
    parse: P,
    parse_features: F,
    accept: A,
    to_bytes: B,
    to_yaml: Y,
    edit: K,
    issued: Seq<NoticeView>,
    new: ConfigView,
) -> (reads: (ConfigView, OsFeatures))
    requires
        customize_commands::image_customized(
            config,
            image,
            decode,
            parse,
            parse_features,
            accept,
            to_bytes,
            to_yaml,
            edit,
            issued,
            Ok(new),
        ),
    ensures
        iso_config::config_read(image, decode, parse, Ok(reads.0)),
        customize_commands::image_features(image, parse_features, Ok(reads.1)),
        customize_commands::config_customized(
            config,
            reads.0,
            reads.1,
            accept,
            to_bytes,
            to_yaml,
            edit,
            issued,
            Ok(new),
        ),
{
    let ok = Ok::<ConfigView, Refusal>(new);
    let read = choose|read: Result<ConfigView, Refusal>| #[trigger]
        iso_config::config_read(image, decode, parse, read) && match read {
            Err(e) => issued.len() == 0 && ok == Err::<ConfigView, Refusal>(e),
            Ok(iso) => match customize_commands::customized_already(iso, config.force) {
                Some(e) => issued.len() == 0 && ok == Err::<ConfigView, Refusal>(e),
                None => exists|features: Result<OsFeatures, Refusal>| #[trigger]
                    customize_commands::image_features(image, parse_features, features)
                        && match features {
                        Err(e) => issued.len() == 0 && ok == Err::<ConfigView, Refusal>(e),
                        Ok(features) => customize_commands::config_customized(
                            config,
                            iso,
                            features,
                            accept,
                            to_bytes,
                            to_yaml,
                            edit,
                            issued,
                            ok,
                        ),
                    },
            },
        };
    let iso = read->Ok_0;
    let features = choose|features: Result<OsFeatures, Refusal>| #[trigger]
        customize_commands::image_features(image, parse_features, features) && match features {
            Err(e) => issued.len() == 0 && ok == Err::<ConfigView, Refusal>(e),
            Ok(features) => customize_commands::config_customized(
                config,
                iso,
                features,
                accept,
                to_bytes,
                to_yaml,
                edit,
                issued,
                ok,
            ),
        };
    (iso, features->Ok_0)
}

/// Images that differ at most by customisation are the same image, byte for byte,
/// once they have been given the same customisation, whether or not that had to be
/// forced: nothing of an earlier customisation stays. The user is told the same.
///
/// This holds where the images hold the same list of features, and where all that
/// is parsed, edited and written always is so in the same way.
pub proof fn law_customisations_meet<
    D: Fn(&[u8]) -> Result<Initrd, String>,
    P: Fn(&[u8]) -> Result<KargEmbedInfo, String>,
    F: Fn(&[u8]) -> Result<OsFeatures, String>,
    A: Fn(&Ignition, &Directive) -> Result<(), String>,
    B: Fn(&Ignition) -> Result<Vec<u8>, String>,
    Y: Fn(&InstallConfig) -> Result<Vec<u8>, String>,
    K: Fn(&KargsEditor, &str) -> Result<String, String>,
    E: Fn(&Initrd) -> Result<Vec<u8>, String>,
>(
    a: IsoView,
    b: IsoView,
    config_a: IsoCustomizeConfig,
    config_b: IsoCustomizeConfig,
    decode: D,
    parse: P,
    parse_features: F,
    accept: A,
    to_bytes: B,
    to_yaml: Y,
    edit: K,
    encode: E,
    read_a: ConfigView,
    read_b: ConfigView,
    issued_a: Seq<NoticeView>,
    issued_b: Seq<NoticeView>,
    new_a: ConfigView,
    new_b: ConfigView,
    after_a: Seq<u8>,
    after_b: Seq<u8>,
)
    requires
        laws::steady_parser(parse),
        steady_features(parse_features),
        byte_laws::steady_writer::<Ignition, B>(to_bytes),
        byte_laws::steady_writer::<InstallConfig, Y>(to_yaml),
        steady_edit(edit),
        byte_laws::steady_writer::<Initrd, E>(encode),
        iso_config::config_read(a, decode, parse, Ok(read_a)),
        iso_config::config_read(b, decode, parse, Ok(read_b)),
        byte_laws::differ_by_customisation(a, read_a, b, read_b),
        same_features(a, b.file),
        config_a.common@ == config_b.common@,
        customize_commands::live_edit(config_a) == customize_commands::live_edit(config_b),
        customize_commands::image_customized(
            config_a,
            a,
            decode,
            parse,
            parse_features,
            accept,
            to_bytes,
            to_yaml,
            edit,
            issued_a,
            Ok(new_a),
        ),
        customize_commands::image_customized(
            config_b,
            b,
            decode,
            parse,
            parse_features,
            accept,
            to_bytes,
            to_yaml,
            edit,
            issued_b,
            Ok(new_b),
        ),
        byte_laws::becomes(a.file, new_a, encode, after_a),
        byte_laws::becomes(b.file, new_b, encode, after_b),
    ensures
        new_a == new_b,
        issued_a == issued_b,
        after_a == after_b,
{
    let (iso_a, features_a) = lemma_customized_reads(
        config_a,
        a,
        decode,
        parse,
        parse_features,
        accept,
        to_bytes,
        to_yaml,
        edit,
        issued_a,
        new_a,
    );
    let (iso_b, features_b) = lemma_customized_reads(
        config_b,
        b,
        decode,
        parse,
        parse_features,
        accept,
        to_bytes,
        to_yaml,
        edit,
        issued_b,
        new_b,
    );
    // the images are read in the same places each time
    assert(IsoView { file: a.file, ..a } == a);
    assert(IsoView { file: b.file, ..b } == b);
    assert(IsoView { file: b.file, ..a } == b);
    byte_laws::lemma_places_again(a, decode, parse, read_a, a.file, iso_a);
    byte_laws::lemma_places_again(b, decode, parse, read_b, b.file, iso_b);
    byte_laws::lemma_same_places(read_a, iso_a, iso_a);
    byte_laws::lemma_same_places(iso_a, read_a, read_b);
    byte_laws::lemma_same_places(iso_a, read_b, iso_b);
    lemma_read_initrd(a, decode, parse, iso_a);
    lemma_read_initrd(b, decode, parse, iso_b);
    lemma_features_once(a, b.file, parse_features, features_a, features_b);
    // what is put into them is the same
    let (files_a, kargs_a) = lemma_customized_steps(
        config_a,
        iso_a,
        features_a,
        accept,
        to_bytes,
        to_yaml,
        edit,
        issued_a,
        new_a,
    );
    let (files_b, kargs_b) = lemma_customized_steps(
        config_b,
        iso_b,
        features_b,
        accept,
        to_bytes,
        to_yaml,
        edit,
        issued_b,
        new_b,
    );
    let untouched = customize::untouched(features_a);
    let p = command_laws::lemma_made_from(
        config_a.common@,
        features_a,
        accept,
        to_bytes,
        to_yaml,
        issued_a,
        files_a,
    );
    let q = command_laws::lemma_made_from(
        config_b.common@,
        features_b,
        accept,
        to_bytes,
        to_yaml,
        issued_b,
        files_b,
    );
    law_applied_once(untouched, config_a.common@, accept, p, q);
    law_made_once(customize::told(p.live), accept, to_bytes, to_yaml, files_a, files_b);
    lemma_edited_once(
        customize_commands::live_edit(config_a),
        iso_a.kargs->0.default,
        edit,
        kargs_a,
        kargs_b,
    );
    lemma_same_altered(iso_a, iso_b, files_a, kargs_a);
    assert(new_a == new_b);
    assert forall|p: int|
        0 <= p < a.file.len() && !byte_laws::writes_to(new_a, p) implies #[trigger] a.file[p]
        == b.file[p] by {
        byte_laws::lemma_same_positions(read_a, iso_a, p);
        if byte_laws::in_customisation(iso_a, p) && !iso_a.initrd.region.covers(p) {
            let areas = iso_a.kargs->0;
            let i = choose|i: int|
                0 <= i < areas.regions.len() && (#[trigger] areas.regions[i]).covers(p);
            assert(new_a.kargs->0.regions[i].modified && new_a.kargs->0.regions[i].covers(p));
        }
    }
    byte_laws::law_same_change(a.file, b.file, new_a, new_b, encode, after_a, after_b);
}

/// A forced customisation of an image gives the same image, byte for byte, as a
/// reset and the same customisation after it.
///
/// This holds where the image that was reset holds the same as before in what
/// describes the karg embed areas and in the list of features, and where all that
/// is parsed, edited and written always is so in the same way.
pub proof fn law_forced_customisation<
    D: Fn(&[u8]) -> Result<Initrd, String>,
    P: Fn(&[u8]) -> Result<KargEmbedInfo, String>,
    F: Fn(&[u8]) -> Result<OsFeatures, String>,
    A: Fn(&Ignition, &Directive) -> Result<(), String>,
    B: Fn(&Ignition) -> Result<Vec<u8>, String>,
    Y: Fn(&InstallConfig) -> Result<Vec<u8>, String>,
    K: Fn(&KargsEditor, &str) -> Result<String, String>,
    E: Fn(&Initrd) -> Result<Vec<u8>, String>,
>(
    image: IsoView,
    forced: IsoCustomizeConfig,
    plain: IsoCustomizeConfig,
    decode: D,
    parse: P,
    parse_features: F,
    accept: A,
    to_bytes: B,
    to_yaml: Y,
    edit: K,
    encode: E,
    read: ConfigView,
    restored: ConfigView,
    reset: Seq<u8>,
    issued_forced: Seq<NoticeView>,
    issued_plain: Seq<NoticeView>,
    new_forced: ConfigView,
    new_plain: ConfigView,
    after_forced: Seq<u8>,
    after_plain: Seq<u8>,
)
    requires
        laws::steady_parser(parse),
        steady_features(parse_features),
        byte_laws::steady_writer::<Ignition, B>(to_bytes),
        byte_laws::steady_writer::<InstallConfig, Y>(to_yaml),
        steady_edit(edit),
        byte_laws::steady_writer::<Initrd, E>(encode),
        iso_config::config_read(image, decode, parse, Ok(read)),
        iso_commands::all_restored(read) == Ok::<ConfigView, Refusal>(restored),
        byte_laws::becomes(image.file, restored, encode, reset),
        laws::same_description(image, reset),
        same_features(image, reset),
        forced.common@ == plain.common@,
        customize_commands::live_edit(forced) == customize_commands::live_edit(plain),
        customize_commands::image_customized(
            forced,
            image,
            decode,
            parse,
            parse_features,
            accept,
            to_bytes,
            to_yaml,
            edit,
            issued_forced,
            Ok(new_forced),
        ),
        customize_commands::image_customized(
            plain,
            (IsoView { file: reset, ..image }),
            decode,
            parse,
            parse_features,
            accept,
            to_bytes,
            to_yaml,
            edit,
            issued_plain,
            Ok(new_plain),
        ),
        byte_laws::becomes(image.file, new_forced, encode, after_forced),
        byte_laws::becomes(reset, new_plain, encode, after_plain),
    ensures
        new_forced == new_plain,
        issued_forced == issued_plain,
        after_forced == after_plain,
{
    let image2 = IsoView { file: reset, ..image };
    let (again, _) = lemma_customized_reads(
        plain,
        image2,
        decode,
        parse,
        parse_features,
        accept,
        to_bytes,
        to_yaml,
        edit,
        issued_plain,
        new_plain,
    );
    byte_laws::lemma_altered_places(
        read,
        Some(Map::empty()),
        Some(read.kargs->0.default),
        restored,
    );
    byte_laws::law_change_keeps_to_customisation(
        image,
        decode,
        parse,
        read,
        encode,
        restored,
        reset,
        again,
    );
    law_customisations_meet(
        image,
        image2,
        forced,
        plain,
        decode,
        parse,
        parse_features,
        accept,
        to_bytes,
        to_yaml,
        edit,
        encode,
        read,
        again,
        issued_forced,
        issued_plain,
        new_forced,
        new_plain,
        after_forced,
        after_plain,
    );
}

/// How the kargs of a minimal image come about: those that name a live image are
/// edited away, and this is what the image can be reset to.
proof fn lemma_miniso_kargs<K: Fn(&KargsEditor, &str) -> Result<String, String>>(
    read: ConfigView,
    url: Option<Seq<char>>,
    edit: K,
    mini: MinisoView,
) -> (kargs: Seq<char>)
    requires
        miniso::miniso_kargs(read, url, edit, Ok(mini)),
    ensures
        read.kargs matches Some(areas) && miniso::liveiso_karg(areas.args) matches Some(karg)
            && editor::edited(miniso::delete_edit(karg), areas.args, edit, Ok(mini.default)),
        read.with_kargs(mini.default) is Ok,
        read.with_kargs(kargs) == Ok::<ConfigView, Refusal>(mini.config),
{
    let areas = read.kargs->0;
    let karg = miniso::liveiso_karg(areas.args)->0;
    let chosen = choose|kargs: Result<Seq<char>, Refusal>| #[trigger]
        editor::edited(miniso::delete_edit(karg), areas.args, edit, kargs)
            && miniso::default_chosen(read, kargs, url, edit, Ok(mini));
    let default = chosen->Ok_0;
    let config = read.with_kargs(default)->Ok_0;
    assert(mini.default == default);
    match url {
        None => default,
        Some(url) => {
            let named = choose|kargs: Result<Seq<char>, Refusal>| #[trigger]
                editor::edited(
                    miniso::append_edit(miniso::ROOTFS_URL_KARG_PREFIX@ + url),
                    default,
                    edit,
                    kargs,
                ) && Ok::<MinisoView, Refusal>(mini) == match kargs {
                    Err(e) => Err(e),
                    Ok(kargs) => match config.with_kargs(kargs) {
                        Err(e) => Err(e),
                        Ok(config) => Ok(MinisoView { config, default }),
                    },
                };
            let trimmed = text::trimmed(named->Ok_0);
            assert(config.kargs->0.with_kargs(trimmed).regions =~= areas.with_kargs(
                trimmed,
            ).regions);
            named->Ok_0
        },
    }
}

/// The description of an image that its default kargs have been replaced in.
proof fn lemma_default_updated<
    P: Fn(&[u8]) -> Result<KargEmbedInfo, String>,
    G: Fn(&KargEmbedInfo) -> Result<String, String>,
>(image: IsoView, default: Seq<char>, parse: P, to_json: G, write: WriteView) -> (info:
    KargEmbedInfo)
    requires
        miniso::default_updated(image, default, parse, to_json, Ok(write)),
    ensures
        kargs::info_read(image, parse, Ok(Some(info))),
        kargs::info_updated(image, (InfoView { default, ..info@ }), to_json, Ok(write)),
{
    let info = choose|info: Result<Option<KargEmbedInfo>, LiveError>| #[trigger]
        kargs::info_read(image, parse, info) && match info {
            Err(e) => Ok::<WriteView, Refusal>(write) == Err::<WriteView, Refusal>(e@),
            Ok(None) => Ok::<WriteView, Refusal>(write) == Err::<WriteView, Refusal>(
                Refusal::KargInfoMissing,
            ),
            Ok(Some(info)) => kargs::info_updated(
                image,
                InfoView { default, ..info@ },
                to_json,
                Ok(write),
            ),
        };
    info->Ok_0->0
}

/// An image whose default kargs have been replaced in its description has these as
/// its default kargs; and a reset of the kargs goes to them.
///
/// This holds where a description is parsed as it was written.
pub proof fn law_replaced_default<
    D: Fn(&[u8]) -> Result<Initrd, String>,
    P: Fn(&[u8]) -> Result<KargEmbedInfo, String>,
    G: Fn(&KargEmbedInfo) -> Result<String, String>,
>(
    image: IsoView,
    decode: D,
    parse: P,
    to_json: G,
    default: Seq<char>,
    write: WriteView,
    found: ConfigView,
)
    requires
        command_laws::parsed_as_written(parse, to_json),
        miniso::default_updated(image, default, parse, to_json, Ok(write)),
        iso_config::config_read(
            (IsoView {
                file: region::overwrite(image.file, write.offset as int, write.data),
                ..image
            }),
            decode,
            parse,
            Ok(found),
        ),
    ensures
        found.kargs matches Some(areas) && areas.default == default,
        iso_commands::kargs_restored(found) matches Ok(new) ==> (new.kargs matches Some(areas)
            && areas.args == text::trimmed(default)),
{
    let image2 = IsoView {
        file: region::overwrite(image.file, write.offset as int, write.data),
        ..image
    };
    let info = lemma_default_updated(image, default, parse, to_json, write);
    let again = laws::lemma_read_source(image2, decode, parse, found);
    command_laws::law_info_read_back(
        image,
        parse,
        to_json,
        InfoView { default, ..info@ },
        write,
        Ok(again),
    );
}

/// A minimal image that has been told not to name a live image does not do so again
/// after a reset of its kargs: the image that was written has the kargs that were
/// set, and is reset to what was left of its kargs when the one that names the live
/// image had been deleted.
///
/// This holds where a description is parsed as it was written and its new default
/// kargs are no longer than an area, where the karg embed areas agree with each
/// other, and where no write reaches what another is for: that of the kargs not the
/// description, that of the description, which lies in the image, not the kargs, and
/// none of them the embed area for an initramfs.
pub proof fn law_minimal_image_reset<
    D: Fn(&[u8]) -> Result<Initrd, String>,
    P: Fn(&[u8]) -> Result<KargEmbedInfo, String>,
    G: Fn(&KargEmbedInfo) -> Result<String, String>,
    K: Fn(&KargsEditor, &str) -> Result<String, String>,
    E: Fn(&Initrd) -> Result<Vec<u8>, String>,
>(
    image: IsoView,
    decode: D,
    parse: P,
    to_json: G,
    edit: K,
    encode: E,
    read: ConfigView,
    url: Option<Seq<char>>,
    mini: MinisoView,
    mid: Seq<u8>,
    write: WriteView,
    after: Seq<u8>,
    again: Result<ConfigView, Refusal>,
)
    requires
        laws::steady_decoder(decode),
        laws::steady_parser(parse),
        command_laws::parsed_as_written(parse, to_json),
        iso_config::config_read(image, decode, parse, Ok(read)),
        miniso::miniso_kargs(read, url, edit, Ok(mini)),
        stream::agree(mini.config.regions(mini.config.initrd.region)),
        byte_laws::becomes(image.file, mini.config, encode, mid),
        laws::same_description(image, mid),
        miniso::default_updated(
            (IsoView { file: mid, ..image }),
            mini.default,
            parse,
            to_json,
            Ok(write),
        ),
        after == region::overwrite(mid, write.offset as int, write.data),
        after.len() == mid.len(),
        read.kargs matches Some(areas) ==> {
            &&& encode_utf8(mini.default).len() <= areas.length
            &&& forall|i: int|
                0 <= i < areas.regions.len() ==> read_back::alike(
                    mid,
                    after,
                    (#[trigger] areas.regions[i]).offset as int,
                    areas.length as int,
                )
        },
        read_back::alike(
            image.file,
            after,
            read.initrd.region.offset as int,
            read.initrd.region.length as int,
        ),
        iso_config::config_read((IsoView { file: after, ..image }), decode, parse, again),
    ensures
        read.kargs matches Some(areas) && miniso::liveiso_karg(areas.args) matches Some(karg)
            && editor::edited(miniso::delete_edit(karg), areas.args, edit, Ok(mini.default)),
        again matches Ok(found) && {
            &&& found.initrd.files == read.initrd.files
            &&& found.kargs matches Some(areas) && {
                &&& areas.default == mini.default
                &&& areas.args == mini.config.kargs->0.args
            }
            &&& iso_commands::kargs_restored(found) matches Ok(new) && (
            new.kargs matches Some(areas) && areas.args == text::trimmed(mini.default))
        },
{
    let image_mid = IsoView { file: mid, ..image };
    let image_after = IsoView { file: after, ..image };
    let areas = read.kargs->0;
    let kargs = lemma_miniso_kargs(read, url, edit, mini);
    let now = mini.config.kargs->0;
    lemma_read_initrd(image, decode, parse, read);
    // the kargs are in place
    byte_laws::lemma_altered_places(read, None, Some(kargs), mini.config);
    byte_laws::lemma_change_in_place(image, decode, parse, read, encode, mini.config, mid);
    let written = byte_laws::lemma_becomes(image.file, mini.config, encode, mid);
    let regions = mini.config.regions(written);
    let places = mini.config.regions(mini.config.initrd.region);
    assert(stream::agree(regions)) by {
        assert forall|k: int| 0 <= k < regions.len() && (#[trigger] regions[k]).modified implies
            regions[k] == places[k] by {
            assert(k > 0);
        }
        assert forall|a: int, b: int, p: int|
            #![trigger regions[a].covers(p), regions[b].covers(p)]
            0 <= a < regions.len() && 0 <= b < regions.len() && regions[a].modified
                && regions[b].modified && regions[a].covers(p) && regions[b].covers(p) implies
            regions[a].contents[p - regions[a].offset] == regions[b].contents[p
            - regions[b].offset] by {
            assert(places[a].covers(p) && places[b].covers(p));
        }
    }
    stream::law_write_regions(image.file, regions);
    assert forall|i: int| 0 <= i < now.regions.len() implies read_back::holds(
        mid,
        #[trigger] now.regions[i],
    ) by {
        assert(regions[i + 1] == now.regions[i]);
        assert(regions[i + 1].modified);
    }
    // and the description is still the same
    let info = laws::lemma_read_source(image, decode, parse, read);
    let info_mid = lemma_default_updated(image_mid, mini.default, parse, to_json, write);
    laws::lemma_info_again(image, mid, parse, info, Ok(Some(info_mid)));
    laws::lemma_kargs_again(image, laws::info_of(info), read.kargs, Some(kargs), Some(now), mid);
    let stored = read_back::areas_stored(now);
    assert(kargs::described_areas(image_mid, info_mid@) == Ok::<AreasView, Refusal>(stored));
    // the new description announces the same areas
    assert forall|i: int| 0 <= i < stored.regions.len() implies read_back::alike(
        mid,
        after,
        (#[trigger] stored.regions[i]).offset as int,
        stored.length as int,
    ) by {
        assert(stored.regions[i].offset == areas.regions[i].offset);
    }
    read_back::lemma_described_same(image_mid, info_mid@, stored, after);
    let new_info = InfoView { default: mini.default, ..info_mid@ };
    let new_areas = AreasView { default: mini.default, ..stored };
    assert(kargs::described_areas(image_after, new_info) == Ok::<AreasView, Refusal>(new_areas));
    // and all of it is read
    let area = choose|area: Result<EmbedView, Refusal>| #[trigger]
        embed::embed_read(image_after, decode, area) && match area {
            Err(e) => again == Err::<ConfigView, Refusal>(e),
            Ok(area) => exists|kargs: Result<Option<AreasView>, Refusal>| #[trigger]
                kargs::areas_read(image_after, parse, kargs) && again == (match kargs {
                    Err(e) => Err(e),
                    Ok(kargs) => Ok(ConfigView { initrd: area, kargs }),
                }),
        };
    laws::lemma_initrd_again(image, after, decode, read.initrd, area);
    let found = choose|kargs: Result<Option<AreasView>, Refusal>| #[trigger]
        kargs::areas_read(image_after, parse, kargs) && again == (match kargs {
            Err(e) => Err(e),
            Ok(kargs) => Ok(ConfigView { initrd: area->Ok_0, kargs }),
        });
    let info_after = choose|info: Result<Option<KargEmbedInfo>, LiveError>| #[trigger]
        kargs::info_read(image_after, parse, info) && found == (match info {
            Err(e) => Err(e@),
            Ok(None) => kargs::system_areas(image_after.file),
            Ok(Some(info)) => match kargs::described_areas(image_after, info@) {
                Ok(areas) => Ok(Some(areas)),
                Err(e) => Err(e),
            },
        });
    assert(IsoView { file: after, ..image_mid } == image_after);
    command_laws::law_info_read_back(image_mid, parse, to_json, new_info, write, info_after);
    assert(found == Ok::<Option<AreasView>, Refusal>(Some(new_areas)));
}

} // verus!
