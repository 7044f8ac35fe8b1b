//! What the commands do, in terms of what they are given.

use crate::area;
use crate::cmdline::{IsoCustomizeConfig, IsoKargsModifyConfig, PxeCustomizeConfig};
use crate::command_laws;
use crate::customize::{InstallConfig, NoticeView, OsFeatures};
use crate::customize_commands;
use crate::editor;
use crate::editor::KargsEditor;
use crate::error::Refusal;
use crate::ignition::{Directive, Ignition};
use crate::initrd;
use crate::initrd::{Initrd, Member};
use crate::input;
use crate::input::{InputFile, InputView};
use crate::iso::IsoFs;
use crate::iso_commands;
use crate::iso_commands::{IgnitionShownView, KargsShownView};
use crate::iso_config;
use crate::iso_config::ConfigView;
use crate::kargs::KargEmbedInfo;
use crate::miniso;
use crate::miniso::MinisoView;
use crate::network;
use crate::network::{ExtractedView, ExtractionView};
use crate::order;
use crate::output;
use crate::output::{Destination, OutputView};
use crate::pxe;
use crate::text;
use vstd::prelude::*;
use vstd::string::*;
use vstd::utf8::*;

verus! {

/// Lists of texts that are the same are so text by text.
proof fn lemma_same_texts(a: Seq<String>, b: Seq<String>)
    requires
        text::texts(a) == text::texts(b),
    ensures
        a.len() == b.len(),
        forall|i: int| 0 <= i < a.len() ==> (#[trigger] a[i])@ == b[i]@,
{
    assert(text::texts(a).len() == a.len());
    assert(text::texts(b).len() == b.len());
    assert forall|i: int| 0 <= i < a.len() implies (#[trigger] a[i])@ == b[i]@ by {
        assert(text::texts(a)[i] == a[i]@);
        assert(text::texts(b)[i] == b[i]@);
    }
}

/// `iso kargs modify` has the current kargs of the image edited, with all that is to
/// be appended, replaced and deleted, in the order that it was named in; and it sets
/// what comes of that, without the white space at its ends, if there is room for it.
/// It changes nothing else.
pub proof fn law_kargs_modified<K: Fn(&KargsEditor, &str) -> Result<String, String>>(
    config: IsoKargsModifyConfig,
    read: ConfigView,
    edit: K,
    r: Result<ConfigView, Refusal>,
)
    requires
        iso_commands::kargs_edited(read, iso_commands::modify_edit(config), edit, r),
    ensures
        read.kargs is None ==> r == Err::<ConfigView, Refusal>(Refusal::KargAreasMissing),
        read.kargs matches Some(areas) ==> exists|
            editor: &KargsEditor,
            kargs: &str,
            out: Result<String, String>,
        |
            {
                &&& #[trigger] call_ensures(edit, (editor, kargs), out)
                &&& kargs@ == areas.args
                &&& editor.append@.len() == config.append@.len()
                &&& forall|i: int|
                    0 <= i < config.append@.len() ==> editor.append@[i]@ == (
                    #[trigger] config.append@[i])@
                &&& editor.replace@.len() == config.replace@.len()
                &&& forall|i: int|
                    0 <= i < config.replace@.len() ==> editor.replace@[i]@ == (
                    #[trigger] config.replace@[i])@
                &&& editor.delete@.len() == config.delete@.len()
                &&& forall|i: int|
                    0 <= i < config.delete@.len() ==> editor.delete@[i]@ == (
                    #[trigger] config.delete@[i])@
                &&& match out {
                    Err(reason) => r == Err::<ConfigView, Refusal>(
                        Refusal::EditKargs { reason: reason@ },
                    ),
                    Ok(new) => if encode_utf8(text::trimmed(new@)).len() < areas.length {
                        r matches Ok(config) && {
                            &&& config.initrd == read.initrd
                            &&& config.kargs matches Some(after) && {
                                &&& after.args == text::trimmed(new@)
                                &&& after.default == areas.default
                                &&& after.length == areas.length
                                &&& after.regions.len() == areas.regions.len()
                                &&& forall|m: int|
                                    0 <= m < after.regions.len() ==> {
                                        &&& (#[trigger] after.regions[m]).modified
                                        &&& after.regions[m].offset == areas.regions[m].offset
                                        &&& after.regions[m].length == areas.regions[m].length
                                        &&& after.regions[m].contents == area::area_bytes(
                                            text::trimmed(new@),
                                            areas.length as nat,
                                        )
                                    }
                            }
                        }
                    } else {
                        r matches Err(Refusal::KargsTooLarge { needed, available }) && available
                            == areas.length && (encode_utf8(text::trimmed(new@)).len()
                            < usize::MAX ==> needed == encode_utf8(text::trimmed(new@)).len() + 1)
                    },
                }
            },
{
    if read.kargs is Some {
        let areas = read.kargs->0;
        let view = iso_commands::modify_edit(config);
        let kargs = choose|kargs: Result<Seq<char>, Refusal>| #[trigger]
            editor::edited(view, areas.args, edit, kargs) && r == match kargs {
                Ok(kargs) => read.with_kargs(kargs),
                Err(e) => Err(e),
            };
        let (editor, given, out) = choose|
            e: &KargsEditor,
            s: &str,
            out: Result<String, String>,
        |
            {
                &&& e@ == view
                &&& s@ == areas.args
                &&& #[trigger] call_ensures(edit, (e, s), out)
                &&& kargs == match out {
                    Ok(kargs) => Ok(kargs@),
                    Err(reason) => Err(Refusal::EditKargs { reason: reason@ }),
                }
            };
        lemma_same_texts(config.append@, editor.append@);
        lemma_same_texts(config.replace@, editor.replace@);
        lemma_same_texts(config.delete@, editor.delete@);
        assert(call_ensures(edit, (editor, given), out));
    }
}

/// `iso customize` puts the initramfs that the customisations make into the image, and
/// has the kargs that the image was built with edited, with all that is to be
/// appended, replaced and deleted, in the order that it was named in; what comes of
/// that, without the white space at its ends, are the kargs of the image then. The
/// features that decide on the customisations are those of the image.
pub proof fn law_image_customized<
    D: Fn(&[u8]) -> Result<Initrd, String>,
    P: Fn(&[u8]) -> Result<KargEmbedInfo, String>,
    F: Fn(&[u8]) -> Result<OsFeatures, String>,
    A: Fn(&Ignition, &Directive) -> Result<(), String>,
    B: Fn(&Ignition) -> Result<Vec<u8>, String>,
    Y: Fn(&InstallConfig) -> Result<Vec<u8>, String>,
    K: Fn(&KargsEditor, &str) -> Result<String, String>,
>(
    config: IsoCustomizeConfig,
    image: IsoFs,
    decode: D,
    parse: P,
    parse_features: F,
    accept: A,
    to_bytes: B,
    to_yaml: Y,
    edit: K,
    issued: Seq<NoticeView>,
    new: ConfigView,
) -> (read: ConfigView)
    requires
        customize_commands::image_customized(
            config,
            image@,
            decode,
            parse,
            parse_features,
            accept,
            to_bytes,
            to_yaml,
            edit,
            issued,
            Ok(new),
        ),
    ensures
        iso_config::config_read(image@, decode, parse, Ok(read)),
        config.force || (!read.initrd.files.contains_key("config.ign"@) && !iso_config::has_network(
            read.initrd.files,
        ) && (read.kargs matches Some(areas) && areas.args == areas.default)),
        exists|features: OsFeatures|
            {
                &&& customize_commands::image_features(image@, parse_features, Ok(features))
                &&& #[trigger] customize_commands::live_initrd_made(
                    config.common@,
                    features,
                    accept,
                    to_bytes,
                    to_yaml,
                    issued,
                    Ok(new.initrd.files),
                )
            },
        read.kargs matches Some(areas) && new.kargs matches Some(after) && {
            &&& after.default == areas.default
            &&& after.length == areas.length
            &&& after.regions.len() == areas.regions.len()
            &&& forall|m: int|
                0 <= m < after.regions.len() ==> {
                    &&& (#[trigger] after.regions[m]).modified
                    &&& after.regions[m].offset == areas.regions[m].offset
                    &&& after.regions[m].length == areas.regions[m].length
                    &&& after.regions[m].contents == area::area_bytes(
                        after.args,
                        areas.length as nat,
                    )
                }
            &&& exists|editor: &KargsEditor, kargs: &str, out: Result<String, String>|
                {
                    &&& #[trigger] call_ensures(edit, (editor, kargs), out)
                    &&& kargs@ == areas.default
                    &&& editor.append@.len() == config.live_karg_append@.len()
                    &&& forall|i: int|
                        0 <= i < config.live_karg_append@.len() ==> editor.append@[i]@ == (
                        #[trigger] config.live_karg_append@[i])@
                    &&& editor.replace@.len() == config.live_karg_replace@.len()
                    &&& forall|i: int|
                        0 <= i < config.live_karg_replace@.len() ==> editor.replace@[i]@ == (
                        #[trigger] config.live_karg_replace@[i])@
                    &&& editor.delete@.len() == config.live_karg_delete@.len()
                    &&& forall|i: int|
                        0 <= i < config.live_karg_delete@.len() ==> editor.delete@[i]@ == (
                        #[trigger] config.live_karg_delete@[i])@
                    &&& out matches Ok(kargs) && after.args == text::trimmed(kargs@)
                }
        },
{
    let ok = Ok::<ConfigView, Refusal>(new);
    let outcome = choose|read: Result<ConfigView, Refusal>| #[trigger]
        iso_config::config_read(image@, decode, parse, read) && match read {
            Err(e) => issued.len() == 0 && ok == Err::<ConfigView, Refusal>(e),
            Ok(iso) => match customize_commands::customized_already(iso, config.force) {
                Some(e) => issued.len() == 0 && ok == Err::<ConfigView, Refusal>(e),
                None => exists|features: Result<OsFeatures, Refusal>| #[trigger]
                    customize_commands::image_features(image@, parse_features, features)
                        && match features {
                        Err(e) => issued.len() == 0 && ok == Err::<ConfigView, Refusal>(e),
                        Ok(features) => customize_commands::config_customized(
                            config,
                            iso,
                            features,
                            accept,
                            to_bytes,
                            to_yaml,
                            edit,
                            issued,
                            ok,
                        ),
                    },
            },
        };
    let read = outcome->Ok_0;
    let found = choose|features: Result<OsFeatures, Refusal>| #[trigger]
        customize_commands::image_features(image@, parse_features, features) && match features {
            Err(e) => issued.len() == 0 && ok == Err::<ConfigView, Refusal>(e),
            Ok(features) => customize_commands::config_customized(
                config,
                read,
                features,
                accept,
                to_bytes,
                to_yaml,
                edit,
                issued,
                ok,
            ),
        };
    let features = found->Ok_0;
    let files = choose|files: Result<Map<Seq<char>, Seq<u8>>, Refusal>| #[trigger]
        customize_commands::live_initrd_made(
            config.common@,
            features,
            accept,
            to_bytes,
            to_yaml,
            issued,
            files,
        ) && match files {
            Ok(files) => customize_commands::default_kargs_edited(
                read.with_files(files),
                customize_commands::live_edit(config),
                edit,
                ok,
            ),
            Err(e) => ok == Err::<ConfigView, Refusal>(e),
        };
    let mid = read.with_files(files->Ok_0);
    let areas = mid.kargs->0;
    let view = customize_commands::live_edit(config);
    let kargs = choose|kargs: Result<Seq<char>, Refusal>| #[trigger]
        editor::edited(view, areas.default, edit, kargs) && ok == match kargs {
            Ok(kargs) => mid.with_kargs(kargs),
            Err(e) => Err(e),
        };
    let (editor, given, out) = choose|e: &KargsEditor, s: &str, out: Result<String, String>|
        {
            &&& e@ == view
            &&& s@ == areas.default
            &&& #[trigger] call_ensures(edit, (e, s), out)
            &&& kargs == match out {
                Ok(kargs) => Ok(kargs@),
                Err(reason) => Err(Refusal::EditKargs { reason: reason@ }),
            }
        };
    lemma_same_texts(config.live_karg_append@, editor.append@);
    lemma_same_texts(config.live_karg_replace@, editor.replace@);
    lemma_same_texts(config.live_karg_delete@, editor.delete@);
    assert(call_ensures(edit, (editor, given), out));
    assert(new.initrd.files == files->Ok_0);
    assert(customize_commands::live_initrd_made(
        config.common@,
        features,
        accept,
        to_bytes,
        to_yaml,
        issued,
        Ok(new.initrd.files),
    ));
    read
}

/// What `pxe customize` appends is the encoded initramfs that the customisations make.
/// The initramfs that it is appended to is one of a live system, without an Ignition
/// config and without network settings; the features that decide on the
/// customisations are parsed from its list of them, and none if it has no list.
pub proof fn law_addition_made<
    U: Fn(&[u8]) -> Result<Vec<Member>, String>,
    F: Fn(&[u8]) -> Result<OsFeatures, String>,
    A: Fn(&Ignition, &Directive) -> Result<(), String>,
    B: Fn(&Ignition) -> Result<Vec<u8>, String>,
    Y: Fn(&InstallConfig) -> Result<Vec<u8>, String>,
    E: Fn(&Initrd) -> Result<Vec<u8>, String>,
>(
    config: PxeCustomizeConfig,
    archive: Seq<u8>,
    unpack: U,
    parse_features: F,
    accept: A,
    to_bytes: B,
    to_yaml: Y,
    encode: E,
    issued: Seq<NoticeView>,
    addition: Seq<u8>,
) -> (made: (Map<Seq<char>, Seq<u8>>, OsFeatures, Map<Seq<char>, Seq<u8>>))
    requires
        pxe::archive_customized(
            config,
            archive,
            unpack,
            parse_features,
            accept,
            to_bytes,
            to_yaml,
            encode,
            issued,
            Ok(addition),
        ),
    ensures
        exists|bytes: &[u8], out: Result<Vec<Member>, String>|
            {
                &&& bytes@ == archive
                &&& #[trigger] call_ensures(unpack, (bytes,), out)
                &&& out matches Ok(members) && made.0 == initrd::files_by_path(members@)
            },
        made.0.contains_key("etc/coreos-live-initramfs"@),
        !made.0.contains_key("config.ign"@),
        forall|name: Seq<char>|
            !made.0.contains_key(#[trigger] ("etc/coreos-firstboot-network/"@ + name)),
        made.0.contains_key("etc/coreos/features.json"@) ==> exists|
            bytes: &[u8],
            out: Result<OsFeatures, String>,
        |
            {
                &&& bytes@ == made.0["etc/coreos/features.json"@]
                &&& #[trigger] call_ensures(parse_features, (bytes,), out)
                &&& out == Ok::<OsFeatures, String>(made.1)
            },
        !made.0.contains_key("etc/coreos/features.json"@) ==> !made.1.installer_config
            && !made.1.live_initrd_network,
        customize_commands::live_initrd_made(
            config.common@,
            made.1,
            accept,
            to_bytes,
            to_yaml,
            issued,
            Ok(made.2),
        ),
        exists|initrd: &Initrd, out: Result<Vec<u8>, String>|
            {
                &&& initrd@ == made.2
                &&& #[trigger] call_ensures(encode, (initrd,), out)
                &&& out matches Ok(bytes) && bytes@ == addition
            },
{
    let ok = Ok::<Seq<u8>, Refusal>(addition);
    let read = choose|base: Result<Map<Seq<char>, Seq<u8>>, Refusal>| #[trigger]
        pxe::initrd_filtered(archive, pxe::base_patterns(), unpack, base) && match base {
            Err(e) => issued.len() == 0 && ok == Err::<Seq<u8>, Refusal>(e),
            Ok(base) => pxe::base_customized(
                config,
                base,
                parse_features,
                accept,
                to_bytes,
                to_yaml,
                encode,
                issued,
                ok,
            ),
        };
    let base = read->Ok_0;
    let (bytes, out) = choose|bytes: &[u8], out: Result<Vec<Member>, String>|
        {
            &&& bytes@ == archive
            &&& #[trigger] call_ensures(unpack, (bytes,), out)
            &&& read == match out {
                Ok(members) => Ok(
                    initrd::matching_files(
                        initrd::files_by_path(members@),
                        pxe::base_patterns(),
                    ),
                ),
                Err(reason) => Err(Refusal::DecodeInitrd { reason: reason@ }),
            }
        };
    assert(call_ensures(unpack, (bytes,), out));
    let all = initrd::files_by_path(out->Ok_0@);
    command_laws::law_base_filter(all);
    let found = choose|features: Result<OsFeatures, Refusal>| #[trigger]
        pxe::initrd_features(base, parse_features, features) && match features {
            Err(e) => issued.len() == 0 && ok == Err::<Seq<u8>, Refusal>(e),
            Ok(features) => pxe::addition_made(
                config,
                features,
                accept,
                to_bytes,
                to_yaml,
                encode,
                issued,
                ok,
            ),
        };
    let features = found->Ok_0;
    let made = choose|files: Result<Map<Seq<char>, Seq<u8>>, Refusal>| #[trigger]
        customize_commands::live_initrd_made(
            config.common@,
            features,
            accept,
            to_bytes,
            to_yaml,
            issued,
            files,
        ) && match files {
            Err(e) => ok == Err::<Seq<u8>, Refusal>(e),
            Ok(files) => pxe::initrd_encoded(files, encode, ok),
        };
    assert forall|name: Seq<char>|
        !all.contains_key(#[trigger] ("etc/coreos-firstboot-network/"@ + name)) by {
        let path = "etc/coreos-firstboot-network/"@ + name;
        lemma_network_path(name);
        if all.contains_key(path) {
            assert(iso_config::has_network(all));
        }
    }
    (all, features, made->Ok_0)
}

/// The paths of network settings.
proof fn lemma_network_path(name: Seq<char>)
    ensures
        iso_config::is_network_path("etc/coreos-firstboot-network/"@ + name),
        iso_config::keyfile_path(name) == "etc/coreos-firstboot-network/"@ + name,
{
    reveal_strlit("etc/coreos-firstboot-network");
    reveal_strlit("/");
    reveal_strlit("etc/coreos-firstboot-network/");
    let dir = "etc/coreos-firstboot-network"@ + "/"@;
    assert(dir =~= "etc/coreos-firstboot-network/"@);
    let path = dir + name;
    assert(path.subrange(0, dir.len() as int) =~= dir);
}

/// `iso ignition embed` puts the Ignition config, unchanged, at `config.ign`, and
/// leaves the other files and the kargs as they are. It is refused only if there is
/// one already and it is not forced.
pub proof fn law_ignition_embedded(
    config: ConfigView,
    ignition: Seq<u8>,
    force: bool,
    r: Result<ConfigView, Refusal>,
)
    requires
        r == iso_commands::ignition_embedded(config, ignition, force),
    ensures
        r is Ok <==> force || !config.initrd.files.contains_key("config.ign"@),
        r matches Err(e) ==> e == Refusal::IgnitionPresent,
        r matches Ok(new) ==> {
            &&& new.initrd.files.contains_key("config.ign"@)
            &&& new.initrd.files["config.ign"@] == ignition
            &&& forall|path: Seq<char>|
                path != "config.ign"@ ==> (#[trigger] new.initrd.files.contains_key(path)
                    <==> config.initrd.files.contains_key(path)) && (
                new.initrd.files.contains_key(path) ==> new.initrd.files[path]
                    == config.initrd.files[path])
            &&& new.kargs == config.kargs
            &&& new.initrd.region.modified
            &&& new.initrd.region.offset == config.initrd.region.offset
            &&& new.initrd.region.length == config.initrd.region.length
        },
{
}

/// `iso ignition remove` takes away what is at `config.ign`, if anything is, and
/// leaves the other files and the kargs as they are.
pub proof fn law_ignition_removed(config: ConfigView, new: ConfigView)
    requires
        new == iso_commands::ignition_removed(config),
    ensures
        !new.initrd.files.contains_key("config.ign"@),
        forall|path: Seq<char>|
            path != "config.ign"@ ==> (#[trigger] new.initrd.files.contains_key(path)
                <==> config.initrd.files.contains_key(path)) && (new.initrd.files.contains_key(path)
                ==> new.initrd.files[path] == config.initrd.files[path]),
        new.kargs == config.kargs,
        new.initrd.region.modified,
        new.initrd.region.offset == config.initrd.region.offset,
        new.initrd.region.length == config.initrd.region.length,
{
}

/// `iso ignition show` shows what is at `config.ign`, unchanged, and is refused only
/// if nothing is; or, if that is asked for, where the embed area lies.
pub proof fn law_ignition_shown(
    config: ConfigView,
    header: bool,
    r: Result<IgnitionShownView, Refusal>,
)
    requires
        r == iso_commands::ignition_view(config, header),
    ensures
        header ==> (r matches Ok(IgnitionShownView::Header { offset, length }) && offset
            == config.initrd.region.offset && length == config.initrd.region.length),
        !header && config.initrd.files.contains_key("config.ign"@) ==> (
        r matches Ok(IgnitionShownView::Config { data }) && data
            == config.initrd.files["config.ign"@]),
        !header && !config.initrd.files.contains_key("config.ign"@) ==> r == Err::<
            IgnitionShownView,
            Refusal,
        >(Refusal::NoIgnition),
{
}

/// `iso kargs show` shows the kargs that the areas hold, those that the image was
/// built with, or where the areas lie, as it is asked.
pub proof fn law_kargs_shown(
    config: ConfigView,
    header: bool,
    default: bool,
    r: Result<KargsShownView, Refusal>,
)
    requires
        r == iso_commands::kargs_view(config, header, default),
    ensures
        header ==> (r matches Ok(KargsShownView::Header { areas }) && areas == config.kargs),
        !header && config.kargs is None ==> r == Err::<KargsShownView, Refusal>(
            Refusal::KargAreasMissing,
        ),
        config.kargs matches Some(areas) ==> {
            &&& !header && default ==> (r matches Ok(KargsShownView::Kargs { kargs }) && kargs
                == areas.default)
            &&& !header && !default ==> (r matches Ok(KargsShownView::Kargs { kargs }) && kargs
                == areas.args)
        },
{
}

/// How many of a list of keyfiles can be added to files, and what there is then.
proof fn lemma_keyfiles(
    files: Map<Seq<char>, Seq<u8>>,
    keyfiles: Seq<InputView>,
    new: Map<Seq<char>, Seq<u8>>,
    refusal: Option<Refusal>,
)
    requires
        network::keyfiles_added(files, keyfiles) == (new, refusal),
    ensures
        refusal is None ==> {
            &&& forall|i: int|
                0 <= i < keyfiles.len() ==> {
                    &&& (#[trigger] keyfiles[i]).data is Ok
                    &&& text::file_name(keyfiles[i].path) is Some
                    &&& !files.contains_key(place_of(keyfiles[i]))
                    &&& new.contains_key(place_of(keyfiles[i]))
                    &&& new[place_of(keyfiles[i])] == keyfiles[i].data->Ok_0
                }
            &&& forall|i: int, j: int|
                0 <= i < j < keyfiles.len() ==> place_of(#[trigger] keyfiles[i]) != place_of(
                    #[trigger] keyfiles[j],
                )
            &&& forall|path: Seq<char>| #[trigger]
                files.contains_key(path) ==> new.contains_key(path) && new[path] == files[path]
            &&& forall|path: Seq<char>| #[trigger]
                new.contains_key(path) ==> files.contains_key(path) || is_place(keyfiles, path)
        },
        (forall|i: int|
            0 <= i < keyfiles.len() ==> {
                &&& (#[trigger] keyfiles[i]).data is Ok
                &&& text::file_name(keyfiles[i].path) is Some
                &&& !files.contains_key(place_of(keyfiles[i]))
            }) && (forall|i: int, j: int|
            0 <= i < j < keyfiles.len() ==> place_of(#[trigger] keyfiles[i]) != place_of(
                #[trigger] keyfiles[j],
            )) ==> refusal is None,
    decreases keyfiles.len(),
{
    if keyfiles.len() > 0 {
        let before = keyfiles.drop_last();
        let n = keyfiles.len() - 1;
        let last = keyfiles.last();
        let (mid, stop) = network::keyfiles_added(files, before);
        lemma_keyfiles(files, before, mid, stop);
        assert(keyfiles[n] == last);
        assert forall|i: int| 0 <= i < n implies #[trigger] before[i] == keyfiles[i] by {}
        if refusal is None {
            assert forall|i: int| 0 <= i < keyfiles.len() implies {
                &&& (#[trigger] keyfiles[i]).data is Ok
                &&& text::file_name(keyfiles[i].path) is Some
                &&& !files.contains_key(place_of(keyfiles[i]))
                &&& new.contains_key(place_of(keyfiles[i]))
                &&& new[place_of(keyfiles[i])] == keyfiles[i].data->Ok_0
            } by {
                if i < n {
                    assert(before[i] == keyfiles[i]);
                }
            }
            assert forall|i: int, j: int| 0 <= i < j < keyfiles.len() implies place_of(
                #[trigger] keyfiles[i],
            ) != place_of(#[trigger] keyfiles[j]) by {
                assert(before[i] == keyfiles[i]);
                if j < n {
                    assert(before[j] == keyfiles[j]);
                }
            }
            assert forall|path: Seq<char>| #[trigger]
                new.contains_key(path) implies files.contains_key(path) || is_place(
                keyfiles,
                path,
            ) by {
                if path == place_of(last) {
                    assert(path == place_of(keyfiles[n]));
                } else {
                    assert(mid.contains_key(path));
                    if is_place(before, path) {
                        let i = choose|i: int|
                            0 <= i < before.len() && path == place_of(#[trigger] before[i]);
                        assert(path == place_of(keyfiles[i]));
                    }
                }
            }
        }
        if (forall|i: int|
            0 <= i < keyfiles.len() ==> {
                &&& (#[trigger] keyfiles[i]).data is Ok
                &&& text::file_name(keyfiles[i].path) is Some
                &&& !files.contains_key(place_of(keyfiles[i]))
            }) && (forall|i: int, j: int|
            0 <= i < j < keyfiles.len() ==> place_of(#[trigger] keyfiles[i]) != place_of(
                #[trigger] keyfiles[j],
            )) {
            assert forall|i: int| 0 <= i < before.len() implies {
                &&& (#[trigger] before[i]).data is Ok
                &&& text::file_name(before[i].path) is Some
                &&& !files.contains_key(place_of(before[i]))
            } by {
                assert(before[i] == keyfiles[i]);
            }
            assert forall|i: int, j: int| 0 <= i < j < before.len() implies place_of(
                #[trigger] before[i],
            ) != place_of(#[trigger] before[j]) by {
                assert(before[i] == keyfiles[i]);
                assert(before[j] == keyfiles[j]);
            }
            if mid.contains_key(place_of(last)) {
                let i = choose|i: int|
                    0 <= i < before.len() && place_of(last) == place_of(#[trigger] before[i]);
                assert(place_of(keyfiles[i]) != place_of(keyfiles[n]));
            }
        }
    }
}

/// Where a keyfile is put.
spec fn place_of(keyfile: InputView) -> Seq<char> {
    iso_config::keyfile_path(text::file_name(keyfile.path)->0)
}

/// Whether one of a list of keyfiles is put at a path.
spec fn is_place(keyfiles: Seq<InputView>, path: Seq<char>) -> bool {
    exists|i: int| 0 <= i < keyfiles.len() && path == place_of(#[trigger] keyfiles[i])
}

proof fn lemma_same_place(a: Seq<char>, b: Seq<char>)
    ensures
        iso_config::keyfile_path(a) == iso_config::keyfile_path(b) <==> a == b,
{
    let n = (iso_config::INITRD_NETWORK_DIR@ + "/"@).len() as int;
    assert(iso_config::keyfile_path(a).skip(n) =~= a);
    assert(iso_config::keyfile_path(b).skip(n) =~= b);
}

/// `pxe network wrap` makes an initramfs of the keyfiles alone: each is at
/// `etc/coreos-firstboot-network` under its file name, unchanged. It is refused only
/// if one of them was not read or has no file name, or if two have the same.
pub proof fn law_network_wrapped(
    keyfiles: Seq<InputFile>,
    r: Result<Map<Seq<char>, Seq<u8>>, Refusal>,
)
    requires
        r == pxe::wrapped_network(input::input_views(keyfiles)),
    ensures
        r is Ok <==> {
            &&& forall|i: int|
                0 <= i < keyfiles.len() ==> (#[trigger] keyfiles[i]).data is Ok && text::file_name(
                    keyfiles[i].path@,
                ) is Some
            &&& forall|i: int, j: int|
                0 <= i < j < keyfiles.len() ==> text::file_name((#[trigger] keyfiles[i]).path@)
                    != text::file_name((#[trigger] keyfiles[j]).path@)
        },
        r matches Ok(files) ==> {
            &&& forall|i: int|
                0 <= i < keyfiles.len() ==> {
                    &&& files.contains_key(
                        "etc/coreos-firstboot-network/"@ + text::file_name(
                            (#[trigger] keyfiles[i]).path@,
                        )->0,
                    )
                    &&& files["etc/coreos-firstboot-network/"@ + text::file_name(
                        keyfiles[i].path@,
                    )->0] == keyfiles[i].data->Ok_0@
                }
            &&& forall|path: Seq<char>| #[trigger]
                files.contains_key(path) ==> exists|i: int|
                    0 <= i < keyfiles.len() && path == "etc/coreos-firstboot-network/"@
                        + text::file_name((#[trigger] keyfiles[i]).path@)->0
        },
{
    let none = Map::<Seq<char>, Seq<u8>>::empty();
    let views = input::input_views(keyfiles);
    let (files, refusal) = network::keyfiles_added(none, views);
    lemma_keyfiles(none, views, files, refusal);
    lemma_keyfiles_raw(none, keyfiles, files, refusal);
}

/// The keyfiles, as they were handed in.
proof fn lemma_keyfiles_raw(
    base: Map<Seq<char>, Seq<u8>>,
    keyfiles: Seq<InputFile>,
    files: Map<Seq<char>, Seq<u8>>,
    refusal: Option<Refusal>,
)
    requires
        network::keyfiles_added(base, input::input_views(keyfiles)) == (files, refusal),
        forall|name: Seq<char>| !base.contains_key(#[trigger] iso_config::keyfile_path(name)),
    ensures
        refusal is None <==> {
            &&& forall|i: int|
                0 <= i < keyfiles.len() ==> (#[trigger] keyfiles[i]).data is Ok && text::file_name(
                    keyfiles[i].path@,
                ) is Some
            &&& forall|i: int, j: int|
                0 <= i < j < keyfiles.len() ==> text::file_name((#[trigger] keyfiles[i]).path@)
                    != text::file_name((#[trigger] keyfiles[j]).path@)
        },
        refusal is None ==> {
            &&& forall|i: int|
                0 <= i < keyfiles.len() ==> {
                    &&& files.contains_key(
                        "etc/coreos-firstboot-network/"@ + text::file_name(
                            (#[trigger] keyfiles[i]).path@,
                        )->0,
                    )
                    &&& files["etc/coreos-firstboot-network/"@ + text::file_name(
                        keyfiles[i].path@,
                    )->0] == keyfiles[i].data->Ok_0@
                }
            &&& forall|path: Seq<char>| #[trigger]
                files.contains_key(path) ==> base.contains_key(path) || exists|i: int|
                    0 <= i < keyfiles.len() && path == "etc/coreos-firstboot-network/"@
                        + text::file_name((#[trigger] keyfiles[i]).path@)->0
            &&& forall|path: Seq<char>| #[trigger]
                base.contains_key(path) ==> files.contains_key(path) && files[path] == base[path]
        },
{
    let views = input::input_views(keyfiles);
    lemma_keyfiles(base, views, files, refusal);
    assert forall|i: int| 0 <= i < keyfiles.len() implies #[trigger] views[i]
        == keyfiles[i]@ by {}
    if refusal is None {
        assert forall|i: int| 0 <= i < keyfiles.len() implies (#[trigger] keyfiles[i]).data is Ok
            && text::file_name(keyfiles[i].path@) is Some && files.contains_key(
            "etc/coreos-firstboot-network/"@ + text::file_name(keyfiles[i].path@)->0,
        ) && files["etc/coreos-firstboot-network/"@ + text::file_name(keyfiles[i].path@)->0]
            == keyfiles[i].data->Ok_0@ by {
            assert(views[i] == keyfiles[i]@);
            lemma_network_path(text::file_name(keyfiles[i].path@)->0);
        }
        assert forall|i: int, j: int| 0 <= i < j < keyfiles.len() implies text::file_name(
            (#[trigger] keyfiles[i]).path@,
        ) != text::file_name((#[trigger] keyfiles[j]).path@) by {
            assert(views[i] == keyfiles[i]@);
            assert(views[j] == keyfiles[j]@);
            assert(place_of(views[i]) != place_of(views[j]));
        }
        assert forall|path: Seq<char>| #[trigger]
            files.contains_key(path) implies base.contains_key(path) || exists|i: int|
            0 <= i < keyfiles.len() && path == "etc/coreos-firstboot-network/"@ + text::file_name(
                (#[trigger] keyfiles[i]).path@,
            )->0 by {
            if !base.contains_key(path) {
                let i = choose|i: int|
                    0 <= i < views.len() && path == place_of(#[trigger] views[i]);
                assert(views[i] == keyfiles[i]@);
                lemma_network_path(text::file_name(keyfiles[i].path@)->0);
                assert(path == "etc/coreos-firstboot-network/"@ + text::file_name(
                    keyfiles[i].path@,
                )->0);
            }
        }
    }
    if (forall|i: int|
        0 <= i < keyfiles.len() ==> (#[trigger] keyfiles[i]).data is Ok && text::file_name(
            keyfiles[i].path@,
        ) is Some) && (forall|i: int, j: int|
        0 <= i < j < keyfiles.len() ==> text::file_name((#[trigger] keyfiles[i]).path@)
            != text::file_name((#[trigger] keyfiles[j]).path@)) {
        assert forall|i: int| 0 <= i < views.len() implies {
            &&& (#[trigger] views[i]).data is Ok
            &&& text::file_name(views[i].path) is Some
            &&& !base.contains_key(place_of(views[i]))
        } by {
            assert(views[i] == keyfiles[i]@);
            assert(keyfiles[i].data is Ok);
        }
        assert forall|i: int, j: int| 0 <= i < j < views.len() implies place_of(
            #[trigger] views[i],
        ) != place_of(#[trigger] views[j]) by {
            assert(views[i] == keyfiles[i]@);
            assert(views[j] == keyfiles[j]@);
            assert(keyfiles[i].data is Ok && keyfiles[j].data is Ok);
            lemma_same_place(
                text::file_name(keyfiles[i].path@)->0,
                text::file_name(keyfiles[j].path@)->0,
            );
        }
    }
}

/// `iso network embed` puts the keyfiles, unchanged and each under its file name, at
/// `etc/coreos-firstboot-network`, in place of all that was there, and leaves the
/// other files and the kargs as they are. It is refused only if there are network
/// settings already and it is not forced, or if the keyfiles are refused.
pub proof fn law_network_embedded(
    config: ConfigView,
    keyfiles: Seq<InputFile>,
    force: bool,
    r: Result<ConfigView, Refusal>,
)
    requires
        r == iso_commands::network_embedded(config, input::input_views(keyfiles), force),
    ensures
        r is Ok <==> {
            &&& force || forall|path: Seq<char>| #[trigger]
                config.initrd.files.contains_key(path)
                    ==> !"etc/coreos-firstboot-network/"@.is_prefix_of(path)
            &&& forall|i: int|
                0 <= i < keyfiles.len() ==> (#[trigger] keyfiles[i]).data is Ok && text::file_name(
                    keyfiles[i].path@,
                ) is Some
            &&& forall|i: int, j: int|
                0 <= i < j < keyfiles.len() ==> text::file_name((#[trigger] keyfiles[i]).path@)
                    != text::file_name((#[trigger] keyfiles[j]).path@)
        },
        r matches Ok(new) ==> {
            &&& forall|i: int|
                0 <= i < keyfiles.len() ==> {
                    &&& new.initrd.files.contains_key(
                        "etc/coreos-firstboot-network/"@ + text::file_name(
                            (#[trigger] keyfiles[i]).path@,
                        )->0,
                    )
                    &&& new.initrd.files["etc/coreos-firstboot-network/"@ + text::file_name(
                        keyfiles[i].path@,
                    )->0] == keyfiles[i].data->Ok_0@
                }
            &&& forall|path: Seq<char>| #[trigger]
                new.initrd.files.contains_key(path)
                    && "etc/coreos-firstboot-network/"@.is_prefix_of(path) ==> exists|i: int|
                    0 <= i < keyfiles.len() && path == "etc/coreos-firstboot-network/"@
                        + text::file_name((#[trigger] keyfiles[i]).path@)->0
            &&& forall|path: Seq<char>|
                !"etc/coreos-firstboot-network/"@.is_prefix_of(path) ==> (
                #[trigger] new.initrd.files.contains_key(path)
                    <==> config.initrd.files.contains_key(path)) && (
                new.initrd.files.contains_key(path) ==> new.initrd.files[path]
                    == config.initrd.files[path])
            &&& new.kargs == config.kargs
            &&& new.initrd.region.modified
            &&& new.initrd.region.offset == config.initrd.region.offset
            &&& new.initrd.region.length == config.initrd.region.length
        },
{
    let files = config.initrd.files;
    let base = iso_config::without_network(files);
    lemma_network_prefix();
    assert forall|name: Seq<char>| !base.contains_key(
        #[trigger] iso_config::keyfile_path(name),
    ) by {
        lemma_network_path(name);
    }
    let (new_files, refusal) = network::keyfiles_added(base, input::input_views(keyfiles));
    lemma_keyfiles_raw(base, keyfiles, new_files, refusal);
    assert(iso_config::has_network(files) <==> !forall|path: Seq<char>| #[trigger]
        files.contains_key(path) ==> !"etc/coreos-firstboot-network/"@.is_prefix_of(path));
    if r is Ok {
        assert forall|path: Seq<char>|
            !"etc/coreos-firstboot-network/"@.is_prefix_of(path) implies (
        #[trigger] new_files.contains_key(path) <==> files.contains_key(path)) && (
        new_files.contains_key(path) ==> new_files[path] == files[path]) by {
            if files.contains_key(path) {
                assert(base.contains_key(path));
            }
            if new_files.contains_key(path) && !base.contains_key(path) {
                let i = choose|i: int|
                    0 <= i < keyfiles.len() && path == "etc/coreos-firstboot-network/"@
                        + text::file_name((#[trigger] keyfiles[i]).path@)->0;
                lemma_network_path(text::file_name(keyfiles[i].path@)->0);
            }
        }
    }
}

/// What the paths of network settings begin with.
proof fn lemma_network_prefix()
    ensures
        forall|path: Seq<char>| #[trigger]
            iso_config::is_network_path(path)
                <==> "etc/coreos-firstboot-network/"@.is_prefix_of(path),
{
    reveal_strlit("etc/coreos-firstboot-network");
    reveal_strlit("/");
    reveal_strlit("etc/coreos-firstboot-network/");
    assert("etc/coreos-firstboot-network"@ + "/"@ =~= "etc/coreos-firstboot-network/"@);
}

/// `iso network remove` takes away the files below `etc/coreos-firstboot-network`, all
/// of them, and leaves the other files and the kargs as they are.
pub proof fn law_network_removed(config: ConfigView, new: ConfigView)
    requires
        new == iso_commands::network_removed(config),
    ensures
        forall|path: Seq<char>| #[trigger]
            new.initrd.files.contains_key(path) <==> config.initrd.files.contains_key(path)
                && !"etc/coreos-firstboot-network/"@.is_prefix_of(path),
        forall|path: Seq<char>| #[trigger]
            new.initrd.files.contains_key(path) ==> new.initrd.files[path]
                == config.initrd.files[path],
        new.kargs == config.kargs,
        new.initrd.region.modified,
        new.initrd.region.offset == config.initrd.region.offset,
        new.initrd.region.length == config.initrd.region.length,
{
    lemma_network_prefix();
}

/// An image counts as customised, unless that does not matter, if it has an Ignition
/// config, network settings, or other kargs than it was built with.
pub proof fn law_counts_as_customised(config: ConfigView, force: bool)
    ensures
        customize_commands::customized_already(config, force) is None <==> force || {
            &&& !config.initrd.files.contains_key("config.ign"@)
            &&& forall|path: Seq<char>| #[trigger]
                config.initrd.files.contains_key(path)
                    ==> !"etc/coreos-firstboot-network/"@.is_prefix_of(path)
            &&& config.kargs matches Some(areas) && areas.args == areas.default
        },
        miniso::minimal_refused(config) is None <==> {
            &&& !config.initrd.files.contains_key("config.ign"@)
            &&& forall|path: Seq<char>| #[trigger]
                config.initrd.files.contains_key(path)
                    ==> !"etc/coreos-firstboot-network/"@.is_prefix_of(path)
            &&& config.kargs matches Some(areas) && areas.args == areas.default
        },
        customize_commands::customized_already(config, force) matches Some(e) ==> e
            == Refusal::AlreadyCustomized || (config.kargs is None && e
            == Refusal::KargAreasMissing),
{
    lemma_network_prefix();
    let files = config.initrd.files;
    assert(iso_config::has_network(files) <==> !forall|path: Seq<char>| #[trigger]
        files.contains_key(path) ==> !"etc/coreos-firstboot-network/"@.is_prefix_of(path));
}

/// An initramfs is customised if it is one of a live system and has no Ignition config
/// and no network settings.
pub proof fn law_base_accepted(files: Map<Seq<char>, Seq<u8>>)
    ensures
        pxe::base_refused(files) is None <==> {
            &&& files.contains_key("etc/coreos-live-initramfs"@)
            &&& !files.contains_key("config.ign"@)
            &&& forall|path: Seq<char>| #[trigger]
                files.contains_key(path) ==> !"etc/coreos-firstboot-network/"@.is_prefix_of(path)
        },
        pxe::base_refused(files) matches Some(e) ==> e == if files.contains_key(
            "etc/coreos-live-initramfs"@,
        ) {
            Refusal::InputAlreadyCustomized
        } else {
            Refusal::NotLiveInitrd
        },
{
    lemma_network_prefix();
    assert(iso_config::has_network(files) <==> !forall|path: Seq<char>| #[trigger]
        files.contains_key(path) ==> !"etc/coreos-firstboot-network/"@.is_prefix_of(path));
}

/// `pxe ignition wrap` makes an initramfs of the Ignition config alone, unchanged; and
/// `pxe ignition unwrap` finds what is at `config.ign`, unchanged.
pub proof fn law_ignition_wrapped(ignition: Seq<u8>, files: Map<Seq<char>, Seq<u8>>)
    ensures
        forall|path: Seq<char>| #[trigger]
            pxe::wrapped_ignition(ignition).contains_key(path) <==> path == "config.ign"@,
        pxe::wrapped_ignition(ignition)["config.ign"@] == ignition,
        files.contains_key("config.ign"@) ==> pxe::unwrapped_ignition(files) == Ok::<
            Seq<u8>,
            Refusal,
        >(files["config.ign"@]),
        !files.contains_key("config.ign"@) ==> pxe::unwrapped_ignition(files) == Err::<
            Seq<u8>,
            Refusal,
        >(Refusal::IgnitionNotInArchive),
{
}

/// The extraction of a list of files, one by one.
proof fn lemma_extraction_one_by_one(members: Seq<Member>)
    ensures
        ({
            let out = network::extraction_of(members);
            &&& out.files.len() <= members.len()
            &&& forall|j: int|
                0 <= j < out.files.len() ==> {
                    &&& text::file_name(members[j].path@) == Some((#[trigger] out.files[j]).name)
                    &&& out.files[j].contents == members[j].data@
                }
            &&& out.refusal is None ==> out.files.len() == members.len()
            &&& out.refusal matches Some(e) ==> {
                &&& out.files.len() < members.len()
                &&& text::file_name(members[out.files.len() as int].path@) is None
                &&& e == (Refusal::MissingFilename {
                    path: members[out.files.len() as int].path@,
                })
            }
        }),
    decreases members.len(),
{
    if members.len() > 0 {
        let before = members.drop_last();
        lemma_extraction_one_by_one(before);
        let out = network::extraction_of(members);
        let some = network::extraction_of(before);
        assert forall|j: int| 0 <= j < out.files.len() implies {
            &&& text::file_name(members[j].path@) == Some((#[trigger] out.files[j]).name)
            &&& out.files[j].contents == members[j].data@
        } by {
            if j < some.files.len() {
                assert(out.files[j] == some.files[j]);
                assert(before[j] == members[j]);
            }
        }
        if some.refusal is Some {
            assert(before[some.files.len() as int] == members[some.files.len() as int]);
        }
    }
}

/// The network settings that are taken out of an initramfs are its files below
/// `etc/coreos-firstboot-network`, in the order of their paths, each with its contents
/// and under the final component of its path, up to the first whose path has none;
/// without such files there is nothing to take out.
///
/// The result gives the paths of these files.
pub proof fn law_network_extracted(
    files: Map<Seq<char>, Seq<u8>>,
    r: Result<ExtractionView, Refusal>,
) -> (paths: Seq<Seq<char>>)
    requires
        network::network_extracted(files, r),
    ensures
        r is Err <==> forall|path: Seq<char>| #[trigger]
            files.contains_key(path) ==> !"etc/coreos-firstboot-network/"@.is_prefix_of(path),
        r matches Err(e) ==> e == Refusal::NoNetwork,
        r matches Ok(out) ==> {
            &&& forall|path: Seq<char>| #[trigger]
                paths.contains(path) <==> files.contains_key(path)
                    && "etc/coreos-firstboot-network/"@.is_prefix_of(path)
            &&& forall|a: int, b: int|
                0 <= a < b < paths.len() ==> #[trigger] paths[a] != #[trigger] paths[b]
                    && order::bytes_le(encode_utf8(paths[a]), encode_utf8(paths[b]))
            &&& out.files.len() <= paths.len()
            &&& forall|j: int|
                0 <= j < out.files.len() ==> {
                    &&& text::file_name(paths[j]) == Some((#[trigger] out.files[j]).name)
                    &&& out.files[j].contents == files[paths[j]]
                }
            &&& out.refusal is None ==> out.files.len() == paths.len()
            &&& out.refusal matches Some(e) ==> {
                &&& out.files.len() < paths.len()
                &&& text::file_name(paths[out.files.len() as int]) is None
                &&& e == (Refusal::MissingFilename { path: paths[out.files.len() as int] })
            }
        },
{
    lemma_network_prefix();
    assert(iso_config::has_network(files) <==> !forall|path: Seq<char>| #[trigger]
        files.contains_key(path) ==> !"etc/coreos-firstboot-network/"@.is_prefix_of(path));
    if r is Err {
        Seq::empty()
    } else {
        let out = r->Ok_0;
        let members = choose|members: Seq<Member>|
            {
                &&& #[trigger] initrd::paths_increase(members)
                &&& initrd::files_by_path(members) == iso_config::network_files(files)
                &&& r == Ok::<ExtractionView, Refusal>(network::extraction_of(members))
            };
        let paths = Seq::new(members.len(), |k: int| members[k].path@);
        lemma_extraction_one_by_one(members);
        let kept = iso_config::network_files(files);
        assert forall|path: Seq<char>| #[trigger]
            paths.contains(path) <==> files.contains_key(path)
            && "etc/coreos-firstboot-network/"@.is_prefix_of(path) by {
            initrd::lemma_files_by_path(members, path);
            assert(kept.contains_key(path) <==> files.contains_key(path)
                && iso_config::is_network_path(path));
            if paths.contains(path) {
                let k = choose|k: int| 0 <= k < paths.len() && paths[k] == path;
                assert(members[k].path@ == path);
            }
            if kept.contains_key(path) {
                let k = choose|k: int|
                    0 <= k < members.len() && (#[trigger] members[k]).path@ == path;
                assert(paths[k] == path);
            }
        }
        assert forall|j: int| 0 <= j < out.files.len() implies {
            &&& text::file_name(paths[j]) == Some((#[trigger] out.files[j]).name)
            &&& out.files[j].contents == files[paths[j]]
        } by {
            initrd::lemma_files_by_path(members, paths[j]);
            assert(members[j].path@ == paths[j]);
            assert(paths.contains(paths[j]));
            assert(kept.contains_key(paths[j]));
        }
        assert forall|a: int, b: int| 0 <= a < b < paths.len() implies #[trigger] paths[a]
            != #[trigger] paths[b] && order::bytes_le(
            encode_utf8(paths[a]),
            encode_utf8(paths[b]),
        ) by {
            assert(initrd::path_lt(members[a].path@, members[b].path@));
        }
        paths
    }
}

/// The listing of one file is a line with its name and then its contents; and that of
/// two lists one behind the other is that of each, with an empty line between them.
pub proof fn law_listing(a: Seq<ExtractedView>, b: Seq<ExtractedView>, file: ExtractedView)
    ensures
        network::listing_of(seq![file]) == encode_utf8(
            "########## "@ + file.name + " ##########\n"@,
        ) + file.contents,
        network::listing_of(Seq::<ExtractedView>::empty()) == Seq::<u8>::empty(),
        a.len() > 0 && b.len() > 0 ==> network::listing_of(a + b) == network::listing_of(a)
            + seq![10u8] + network::listing_of(b),
    decreases b.len(),
{
    let one = seq![file];
    let none = Seq::<ExtractedView>::empty();
    assert(one.drop_last() =~= none);
    assert(network::listing_of(none) =~= Seq::<u8>::empty());
    assert(network::listing_of(one) =~= encode_utf8(
        "########## "@ + file.name + " ##########\n"@,
    ) + file.contents);
    if a.len() > 0 && b.len() > 0 {
        let all = a + b;
        assert(all.drop_last() =~= a + b.drop_last());
        assert(all.last() == b.last());
        if b.len() == 1 {
            assert(a + b.drop_last() =~= a);
            assert(b.drop_last() =~= none);
        } else {
            law_listing(a, b.drop_last(), file);
        }
        assert(network::listing_of(all) =~= network::listing_of(a) + seq![10u8]
            + network::listing_of(b));
    }
}

/// Whether a file of an archive has a path.
pub open spec fn is_at(members: Seq<Member>, path: Seq<char>, k: int) -> bool {
    0 <= k < members.len() && members[k].path@ == path
}

/// A file is at a path of an initramfs if one of its archive has that path, and of
/// those that do the last counts.
///
/// The result is that file of the archive.
pub proof fn law_later_file_counts(members: Seq<Member>, path: Seq<char>) -> (k: int)
    ensures
        initrd::files_by_path(members).contains_key(path) ==> {
            &&& 0 <= k < members.len()
            &&& members[k].path@ == path
            &&& initrd::files_by_path(members)[path] == members[k].data@
            &&& forall|j: int| k < j < members.len() ==> !#[trigger] is_at(members, path, j)
        },
        !initrd::files_by_path(members).contains_key(path) ==> forall|j: int|
            0 <= j < members.len() ==> !#[trigger] is_at(members, path, j),
    decreases members.len(),
{
    if members.len() == 0 {
        0
    } else {
        let before = members.drop_last();
        let n = members.len() - 1;
        let k = law_later_file_counts(before, path);
        assert forall|j: int| 0 <= j < n implies #[trigger] is_at(members, path, j) == is_at(
            before,
            path,
            j,
        ) by {
            assert(before[j] == members[j]);
        }
        assert(members[n] == members.last());
        if members[n].path@ == path {
            n
        } else {
            if initrd::files_by_path(members).contains_key(path) {
                assert(before[k] == members[k]);
            }
            k
        }
    }
}

/// The first of the words with a prefix.
proof fn lemma_first_with_prefix(words: Seq<Seq<char>>, prefix: Seq<char>)
    ensures
        match miniso::first_with_prefix(words, prefix) {
            Some(word) => exists|k: int|
                {
                    &&& 0 <= k < words.len()
                    &&& #[trigger] words[k] == word
                    &&& prefix.is_prefix_of(word)
                    &&& forall|j: int| 0 <= j < k ==> !prefix.is_prefix_of(#[trigger] words[j])
                },
            None => forall|k: int|
                0 <= k < words.len() ==> !prefix.is_prefix_of(#[trigger] words[k]),
        },
    decreases words.len(),
{
    if words.len() > 0 && !prefix.is_prefix_of(words.first()) {
        let rest = words.drop_first();
        lemma_first_with_prefix(rest, prefix);
        match miniso::first_with_prefix(rest, prefix) {
            Some(word) => {
                let k = choose|k: int|
                    {
                        &&& 0 <= k < rest.len()
                        &&& #[trigger] rest[k] == word
                        &&& prefix.is_prefix_of(word)
                        &&& forall|j: int| 0 <= j < k ==> !prefix.is_prefix_of(#[trigger] rest[j])
                    };
                assert(words[k + 1] == word);
                assert forall|j: int| 0 <= j < k + 1 implies !prefix.is_prefix_of(
                    #[trigger] words[j],
                ) by {
                    if j > 0 {
                        assert(words[j] == rest[j - 1]);
                    }
                }
            },
            None => {
                assert forall|k: int| 0 <= k < words.len() implies !prefix.is_prefix_of(
                    #[trigger] words[k],
                ) by {
                    if k > 0 {
                        assert(words[k] == rest[k - 1]);
                    }
                }
            },
        }
    } else if words.len() > 0 {
        assert(words[0] == words.first());
    }
}

/// The kargs of a minimal image: the first word of them that begins with
/// `coreos.liveiso=` is handed to the editor to be deleted, alone, and what comes of
/// that is what the image is to be reset to. If the address of the root file system is
/// given, it is handed to the editor to be appended to that, alone, behind
/// `coreos.live.rootfs_url=`, unless it has white space within. What comes of all this,
/// without the white space at its ends, are the kargs then.
pub proof fn law_minimal_kargs<K: Fn(&KargsEditor, &str) -> Result<String, String>>(
    read: ConfigView,
    url: Option<Seq<char>>,
    edit: K,
    mini: MinisoView,
)
    requires
        miniso::miniso_kargs(read, url, edit, Ok(mini)),
    ensures
        mini.config.initrd == read.initrd,
        read.kargs matches Some(areas) && mini.config.kargs matches Some(after) && {
            &&& after.default == areas.default
            &&& exists|editor: &KargsEditor, kargs: &str, out: Result<String, String>, k: int|
                #![trigger call_ensures(edit, (editor, kargs), out), text::words(areas.args)[k]]
                {
                    &&& call_ensures(edit, (editor, kargs), out)
                    &&& 0 <= k < text::words(areas.args).len()
                    &&& "coreos.liveiso="@.is_prefix_of(text::words(areas.args)[k])
                    &&& forall|j: int|
                        0 <= j < k ==> !"coreos.liveiso="@.is_prefix_of(
                            #[trigger] text::words(areas.args)[j],
                        )
                    &&& kargs@ == areas.args
                    &&& editor.delete@.len() == 1
                    &&& editor.delete@[0]@ == text::words(areas.args)[k]
                    &&& editor.append@.len() == 0
                    &&& editor.replace@.len() == 0
                    &&& out matches Ok(new) && new@ == mini.default
                }
            &&& match url {
                None => after.args == text::trimmed(mini.default),
                Some(url) => text::words(url).len() <= 1 && exists|
                    editor: &KargsEditor,
                    kargs: &str,
                    out: Result<String, String>,
                |
                    {
                        &&& #[trigger] call_ensures(edit, (editor, kargs), out)
                        &&& kargs@ == mini.default
                        &&& editor.append@.len() == 1
                        &&& editor.append@[0]@ == "coreos.live.rootfs_url="@ + url
                        &&& editor.delete@.len() == 0
                        &&& editor.replace@.len() == 0
                        &&& out matches Ok(new) && after.args == text::trimmed(new@)
                    },
            }
        },
{
    let areas = read.kargs->0;
    let words = text::words(areas.args);
    lemma_first_with_prefix(words, "coreos.liveiso="@);
    let karg = miniso::liveiso_karg(areas.args)->0;
    let k = choose|k: int|
        {
            &&& 0 <= k < words.len()
            &&& #[trigger] words[k] == karg
            &&& "coreos.liveiso="@.is_prefix_of(karg)
            &&& forall|j: int| 0 <= j < k ==> !"coreos.liveiso="@.is_prefix_of(#[trigger] words[j])
        };
    let chosen = choose|kargs: Result<Seq<char>, Refusal>| #[trigger]
        editor::edited(miniso::delete_edit(karg), areas.args, edit, kargs)
            && miniso::default_chosen(read, kargs, url, edit, Ok(mini));
    let (e, given, out) = choose|e: &KargsEditor, s: &str, out: Result<String, String>|
        {
            &&& e@ == miniso::delete_edit(karg)
            &&& s@ == areas.args
            &&& #[trigger] call_ensures(edit, (e, s), out)
            &&& chosen == match out {
                Ok(kargs) => Ok(kargs@),
                Err(reason) => Err(Refusal::EditKargs { reason: reason@ }),
            }
        };
    lemma_edit_texts(e);
    assert(call_ensures(edit, (e, given), out));
    assert("coreos.liveiso="@.is_prefix_of(words[k]));
    let default = chosen->Ok_0;
    let config = read.with_kargs(default)->Ok_0;
    match url {
        None => {},
        Some(url) => {
            let view = miniso::append_edit(miniso::ROOTFS_URL_KARG_PREFIX@ + url);
            let named = choose|kargs: Result<Seq<char>, Refusal>| #[trigger]
                editor::edited(view, default, edit, kargs) && Ok::<MinisoView, Refusal>(mini)
                    == match kargs {
                    Err(e) => Err(e),
                    Ok(kargs) => match config.with_kargs(kargs) {
                        Err(e) => Err(e),
                        Ok(config) => Ok(MinisoView { config, default }),
                    },
                };
            let (e2, given2, out2) = choose|e: &KargsEditor, s: &str, out: Result<String, String>|
                {
                    &&& e@ == view
                    &&& s@ == default
                    &&& #[trigger] call_ensures(edit, (e, s), out)
                    &&& named == match out {
                        Ok(kargs) => Ok(kargs@),
                        Err(reason) => Err(Refusal::EditKargs { reason: reason@ }),
                    }
                };
            lemma_edit_texts(e2);
            assert(call_ensures(edit, (e2, given2), out2));
        },
    }
}

/// The lists of an edit, as lists of its texts.
proof fn lemma_edit_texts(e: &KargsEditor)
    ensures
        e.append@.len() == e@.append.len(),
        e.replace@.len() == e@.replace.len(),
        e.delete@.len() == e@.delete.len(),
        forall|i: int| 0 <= i < e.append@.len() ==> (#[trigger] e.append@[i])@ == e@.append[i],
        forall|i: int| 0 <= i < e.replace@.len() ==> (#[trigger] e.replace@[i])@ == e@.replace[i],
        forall|i: int| 0 <= i < e.delete@.len() ==> (#[trigger] e.delete@[i])@ == e@.delete[i],
{
}

/// An image goes to its own place without an output path, to standard output for `-`,
/// and to another file for any other path; it is streamed to standard output, and
/// written otherwise.
pub proof fn law_destinations<E: Fn(&Initrd) -> Result<Vec<u8>, String>>(
    path: Option<&String>,
    config: ConfigView,
    encode: E,
    out: OutputView,
)
    requires
        output::image_output(config, output::destination_of(path), encode, Ok(out)),
    ensures
        path is None <==> output::destination_of(path) == Destination::InPlace,
        (path matches Some(path) && path@ == "-"@) <==> output::destination_of(path)
            == Destination::Stdout,
        (path matches Some(path) && path@ != "-"@) <==> output::destination_of(path)
            == Destination::File,
        output::destination_of(path) == Destination::Stdout <==> out is Stream,
{
}

/// `iso kargs reset` sets the kargs that the image was built with, without the white
/// space at their ends, and leaves them and the files as they are; it is refused only
/// if the image has no karg embed areas or these kargs do not fit.
pub proof fn law_kargs_reset(config: ConfigView, r: Result<ConfigView, Refusal>)
    requires
        r == iso_commands::kargs_restored(config),
    ensures
        config.kargs is None ==> r == Err::<ConfigView, Refusal>(Refusal::KargAreasMissing),
        config.kargs matches Some(areas) ==> {
            &&& r is Ok <==> encode_utf8(text::trimmed(areas.default)).len() < areas.length
            &&& r matches Ok(new) ==> {
                &&& new.initrd == config.initrd
                &&& new.kargs matches Some(after) && {
                    &&& after.args == text::trimmed(areas.default)
                    &&& after.default == areas.default
                    &&& after.length == areas.length
                    &&& after.regions.len() == areas.regions.len()
                    &&& forall|k: int|
                        0 <= k < after.regions.len() ==> {
                            &&& (#[trigger] after.regions[k]).offset == areas.regions[k].offset
                            &&& after.regions[k].length == areas.regions[k].length
                            &&& after.regions[k].modified
                            &&& after.regions[k].contents == area::area_bytes(
                                after.args,
                                areas.length as nat,
                            )
                        }
                }
            }
        },
{
}

/// `iso reset` leaves no files, and sets the kargs that the image was built with,
/// without the white space at their ends; it is refused only if the image has no karg
/// embed areas or these kargs do not fit.
pub proof fn law_all_reset(config: ConfigView, r: Result<ConfigView, Refusal>)
    requires
        r == iso_commands::all_restored(config),
    ensures
        config.kargs is None ==> r == Err::<ConfigView, Refusal>(Refusal::KargAreasMissing),
        config.kargs matches Some(areas) ==> {
            &&& r is Ok <==> encode_utf8(text::trimmed(areas.default)).len() < areas.length
            &&& r matches Ok(new) ==> {
                &&& forall|path: Seq<char>| !#[trigger] new.initrd.files.contains_key(path)
                &&& new.initrd.region.modified
                &&& new.initrd.region.offset == config.initrd.region.offset
                &&& new.initrd.region.length == config.initrd.region.length
                &&& new.kargs matches Some(after) && {
                    &&& after.args == text::trimmed(areas.default)
                    &&& after.default == areas.default
                }
            }
        },
{
    law_kargs_reset(
        config.with_files(Map::empty()),
        iso_commands::kargs_restored(config.with_files(Map::empty())),
    );
}

/// Keyfiles are refused at the first that cannot be added, with its own path or name:
/// one that was not read, one whose path has no final component, or one with the name
/// of another.
///
/// The result is the number of that keyfile.
pub proof fn law_keyfile_refused(
    base: Map<Seq<char>, Seq<u8>>,
    keyfiles: Seq<InputFile>,
    files: Map<Seq<char>, Seq<u8>>,
    e: Refusal,
) -> (n: int)
    requires
        network::keyfiles_added(base, input::input_views(keyfiles)) == (files, Some(e)),
    ensures
        0 <= n < keyfiles.len(),
        network::keyfiles_added(base, input::input_views(keyfiles.take(n))) == (
            files,
            None::<Refusal>,
        ),
        match keyfiles[n].data {
            Err(reason) => e == (Refusal::ReadFile { path: keyfiles[n].path@, reason: reason@ }),
            Ok(_) => match text::file_name(keyfiles[n].path@) {
                None => e == (Refusal::MissingFilename { path: keyfiles[n].path@ }),
                Some(name) => {
                    &&& e == (Refusal::DuplicateKeyfile { name })
                    &&& files.contains_key("etc/coreos-firstboot-network/"@ + name)
                },
            },
        },
    decreases keyfiles.len(),
{
    let views = input::input_views(keyfiles);
    let before = keyfiles.drop_last();
    assert(views.drop_last() =~= input::input_views(before));
    assert(views.last() == keyfiles.last()@);
    let (mid, stop) = network::keyfiles_added(base, views.drop_last());
    if stop is Some {
        let n = law_keyfile_refused(base, before, mid, stop->0);
        assert(before.take(n) =~= keyfiles.take(n));
        assert(before[n] == keyfiles[n]);
        n
    } else {
        let n = keyfiles.len() - 1;
        assert(keyfiles.take(n) =~= before);
        assert(keyfiles[n] == keyfiles.last());
        if text::file_name(keyfiles[n].path@) is Some {
            lemma_network_path(text::file_name(keyfiles[n].path@)->0);
        }
        n
    }
}

/// The kargs of a minimal image are refused if the image has no karg embed areas, or if
/// no word of its kargs begins with `coreos.liveiso=`; and an address with white space
/// within is refused once the editor has done its work.
pub proof fn law_minimal_kargs_refused<K: Fn(&KargsEditor, &str) -> Result<String, String>>(
    read: ConfigView,
    url: Option<Seq<char>>,
    edit: K,
    r: Result<MinisoView, Refusal>,
)
    requires
        miniso::miniso_kargs(read, url, edit, r),
    ensures
        read.kargs is None ==> r == Err::<MinisoView, Refusal>(Refusal::KargAreasMissing),
        read.kargs matches Some(areas) ==> {
            &&& (forall|k: int|
                0 <= k < text::words(areas.args).len() ==> !"coreos.liveiso="@.is_prefix_of(
                    #[trigger] text::words(areas.args)[k],
                )) <==> r == Err::<MinisoView, Refusal>(Refusal::LiveisoKargMissing)
            &&& r matches Err(Refusal::UrlHasWhitespace { url: found }) ==> url == Some(found)
                && text::words(found).len() > 1
        },
{
    if read.kargs is Some {
        lemma_first_with_prefix(text::words(read.kargs->0.args), "coreos.liveiso="@);
    }
}

/// It does not matter for what is found in an initramfs that only the files are read
/// that are looked for.
pub proof fn law_filters(files: Map<Seq<char>, Seq<u8>>, r: Result<ExtractionView, Refusal>)
    ensures
        network::network_extracted(
            initrd::matching_files(files, seq![iso_config::network_pattern()]),
            r,
        ) <==> network::network_extracted(files, r),
        pxe::unwrapped_ignition(initrd::matching_files(files, seq!["config.ign"@]))
            == pxe::unwrapped_ignition(files),
        forall|path: Seq<char>, patterns: Seq<Seq<char>>| #[trigger]
            initrd::matching_files(files, patterns).contains_key(path) ==> files.contains_key(path)
                && initrd::matching_files(files, patterns)[path] == files[path],
{
    let patterns = seq!["config.ign"@];
    command_laws::lemma_literal_match("config.ign"@, patterns, 0);
    iso_config::lemma_network_files(files);
    let kept = iso_config::network_files(files);
    assert(iso_config::network_files(kept) =~= kept);
    if iso_config::has_network(files) {
        let path = choose|path: Seq<char>| #[trigger]
            files.contains_key(path) && iso_config::is_network_path(path);
        assert(kept.contains_key(path));
    }
    if iso_config::has_network(kept) {
        let path = choose|path: Seq<char>| #[trigger]
            kept.contains_key(path) && iso_config::is_network_path(path);
        assert(files.contains_key(path));
    }
}

} // verus!
