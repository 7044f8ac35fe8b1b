//! What holds of the commands, alone and one after the other.

use crate::area;
use crate::byte_laws;
use crate::compose;
use crate::customize;
use crate::customize::{
    CommonView, InstallConfig, LiveView, NoticeView, OsFeatures, Progress,
};
use crate::customize_commands;
use crate::customize_commands::{INITRD_FEATURES_PATH, INITRD_LIVE_STAMP_PATH};
use crate::editor::KargsEditor;
use crate::error::{LiveError, Refusal};
use crate::glob;
use crate::ignition::{Directive, Ignition};
use crate::initrd;
use crate::initrd::{Initrd, Member};
use crate::input;
use crate::input::InputView;
use crate::iso;
use crate::iso::IsoView;
use crate::iso_commands;
use crate::iso_commands::KargsShownView;
use crate::iso_config;
use crate::iso_config::{ConfigView, INITRD_IGNITION_PATH, INITRD_NETWORK_DIR};
use crate::kargs;
use crate::kargs::{InfoView, KargEmbedInfo};
use crate::laws;
use crate::miniso;
use crate::network;
use crate::network::{ExtractedView, ExtractionView};
use crate::output;
use crate::output::OutputView;
use crate::pxe;
use crate::region;
use crate::region::{RegionView, SegmentView, WriteView};
use crate::stream;
use crate::text;
use vstd::prelude::*;
use vstd::string::*;
use vstd::utf8::*;

verus! {

/// Whether two initramfs hold the same files but for one path.
pub open spec fn same_but(
    a: Map<Seq<char>, Seq<u8>>,
    b: Map<Seq<char>, Seq<u8>>,
    path: Seq<char>,
) -> bool {
    a.remove(path) == b.remove(path)
}

/// An embedded Ignition config is the one that is shown; the other files and the
/// kargs are left alone; and another one is refused then, unless it is forced.
pub proof fn law_ignition_embed(
    config: ConfigView,
    ignition: Seq<u8>,
    force: bool,
    new: ConfigView,
    other: Seq<u8>,
)
    requires
        iso_commands::ignition_embedded(config, ignition, force) == Ok::<ConfigView, Refusal>(new),
    ensures
        iso_commands::ignition_shown(new) == Ok::<Seq<u8>, Refusal>(ignition),
        same_but(new.initrd.files, config.initrd.files, INITRD_IGNITION_PATH@),
        new.kargs == config.kargs,
        iso_commands::ignition_embedded(new, other, false) == Err::<ConfigView, Refusal>(
            Refusal::IgnitionPresent,
        ),
        iso_commands::ignition_embedded(new, other, true) is Ok,
{
    assert(new.initrd.files.remove(INITRD_IGNITION_PATH@) =~= config.initrd.files.remove(
        INITRD_IGNITION_PATH@,
    ));
}

/// A removed Ignition config is not shown any more; the other files and the kargs
/// are left alone; and one can be embedded again without force.
pub proof fn law_ignition_remove(config: ConfigView, ignition: Seq<u8>)
    ensures
        ({
            let new = iso_commands::ignition_removed(config);
            &&& iso_commands::ignition_shown(new) == Err::<Seq<u8>, Refusal>(Refusal::NoIgnition)
            &&& same_but(new.initrd.files, config.initrd.files, INITRD_IGNITION_PATH@)
            &&& new.kargs == config.kargs
            &&& iso_commands::ignition_embedded(new, ignition, false) is Ok
        }),
{
    let new = iso_commands::ignition_removed(config);
    assert(new.initrd.files.remove(INITRD_IGNITION_PATH@) =~= config.initrd.files.remove(
        INITRD_IGNITION_PATH@,
    ));
}

/// Removed network settings are gone, and nothing else is.
pub proof fn law_network_remove(config: ConfigView)
    ensures
        ({
            let new = iso_commands::network_removed(config);
            &&& !iso_config::has_network(new.initrd.files)
            &&& forall|path: Seq<char>|
                !iso_config::is_network_path(path) ==> (#[trigger] new.initrd.files.contains_key(
                    path,
                ) <==> config.initrd.files.contains_key(path)) && (new.initrd.files.contains_key(
                    path,
                ) ==> new.initrd.files[path] == config.initrd.files[path])
            &&& new.kargs == config.kargs
        }),
{
}

/// Kargs that are set are the kargs then, without the white space at their ends;
/// the kargs that the image was built with and the files are left alone.
pub proof fn law_set_kargs(config: ConfigView, kargs: Seq<char>, new: ConfigView)
    requires
        config.with_kargs(kargs) == Ok::<ConfigView, Refusal>(new),
    ensures
        config.kargs matches Some(before) && new.kargs matches Some(after) && {
            &&& after.args == text::trimmed(kargs)
            &&& after.default == before.default
            &&& after.length == before.length
        },
        new.initrd == config.initrd,
        config.wf() ==> new.wf(),
{
    let before = config.kargs->0;
    let after = new.kargs->0;
    area::law_area_round_trip(kargs, before.length as nat);
    if config.wf() {
        assert forall|j: int| 0 <= j < after.regions.len() implies {
            &&& (#[trigger] after.regions[j]).length == after.length
            &&& after.regions[j].fits()
            &&& after.regions[j].end() <= u64::MAX
            &&& area::area_kargs(after.regions[j].contents) == Some(after.args)
        } by {
            assert(before.regions[j].length == before.length);
        }
    }
}

/// An image that has been reset has no files and the kargs that it was built
/// with; resetting it again changes nothing; and where those kargs have no white
/// space at their ends, it counts as not customised.
pub proof fn law_reset(config: ConfigView, new: ConfigView)
    requires
        iso_commands::all_restored(config) == Ok::<ConfigView, Refusal>(new),
    ensures
        new.initrd.files == Map::<Seq<char>, Seq<u8>>::empty(),
        config.kargs matches Some(before) && new.kargs matches Some(after) && {
            &&& after.args == text::trimmed(before.default)
            &&& after.default == before.default
            &&& text::trimmed(before.default) == before.default ==> {
                &&& customize_commands::customized_already(new, false) is None
                &&& miniso::minimal_refused(new) is None
            }
        },
        iso_commands::all_restored(new) == Ok::<ConfigView, Refusal>(new),
{
    let cleared = config.with_files(Map::empty());
    let before = config.kargs->0;
    law_set_kargs(cleared, before.default, new);
    let after = new.kargs->0;
    let k = text::trimmed(before.default);
    assert(after.with_kargs(k).regions =~= after.regions);
    assert(after.with_kargs(k) =~= after);
}

/// Where an Ignition config is put.
proof fn lemma_with_live<B: Fn(&Ignition) -> Result<Vec<u8>, String>>(
    v: LiveView,
    to_bytes: B,
    files: Map<Seq<char>, Seq<u8>>,
)
    requires
        compose::with_live(v, to_bytes, Ok(files)),
    ensures
        files.contains_key(INITRD_IGNITION_PATH@),
        same_but(files, v.files, INITRD_IGNITION_PATH@),
{
    assert(files.remove(INITRD_IGNITION_PATH@) =~= v.files.remove(INITRD_IGNITION_PATH@));
}

/// The initramfs that a customisation becomes holds an Ignition config, and
/// otherwise the files of the customisation.
pub proof fn law_made_initrd<
    A: Fn(&Ignition, &Directive) -> Result<(), String>,
    B: Fn(&Ignition) -> Result<Vec<u8>, String>,
    Y: Fn(&InstallConfig) -> Result<Vec<u8>, String>,
>(v: LiveView, accept: A, to_bytes: B, to_yaml: Y, files: Map<Seq<char>, Seq<u8>>)
    requires
        compose::made_initrd(v, accept, to_bytes, to_yaml, Ok(files)),
    ensures
        files.contains_key(INITRD_IGNITION_PATH@),
        same_but(files, v.files, INITRD_IGNITION_PATH@),
{
    let r = Ok::<Map<Seq<char>, Seq<u8>>, Refusal>(files);
    let dest = choose|dest: Result<LiveView, Refusal>| #[trigger]
        compose::with_dest(v, accept, to_bytes, dest) && match dest {
            Err(e) => r == Err::<Map<Seq<char>, Seq<u8>>, Refusal>(e),
            Ok(dest) => exists|installer: Result<LiveView, Refusal>| #[trigger]
                compose::with_installer(dest, accept, to_yaml, installer) && match installer {
                    Err(e) => r == Err::<Map<Seq<char>, Seq<u8>>, Refusal>(e),
                    Ok(installer) => compose::with_live(installer, to_bytes, r),
                },
        };
    let d = dest->Ok_0;
    let installer = choose|installer: Result<LiveView, Refusal>| #[trigger]
        compose::with_installer(d, accept, to_yaml, installer) && match installer {
            Err(e) => r == Err::<Map<Seq<char>, Seq<u8>>, Refusal>(e),
            Ok(installer) => compose::with_live(installer, to_bytes, r),
        };
    assert(d.files == v.files);
    assert(installer->Ok_0.files == d.files);
    lemma_with_live(installer->Ok_0, to_bytes, files);
}

/// What an initramfs was made of.
pub proof fn lemma_made_from<
    A: Fn(&Ignition, &Directive) -> Result<(), String>,
    B: Fn(&Ignition) -> Result<Vec<u8>, String>,
    Y: Fn(&InstallConfig) -> Result<Vec<u8>, String>,
>(
    common: CommonView,
    features: OsFeatures,
    accept: A,
    to_bytes: B,
    to_yaml: Y,
    issued: Seq<NoticeView>,
    files: Map<Seq<char>, Seq<u8>>,
) -> (p: Progress)
    requires
        customize_commands::live_initrd_made(
            common,
            features,
            accept,
            to_bytes,
            to_yaml,
            issued,
            Ok(files),
        ),
    ensures
        customize::common_applied(customize::untouched(features), common, accept, p),
        p.refusal is None,
        issued == p.live.notices,
        compose::made_initrd(customize::told(p.live), accept, to_bytes, to_yaml, Ok(files)),
{
    let r = Ok::<Map<Seq<char>, Seq<u8>>, Refusal>(files);
    choose|p: Progress|
        {
            &&& #[trigger] customize::common_applied(
                customize::untouched(features),
                common,
                accept,
                p,
            )
            &&& issued == p.live.notices
            &&& match p.refusal {
                Some(e) => r == Err::<Map<Seq<char>, Seq<u8>>, Refusal>(e),
                None => compose::made_initrd(
                    customize::told(p.live),
                    accept,
                    to_bytes,
                    to_yaml,
                    r,
                ),
            }
        }
}

/// An image that has been customised counts as customised.
pub proof fn law_customized<
    A: Fn(&Ignition, &Directive) -> Result<(), String>,
    B: Fn(&Ignition) -> Result<Vec<u8>, String>,
    Y: Fn(&InstallConfig) -> Result<Vec<u8>, String>,
    K: Fn(&KargsEditor, &str) -> Result<String, String>,
>(
    config: crate::cmdline::IsoCustomizeConfig,
    iso: ConfigView,
    features: OsFeatures,
    accept: A,
    to_bytes: B,
    to_yaml: Y,
    edit: K,
    issued: Seq<NoticeView>,
    new: ConfigView,
)
    requires
        customize_commands::config_customized(
            config,
            iso,
            features,
            accept,
            to_bytes,
            to_yaml,
            edit,
            issued,
            Ok(new),
        ),
    ensures
        customize_commands::customized_already(new, false) == Some(Refusal::AlreadyCustomized),
        miniso::minimal_refused(new) == Some(Refusal::MinimalIgnitionPresent),
{
    let r = Ok::<ConfigView, Refusal>(new);
    let files = choose|files: Result<Map<Seq<char>, Seq<u8>>, Refusal>| #[trigger]
        customize_commands::live_initrd_made(
            config.common@,
            features,
            accept,
            to_bytes,
            to_yaml,
            issued,
            files,
        ) && match files {
            Ok(files) => customize_commands::default_kargs_edited(
                iso.with_files(files),
                customize_commands::live_edit(config),
                edit,
                r,
            ),
            Err(e) => r == Err::<ConfigView, Refusal>(e),
        };
    let p = lemma_made_from(
        config.common@,
        features,
        accept,
        to_bytes,
        to_yaml,
        issued,
        files->Ok_0,
    );
    law_made_initrd(customize::told(p.live), accept, to_bytes, to_yaml, files->Ok_0);
    assert(new.initrd.files == files->Ok_0);
}

/// Whether an initramfs holds a keyfile under its name.
pub open spec fn holds_keyfile(files: Map<Seq<char>, Seq<u8>>, keyfile: InputView) -> bool {
    input::named(keyfile.path) matches Ok(name) && keyfile.bytes() matches Ok(data)
        && files.contains_key(iso_config::keyfile_path(name)) && files[iso_config::keyfile_path(
        name,
    )] == data
}

/// What adding keyfiles leads to: each is there, what was there before still is,
/// and nothing else is there.
proof fn lemma_keyfiles_added(
    files: Map<Seq<char>, Seq<u8>>,
    keyfiles: Seq<InputView>,
    new: Map<Seq<char>, Seq<u8>>,
)
    requires
        network::keyfiles_added(files, keyfiles) == (new, None::<Refusal>),
    ensures
        forall|i: int| 0 <= i < keyfiles.len() ==> holds_keyfile(new, #[trigger] keyfiles[i]),
        forall|path: Seq<char>| #[trigger]
            files.contains_key(path) ==> new.contains_key(path) && new[path] == files[path],
        forall|path: Seq<char>| #[trigger]
            new.contains_key(path) ==> files.contains_key(path) || exists|i: int|
                0 <= i < keyfiles.len() && path == iso_config::keyfile_path(
                    input::named((#[trigger] keyfiles[i]).path)->Ok_0,
                ),
    decreases keyfiles.len(),
{
    if keyfiles.len() > 0 {
        let before = network::keyfiles_added(files, keyfiles.drop_last()).0;
        lemma_keyfiles_added(files, keyfiles.drop_last(), before);
        let last = keyfiles.last();
        let n = keyfiles.len() - 1;
        assert(keyfiles[n] == last);
        assert forall|i: int| 0 <= i < keyfiles.len() implies holds_keyfile(
            new,
            #[trigger] keyfiles[i],
        ) by {
            if i < n {
                assert(holds_keyfile(before, keyfiles.drop_last()[i]));
            }
        }
        assert forall|path: Seq<char>| #[trigger] new.contains_key(path) implies files.contains_key(
            path,
        ) || exists|i: int|
            0 <= i < keyfiles.len() && path == iso_config::keyfile_path(
                input::named((#[trigger] keyfiles[i]).path)->Ok_0,
            ) by {
            let name = input::named(last.path)->Ok_0;
            if path == iso_config::keyfile_path(name) {
                assert(path == iso_config::keyfile_path(input::named(keyfiles[n].path)->Ok_0));
            } else {
                assert(before.contains_key(path));
                if !files.contains_key(path) {
                    let i = choose|i: int|
                        0 <= i < keyfiles.drop_last().len() && path == iso_config::keyfile_path(
                            input::named((#[trigger] keyfiles.drop_last()[i]).path)->Ok_0,
                        );
                    assert(path == iso_config::keyfile_path(input::named(keyfiles[i].path)->Ok_0));
                }
            }
        }
    }
}

/// A keyfile is put where network settings lie.
proof fn lemma_keyfile_path(name: Seq<char>)
    ensures
        iso_config::is_network_path(iso_config::keyfile_path(name)),
{
    let prefix = INITRD_NETWORK_DIR@ + "/"@;
    assert(iso_config::keyfile_path(name).subrange(0, prefix.len() as int) =~= prefix);
}

/// Embedded network settings are those that there are then; the other files and
/// the kargs are left alone.
pub proof fn law_network_embed(
    config: ConfigView,
    keyfiles: Seq<InputView>,
    force: bool,
    new: ConfigView,
)
    requires
        iso_commands::network_embedded(config, keyfiles, force) == Ok::<ConfigView, Refusal>(new),
    ensures
        forall|i: int|
            0 <= i < keyfiles.len() ==> holds_keyfile(new.initrd.files, #[trigger] keyfiles[i]),
        forall|path: Seq<char>| #[trigger]
            new.initrd.files.contains_key(path) && iso_config::is_network_path(path)
                ==> exists|i: int|
                0 <= i < keyfiles.len() && path == iso_config::keyfile_path(
                    input::named((#[trigger] keyfiles[i]).path)->Ok_0,
                ),
        forall|path: Seq<char>|
            !iso_config::is_network_path(path) ==> (#[trigger] new.initrd.files.contains_key(path)
                <==> config.initrd.files.contains_key(path)) && (new.initrd.files.contains_key(path)
                ==> new.initrd.files[path] == config.initrd.files[path]),
        new.kargs == config.kargs,
        keyfiles.len() > 0 ==> iso_config::has_network(new.initrd.files),
{
    let base = iso_config::without_network(config.initrd.files);
    lemma_keyfiles_added(base, keyfiles, new.initrd.files);
    assert forall|path: Seq<char>| !iso_config::is_network_path(path) implies (
    #[trigger] new.initrd.files.contains_key(path) <==> config.initrd.files.contains_key(path)) && (
    new.initrd.files.contains_key(path) ==> new.initrd.files[path] == config.initrd.files[path]) by {
        if new.initrd.files.contains_key(path) && !base.contains_key(path) {
            let i = choose|i: int|
                0 <= i < keyfiles.len() && path == iso_config::keyfile_path(
                    input::named((#[trigger] keyfiles[i]).path)->Ok_0,
                );
            lemma_keyfile_path(input::named(keyfiles[i].path)->Ok_0);
        }
        if config.initrd.files.contains_key(path) {
            assert(base.contains_key(path));
        }
    }
    if keyfiles.len() > 0 {
        let name = input::named(keyfiles[0].path)->Ok_0;
        assert(holds_keyfile(new.initrd.files, keyfiles[0]));
        lemma_keyfile_path(name);
        assert(new.initrd.files.contains_key(iso_config::keyfile_path(name)));
    }
}

/// Whether a text can be the final component of a path.
pub open spec fn is_file_name(name: Seq<char>) -> bool {
    &&& name != Seq::<char>::empty()
    &&& name != seq!['.']
    &&& name != seq!['.', '.']
    &&& !name.contains('/')
}

/// A component holds no separator.
proof fn lemma_component(s: Seq<char>)
    ensures
        !s.subrange(text::last_component_start(s), s.len() as int).contains('/'),
    decreases s.len(),
{
    text::lemma_last_component_start(s);
    if s.len() > 0 && s.last() != '/' {
        lemma_component(s.drop_last());
        text::lemma_last_component_start(s.drop_last());
        let start = text::last_component_start(s);
        let component = s.subrange(start, s.len() as int);
        let before = s.drop_last().subrange(start, s.len() - 1);
        assert(component =~= before.push(s.last()));
        if component.contains('/') {
            let i = choose|i: int| 0 <= i < component.len() && component[i] == '/';
            assert(before[i] == '/');
            assert(before.contains('/'));
        }
    }
}

/// The final component of a path is one.
proof fn lemma_file_name_valid(s: Seq<char>)
    requires
        text::file_name(s) is Some,
    ensures
        is_file_name(text::file_name(s)->0),
    decreases s.len(),
{
    let start = text::last_component_start(s);
    let component = s.subrange(start, s.len() as int);
    lemma_component(s);
    text::lemma_last_component_start(s);
    if component == Seq::<char>::empty() || component == seq!['.'] {
        lemma_file_name_valid(s.take(start - 1));
    }
}

/// The last component of a path is what was appended behind a separator.
proof fn lemma_component_appended(dir: Seq<char>, name: Seq<char>)
    requires
        dir.len() > 0,
        dir.last() == '/',
        !name.contains('/'),
    ensures
        text::last_component_start(dir + name) == dir.len(),
    decreases name.len(),
{
    let s = dir + name;
    if name.len() == 0 {
        assert(s =~= dir);
    } else {
        assert(s.last() == name.last());
        assert(name.contains(name[name.len() - 1]));
        assert(s.drop_last() =~= dir + name.drop_last());
        if name.drop_last().contains('/') {
            let i = choose|i: int| 0 <= i < name.drop_last().len() && name.drop_last()[i] == '/';
            assert(name[i] == '/');
        }
        lemma_component_appended(dir, name.drop_last());
    }
}

/// The network settings of a name are extracted under that name.
proof fn lemma_keyfile_named(name: Seq<char>)
    requires
        is_file_name(name),
    ensures
        input::named(iso_config::keyfile_path(name)) == Ok::<Seq<char>, Refusal>(name),
{
    let dir = INITRD_NETWORK_DIR@ + "/"@;
    reveal_strlit("/");
    assert(dir.last() == '/');
    lemma_component_appended(dir, name);
    let path = dir + name;
    assert(path.subrange(dir.len() as int, path.len() as int) =~= name);
}

/// What an extraction holds if each path has a final component.
proof fn lemma_extraction(members: Seq<Member>)
    requires
        forall|i: int|
            0 <= i < members.len() ==> input::named((#[trigger] members[i]).path@) is Ok,
    ensures
        network::extraction_of(members) == (ExtractionView {
            files: Seq::new(
                members.len(),
                |i: int|
                    ExtractedView {
                        name: input::named(members[i].path@)->Ok_0,
                        contents: members[i].data@,
                    },
            ),
            refusal: None,
        }),
    decreases members.len(),
{
    let files = Seq::new(
        members.len(),
        |i: int|
            ExtractedView {
                name: input::named(members[i].path@)->Ok_0,
                contents: members[i].data@,
            },
    );
    if members.len() > 0 {
        let before = members.drop_last();
        assert forall|i: int| 0 <= i < before.len() implies input::named(
            (#[trigger] before[i]).path@,
        ) is Ok by {
            assert(before[i] == members[i]);
        }
        lemma_extraction(before);
        assert(input::named(members[members.len() - 1].path@) is Ok);
        assert(network::extraction_of(members).files =~= files);
    } else {
        assert(network::extraction_of(members).files =~= files);
    }
}

/// A keyfile as it is taken out of an initramfs.
pub open spec fn extracted(keyfile: InputView) -> ExtractedView {
    ExtractedView {
        name: input::named(keyfile.path)->Ok_0,
        contents: keyfile.bytes()->Ok_0,
    }
}

/// Whether a file is one of the keyfiles, as it is taken out of an initramfs.
pub open spec fn is_extracted(keyfiles: Seq<InputView>, file: ExtractedView) -> bool {
    exists|i: int| 0 <= i < keyfiles.len() && file == #[trigger] extracted(keyfiles[i])
}

/// Whether a file of an initramfs is the keyfile of a number.
spec fn comes_from(member: Member, keyfiles: Seq<InputView>, i: int) -> bool {
    &&& 0 <= i < keyfiles.len()
    &&& input::named(member.path@) == Ok::<Seq<char>, Refusal>(extracted(keyfiles[i]).name)
    &&& member.data@ == extracted(keyfiles[i]).contents
}

/// A file of network settings is one of the keyfiles.
proof fn lemma_comes_from(
    files: Map<Seq<char>, Seq<u8>>,
    keyfiles: Seq<InputView>,
    new: Map<Seq<char>, Seq<u8>>,
    members: Seq<Member>,
    j: int,
)
    requires
        !iso_config::has_network(files),
        network::keyfiles_added(files, keyfiles) == (new, None::<Refusal>),
        initrd::paths_increase(members),
        initrd::files_by_path(members) == iso_config::network_files(new),
        0 <= j < members.len(),
    ensures
        exists|i: int| comes_from(members[j], keyfiles, i),
{
    let path = members[j].path@;
    lemma_keyfiles_added(files, keyfiles, new);
    initrd::lemma_files_by_path(members, path);
    assert(iso_config::network_files(new).contains_key(path));
    assert(new.contains_key(path) && iso_config::is_network_path(path));
    assert(!files.contains_key(path));
    let i = choose|i: int|
        0 <= i < keyfiles.len() && path == iso_config::keyfile_path(
            input::named((#[trigger] keyfiles[i]).path)->Ok_0,
        );
    assert(holds_keyfile(new, keyfiles[i]));
    lemma_file_name_valid(keyfiles[i].path);
    lemma_keyfile_named(input::named(keyfiles[i].path)->Ok_0);
    assert(comes_from(members[j], keyfiles, i));
}

/// Each keyfile is among the files of network settings.
proof fn lemma_goes_to(
    files: Map<Seq<char>, Seq<u8>>,
    keyfiles: Seq<InputView>,
    new: Map<Seq<char>, Seq<u8>>,
    members: Seq<Member>,
    i: int,
)
    requires
        network::keyfiles_added(files, keyfiles) == (new, None::<Refusal>),
        initrd::paths_increase(members),
        initrd::files_by_path(members) == iso_config::network_files(new),
        0 <= i < keyfiles.len(),
    ensures
        exists|j: int| 0 <= j < members.len() && comes_from(#[trigger] members[j], keyfiles, i),
{
    let name = input::named(keyfiles[i].path)->Ok_0;
    let path = iso_config::keyfile_path(name);
    lemma_keyfiles_added(files, keyfiles, new);
    assert(holds_keyfile(new, keyfiles[i]));
    lemma_keyfile_path(name);
    lemma_file_name_valid(keyfiles[i].path);
    lemma_keyfile_named(name);
    assert(iso_config::network_files(new).contains_key(path));
    initrd::lemma_files_by_path(members, path);
    let j = choose|j: int| 0 <= j < members.len() && (#[trigger] members[j]).path@ == path;
    assert(comes_from(members[j], keyfiles, i));
}

/// Network settings that are added to an initramfs without any can be taken out
/// again: each under its name, with what the keyfile held, and no others.
pub proof fn law_network_round_trip(
    files: Map<Seq<char>, Seq<u8>>,
    keyfiles: Seq<InputView>,
    new: Map<Seq<char>, Seq<u8>>,
    r: Result<ExtractionView, Refusal>,
)
    requires
        !iso_config::has_network(files),
        keyfiles.len() > 0,
        network::keyfiles_added(files, keyfiles) == (new, None::<Refusal>),
        network::network_extracted(new, r),
    ensures
        r matches Ok(out) && {
            &&& out.refusal is None
            &&& forall|i: int|
                0 <= i < keyfiles.len() ==> out.files.contains(#[trigger] extracted(keyfiles[i]))
            &&& forall|j: int|
                0 <= j < out.files.len() ==> is_extracted(keyfiles, #[trigger] out.files[j])
        },
{
    lemma_keyfiles_added(files, keyfiles, new);
    let first = input::named(keyfiles[0].path)->Ok_0;
    assert(holds_keyfile(new, keyfiles[0]));
    lemma_keyfile_path(first);
    assert(new.contains_key(iso_config::keyfile_path(first)));
    assert(iso_config::has_network(new));
    let members = choose|members: Seq<Member>|
        {
            &&& #[trigger] initrd::paths_increase(members)
            &&& initrd::files_by_path(members) == iso_config::network_files(new)
            &&& r == Ok::<ExtractionView, Refusal>(network::extraction_of(members))
        };
    assert forall|j: int| 0 <= j < members.len() implies input::named(
        (#[trigger] members[j]).path@,
    ) is Ok by {
        lemma_comes_from(files, keyfiles, new, members, j);
    }
    lemma_extraction(members);
    let out = r->Ok_0;
    assert(r is Ok);
    assert(out.refusal is None);
    assert forall|i: int| 0 <= i < keyfiles.len() implies out.files.contains(
        #[trigger] extracted(keyfiles[i]),
    ) by {
        lemma_goes_to(files, keyfiles, new, members, i);
        let j = choose|j: int|
            0 <= j < members.len() && comes_from(#[trigger] members[j], keyfiles, i);
        assert(out.files[j] == extracted(keyfiles[i]));
    }
    assert forall|j: int| 0 <= j < out.files.len() implies is_extracted(
        keyfiles,
        #[trigger] out.files[j],
    ) by {
        lemma_comes_from(files, keyfiles, new, members, j);
        let i = choose|i: int| comes_from(members[j], keyfiles, i);
        assert(out.files[j] == extracted(keyfiles[i]));
    }
}

/// Whether an initramfs is unpacked as it was encoded.
pub open spec fn unpacks<
    U: Fn(&[u8]) -> Result<Vec<Member>, String>,
    E: Fn(&Initrd) -> Result<Vec<u8>, String>,
>(unpack: U, encode: E) -> bool {
    forall|
        files: &Initrd,
        encoded: Result<Vec<u8>, String>,
        bytes: &[u8],
        unpacked: Result<Vec<Member>, String>,
    |
        #![trigger call_ensures(encode, (files,), encoded), call_ensures(unpack, (bytes,), unpacked)]
        call_ensures(encode, (files,), encoded) && call_ensures(unpack, (bytes,), unpacked) && (
        encoded matches Ok(data) && data@ == bytes@) ==> (unpacked matches Ok(members)
            && initrd::files_by_path(members@) == files@)
}

/// The files of an initramfs that was encoded are those that match.
proof fn lemma_filtered_again<
    U: Fn(&[u8]) -> Result<Vec<Member>, String>,
    E: Fn(&Initrd) -> Result<Vec<u8>, String>,
>(
    unpack: U,
    encode: E,
    files: Map<Seq<char>, Seq<u8>>,
    archive: Seq<u8>,
    patterns: Seq<Seq<char>>,
    r: Result<Map<Seq<char>, Seq<u8>>, Refusal>,
)
    requires
        unpacks(unpack, encode),
        pxe::initrd_encoded(files, encode, Ok(archive)),
        pxe::initrd_filtered(archive, patterns, unpack, r),
    ensures
        r == Ok::<Map<Seq<char>, Seq<u8>>, Refusal>(initrd::matching_files(files, patterns)),
{
    let (i, encoded) = choose|i: &Initrd, out: Result<Vec<u8>, String>|
        {
            &&& i@ == files
            &&& #[trigger] call_ensures(encode, (i,), out)
            &&& Ok::<Seq<u8>, Refusal>(archive) == match out {
                Ok(bytes) => Ok(bytes@),
                Err(reason) => Err(Refusal::EncodeInitrd { reason: reason@ }),
            }
        };
    let (bytes, unpacked) = choose|bytes: &[u8], out: Result<Vec<Member>, String>|
        {
            &&& bytes@ == archive
            &&& #[trigger] call_ensures(unpack, (bytes,), out)
            &&& r == match out {
                Ok(members) => Ok(
                    initrd::matching_files(initrd::files_by_path(members@), patterns),
                ),
                Err(reason) => Err(Refusal::DecodeInitrd { reason: reason@ }),
            }
        };
    assert(call_ensures(encode, (i,), encoded) && call_ensures(unpack, (bytes,), unpacked));
}

/// The Ignition config of an initramfs is found in it wherever it holds one, and
/// nowhere else, if the initramfs is unpacked as it was encoded.
pub proof fn law_pxe_unwrap<
    U: Fn(&[u8]) -> Result<Vec<Member>, String>,
    E: Fn(&Initrd) -> Result<Vec<u8>, String>,
>(
    unpack: U,
    encode: E,
    files: Map<Seq<char>, Seq<u8>>,
    archive: Seq<u8>,
    read: Result<Map<Seq<char>, Seq<u8>>, Refusal>,
)
    requires
        unpacks(unpack, encode),
        pxe::initrd_encoded(files, encode, Ok(archive)),
        pxe::initrd_filtered(archive, seq![INITRD_IGNITION_PATH@], unpack, read),
    ensures
        read matches Ok(found) && pxe::unwrapped_ignition(found) == pxe::unwrapped_ignition(files),
{
    let patterns = seq![INITRD_IGNITION_PATH@];
    lemma_filtered_again(unpack, encode, files, archive, patterns, read);
    lemma_literal_match(INITRD_IGNITION_PATH@, patterns, 0);
}

/// The Ignition config that an initramfs is made of is the one that is found in
/// it, if the initramfs is unpacked as it was encoded.
pub proof fn law_pxe_ignition_round_trip<
    U: Fn(&[u8]) -> Result<Vec<Member>, String>,
    E: Fn(&Initrd) -> Result<Vec<u8>, String>,
>(
    unpack: U,
    encode: E,
    ignition: Seq<u8>,
    archive: Seq<u8>,
    read: Result<Map<Seq<char>, Seq<u8>>, Refusal>,
)
    requires
        unpacks(unpack, encode),
        pxe::initrd_encoded(pxe::wrapped_ignition(ignition), encode, Ok(archive)),
        pxe::initrd_filtered(archive, seq![INITRD_IGNITION_PATH@], unpack, read),
    ensures
        read matches Ok(files) && pxe::unwrapped_ignition(files) == Ok::<Seq<u8>, Refusal>(
            ignition,
        ),
{
    law_pxe_unwrap(unpack, encode, pxe::wrapped_ignition(ignition), archive, read);
}

/// Network settings that an initramfs is made of are those that are found in it,
/// if the initramfs is unpacked as it was encoded: each under its name, with what
/// the keyfile held, and no others.
pub proof fn law_pxe_network_round_trip<
    U: Fn(&[u8]) -> Result<Vec<Member>, String>,
    E: Fn(&Initrd) -> Result<Vec<u8>, String>,
>(
    unpack: U,
    encode: E,
    keyfiles: Seq<InputView>,
    new: Map<Seq<char>, Seq<u8>>,
    archive: Seq<u8>,
    read: Result<Map<Seq<char>, Seq<u8>>, Refusal>,
    r: Result<ExtractionView, Refusal>,
)
    requires
        unpacks(unpack, encode),
        keyfiles.len() > 0,
        pxe::wrapped_network(keyfiles) == Ok::<Map<Seq<char>, Seq<u8>>, Refusal>(new),
        pxe::initrd_encoded(new, encode, Ok(archive)),
        pxe::initrd_filtered(archive, seq![iso_config::network_pattern()], unpack, read),
        read matches Ok(files) ==> network::network_extracted(files, r),
    ensures
        read is Ok,
        r matches Ok(out) && {
            &&& out.refusal is None
            &&& forall|i: int|
                0 <= i < keyfiles.len() ==> out.files.contains(#[trigger] extracted(keyfiles[i]))
            &&& forall|j: int|
                0 <= j < out.files.len() ==> is_extracted(keyfiles, #[trigger] out.files[j])
        },
{
    let none = Map::<Seq<char>, Seq<u8>>::empty();
    lemma_filtered_again(
        unpack,
        encode,
        new,
        archive,
        seq![iso_config::network_pattern()],
        read,
    );
    iso_config::lemma_network_files(new);
    let kept = iso_config::network_files(new);
    assert(iso_config::network_files(kept) =~= kept);
    assert(iso_config::has_network(kept) == iso_config::has_network(new)) by {
        if iso_config::has_network(new) {
            let path = choose|path: Seq<char>| #[trigger]
                new.contains_key(path) && iso_config::is_network_path(path);
            assert(kept.contains_key(path));
        }
        if iso_config::has_network(kept) {
            let path = choose|path: Seq<char>| #[trigger]
                kept.contains_key(path) && iso_config::is_network_path(path);
            assert(new.contains_key(path));
        }
    }
    assert(network::network_extracted(new, r));
    law_network_round_trip(none, keyfiles, new, r);
}

/// No Ignition config is found in an initramfs that is made of network settings,
/// if the initramfs is unpacked as it was encoded.
pub proof fn law_pxe_network_without_ignition<
    U: Fn(&[u8]) -> Result<Vec<Member>, String>,
    E: Fn(&Initrd) -> Result<Vec<u8>, String>,
>(
    unpack: U,
    encode: E,
    keyfiles: Seq<InputView>,
    new: Map<Seq<char>, Seq<u8>>,
    archive: Seq<u8>,
    read: Result<Map<Seq<char>, Seq<u8>>, Refusal>,
)
    requires
        unpacks(unpack, encode),
        pxe::wrapped_network(keyfiles) == Ok::<Map<Seq<char>, Seq<u8>>, Refusal>(new),
        pxe::initrd_encoded(new, encode, Ok(archive)),
        pxe::initrd_filtered(archive, seq![INITRD_IGNITION_PATH@], unpack, read),
    ensures
        read matches Ok(files) && pxe::unwrapped_ignition(files) == Err::<Seq<u8>, Refusal>(
            Refusal::IgnitionNotInArchive,
        ),
{
    lemma_keyfiles_added(Map::empty(), keyfiles, new);
    if new.contains_key(INITRD_IGNITION_PATH@) {
        let i = choose|i: int|
            0 <= i < keyfiles.len() && INITRD_IGNITION_PATH@ == iso_config::keyfile_path(
                input::named((#[trigger] keyfiles[i]).path)->Ok_0,
            );
        let path = iso_config::keyfile_path(input::named(keyfiles[i].path)->Ok_0);
        reveal_strlit("config.ign");
        reveal_strlit("etc/coreos-firstboot-network");
        assert(path[0] == INITRD_NETWORK_DIR@[0]);
    }
    law_pxe_unwrap(unpack, encode, new, archive, read);
}

/// An initramfs that the customisations have been appended to counts as
/// customised: of two files with one path the later counts.
pub proof fn law_pxe_customized<
    A: Fn(&Ignition, &Directive) -> Result<(), String>,
    B: Fn(&Ignition) -> Result<Vec<u8>, String>,
    Y: Fn(&InstallConfig) -> Result<Vec<u8>, String>,
>(
    v: LiveView,
    accept: A,
    to_bytes: B,
    to_yaml: Y,
    base: Map<Seq<char>, Seq<u8>>,
    added: Map<Seq<char>, Seq<u8>>,
)
    requires
        pxe::base_refused(base) is None,
        compose::made_initrd(v, accept, to_bytes, to_yaml, Ok(added)),
    ensures
        pxe::base_refused(base.union_prefer_right(added)) == Some(Refusal::InputAlreadyCustomized),
{
    law_made_initrd(v, accept, to_bytes, to_yaml, added);
}

/// No path of a single file is a pattern.
proof fn lemma_literals()
    ensures
        !INITRD_IGNITION_PATH@.contains('*'),
        !INITRD_LIVE_STAMP_PATH@.contains('*'),
        !INITRD_FEATURES_PATH@.contains('*'),
{
    reveal_strlit("config.ign");
    reveal_strlit("etc/coreos-live-initramfs");
    reveal_strlit("etc/coreos/features.json");
}

/// A path of a single file matches itself.
pub proof fn lemma_literal_match(path: Seq<char>, patterns: Seq<Seq<char>>, i: int)
    requires
        path == INITRD_IGNITION_PATH@ || path == INITRD_LIVE_STAMP_PATH@ || path
            == INITRD_FEATURES_PATH@,
        0 <= i < patterns.len(),
        patterns[i] == path,
    ensures
        glob::any_match(patterns, path),
{
    lemma_literals();
    glob::lemma_glob_literal(path, path);
    assert(glob::glob_match(patterns[i], path));
}

/// Whether an initramfs is to be customised, and which features its OS has, does
/// not depend on the files that are not read.
pub proof fn law_base_filter(files: Map<Seq<char>, Seq<u8>>)
    ensures
        ({
            let kept = initrd::matching_files(files, pxe::base_patterns());
            &&& pxe::base_refused(kept) == pxe::base_refused(files)
            &&& kept.contains_key(INITRD_FEATURES_PATH@) == files.contains_key(
                INITRD_FEATURES_PATH@,
            )
            &&& files.contains_key(INITRD_FEATURES_PATH@) ==> kept[INITRD_FEATURES_PATH@]
                == files[INITRD_FEATURES_PATH@]
        }),
{
    let patterns = pxe::base_patterns();
    let kept = initrd::matching_files(files, patterns);
    lemma_literal_match(INITRD_LIVE_STAMP_PATH@, patterns, 0);
    lemma_literal_match(INITRD_FEATURES_PATH@, patterns, 1);
    lemma_literal_match(INITRD_IGNITION_PATH@, patterns, 2);
    if iso_config::has_network(files) {
        let path = choose|path: Seq<char>| #[trigger]
            files.contains_key(path) && iso_config::is_network_path(path);
        iso_config::lemma_network_pattern(path);
        assert(glob::glob_match(patterns[3], path));
        assert(kept.contains_key(path));
    }
    if iso_config::has_network(kept) {
        let path = choose|path: Seq<char>| #[trigger]
            kept.contains_key(path) && iso_config::is_network_path(path);
        assert(files.contains_key(path));
    }
}

/// An image that is streamed is the one that writing in place leads to.
pub proof fn law_destinations_agree(
    input: Seq<u8>,
    config: ConfigView,
    written: RegionView,
    plan: Seq<SegmentView>,
)
    requires
        config.wf(),
        written.fits(),
        iso_config::config_copy(config, written) == Ok::<Seq<SegmentView>, Refusal>(plan),
        output::output_image(input, (OutputView::Stream { plan })) is Some,
    ensures
        iso_config::config_writes(config, written) matches Ok(ops) && output::output_image(
            input,
            (OutputView::Patch { ops }),
        ) == output::output_image(input, (OutputView::Stream { plan })),
{
    let regions = config.regions(written);
    assert forall|k: int| 0 <= k < regions.len() implies (#[trigger] regions[k]).fits() by {
        if k > 0 {
            assert(regions[k] == config.kargs->0.regions[k - 1]);
        }
    }
    byte_laws::lemma_all_fit(regions);
    stream::law_stream_equals_write(input, regions);
}

/// An image of which nothing has been modified is output as it is.
pub proof fn law_untouched_output(input: Seq<u8>, regions: Seq<RegionView>)
    requires
        forall|k: int| 0 <= k < regions.len() ==> !(#[trigger] regions[k]).modified,
    ensures
        region::region_writes(regions) == Seq::<WriteView>::empty(),
        region::first_fault(region::modified_in_order(regions), 0) is None,
        region::render(input, region::copy_plan(region::modified_in_order(regions), 0)) == Some(
            input,
        ),
{
    lemma_no_writes(regions);
    stream::lemma_none_modified(regions);
    let plan = region::copy_plan(Seq::<RegionView>::empty(), 0);
    reveal_with_fuel(region::render, 2);
    assert(plan.drop_first() =~= Seq::<SegmentView>::empty());
    assert(input.skip(0) + Seq::<u8>::empty() =~= input);
}

proof fn lemma_no_writes(regions: Seq<RegionView>)
    requires
        forall|k: int| 0 <= k < regions.len() ==> !(#[trigger] regions[k]).modified,
    ensures
        region::region_writes(regions) == Seq::<WriteView>::empty(),
    decreases regions.len(),
{
    if regions.len() > 0 {
        let before = regions.drop_last();
        assert(!regions[regions.len() - 1].modified);
        assert forall|k: int| 0 <= k < before.len() implies !(#[trigger] before[k]).modified by {
            assert(before[k] == regions[k]);
        }
        lemma_no_writes(before);
    }
}

/// The description of karg embed areas that replaces another is the one that is
/// read then, with spaces behind it, and no other byte of the image changes.
pub proof fn law_info_write(
    image: Seq<u8>,
    json: Seq<char>,
    file: iso::IsoFileView,
    write: WriteView,
)
    requires
        kargs::info_write(json, file) == Ok::<WriteView, Refusal>(write),
        file.offset + file.length <= image.len(),
    ensures
        ({
            let after = region::overwrite(image, write.offset as int, write.data);
            &&& after.len() == image.len()
            &&& iso::file_bytes(after, file) == encode_utf8(json) + Seq::new(
                (file.length - encode_utf8(json).len()) as nat,
                |i: int| 32u8,
            )
            &&& forall|p: int|
                0 <= p < image.len() && !(file.offset <= p < file.offset + file.length)
                    ==> #[trigger] after[p] == image[p]
        }),
{
    let after = region::overwrite(image, write.offset as int, write.data);
    assert(iso::file_bytes(after, file) =~= write.data);
}

/// Whether a description of karg embed areas is parsed as it was written, also with
/// spaces behind it.
pub open spec fn parsed_as_written<
    P: Fn(&[u8]) -> Result<KargEmbedInfo, String>,
    G: Fn(&KargEmbedInfo) -> Result<String, String>,
>(parse: P, to_json: G) -> bool {
    forall|
        info: &KargEmbedInfo,
        json: Result<String, String>,
        bytes: &[u8],
        parsed: Result<KargEmbedInfo, String>,
    |
        #![trigger call_ensures(to_json, (info,), json), call_ensures(parse, (bytes,), parsed)]
        call_ensures(to_json, (info,), json) && call_ensures(parse, (bytes,), parsed) && (
        json matches Ok(json) && exists|n: nat|
            bytes@ == encode_utf8(json@) + #[trigger] spaces(n)) ==> (parsed matches Ok(again)
            && again@ == info@)
}

/// So many spaces, as bytes.
pub open spec fn spaces(n: nat) -> Seq<u8> {
    Seq::new(n, |i: int| 32u8)
}

/// The description of karg embed areas that an image is updated with is the one
/// that is read of it then.
///
/// This holds where a description is parsed as it was written.
pub proof fn law_info_read_back<
    P: Fn(&[u8]) -> Result<KargEmbedInfo, String>,
    G: Fn(&KargEmbedInfo) -> Result<String, String>,
>(
    image: IsoView,
    parse: P,
    to_json: G,
    info: InfoView,
    write: WriteView,
    again: Result<Option<KargEmbedInfo>, LiveError>,
)
    requires
        parsed_as_written(parse, to_json),
        kargs::info_updated(image, info, to_json, Ok(write)),
        kargs::info_read(
            (IsoView {
                file: region::overwrite(image.file, write.offset as int, write.data),
                ..image
            }),
            parse,
            again,
        ),
    ensures
        again matches Ok(Some(found)) && found@ == info,
{
    let file = iso::file_at(image.entries, kargs::KARG_INFO_PATH@)->Ok_0;
    let after = region::overwrite(image.file, write.offset as int, write.data);
    let (i, json) = choose|i: &KargEmbedInfo, json: Result<String, String>|
        {
            &&& i@ == info
            &&& #[trigger] call_ensures(to_json, (i,), json)
            &&& Ok::<WriteView, Refusal>(write) == match json {
                Ok(json) => kargs::info_write(json@, file),
                Err(reason) => Err(Refusal::SerializeKargInfo { reason: reason@ }),
            }
        };
    let text = encode_utf8(json->Ok_0@);
    assert(write.data =~= text + spaces((file.length - text.len()) as nat));
    assert(iso::file_bytes(after, file) =~= write.data);
    let (bytes, parsed) = choose|bytes: &[u8], parsed: Result<KargEmbedInfo, String>|
        {
            &&& bytes@ == iso::file_bytes(after, file)
            &&& #[trigger] call_ensures(parse, (bytes,), parsed)
            &&& match parsed {
                Ok(found) => again == Ok::<Option<KargEmbedInfo>, LiveError>(Some(found)),
                Err(reason) => again matches Err(found) && found@ == (Refusal::ParseKargInfo {
                    reason: reason@,
                }),
            }
        };
    assert(call_ensures(to_json, (i,), json) && call_ensures(parse, (bytes,), parsed));
}

/// The number that a text of digits denotes.
pub open spec fn digits_value(s: Seq<char>) -> int
    decreases s.len(),
{
    if s.len() == 0 {
        0
    } else {
        10 * digits_value(s.drop_last()) + (s.last() as int - '0' as int)
    }
}

/// Whether a text consists of digits.
pub open spec fn all_digits(s: Seq<char>) -> bool {
    forall|i: int| 0 <= i < s.len() ==> '0' <= #[trigger] s[i] <= '9'
}

proof fn lemma_decimal(n: nat)
    ensures
        digits_value(text::decimal(n)) == n,
        all_digits(text::decimal(n)),
    decreases n,
{
    let s = text::decimal(n);
    if n < 10 {
        assert(s.drop_last() =~= Seq::<char>::empty());
        reveal_with_fuel(digits_value, 2);
    } else {
        lemma_decimal(n / 10);
        let head = text::decimal(n / 10);
        assert(s.drop_last() =~= head);
        assert forall|i: int| 0 <= i < s.len() implies '0' <= #[trigger] s[i] <= '9' by {
            if i < head.len() {
                assert(s[i] == head[i]);
            }
        }
    }
}

proof fn lemma_leading_zero(s: Seq<char>)
    ensures
        digits_value(seq!['0'] + s) == digits_value(s),
    decreases s.len(),
{
    let t = seq!['0'] + s;
    if s.len() == 0 {
        assert(t.drop_last() =~= Seq::<char>::empty());
        assert(t.last() == '0');
        reveal_with_fuel(digits_value, 2);
    } else {
        lemma_leading_zero(s.drop_last());
        assert(t.drop_last() =~= seq!['0'] + s.drop_last());
        assert(t.last() == s.last());
    }
}

proof fn lemma_padded(s: Seq<char>, width: nat)
    requires
        all_digits(s),
    ensures
        digits_value(text::zero_padded(s, width)) == digits_value(s),
        all_digits(text::zero_padded(s, width)),
    decreases width - s.len(),
{
    if s.len() < width {
        let t = seq!['0'] + s;
        lemma_leading_zero(s);
        assert forall|i: int| 0 <= i < t.len() implies '0' <= #[trigger] t[i] <= '9' by {
            if i > 0 {
                assert(t[i] == s[i - 1]);
            }
        }
        lemma_padded(t, width);
    }
}

proof fn lemma_padded_length(s: Seq<char>, width: nat)
    ensures
        text::zero_padded(s, width).len() == if s.len() < width {
            width
        } else {
            s.len()
        },
    decreases width - s.len(),
{
    if s.len() < width {
        lemma_padded_length(seq!['0'] + s, width);
    }
}

proof fn lemma_decimal_length(n: nat)
    ensures
        n < 10 ==> text::decimal(n).len() == 1,
        10 <= n < 100 ==> text::decimal(n).len() == 2,
        100 <= n < 1000 ==> text::decimal(n).len() == 3,
        1000 <= n < 10000 ==> text::decimal(n).len() == 4,
        n >= 10000 ==> text::decimal(n).len() > 4 && text::decimal(n)[0] != '0',
    decreases n,
{
    reveal_with_fuel(text::decimal, 5);
    if n >= 100000 {
        lemma_decimal_length(n / 10);
    } else if n >= 10000 {
        let head = n / 10000;
        assert(text::decimal(n)[0] == text::decimal(head)[0]);
    }
}

/// The number of an installer config is written in decimal, with zeros in front of it
/// up to four digits and none beyond that.
pub proof fn law_four_digits(n: u32)
    ensures
        ({
            let s = text::zero_padded(text::decimal(n as nat), 4);
            &&& all_digits(s)
            &&& digits_value(s) == n
            &&& n < 10000 <==> s.len() == 4
            &&& s.len() >= 4
            &&& s.len() > 4 ==> s[0] != '0'
        }),
{
    lemma_decimal(n as nat);
    lemma_padded(text::decimal(n as nat), 4);
    lemma_padded_length(text::decimal(n as nat), 4);
    lemma_decimal_length(n as nat);
}

/// Installer configs with different numbers are put in different places, whatever
/// their names are.
pub proof fn law_installer_paths_distinct(a: u32, b: u32, name_a: Seq<char>, name_b: Seq<char>)
    requires
        a != b,
    ensures
        customize::installer_config_path(a, name_a) != customize::installer_config_path(b, name_b),
{
    let dir = "/etc/coreos/installer.d/"@;
    let da = text::zero_padded(text::decimal(a as nat), 4);
    let db = text::zero_padded(text::decimal(b as nat), 4);
    lemma_decimal(a as nat);
    lemma_decimal(b as nat);
    lemma_padded(text::decimal(a as nat), 4);
    lemma_padded(text::decimal(b as nat), 4);
    reveal_strlit("-");
    let pa = customize::installer_config_path(a, name_a);
    let pb = customize::installer_config_path(b, name_b);
    let n = dir.len() as int;
    if pa == pb {
        if da.len() < db.len() {
            assert(pa[n + da.len()] == '-');
            assert(pb[n + da.len()] == db[da.len() as int]);
        } else if db.len() < da.len() {
            assert(pb[n + db.len()] == '-');
            assert(pa[n + db.len()] == da[db.len() as int]);
        } else {
            assert forall|i: int| 0 <= i < da.len() implies da[i] == db[i] by {
                assert(pa[n + i] == da[i]);
                assert(pb[n + i] == db[i]);
            }
            assert(da =~= db);
        }
    }
}

/// An Ignition config that has been embedded in an image is shown by the image
/// that was written.
///
/// This holds where the initramfs is decoded as it was encoded, and where the
/// written image holds the same as before in what describes the karg embed areas
/// and in the areas themselves.
pub proof fn law_embed_then_show<
    D: Fn(&[u8]) -> Result<Initrd, String>,
    P: Fn(&[u8]) -> Result<KargEmbedInfo, String>,
    E: Fn(&Initrd) -> Result<Vec<u8>, String>,
>(
    image: IsoView,
    decode: D,
    parse: P,
    encode: E,
    read: ConfigView,
    ignition: Seq<u8>,
    force: bool,
    config: ConfigView,
    after: Seq<u8>,
    again: Result<ConfigView, Refusal>,
)
    requires
        laws::inverse(decode, encode),
        laws::never_blank(encode),
        laws::steady_parser(parse),
        iso_config::config_read(image, decode, parse, Ok(read)),
        iso_commands::ignition_embedded(read, ignition, force) == Ok::<ConfigView, Refusal>(config),
        byte_laws::becomes(image.file, config, encode, after),
        laws::same_description(image, after),
        laws::same_rest(image, read, Some(config.initrd.files), None, after),
        iso_config::config_read((IsoView { file: after, ..image }), decode, parse, again),
    ensures
        again matches Ok(new) && {
            &&& iso_commands::ignition_shown(new) == Ok::<Seq<u8>, Refusal>(ignition)
            &&& new.initrd.files == config.initrd.files
            &&& new.kargs == read.kargs
        },
{
    let written = byte_laws::lemma_becomes(image.file, config, encode, after);
    laws::lemma_read_kargs(image, decode, parse, read);
    assert(stream::agree(config.regions(written))) by {
        let regions = config.regions(written);
        assert forall|k: int| 0 < k < regions.len() implies !(#[trigger] regions[k]).modified by {
            assert(regions[k] == read.kargs->0.regions[k - 1]);
        }
    }
    laws::law_config_read_back(
        image,
        decode,
        parse,
        encode,
        read,
        Some(config.initrd.files),
        None,
        config,
        written,
        after,
        again,
    );
}

/// Kargs that have been set in an image are shown by the image that was written,
/// and so are the kargs that it was built with.
///
/// This holds where the karg embed areas agree with each other, and where the
/// written image holds the same as before in what describes them and in the embed
/// area for an initramfs.
pub proof fn law_set_kargs_then_show<
    D: Fn(&[u8]) -> Result<Initrd, String>,
    P: Fn(&[u8]) -> Result<KargEmbedInfo, String>,
    E: Fn(&Initrd) -> Result<Vec<u8>, String>,
>(
    image: IsoView,
    decode: D,
    parse: P,
    encode: E,
    read: ConfigView,
    kargs: Seq<char>,
    config: ConfigView,
    after: Seq<u8>,
    again: Result<ConfigView, Refusal>,
)
    requires
        laws::steady_decoder(decode),
        laws::steady_parser(parse),
        iso_config::config_read(image, decode, parse, Ok(read)),
        read.with_kargs(kargs) == Ok::<ConfigView, Refusal>(config),
        stream::agree(config.regions(config.initrd.region)),
        byte_laws::becomes(image.file, config, encode, after),
        laws::same_description(image, after),
        laws::same_rest(image, read, None, Some(kargs), after),
        iso_config::config_read((IsoView { file: after, ..image }), decode, parse, again),
    ensures
        again matches Ok(new) && {
            &&& iso_commands::kargs_view(new, false, false) == Ok::<KargsShownView, Refusal>(
                KargsShownView::Kargs { kargs: text::trimmed(kargs) },
            )
            &&& iso_commands::kargs_view(new, false, true) == iso_commands::kargs_view(
                read,
                false,
                true,
            )
            &&& new.initrd.files == read.initrd.files
        },
{
    let written = byte_laws::lemma_becomes(image.file, config, encode, after);
    assert(!read.initrd.region.modified);
    assert(stream::agree(config.regions(written))) by {
        let places = config.regions(config.initrd.region);
        let regions = config.regions(written);
        assert forall|k: int| 0 <= k < regions.len() && (#[trigger] regions[k]).modified implies
            regions[k] == places[k] by {
            assert(k > 0);
        }
        assert forall|a: int, b: int, p: int|
            #![trigger regions[a].covers(p), regions[b].covers(p)]
            0 <= a < regions.len() && 0 <= b < regions.len() && regions[a].modified
                && regions[b].modified && regions[a].covers(p) && regions[b].covers(p) implies
            regions[a].contents[p - regions[a].offset] == regions[b].contents[p
            - regions[b].offset] by {
            assert(places[a].covers(p) && places[b].covers(p));
        }
    }
    laws::law_config_read_back(
        image,
        decode,
        parse,
        encode,
        read,
        None,
        Some(kargs),
        config,
        written,
        after,
        again,
    );
}

} // verus!
