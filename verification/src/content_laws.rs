//! What a customisation puts into a live system, in terms of what was asked for.

use crate::change_laws;
use crate::command_laws;
use crate::compose;
use crate::compose::DestView;
use crate::customize;
use crate::customize::{
    CommonCustomizeConfig, CommonView, FileUse, InstallConfig, InstallView, InstallerFile,
    InstallerFileView, LiveInitrd, LiveView, NoticeView, OsFeatures, Progress, Stages,
};
use crate::customize_commands;
use crate::error::Refusal;
use crate::hook;
use crate::hook::Hook;
use crate::ignition;
use crate::ignition::{Directive, DirectiveView, Ignition};
use crate::input;
use crate::input::{InputFile, InputView};
use crate::iso_config;
use crate::series;
use crate::text;
use vstd::prelude::*;
use vstd::string::*;

verus! {

/// What an input file that was read holds.
spec fn data_of(file: InputView) -> Seq<u8> {
    file.data->Ok_0
}

/// The final component of the path of an input file.
spec fn name_of(file: InputView) -> Seq<char> {
    text::file_name(file.path)->0
}

/// What a list of input files that were read holds.
spec fn datas_of(files: Seq<InputView>) -> Seq<Seq<u8>> {
    Seq::new(files.len(), |i: int| data_of(files[i]))
}

/// The notices for the warnings on each of a list of Ignition configs.
spec fn warnings_of(files: Seq<InputView>) -> Seq<Seq<NoticeView>> {
    Seq::new(
        files.len(),
        |i: int|
            Seq::new(
                ignition::ignition_warnings(data_of(files[i]))->0.len(),
                |k: int|
                    NoticeView::ConfigWarning {
                        path: files[i].path,
                        warning: ignition::ignition_warnings(data_of(files[i]))->0[k],
                    },
            ),
    )
}

/// The customisation after Ignition configs for the destination system.
proof fn lemma_dest_used<A: Fn(&Ignition, &Directive) -> Result<(), String>>(
    v: LiveView,
    files: Seq<InputView>,
    accept: A,
    p: Progress,
)
    requires
        customize::files_used(FileUse::DestIgnition, customize::reached(v), files, accept, p),
        p.refusal is None,
    ensures
        p.live == (LiveView {
            user_dest: v.user_dest + datas_of(files),
            notices: v.notices + warnings_of(files).flatten_alt(),
            ..v
        }),
        forall|i: int|
            0 <= i < files.len() ==> (#[trigger] files[i]).data is Ok
                && ignition::ignition_warnings(data_of(files[i])) is Some,
    decreases files.len(),
{
    let start = customize::reached(v);
    let next = customize::next_file(FileUse::DestIgnition, accept);
    if files.len() == 0 {
        series::lemma_no_steps(start, files, next, p);
        assert(v.user_dest + datas_of(files) =~= v.user_dest);
        assert(v.notices + warnings_of(files).flatten_alt() =~= v.notices);
    } else {
        let before = files.drop_last();
        let mid = series::lemma_last_step(start, files, next, p);
        lemma_dest_used(v, before, accept, mid);
        let last = files.last();
        assert forall|i: int| 0 <= i < files.len() implies (#[trigger] files[i]).data is Ok
            && ignition::ignition_warnings(data_of(files[i])) is Some by {
            if i < before.len() {
                assert(before[i] == files[i]);
            }
        }
        assert(v.user_dest + datas_of(files) =~= (v.user_dest + datas_of(before)).push(
            data_of(last),
        ));
        lemma_warnings_pushed(files);
        let warnings = ignition::ignition_warnings(data_of(last))->0;
        assert(warnings_of(files).last() =~= customize::warning_notices(last.path, warnings));
        assert(v.notices + warnings_of(files).flatten_alt() =~= (v.notices + warnings_of(
            before,
        ).flatten_alt()) + customize::warning_notices(last.path, warnings));
    }
}

proof fn lemma_warnings_pushed(files: Seq<InputView>)
    requires
        files.len() > 0,
    ensures
        warnings_of(files).drop_last() == warnings_of(files.drop_last()),
        warnings_of(files).flatten_alt() == warnings_of(files.drop_last()).flatten_alt()
            + warnings_of(files).last(),
{
    let all = warnings_of(files);
    let before = warnings_of(files.drop_last());
    assert forall|i: int| 0 <= i < before.len() implies before[i] == all.drop_last()[i] by {
        assert(files.drop_last()[i] == files[i]);
        assert(before[i] =~= all[i]);
    }
    assert(all.drop_last() =~= before);
}

/// Where network settings are put.
spec fn keyfile_place(file: InputView) -> Seq<char> {
    iso_config::keyfile_path(name_of(file))
}

/// The customisation after network settings.
proof fn lemma_network_used<A: Fn(&Ignition, &Directive) -> Result<(), String>>(
    v: LiveView,
    files: Seq<InputView>,
    accept: A,
    p: Progress,
)
    requires
        customize::files_used(FileUse::NetworkKeyfile, customize::reached(v), files, accept, p),
        p.refusal is None,
    ensures
        p.live == (LiveView {
            files: p.live.files,
            installer_copy_network: v.installer_copy_network || files.len() > 0,
            ..v
        }),
        files.len() > 0 ==> v.features.live_initrd_network,
        forall|i: int|
            0 <= i < files.len() ==> {
                &&& (#[trigger] files[i]).data is Ok
                &&& text::file_name(files[i].path) is Some
                &&& !v.files.contains_key(keyfile_place(files[i]))
                &&& p.live.files.contains_key(keyfile_place(files[i]))
                &&& p.live.files[keyfile_place(files[i])] == data_of(files[i])
            },
        forall|i: int, j: int|
            0 <= i < j < files.len() ==> keyfile_place(#[trigger] files[i]) != keyfile_place(
                #[trigger] files[j],
            ),
        forall|path: Seq<char>| #[trigger]
            v.files.contains_key(path) ==> p.live.files.contains_key(path) && p.live.files[path]
                == v.files[path],
        forall|path: Seq<char>| #[trigger]
            p.live.files.contains_key(path) ==> v.files.contains_key(path) || exists|i: int|
                0 <= i < files.len() && path == keyfile_place(#[trigger] files[i]),
    decreases files.len(),
{
    let start = customize::reached(v);
    let next = customize::next_file(FileUse::NetworkKeyfile, accept);
    if files.len() == 0 {
        series::lemma_no_steps(start, files, next, p);
    } else {
        let before = files.drop_last();
        let mid = series::lemma_last_step(start, files, next, p);
        lemma_network_used(v, before, accept, mid);
        let last = files.last();
        let n = files.len() - 1;
        assert(files[n] == last);
        assert(p.live.files == mid.live.files.insert(keyfile_place(last), data_of(last)));
        assert(!mid.live.files.contains_key(keyfile_place(last)));
        assert forall|i: int| 0 <= i < files.len() implies {
            &&& (#[trigger] files[i]).data is Ok
            &&& text::file_name(files[i].path) is Some
            &&& !v.files.contains_key(keyfile_place(files[i]))
            &&& p.live.files.contains_key(keyfile_place(files[i]))
            &&& p.live.files[keyfile_place(files[i])] == data_of(files[i])
        } by {
            if i < n {
                assert(before[i] == files[i]);
            }
        }
        assert forall|i: int, j: int| 0 <= i < j < files.len() implies keyfile_place(
            #[trigger] files[i],
        ) != keyfile_place(#[trigger] files[j]) by {
            assert(before[i] == files[i]);
            if j < n {
                assert(before[j] == files[j]);
            } else {
                assert(mid.live.files.contains_key(keyfile_place(before[i])));
            }
        }
        assert forall|path: Seq<char>| #[trigger]
            p.live.files.contains_key(path) implies v.files.contains_key(path) || exists|i: int|
            0 <= i < files.len() && path == keyfile_place(#[trigger] files[i]) by {
            if path == keyfile_place(last) {
                assert(path == keyfile_place(files[n]));
            } else {
                assert(mid.live.files.contains_key(path));
                if !v.files.contains_key(path) {
                    let i = choose|i: int|
                        0 <= i < before.len() && path == keyfile_place(#[trigger] before[i]);
                    assert(path == keyfile_place(files[i]));
                }
            }
        }
    }
}

/// The directives for a list of certificate authorities.
spec fn cas_of(files: Seq<InputView>) -> Seq<DirectiveView> {
    Seq::new(files.len(), |i: int| DirectiveView::Ca { certificate: data_of(files[i]) })
}

/// The customisation after certificate authorities.
proof fn lemma_cas_used<A: Fn(&Ignition, &Directive) -> Result<(), String>>(
    v: LiveView,
    files: Seq<InputView>,
    accept: A,
    p: Progress,
)
    requires
        customize::files_used(FileUse::IgnitionCa, customize::reached(v), files, accept, p),
        p.refusal is None,
    ensures
        p.live == (LiveView {
            live: v.live + cas_of(files),
            dest_ca: v.dest_ca + datas_of(files),
            ..v
        }),
        forall|i: int| 0 <= i < files.len() ==> (#[trigger] files[i]).data is Ok,
    decreases files.len(),
{
    let start = customize::reached(v);
    let next = customize::next_file(FileUse::IgnitionCa, accept);
    if files.len() == 0 {
        series::lemma_no_steps(start, files, next, p);
        assert(v.live + cas_of(files) =~= v.live);
        assert(v.dest_ca + datas_of(files) =~= v.dest_ca);
    } else {
        let before = files.drop_last();
        let mid = series::lemma_last_step(start, files, next, p);
        lemma_cas_used(v, before, accept, mid);
        let last = files.last();
        assert forall|i: int| 0 <= i < files.len() implies (#[trigger] files[i]).data is Ok by {
            if i < before.len() {
                assert(before[i] == files[i]);
            }
        }
        assert(v.live + cas_of(files) =~= (v.live + cas_of(before)).push(
            DirectiveView::Ca { certificate: data_of(last) },
        ));
        assert(v.dest_ca + datas_of(files) =~= (v.dest_ca + datas_of(before)).push(data_of(last)));
    }
}

/// The directives for a list of scripts: for each the script itself and its unit.
spec fn hooks_of(hook: Hook, files: Seq<InputView>) -> Seq<DirectiveView> {
    Seq::new(
        (2 * files.len()) as nat,
        |i: int|
            if i % 2 == 0 {
                DirectiveView::File {
                    path: hook::hook_script_path(hook, name_of(files[i / 2])),
                    data: data_of(files[i / 2]),
                    mode: 0o700,
                }
            } else {
                DirectiveView::Unit {
                    name: hook::hook_unit_name(hook, name_of(files[i / 2])),
                    contents: hook::hook_unit(hook, name_of(files[i / 2])),
                    enabled: true,
                }
            },
    )
}

/// The customisation after scripts.
proof fn lemma_hooks_used<A: Fn(&Ignition, &Directive) -> Result<(), String>>(
    u: FileUse,
    hook: Hook,
    v: LiveView,
    files: Seq<InputView>,
    accept: A,
    p: Progress,
)
    requires
        (u == FileUse::PreInstall && hook == Hook::Pre) || (u == FileUse::PostInstall && hook
            == Hook::Post),
        customize::files_used(u, customize::reached(v), files, accept, p),
        p.refusal is None,
    ensures
        p.live == (LiveView { live: v.live + hooks_of(hook, files), ..v }),
        forall|i: int|
            0 <= i < files.len() ==> (#[trigger] files[i]).data is Ok && text::file_name(
                files[i].path,
            ) is Some,
    decreases files.len(),
{
    let start = customize::reached(v);
    let next = customize::next_file(u, accept);
    if files.len() == 0 {
        series::lemma_no_steps(start, files, next, p);
        assert(v.live + hooks_of(hook, files) =~= v.live);
    } else {
        let before = files.drop_last();
        let mid = series::lemma_last_step(start, files, next, p);
        lemma_hooks_used(u, hook, v, before, accept, mid);
        let last = files.last();
        assert forall|i: int| 0 <= i < files.len() implies (#[trigger] files[i]).data is Ok
            && text::file_name(files[i].path) is Some by {
            if i < before.len() {
                assert(before[i] == files[i]);
            }
        }
        let script = DirectiveView::File {
            path: hook::hook_script_path(hook, name_of(last)),
            data: data_of(last),
            mode: 0o700,
        };
        let unit = DirectiveView::Unit {
            name: hook::hook_unit_name(hook, name_of(last)),
            contents: hook::hook_unit(hook, name_of(last)),
            enabled: true,
        };
        assert(customize::install_hook_step(mid.live, hook, last, accept, p));
        assert(p.live.live == mid.live.live.push(script).push(unit));
        let all = hooks_of(hook, files);
        let some = hooks_of(hook, before);
        assert forall|i: int| 0 <= i < all.len() implies all[i] == some.push(script).push(
            unit,
        )[i] by {
            if i < some.len() {
                assert(before[i / 2] == files[i / 2]);
            }
        }
        assert(all =~= some.push(script).push(unit));
        assert(v.live + all =~= (v.live + some).push(script).push(unit));
    }
}

/// The directives for a list of installer configs that are numbered from `serial`
/// on.
spec fn configs_of(serial: int, configs: Seq<InstallerFileView>) -> Seq<DirectiveView> {
    Seq::new(
        configs.len(),
        |i: int|
            DirectiveView::File {
                path: customize::installer_config_path(
                    (serial + i) as u32,
                    name_of(configs[i].file),
                ),
                data: data_of(configs[i].file),
                mode: 0o600,
            },
    )
}

/// The customisation after installer configs.
proof fn lemma_configs_used<A: Fn(&Ignition, &Directive) -> Result<(), String>>(
    v: LiveView,
    configs: Seq<InstallerFileView>,
    accept: A,
    p: Progress,
)
    requires
        customize::configs_used(customize::reached(v), configs, accept, p),
        p.refusal is None,
        v.installer_serial + configs.len() <= u32::MAX,
    ensures
        p.live == (LiveView {
            live: v.live + configs_of(v.installer_serial as int, configs),
            installer_serial: (v.installer_serial + configs.len()) as u32,
            ..v
        }),
        configs.len() > 0 ==> v.features.installer_config,
        forall|i: int|
            0 <= i < configs.len() ==> {
                &&& (#[trigger] configs[i]).file.data is Ok
                &&& configs[i].parsed is Ok
                &&& text::file_name(configs[i].file.path) is Some
            },
    decreases configs.len(),
{
    let start = customize::reached(v);
    let next = customize::next_config(accept);
    let serial = v.installer_serial as int;
    if configs.len() == 0 {
        series::lemma_no_steps(start, configs, next, p);
        assert(v.live + configs_of(serial, configs) =~= v.live);
    } else {
        let before = configs.drop_last();
        let mid = series::lemma_last_step(start, configs, next, p);
        lemma_configs_used(v, before, accept, mid);
        let last = configs.last();
        assert forall|i: int| 0 <= i < configs.len() implies {
            &&& (#[trigger] configs[i]).file.data is Ok
            &&& configs[i].parsed is Ok
            &&& text::file_name(configs[i].file.path) is Some
        } by {
            if i < before.len() {
                assert(before[i] == configs[i]);
            }
        }
        let all = configs_of(serial, configs);
        let some = configs_of(serial, before);
        let file = DirectiveView::File {
            path: customize::installer_config_path(
                (serial + before.len()) as u32,
                name_of(last.file),
            ),
            data: data_of(last.file),
            mode: 0o600,
        };
        assert(p.live.live == mid.live.live.push(file));
        assert(all =~= some.push(file));
        assert(v.live + all =~= (v.live + some).push(file));
    }
}

/// The directives that merge a list of Ignition configs.
spec fn merges_of(files: Seq<InputView>) -> Seq<DirectiveView> {
    Seq::new(files.len(), |i: int| DirectiveView::Merge { source: data_of(files[i]) })
}

/// The customisation after Ignition configs for the live system.
proof fn lemma_live_used<A: Fn(&Ignition, &Directive) -> Result<(), String>>(
    v: LiveView,
    files: Seq<InputView>,
    accept: A,
    p: Progress,
)
    requires
        customize::files_used(FileUse::LiveIgnition, customize::reached(v), files, accept, p),
        p.refusal is None,
    ensures
        p.live == (LiveView {
            live: v.live + merges_of(files),
            notices: v.notices + warnings_of(files).flatten_alt(),
            ..v
        }),
        forall|i: int|
            0 <= i < files.len() ==> (#[trigger] files[i]).data is Ok
                && ignition::ignition_warnings(data_of(files[i])) is Some,
    decreases files.len(),
{
    let start = customize::reached(v);
    let next = customize::next_file(FileUse::LiveIgnition, accept);
    if files.len() == 0 {
        series::lemma_no_steps(start, files, next, p);
        assert(v.live + merges_of(files) =~= v.live);
        assert(v.notices + warnings_of(files).flatten_alt() =~= v.notices);
    } else {
        let before = files.drop_last();
        let mid = series::lemma_last_step(start, files, next, p);
        lemma_live_used(v, before, accept, mid);
        let last = files.last();
        assert forall|i: int| 0 <= i < files.len() implies (#[trigger] files[i]).data is Ok
            && ignition::ignition_warnings(data_of(files[i])) is Some by {
            if i < before.len() {
                assert(before[i] == files[i]);
            }
        }
        let merge = DirectiveView::Merge { source: data_of(last) };
        assert(v.live + merges_of(files) =~= (v.live + merges_of(before)).push(merge));
        lemma_warnings_pushed(files);
        let warnings = ignition::ignition_warnings(data_of(last))->0;
        assert(warnings_of(files).last() =~= customize::warning_notices(last.path, warnings));
        assert(v.notices + warnings_of(files).flatten_alt() =~= (v.notices + warnings_of(
            before,
        ).flatten_alt()) + customize::warning_notices(last.path, warnings));
    }
}

/// The installer parameters after kargs of the destination system.
proof fn lemma_kargs_set(v: LiveView, append: Seq<Seq<char>>, delete: Seq<Seq<char>>)
    ensures
        ({
            let old = customize::parameters(v.installer);
            customize::kargs_deleted(customize::kargs_appended(v, append), delete) == (LiveView {
                installer: if append.len() == 0 && delete.len() == 0 {
                    v.installer
                } else {
                    Some(
                        InstallView {
                            append_karg: old.append_karg + append,
                            delete_karg: old.delete_karg + delete,
                            ..old
                        },
                    )
                },
                ..v
            })
        }),
    decreases append.len() + delete.len(),
{
    let old = customize::parameters(v.installer);
    if delete.len() > 0 {
        lemma_kargs_set(v, append, delete.drop_last());
        assert(old.delete_karg + delete =~= (old.delete_karg + delete.drop_last()).push(
            delete.last(),
        ));
        assert(old.append_karg + append.take(0) =~= old.append_karg);
        assert(old.delete_karg + delete.take(0) =~= old.delete_karg);
        if append.len() == 0 {
            assert(old.append_karg + append =~= old.append_karg);
        }
        if delete.len() == 1 {
            assert(old.delete_karg + delete.drop_last() =~= old.delete_karg);
        }
    } else if append.len() > 0 {
        lemma_kargs_set(v, append.drop_last(), delete);
        assert(old.append_karg + append =~= (old.append_karg + append.drop_last()).push(
            append.last(),
        ));
        assert(old.delete_karg + delete =~= old.delete_karg);
        if append.len() == 1 {
            assert(old.append_karg + append.drop_last() =~= old.append_karg);
        }
    }
}

/// The installer parameters that are asked for, if any.
spec fn asked_parameters(common: CommonView) -> Option<InstallView> {
    if common.dest_device is None && common.dest_karg_append.len() == 0
        && common.dest_karg_delete.len() == 0 {
        None
    } else {
        Some(
            InstallView {
                dest_device: common.dest_device,
                append_karg: common.dest_karg_append,
                delete_karg: common.dest_karg_delete,
                ignition_file: None,
                copy_network: false,
            },
        )
    }
}

/// The notice on the device that is asked for.
spec fn device_notice(common: CommonView) -> Seq<NoticeView> {
    match common.dest_device {
        Some(device) => seq![NoticeView::Overwrite { device }],
        None => Seq::empty(),
    }
}

/// The directives that are asked for, for the live system.
spec fn asked_directives(common: CommonView) -> Seq<DirectiveView> {
    cas_of(common.ignition_ca) + hooks_of(Hook::Pre, common.pre_install) + hooks_of(
        Hook::Post,
        common.post_install,
    ) + configs_of(0, common.installer_config) + merges_of(common.live_ignition)
}

/// Whether everything that is asked for is there and can be used.
spec fn all_usable(common: CommonView, features: OsFeatures) -> bool {
    &&& common.network_keyfile.len() > 0 ==> features.live_initrd_network
    &&& common.installer_config.len() > 0 ==> features.installer_config
    &&& forall|i: int|
        0 <= i < common.dest_ignition.len() ==> (#[trigger] common.dest_ignition[i]).data is Ok
            && ignition::ignition_warnings(data_of(common.dest_ignition[i])) is Some
    &&& forall|i: int|
        0 <= i < common.network_keyfile.len() ==> (#[trigger] common.network_keyfile[i]).data is Ok
            && text::file_name(common.network_keyfile[i].path) is Some
    &&& forall|i: int, j: int|
        0 <= i < j < common.network_keyfile.len() ==> keyfile_place(
            #[trigger] common.network_keyfile[i],
        ) != keyfile_place(#[trigger] common.network_keyfile[j])
    &&& forall|i: int|
        0 <= i < common.ignition_ca.len() ==> (#[trigger] common.ignition_ca[i]).data is Ok
    &&& forall|i: int|
        0 <= i < common.pre_install.len() ==> (#[trigger] common.pre_install[i]).data is Ok
            && text::file_name(common.pre_install[i].path) is Some
    &&& forall|i: int|
        0 <= i < common.post_install.len() ==> (#[trigger] common.post_install[i]).data is Ok
            && text::file_name(common.post_install[i].path) is Some
    &&& forall|i: int|
        0 <= i < common.installer_config.len() ==> {
            &&& (#[trigger] common.installer_config[i]).file.data is Ok
            &&& common.installer_config[i].parsed is Ok
            &&& text::file_name(common.installer_config[i].file.path) is Some
        }
    &&& forall|i: int|
        0 <= i < common.live_ignition.len() ==> (#[trigger] common.live_ignition[i]).data is Ok
            && ignition::ignition_warnings(data_of(common.live_ignition[i])) is Some
}

/// Whether the files of an initramfs are those of a list of network settings.
spec fn holds_keyfiles(files: Map<Seq<char>, Seq<u8>>, keyfiles: Seq<InputView>) -> bool {
    &&& forall|i: int|
        0 <= i < keyfiles.len() ==> {
            &&& files.contains_key(keyfile_place(#[trigger] keyfiles[i]))
            &&& files[keyfile_place(keyfiles[i])] == data_of(keyfiles[i])
        }
    &&& forall|path: Seq<char>| #[trigger]
        files.contains_key(path) ==> exists|i: int|
            0 <= i < keyfiles.len() && path == keyfile_place(#[trigger] keyfiles[i])
}

/// The customisation that common customisations lead to.
proof fn lemma_applied<A: Fn(&Ignition, &Directive) -> Result<(), String>>(
    common: CommonView,
    features: OsFeatures,
    accept: A,
    p: Progress,
)
    requires
        customize::common_applied(customize::untouched(features), common, accept, p),
        p.refusal is None,
        common.installer_config.len() <= u32::MAX,
    ensures
        all_usable(common, features),
        holds_keyfiles(p.live.files, common.network_keyfile),
        p.live == (LiveView {
            features,
            files: p.live.files,
            live: asked_directives(common),
            dest: None,
            user_dest: datas_of(common.dest_ignition),
            installer: asked_parameters(common),
            installer_copy_network: common.network_keyfile.len() > 0,
            dest_ca: datas_of(common.ignition_ca),
            installer_serial: common.installer_config.len() as u32,
            notices: warnings_of(common.dest_ignition).flatten_alt() + device_notice(common)
                + warnings_of(common.live_ignition).flatten_alt(),
        }),
{
    let v = customize::untouched(features);
    let s = choose|s: Stages| #[trigger]
        customize::goes_through(v, common, accept, s) && p == s.live;
    let set = s.dest.and_step(Ok(customize::parameters_set(s.dest.live, common)));
    let merges = common.live_ignition;
    let post = common.post_install;
    let pre = common.pre_install;
    let cas = common.ignition_ca;
    let keyfiles = common.network_keyfile;
    change_laws::lemma_files_once(FileUse::LiveIgnition, s.installer, merges, accept, p, p);
    change_laws::lemma_configs_once(
        s.post,
        common.installer_config,
        accept,
        s.installer,
        s.installer,
    );
    change_laws::lemma_files_once(FileUse::PostInstall, s.pre, post, accept, s.post, s.post);
    change_laws::lemma_files_once(FileUse::PreInstall, s.ca, pre, accept, s.pre, s.pre);
    change_laws::lemma_files_once(FileUse::IgnitionCa, s.network, cas, accept, s.ca, s.ca);
    change_laws::lemma_files_once(
        FileUse::NetworkKeyfile,
        set,
        keyfiles,
        accept,
        s.network,
        s.network,
    );
    assert(s.dest == customize::reached(s.dest.live));
    assert(set == customize::reached(set.live));
    assert(s.network == customize::reached(s.network.live));
    assert(s.ca == customize::reached(s.ca.live));
    assert(s.pre == customize::reached(s.pre.live));
    assert(s.post == customize::reached(s.post.live));
    assert(s.installer == customize::reached(s.installer.live));
    lemma_dest_used(v, common.dest_ignition, accept, s.dest);
    let with_device = match common.dest_device {
        Some(device) => customize::dest_device_step(s.dest.live, device),
        None => s.dest.live,
    };
    lemma_kargs_set(with_device, common.dest_karg_append, common.dest_karg_delete);
    lemma_network_used(set.live, keyfiles, accept, s.network);
    lemma_cas_used(s.network.live, cas, accept, s.ca);
    lemma_hooks_used(FileUse::PreInstall, Hook::Pre, s.ca.live, pre, accept, s.pre);
    lemma_hooks_used(FileUse::PostInstall, Hook::Post, s.pre.live, post, accept, s.post);
    lemma_configs_used(s.post.live, common.installer_config, accept, s.installer);
    lemma_live_used(s.installer.live, merges, accept, p);
    // put together
    let none = Seq::<Seq<char>>::empty();
    assert(none + common.dest_karg_append =~= common.dest_karg_append);
    assert(none + common.dest_karg_delete =~= common.dest_karg_delete);
    assert(Seq::<Seq<u8>>::empty() + datas_of(common.dest_ignition) =~= datas_of(
        common.dest_ignition,
    ));
    assert(Seq::<Seq<u8>>::empty() + datas_of(cas) =~= datas_of(cas));
    assert(p.live.live =~= asked_directives(common));
    assert(p.live.installer =~= asked_parameters(common));
    assert(p.live.notices =~= warnings_of(common.dest_ignition).flatten_alt() + device_notice(
        common,
    ) + warnings_of(common.live_ignition).flatten_alt());
    assert forall|path: Seq<char>| #[trigger] p.live.files.contains_key(path) implies exists|i: int|
        0 <= i < keyfiles.len() && path == keyfile_place(#[trigger] keyfiles[i]) by {
        assert(!v.files.contains_key(path));
        assert(s.network.live.files.contains_key(path));
    }
}

/// The directives of a config of ours for the destination system.
spec fn dest_directives(common: CommonView) -> Seq<DirectiveView> {
    cas_of(common.ignition_ca) + merges_of(common.dest_ignition)
}

/// Whether a config of ours that was written to `bytes` has given directives.
spec fn written_as<B: Fn(&Ignition) -> Result<Vec<u8>, String>>(
    directives: Seq<DirectiveView>,
    to_bytes: B,
    bytes: Seq<u8>,
) -> bool {
    exists|config: &Ignition, out: Result<Vec<u8>, String>|
        {
            &&& config@ == directives
            &&& #[trigger] call_ensures(to_bytes, (config,), out)
            &&& out matches Ok(b) && b@ == bytes
        }
}

/// What the Ignition config for the destination system adds to the customisation
/// that common customisations lead to.
proof fn lemma_dest_part<
    A: Fn(&Ignition, &Directive) -> Result<(), String>,
    B: Fn(&Ignition) -> Result<Vec<u8>, String>,
>(common: CommonView, v: LiveView, accept: A, to_bytes: B, d: LiveView) -> (data: Seq<u8>)
    requires
        v.dest is None,
        v.user_dest == datas_of(common.dest_ignition),
        v.dest_ca == datas_of(common.ignition_ca),
        compose::with_dest(v, accept, to_bytes, Ok(d)),
    ensures
        common.dest_ignition.len() == 0 ==> d == v,
        common.dest_ignition.len() > 0 ==> d == (LiveView {
            live: v.live.push(
                DirectiveView::File { path: "/etc/coreos/dest.ign"@, data, mode: 0o600 },
            ),
            installer: Some(
                InstallView {
                    ignition_file: Some("/etc/coreos/dest.ign"@),
                    ..customize::parameters(v.installer)
                },
            ),
            ..v
        }),
        common.dest_ignition.len() == 1 && common.ignition_ca.len() == 0 ==> (
        ignition::ignition_json(data_of(common.dest_ignition[0])) matches Some(json) && data
            == json.push(10)),
        common.dest_ignition.len() > 1 || (common.dest_ignition.len() == 1
            && common.ignition_ca.len() > 0) ==> written_as(
            dest_directives(common),
            to_bytes,
            data,
        ),
{
    if common.dest_ignition.len() == 0 {
        Seq::empty()
    } else {
        let document = compose::dest_document(v)->0;
        let encoded = choose|data: Result<Seq<u8>, Refusal>| #[trigger]
            compose::dest_encoded(document, accept, to_bytes, data) && match data {
                Ok(data) => compose::dest_embedded(v, data, accept, Ok(d)),
                Err(e) => Ok::<LiveView, Refusal>(d) == Err::<LiveView, Refusal>(e),
            };
        let data = encoded->Ok_0;
        match document {
            DestView::User { source } => {},
            DestView::Own { config, additions } => {
                let complete = choose|complete: Result<Seq<DirectiveView>, Seq<char>>| #[trigger]
                    ignition::directives_added(config, additions, accept, complete)
                        && match complete {
                        Ok(directives) => compose::ignition_encoded(directives, to_bytes, encoded),
                        Err(reason) => encoded == Err::<Seq<u8>, Refusal>(
                            Refusal::AddDirective { reason },
                        ),
                    };
                let all = complete->Ok_0;
                change_laws::lemma_added_once(config, additions, accept, all);
                assert(all =~= dest_directives(common));
                let (c, out) = choose|c: &Ignition, out: Result<Vec<u8>, String>|
                    {
                        &&& c@ == all
                        &&& #[trigger] call_ensures(to_bytes, (c,), out)
                        &&& encoded == compose::encoding_outcome(out)
                    };
                assert(call_ensures(to_bytes, (c,), out));
                assert(written_as(dest_directives(common), to_bytes, data));
            },
        }
        data
    }
}

/// Whether installer parameters were written to `bytes`.
spec fn parameters_as<Y: Fn(&InstallConfig) -> Result<Vec<u8>, String>>(
    parameters: InstallView,
    to_yaml: Y,
    bytes: Seq<u8>,
) -> bool {
    exists|config: &InstallConfig, out: Result<Vec<u8>, String>|
        {
            &&& config@ == parameters
            &&& #[trigger] call_ensures(to_yaml, (config,), out)
            &&& out matches Ok(b) && b@ == bytes
        }
}

/// What the parameters of the installer add to a customisation.
proof fn lemma_parameters_part<
    A: Fn(&Ignition, &Directive) -> Result<(), String>,
    Y: Fn(&InstallConfig) -> Result<Vec<u8>, String>,
>(d: LiveView, accept: A, to_yaml: Y, w: LiveView) -> (yaml: Seq<u8>)
    requires
        compose::with_installer(d, accept, to_yaml, Ok(w)),
    ensures
        w.files == d.files,
        compose::final_parameters(d) is None ==> w.live == d.live,
        compose::final_parameters(d) matches Some(parameters) ==> {
            &&& d.features.installer_config
            &&& w.live == d.live.push(
                DirectiveView::File {
                    path: customize::installer_config_path(d.installer_serial, "customize.yaml"@),
                    data: yaml,
                    mode: 0o600,
                },
            )
            &&& parameters_as(parameters, to_yaml, yaml)
        },
{
    if compose::final_parameters(d) is None {
        Seq::empty()
    } else {
        let rest = LiveView { installer: None, ..d };
        let (config, out) = choose|config: &InstallConfig, out: Result<Vec<u8>, String>|
            {
                &&& config@ == compose::final_parameters(d)->0
                &&& #[trigger] call_ensures(to_yaml, (config,), out)
                &&& compose::parameters_added(rest, out, accept, Ok(w))
            };
        assert(call_ensures(to_yaml, (config,), out));
        out->Ok_0@
    }
}

/// Where the files of scripts lie.
proof fn lemma_hook_places(name: Seq<char>)
    ensures
        hook::hook_script_path(Hook::Pre, name) == "/usr/local/bin/pre-install-"@ + name,
        hook::hook_script_path(Hook::Post, name) == "/usr/local/bin/post-install-"@ + name,
        hook::hook_unit_name(Hook::Pre, name) == "pre-install-"@ + name + ".service"@,
        hook::hook_unit_name(Hook::Post, name) == "post-install-"@ + name + ".service"@,
{
    reveal_strlit("/usr/local/bin/");
    reveal_strlit("pre");
    reveal_strlit("post");
    reveal_strlit("-install-");
    reveal_strlit("/usr/local/bin/pre-install-");
    reveal_strlit("/usr/local/bin/post-install-");
    reveal_strlit("pre-install-");
    reveal_strlit("post-install-");
    reveal_strlit(".service");
    assert(hook::hook_script_path(Hook::Pre, name) =~= "/usr/local/bin/pre-install-"@ + name);
    assert(hook::hook_script_path(Hook::Post, name) =~= "/usr/local/bin/post-install-"@ + name);
    assert(hook::hook_unit_name(Hook::Pre, name) =~= "pre-install-"@ + name + ".service"@);
    assert(hook::hook_unit_name(Hook::Post, name) =~= "post-install-"@ + name + ".service"@);
}

/// Where the parameters of the installer lie.
proof fn lemma_parameters_place(serial: u32)
    ensures
        customize::installer_config_path(serial, "customize.yaml"@) == "/etc/coreos/installer.d/"@
            + text::zero_padded(text::decimal(serial as nat), 4) + "-customize.yaml"@,
{
    reveal_strlit("-");
    reveal_strlit("customize.yaml");
    reveal_strlit("-customize.yaml");
    assert("-"@ + "customize.yaml"@ =~= "-customize.yaml"@);
    let start = "/etc/coreos/installer.d/"@ + text::zero_padded(text::decimal(serial as nat), 4);
    assert(start + "-"@ + "customize.yaml"@ =~= start + "-customize.yaml"@);
}

/// Where network settings lie.
proof fn lemma_keyfile_place(name: Seq<char>)
    ensures
        iso_config::keyfile_path(name) == "etc/coreos-firstboot-network/"@ + name,
{
    reveal_strlit("etc/coreos-firstboot-network");
    reveal_strlit("/");
    reveal_strlit("etc/coreos-firstboot-network/");
    assert(iso_config::keyfile_path(name) =~= "etc/coreos-firstboot-network/"@ + name);
}

/// Where the Ignition config of an initramfs lies.
proof fn lemma_not_a_keyfile(name: Seq<char>)
    ensures
        "config.ign"@ != "etc/coreos-firstboot-network/"@ + name,
{
    reveal_strlit("config.ign");
    reveal_strlit("etc/coreos-firstboot-network/");
    let path = "etc/coreos-firstboot-network/"@ + name;
    assert(path[0] == 'e');
}

/// The initramfs that a customisation becomes holds each of the network settings
/// that were asked for, under its file name, and beside them an Ignition config and
/// nothing else. All of them were read and have a name of their own, and the OS
/// supports network settings if there are any.
pub proof fn law_keyfiles_in_initramfs<
    A: Fn(&Ignition, &Directive) -> Result<(), String>,
    B: Fn(&Ignition) -> Result<Vec<u8>, String>,
    Y: Fn(&InstallConfig) -> Result<Vec<u8>, String>,
>(
    common: CommonCustomizeConfig,
    features: OsFeatures,
    accept: A,
    to_bytes: B,
    to_yaml: Y,
    issued: Seq<NoticeView>,
    files: Map<Seq<char>, Seq<u8>>,
)
    requires
        common.installer_config@.len() < u32::MAX,
        customize_commands::live_initrd_made(
            common@,
            features,
            accept,
            to_bytes,
            to_yaml,
            issued,
            Ok(files),
        ),
    ensures
        common.network_keyfile@.len() > 0 ==> features.live_initrd_network,
        files.contains_key("config.ign"@),
        forall|i: int|
            0 <= i < common.network_keyfile@.len() ==> {
                &&& (#[trigger] common.network_keyfile@[i]).data is Ok
                &&& text::file_name(common.network_keyfile@[i].path@) is Some
                &&& files.contains_key(
                    "etc/coreos-firstboot-network/"@ + text::file_name(
                        common.network_keyfile@[i].path@,
                    )->0,
                )
                &&& files["etc/coreos-firstboot-network/"@ + text::file_name(
                    common.network_keyfile@[i].path@,
                )->0] == common.network_keyfile@[i].data->Ok_0@
            },
        forall|i: int, j: int|
            0 <= i < j < common.network_keyfile@.len() ==> text::file_name(
                (#[trigger] common.network_keyfile@[i]).path@,
            ) != text::file_name((#[trigger] common.network_keyfile@[j]).path@),
        forall|path: Seq<char>| #[trigger]
            files.contains_key(path) ==> path == "config.ign"@ || exists|i: int|
                0 <= i < common.network_keyfile@.len() && path == "etc/coreos-firstboot-network/"@
                    + text::file_name((#[trigger] common.network_keyfile@[i]).path@)->0,
{
    let p = command_laws::lemma_made_from(
        common@,
        features,
        accept,
        to_bytes,
        to_yaml,
        issued,
        files,
    );
    lemma_applied(common@, features, accept, p);
    let (d, w, bytes) = change_laws::lemma_made_steps(
        customize::told(p.live),
        accept,
        to_bytes,
        to_yaml,
        files,
    );
    let data = lemma_dest_part(common@, customize::told(p.live), accept, to_bytes, d);
    let yaml = lemma_parameters_part(d, accept, to_yaml, w);
    assert(w.files == p.live.files);
    let keyfiles = common.network_keyfile@;
    let views = common@.network_keyfile;
    assert forall|i: int| 0 <= i < keyfiles.len() implies {
        &&& (#[trigger] keyfiles[i]).data is Ok
        &&& text::file_name(keyfiles[i].path@) is Some
        &&& files.contains_key(
            "etc/coreos-firstboot-network/"@ + text::file_name(keyfiles[i].path@)->0,
        )
        &&& files["etc/coreos-firstboot-network/"@ + text::file_name(keyfiles[i].path@)->0]
            == keyfiles[i].data->Ok_0@
    } by {
        assert(views[i] == keyfiles[i]@);
        lemma_keyfile_place(name_of(views[i]));
        lemma_not_a_keyfile(name_of(views[i]));
    }
    assert forall|i: int, j: int| 0 <= i < j < keyfiles.len() implies text::file_name(
        (#[trigger] keyfiles[i]).path@,
    ) != text::file_name((#[trigger] keyfiles[j]).path@) by {
        assert(views[i] == keyfiles[i]@);
        assert(views[j] == keyfiles[j]@);
        assert(keyfile_place(views[i]) != keyfile_place(views[j]));
    }
    assert forall|path: Seq<char>| #[trigger] files.contains_key(path) implies path
        == "config.ign"@ || exists|i: int|
        0 <= i < keyfiles.len() && path == "etc/coreos-firstboot-network/"@ + text::file_name(
            (#[trigger] keyfiles[i]).path@,
        )->0 by {
        if path != "config.ign"@ {
            assert(p.live.files.contains_key(path));
            let i = choose|i: int|
                0 <= i < views.len() && path == keyfile_place(#[trigger] views[i]);
            assert(views[i] == keyfiles[i]@);
            lemma_keyfile_place(name_of(views[i]));
            assert(path == "etc/coreos-firstboot-network/"@ + text::file_name(
                keyfiles[i].path@,
            )->0);
        }
    }
}

/// The directives that are asked for, one by one.
proof fn lemma_asked(
    common: CommonCustomizeConfig,
    features: OsFeatures,
    live: Seq<DirectiveView>,
)
    requires
        all_usable(common@, features),
        live == asked_directives(common@),
        common.installer_config@.len() < u32::MAX,
    ensures
        ({
            let ca = common.ignition_ca@;
            let pre = common.pre_install@;
            let post = common.post_install@;
            let configs = common.installer_config@;
            let own = common.live_ignition@;
            let at_post = ca.len() + 2 * pre.len();
            let at_configs = at_post + 2 * post.len();
            let at_own = at_configs + configs.len();
            &&& live.len() == at_own + own.len()
            &&& forall|i: int|
                0 <= i < ca.len() ==> live[i] == (DirectiveView::Ca {
                    certificate: (#[trigger] ca[i]).data->Ok_0@,
                })
            &&& forall|i: int|
                0 <= i < pre.len() ==> {
                    &&& live[ca.len() + 2 * i] == (DirectiveView::File {
                        path: "/usr/local/bin/pre-install-"@ + text::file_name(
                            (#[trigger] pre[i]).path@,
                        )->0,
                        data: pre[i].data->Ok_0@,
                        mode: 0o700,
                    })
                    &&& live[ca.len() + 2 * i + 1] == (DirectiveView::Unit {
                        name: "pre-install-"@ + text::file_name(pre[i].path@)->0 + ".service"@,
                        contents: hook::hook_unit(Hook::Pre, text::file_name(pre[i].path@)->0),
                        enabled: true,
                    })
                }
            &&& forall|i: int|
                0 <= i < post.len() ==> {
                    &&& live[at_post + 2 * i] == (DirectiveView::File {
                        path: "/usr/local/bin/post-install-"@ + text::file_name(
                            (#[trigger] post[i]).path@,
                        )->0,
                        data: post[i].data->Ok_0@,
                        mode: 0o700,
                    })
                    &&& live[at_post + 2 * i + 1] == (DirectiveView::Unit {
                        name: "post-install-"@ + text::file_name(post[i].path@)->0 + ".service"@,
                        contents: hook::hook_unit(Hook::Post, text::file_name(post[i].path@)->0),
                        enabled: true,
                    })
                }
            &&& forall|i: int|
                0 <= i < configs.len() ==> live[at_configs + i] == (DirectiveView::File {
                    path: "/etc/coreos/installer.d/"@ + text::zero_padded(
                        text::decimal(i as nat),
                        4,
                    ) + "-"@ + text::file_name((#[trigger] configs[i]).file.path@)->0,
                    data: configs[i].file.data->Ok_0@,
                    mode: 0o600,
                })
            &&& forall|i: int|
                0 <= i < own.len() ==> live[at_own + i] == (DirectiveView::Merge {
                    source: (#[trigger] own[i]).data->Ok_0@,
                })
        }),
{
    let ca = common.ignition_ca@;
    let pre = common.pre_install@;
    let post = common.post_install@;
    let configs = common.installer_config@;
    let own = common.live_ignition@;
    let at_post = ca.len() + 2 * pre.len();
    let at_configs = at_post + 2 * post.len();
    let at_own = at_configs + configs.len();
    assert forall|i: int| 0 <= i < ca.len() implies live[i] == (DirectiveView::Ca {
        certificate: (#[trigger] ca[i]).data->Ok_0@,
    }) by {
        assert(common@.ignition_ca[i] == ca[i]@);
        assert(live[i] == cas_of(common@.ignition_ca)[i]);
    }
    assert forall|i: int| 0 <= i < pre.len() implies {
        &&& live[ca.len() + 2 * i] == (DirectiveView::File {
            path: "/usr/local/bin/pre-install-"@ + text::file_name((#[trigger] pre[i]).path@)->0,
            data: pre[i].data->Ok_0@,
            mode: 0o700,
        })
        &&& live[ca.len() + 2 * i + 1] == (DirectiveView::Unit {
            name: "pre-install-"@ + text::file_name(pre[i].path@)->0 + ".service"@,
            contents: hook::hook_unit(Hook::Pre, text::file_name(pre[i].path@)->0),
            enabled: true,
        })
    } by {
        let view = common@.pre_install[i];
        assert(view == pre[i]@);
        lemma_hook_places(name_of(view));
        lemma_even(i);
        let hooks = hooks_of(Hook::Pre, common@.pre_install);
        assert(live[ca.len() + 2 * i] == hooks[2 * i]);
        assert(live[ca.len() + 2 * i + 1] == hooks[2 * i + 1]);
    }
    assert forall|i: int| 0 <= i < post.len() implies {
        &&& live[at_post + 2 * i] == (DirectiveView::File {
            path: "/usr/local/bin/post-install-"@ + text::file_name((#[trigger] post[i]).path@)->0,
            data: post[i].data->Ok_0@,
            mode: 0o700,
        })
        &&& live[at_post + 2 * i + 1] == (DirectiveView::Unit {
            name: "post-install-"@ + text::file_name(post[i].path@)->0 + ".service"@,
            contents: hook::hook_unit(Hook::Post, text::file_name(post[i].path@)->0),
            enabled: true,
        })
    } by {
        let view = common@.post_install[i];
        assert(view == post[i]@);
        lemma_hook_places(name_of(view));
        lemma_even(i);
        let hooks = hooks_of(Hook::Post, common@.post_install);
        assert(live[at_post + 2 * i] == hooks[2 * i]);
        assert(live[at_post + 2 * i + 1] == hooks[2 * i + 1]);
    }
    assert forall|i: int| 0 <= i < configs.len() implies live[at_configs + i] == (
    DirectiveView::File {
        path: "/etc/coreos/installer.d/"@ + text::zero_padded(text::decimal(i as nat), 4) + "-"@
            + text::file_name((#[trigger] configs[i]).file.path@)->0,
        data: configs[i].file.data->Ok_0@,
        mode: 0o600,
    }) by {
        assert(common@.installer_config[i] == configs[i]@);
        assert(live[at_configs + i] == configs_of(0, common@.installer_config)[i]);
    }
    assert forall|i: int| 0 <= i < own.len() implies live[at_own + i] == (DirectiveView::Merge {
        source: (#[trigger] own[i]).data->Ok_0@,
    }) by {
        assert(common@.live_ignition[i] == own[i]@);
        assert(live[at_own + i] == merges_of(common@.live_ignition)[i]);
    }
}

/// Lists of texts that are the same are so text by text.
proof fn lemma_same_texts(a: Seq<String>, b: Seq<String>)
    requires
        text::texts(a) == text::texts(b),
    ensures
        a.len() == b.len(),
        forall|i: int| 0 <= i < a.len() ==> (#[trigger] a[i])@ == b[i]@,
{
    assert(text::texts(a).len() == a.len());
    assert(text::texts(b).len() == b.len());
    assert forall|i: int| 0 <= i < a.len() implies (#[trigger] a[i])@ == b[i]@ by {
        assert(text::texts(a)[i] == a[i]@);
        assert(text::texts(b)[i] == b[i]@);
    }
}

/// The parameters of the installer, one by one.
proof fn lemma_parameters_asked<Y: Fn(&InstallConfig) -> Result<Vec<u8>, String>>(
    common: CommonCustomizeConfig,
    parameters: InstallView,
    to_yaml: Y,
    yaml: Seq<u8>,
)
    requires
        parameters_as(parameters, to_yaml, yaml),
        parameters.dest_device == common@.dest_device,
        parameters.append_karg == common@.dest_karg_append,
        parameters.delete_karg == common@.dest_karg_delete,
        parameters.copy_network == (common.network_keyfile@.len() > 0),
        parameters.ignition_file == if common.dest_ignition@.len() > 0 {
            Some("/etc/coreos/dest.ign"@)
        } else {
            None
        },
    ensures
        exists|config: &InstallConfig, out: Result<Vec<u8>, String>|
            {
                &&& #[trigger] call_ensures(to_yaml, (config,), out)
                &&& out matches Ok(b) && b@ == yaml
                &&& match (config.dest_device, common.dest_device) {
                    (Some(a), Some(b)) => a@ == b@,
                    (None, None) => true,
                    _ => false,
                }
                &&& config.append_karg@.len() == common.dest_karg_append@.len()
                &&& forall|i: int|
                    0 <= i < config.append_karg@.len() ==> (#[trigger] config.append_karg@[i])@
                        == common.dest_karg_append@[i]@
                &&& config.delete_karg@.len() == common.dest_karg_delete@.len()
                &&& forall|i: int|
                    0 <= i < config.delete_karg@.len() ==> (#[trigger] config.delete_karg@[i])@
                        == common.dest_karg_delete@[i]@
                &&& config.copy_network == (common.network_keyfile@.len() > 0)
                &&& match config.ignition_file {
                    Some(path) => common.dest_ignition@.len() > 0 && path@
                        == "/etc/coreos/dest.ign"@,
                    None => common.dest_ignition@.len() == 0,
                }
            },
{
    let (config, out) = choose|config: &InstallConfig, out: Result<Vec<u8>, String>|
        {
            &&& config@ == parameters
            &&& #[trigger] call_ensures(to_yaml, (config,), out)
            &&& out matches Ok(b) && b@ == yaml
        };
    lemma_same_texts(config.append_karg@, common.dest_karg_append@);
    lemma_same_texts(config.delete_karg@, common.dest_karg_delete@);
    assert(call_ensures(to_yaml, (config,), out));
}

/// The directives of a config of ours for the destination system, one by one.
proof fn lemma_dest_asked<B: Fn(&Ignition) -> Result<Vec<u8>, String>>(
    common: CommonCustomizeConfig,
    features: OsFeatures,
    to_bytes: B,
    data: Seq<u8>,
)
    requires
        all_usable(common@, features),
        written_as(dest_directives(common@), to_bytes, data),
    ensures
        ({
            let ca = common.ignition_ca@;
            let dest = common.dest_ignition@;
            exists|config: &Ignition, out: Result<Vec<u8>, String>|
                {
                    &&& #[trigger] call_ensures(to_bytes, (config,), out)
                    &&& out matches Ok(b) && b@ == data
                    &&& config@.len() == ca.len() + dest.len()
                    &&& forall|i: int|
                        0 <= i < ca.len() ==> config@[i] == (DirectiveView::Ca {
                            certificate: (#[trigger] ca[i]).data->Ok_0@,
                        })
                    &&& forall|j: int|
                        0 <= j < dest.len() ==> config@[ca.len() + j] == (DirectiveView::Merge {
                            source: (#[trigger] dest[j]).data->Ok_0@,
                        })
                }
        }),
{
    let ca = common.ignition_ca@;
    let dest = common.dest_ignition@;
    let directives = dest_directives(common@);
    let (config, out) = choose|config: &Ignition, out: Result<Vec<u8>, String>|
        {
            &&& config@ == directives
            &&& #[trigger] call_ensures(to_bytes, (config,), out)
            &&& out matches Ok(b) && b@ == data
        };
    assert forall|i: int| 0 <= i < ca.len() implies config@[i] == (DirectiveView::Ca {
        certificate: (#[trigger] ca[i]).data->Ok_0@,
    }) by {
        assert(common@.ignition_ca[i] == ca[i]@);
        assert(directives[i] == cas_of(common@.ignition_ca)[i]);
    }
    assert forall|j: int| 0 <= j < dest.len() implies config@[ca.len() + j] == (
    DirectiveView::Merge { source: (#[trigger] dest[j]).data->Ok_0@ }) by {
        assert(common@.dest_ignition[j] == dest[j]@);
        assert(directives[ca.len() + j] == merges_of(common@.dest_ignition)[j]);
    }
    assert(call_ensures(to_bytes, (config,), out));
}

/// The initramfs that a customisation becomes has an Ignition config that puts all
/// that was asked for into the live system, each file with its own contents and in
/// the order that it was named in: the certificate authorities, the scripts with
/// their units, the installer configs by number, the configs to be merged, the
/// config for the destination system, and the parameters of the installer.
///
/// The result is that Ignition config, by its directives, the config for the
/// destination system and the encoded parameters of the installer.
#[verifier::rlimit(40)]
#[verifier::spinoff_prover]
pub proof fn law_customisation_contents<
    A: Fn(&Ignition, &Directive) -> Result<(), String>,
    B: Fn(&Ignition) -> Result<Vec<u8>, String>,
    Y: Fn(&InstallConfig) -> Result<Vec<u8>, String>,
>(
    common: CommonCustomizeConfig,
    features: OsFeatures,
    accept: A,
    to_bytes: B,
    to_yaml: Y,
    issued: Seq<NoticeView>,
    files: Map<Seq<char>, Seq<u8>>,
) -> (made: (Seq<DirectiveView>, Seq<u8>, Seq<u8>))
    requires
        common.installer_config@.len() < u32::MAX,
        customize_commands::live_initrd_made(
            common@,
            features,
            accept,
            to_bytes,
            to_yaml,
            issued,
            Ok(files),
        ),
    ensures
        // the Ignition config of the live system is written to the initramfs
        exists|config: &Ignition, out: Result<Vec<u8>, String>|
            {
                &&& config@ == made.0
                &&& #[trigger] call_ensures(to_bytes, (config,), out)
                &&& out matches Ok(b) && b@ == files["config.ign"@]
            },
        // it asks for all that was asked for, and in this order
        ({
            let live = made.0;
            let ca = common.ignition_ca@;
            let pre = common.pre_install@;
            let post = common.post_install@;
            let configs = common.installer_config@;
            let own = common.live_ignition@;
            let dest = common.dest_ignition@;
            let at_post = ca.len() + 2 * pre.len();
            let at_configs = at_post + 2 * post.len();
            let at_own = at_configs + configs.len();
            let at_dest = at_own + own.len();
            let at_parameters = if dest.len() > 0 {
                at_dest + 1
            } else {
                at_dest
            };
            let installs = common.dest_device is Some || common.dest_karg_append@.len() > 0
                || common.dest_karg_delete@.len() > 0 || dest.len() > 0 || (
            common.network_keyfile@.len() > 0 && configs.len() > 0);
            &&& live.len() == if installs {
                at_parameters + 1
            } else {
                at_parameters
            }
            &&& forall|i: int|
                0 <= i < ca.len() ==> live[i] == (DirectiveView::Ca {
                    certificate: (#[trigger] ca[i]).data->Ok_0@,
                })
            &&& forall|i: int|
                0 <= i < pre.len() ==> {
                    &&& live[ca.len() + 2 * i] == (DirectiveView::File {
                        path: "/usr/local/bin/pre-install-"@ + text::file_name(
                            (#[trigger] pre[i]).path@,
                        )->0,
                        data: pre[i].data->Ok_0@,
                        mode: 0o700,
                    })
                    &&& live[ca.len() + 2 * i + 1] == (DirectiveView::Unit {
                        name: "pre-install-"@ + text::file_name(pre[i].path@)->0 + ".service"@,
                        contents: hook::hook_unit(Hook::Pre, text::file_name(pre[i].path@)->0),
                        enabled: true,
                    })
                }
            &&& forall|i: int|
                0 <= i < post.len() ==> {
                    &&& live[at_post + 2 * i] == (DirectiveView::File {
                        path: "/usr/local/bin/post-install-"@ + text::file_name(
                            (#[trigger] post[i]).path@,
                        )->0,
                        data: post[i].data->Ok_0@,
                        mode: 0o700,
                    })
                    &&& live[at_post + 2 * i + 1] == (DirectiveView::Unit {
                        name: "post-install-"@ + text::file_name(post[i].path@)->0 + ".service"@,
                        contents: hook::hook_unit(Hook::Post, text::file_name(post[i].path@)->0),
                        enabled: true,
                    })
                }
            &&& forall|i: int|
                0 <= i < configs.len() ==> live[at_configs + i] == (DirectiveView::File {
                    path: "/etc/coreos/installer.d/"@ + text::zero_padded(
                        text::decimal(i as nat),
                        4,
                    ) + "-"@ + text::file_name((#[trigger] configs[i]).file.path@)->0,
                    data: configs[i].file.data->Ok_0@,
                    mode: 0o600,
                })
            &&& forall|i: int|
                0 <= i < own.len() ==> live[at_own + i] == (DirectiveView::Merge {
                    source: (#[trigger] own[i]).data->Ok_0@,
                })
            &&& dest.len() > 0 ==> live[at_dest as int] == (DirectiveView::File {
                path: "/etc/coreos/dest.ign"@,
                data: made.1,
                mode: 0o600,
            })
            &&& installs ==> live[at_parameters as int] == (DirectiveView::File {
                path: "/etc/coreos/installer.d/"@ + text::zero_padded(
                    text::decimal(configs.len()),
                    4,
                ) + "-customize.yaml"@,
                data: made.2,
                mode: 0o600,
            })
            // the parameters of the installer are those that were asked for
            &&& installs ==> features.installer_config && exists|
                config: &InstallConfig,
                out: Result<Vec<u8>, String>,
            |
                {
                    &&& #[trigger] call_ensures(to_yaml, (config,), out)
                    &&& out matches Ok(b) && b@ == made.2
                    &&& match (config.dest_device, common.dest_device) {
                        (Some(a), Some(b)) => a@ == b@,
                        (None, None) => true,
                        _ => false,
                    }
                    &&& config.append_karg@.len() == common.dest_karg_append@.len()
                    &&& forall|i: int|
                        0 <= i < config.append_karg@.len() ==> (
                        #[trigger] config.append_karg@[i])@ == common.dest_karg_append@[i]@
                    &&& config.delete_karg@.len() == common.dest_karg_delete@.len()
                    &&& forall|i: int|
                        0 <= i < config.delete_karg@.len() ==> (
                        #[trigger] config.delete_karg@[i])@ == common.dest_karg_delete@[i]@
                    &&& config.copy_network == (common.network_keyfile@.len() > 0)
                    &&& match config.ignition_file {
                        Some(path) => dest.len() > 0 && path@ == "/etc/coreos/dest.ign"@,
                        None => dest.len() == 0,
                    }
                }
            // the config of the destination system is that of the user, if it is
            // alone, and otherwise trusts each authority and merges each config
            &&& dest.len() == 1 && ca.len() == 0 ==> (ignition::ignition_json(
                dest[0].data->Ok_0@,
            ) matches Some(json) && made.1 == json.push(10))
            &&& dest.len() > 1 || (dest.len() == 1 && ca.len() > 0) ==> exists|
                config: &Ignition,
                out: Result<Vec<u8>, String>,
            |
                {
                    &&& #[trigger] call_ensures(to_bytes, (config,), out)
                    &&& out matches Ok(b) && b@ == made.1
                    &&& config@.len() == ca.len() + dest.len()
                    &&& forall|i: int|
                        0 <= i < ca.len() ==> config@[i] == (DirectiveView::Ca {
                            certificate: (#[trigger] ca[i]).data->Ok_0@,
                        })
                    &&& forall|j: int|
                        0 <= j < dest.len() ==> config@[ca.len() + j] == (DirectiveView::Merge {
                            source: (#[trigger] dest[j]).data->Ok_0@,
                        })
                }
        }),
{
    let p = command_laws::lemma_made_from(
        common@,
        features,
        accept,
        to_bytes,
        to_yaml,
        issued,
        files,
    );
    let v = customize::told(p.live);
    lemma_applied(common@, features, accept, p);
    let (d, w, bytes) = change_laws::lemma_made_steps(v, accept, to_bytes, to_yaml, files);
    let data = lemma_dest_part(common@, v, accept, to_bytes, d);
    let yaml = lemma_parameters_part(d, accept, to_yaml, w);
    let asked = asked_directives(common@);
    lemma_asked(common, features, asked);
    lemma_parameters_place(common.installer_config@.len() as u32);
    assert forall|i: int| 0 <= i < asked.len() implies #[trigger] w.live[i] == asked[i] by {}
    if asked_parameters(common@) is None {
        assert(common@.dest_karg_append =~= Seq::<Seq<char>>::empty());
        assert(common@.dest_karg_delete =~= Seq::<Seq<char>>::empty());
    }
    if compose::final_parameters(d) is Some {
        lemma_parameters_asked(common, compose::final_parameters(d)->0, to_yaml, yaml);
    }
    if common.dest_ignition@.len() > 0 {
        assert(common@.dest_ignition[0] == common.dest_ignition@[0]@);
    }
    if common.dest_ignition@.len() > 1 || (common.dest_ignition@.len() == 1
        && common.ignition_ca@.len() > 0) {
        lemma_dest_asked(common, features, to_bytes, data);
    }
    (w.live, data, yaml)
}

proof fn lemma_even(i: int)
    requires
        0 <= i,
    ensures
        (2 * i) % 2 == 0,
        (2 * i) / 2 == i,
        (2 * i + 1) % 2 == 1,
        (2 * i + 1) / 2 == i,
{
}

/// The user is told of each warning on the configs for the destination system, then
/// that a device will be overwritten, then of each warning on the configs for the
/// live system, in the order of the files and with the path of each.
pub proof fn law_customisation_notices<
    A: Fn(&Ignition, &Directive) -> Result<(), String>,
    B: Fn(&Ignition) -> Result<Vec<u8>, String>,
    Y: Fn(&InstallConfig) -> Result<Vec<u8>, String>,
>(
    common: CommonCustomizeConfig,
    features: OsFeatures,
    accept: A,
    to_bytes: B,
    to_yaml: Y,
    issued: Seq<NoticeView>,
    files: Map<Seq<char>, Seq<u8>>,
)
    requires
        common.installer_config@.len() < u32::MAX,
        customize_commands::live_initrd_made(
            common@,
            features,
            accept,
            to_bytes,
            to_yaml,
            issued,
            Ok(files),
        ),
    ensures
        ({
            let dest = common.dest_ignition@;
            let own = common.live_ignition@;
            issued == Seq::new(
                dest.len(),
                |i: int|
                    ignition::ignition_warnings(dest[i].data->Ok_0@)->0.map_values(
                        |warning: Seq<char>|
                            NoticeView::ConfigWarning { path: dest[i].path@, warning },
                    ),
            ).flatten() + (match common.dest_device {
                Some(device) => seq![NoticeView::Overwrite { device: device@ }],
                None => Seq::<NoticeView>::empty(),
            }) + Seq::new(
                own.len(),
                |i: int|
                    ignition::ignition_warnings(own[i].data->Ok_0@)->0.map_values(
                        |warning: Seq<char>|
                            NoticeView::ConfigWarning { path: own[i].path@, warning },
                    ),
            ).flatten()
        }),
{
    let p = command_laws::lemma_made_from(
        common@,
        features,
        accept,
        to_bytes,
        to_yaml,
        issued,
        files,
    );
    lemma_applied(common@, features, accept, p);
    let dest = common.dest_ignition@;
    let own = common.live_ignition@;
    let a = Seq::new(
        dest.len(),
        |i: int|
            ignition::ignition_warnings(dest[i].data->Ok_0@)->0.map_values(
                |warning: Seq<char>| NoticeView::ConfigWarning { path: dest[i].path@, warning },
            ),
    );
    let b = Seq::new(
        own.len(),
        |i: int|
            ignition::ignition_warnings(own[i].data->Ok_0@)->0.map_values(
                |warning: Seq<char>| NoticeView::ConfigWarning { path: own[i].path@, warning },
            ),
    );
    let x = warnings_of(common@.dest_ignition);
    let y = warnings_of(common@.live_ignition);
    assert forall|i: int| 0 <= i < a.len() implies a[i] == x[i] by {
        assert(common@.dest_ignition[i] == dest[i]@);
        assert(a[i] =~= x[i]);
    }
    assert forall|i: int| 0 <= i < b.len() implies b[i] == y[i] by {
        assert(common@.live_ignition[i] == own[i]@);
        assert(b[i] =~= y[i]);
    }
    assert(a =~= x);
    assert(b =~= y);
    a.lemma_flatten_and_flatten_alt_are_equivalent();
    b.lemma_flatten_and_flatten_alt_are_equivalent();
}

/// Whether an Ignition config takes every directive.
spec fn always_takes<A: Fn(&Ignition, &Directive) -> Result<(), String>>(accept: A) -> bool {
    forall|c: &Ignition, d: &Directive, out: Result<(), String>| #[trigger]
        call_ensures(accept, (c, d), out) ==> out is Ok
}

/// Whether an input file can be used, given the features of the OS.
spec fn is_usable(u: FileUse, features: OsFeatures, file: InputView) -> bool {
    &&& file.data is Ok
    &&& match u {
        FileUse::DestIgnition | FileUse::LiveIgnition => ignition::ignition_warnings(
            data_of(file),
        ) is Some,
        FileUse::NetworkKeyfile => text::file_name(file.path) is Some
            && features.live_initrd_network,
        FileUse::IgnitionCa => true,
        FileUse::PreInstall | FileUse::PostInstall => text::file_name(file.path) is Some,
    }
}

/// Files that can be used are not refused.
proof fn lemma_files_unrefused<A: Fn(&Ignition, &Directive) -> Result<(), String>>(
    u: FileUse,
    v: LiveView,
    files: Seq<InputView>,
    accept: A,
    p: Progress,
)
    requires
        always_takes(accept),
        customize::files_used(u, customize::reached(v), files, accept, p),
        forall|i: int| 0 <= i < files.len() ==> is_usable(u, v.features, #[trigger] files[i]),
        u == FileUse::NetworkKeyfile ==> {
            &&& forall|i: int, j: int|
                0 <= i < j < files.len() ==> keyfile_place(#[trigger] files[i]) != keyfile_place(
                    #[trigger] files[j],
                )
            &&& forall|i: int|
                0 <= i < files.len() ==> !v.files.contains_key(keyfile_place(#[trigger] files[i]))
        },
    ensures
        p.refusal is None,
        p.live.features == v.features,
    decreases files.len(),
{
    let start = customize::reached(v);
    let next = customize::next_file(u, accept);
    if files.len() == 0 {
        series::lemma_no_steps(start, files, next, p);
    } else {
        let before = files.drop_last();
        let last = files.last();
        let mid = series::lemma_last_step(start, files, next, p);
        assert forall|i: int| 0 <= i < before.len() implies #[trigger] before[i] == files[i] by {}
        lemma_files_unrefused(u, v, before, accept, mid);
        assert(is_usable(u, v.features, files[files.len() - 1]));
        if u == FileUse::NetworkKeyfile {
            lemma_network_used(v, before, accept, mid);
            let place = keyfile_place(last);
            if mid.live.files.contains_key(place) {
                assert(!v.files.contains_key(keyfile_place(files[files.len() - 1])));
                let i = choose|i: int|
                    0 <= i < before.len() && place == keyfile_place(#[trigger] before[i]);
                assert(keyfile_place(files[i]) != keyfile_place(files[files.len() - 1]));
            }
        }
    }
}

/// Installer configs that can be used are not refused.
proof fn lemma_configs_unrefused<A: Fn(&Ignition, &Directive) -> Result<(), String>>(
    v: LiveView,
    configs: Seq<InstallerFileView>,
    accept: A,
    p: Progress,
)
    requires
        always_takes(accept),
        customize::configs_used(customize::reached(v), configs, accept, p),
        configs.len() > 0 ==> v.features.installer_config,
        forall|i: int|
            0 <= i < configs.len() ==> {
                &&& (#[trigger] configs[i]).file.data is Ok
                &&& configs[i].parsed is Ok
                &&& text::file_name(configs[i].file.path) is Some
            },
    ensures
        p.refusal is None,
        p.live.features == v.features,
    decreases configs.len(),
{
    let start = customize::reached(v);
    let next = customize::next_config(accept);
    if configs.len() == 0 {
        series::lemma_no_steps(start, configs, next, p);
    } else {
        let before = configs.drop_last();
        let mid = series::lemma_last_step(start, configs, next, p);
        assert forall|i: int| 0 <= i < before.len() implies #[trigger] before[i]
            == configs[i] by {}
        lemma_configs_unrefused(v, before, accept, mid);
        assert(configs[configs.len() - 1].file.data is Ok);
    }
}

/// Directives that a config takes are not refused.
proof fn lemma_directives_unrefused<A: Fn(&Ignition, &Directive) -> Result<(), String>>(
    config: Seq<DirectiveView>,
    directives: Seq<DirectiveView>,
    accept: A,
    r: Result<Seq<DirectiveView>, Seq<char>>,
)
    requires
        always_takes(accept),
        ignition::directives_added(config, directives, accept, r),
    ensures
        r is Ok,
    decreases directives.len(),
{
    let start = Ok::<Seq<DirectiveView>, Seq<char>>(config);
    let next = ignition::adding_step(accept);
    if directives.len() == 0 {
        series::lemma_no_steps(start, directives, next, r);
    } else {
        let mid = series::lemma_last_step(start, directives, next, r);
        lemma_directives_unrefused(config, directives.drop_last(), accept, mid);
    }
}

/// A customisation is not refused where everything that was asked for can be used:
/// the files were read, those that need one have a name and no two network settings
/// the same, the configs were parsed, the OS supports what is asked of it, and no
/// function handed in fails.
pub proof fn law_customisation_owed<
    A: Fn(&Ignition, &Directive) -> Result<(), String>,
    B: Fn(&Ignition) -> Result<Vec<u8>, String>,
    Y: Fn(&InstallConfig) -> Result<Vec<u8>, String>,
>(
    common: CommonCustomizeConfig,
    features: OsFeatures,
    accept: A,
    to_bytes: B,
    to_yaml: Y,
    issued: Seq<NoticeView>,
    r: Result<Map<Seq<char>, Seq<u8>>, Refusal>,
)
    requires
        common.installer_config@.len() < u32::MAX,
        customize_commands::live_initrd_made(
            common@,
            features,
            accept,
            to_bytes,
            to_yaml,
            issued,
            r,
        ),
        forall|c: &Ignition, d: &Directive, out: Result<(), String>| #[trigger]
            call_ensures(accept, (c, d), out) ==> out is Ok,
        forall|c: &Ignition, out: Result<Vec<u8>, String>| #[trigger]
            call_ensures(to_bytes, (c,), out) ==> out is Ok,
        forall|c: &InstallConfig, out: Result<Vec<u8>, String>| #[trigger]
            call_ensures(to_yaml, (c,), out) ==> out is Ok,
        common.network_keyfile@.len() > 0 ==> features.live_initrd_network,
        common.installer_config@.len() > 0 || common.dest_device is Some
            || common.dest_karg_append@.len() > 0 || common.dest_karg_delete@.len() > 0
            || common.dest_ignition@.len() > 0 ==> features.installer_config,
        forall|i: int|
            0 <= i < common.dest_ignition@.len() ==> (
            #[trigger] common.dest_ignition@[i]).data is Ok && ignition::ignition_warnings(
                common.dest_ignition@[i].data->Ok_0@,
            ) is Some,
        forall|i: int|
            0 <= i < common.live_ignition@.len() ==> (
            #[trigger] common.live_ignition@[i]).data is Ok && ignition::ignition_warnings(
                common.live_ignition@[i].data->Ok_0@,
            ) is Some,
        forall|i: int|
            0 <= i < common.network_keyfile@.len() ==> (
            #[trigger] common.network_keyfile@[i]).data is Ok && text::file_name(
                common.network_keyfile@[i].path@,
            ) is Some,
        forall|i: int, j: int|
            0 <= i < j < common.network_keyfile@.len() ==> text::file_name(
                (#[trigger] common.network_keyfile@[i]).path@,
            ) != text::file_name((#[trigger] common.network_keyfile@[j]).path@),
        forall|i: int|
            0 <= i < common.ignition_ca@.len() ==> (#[trigger] common.ignition_ca@[i]).data is Ok,
        forall|i: int|
            0 <= i < common.pre_install@.len() ==> (#[trigger] common.pre_install@[i]).data is Ok
                && text::file_name(common.pre_install@[i].path@) is Some,
        forall|i: int|
            0 <= i < common.post_install@.len() ==> (#[trigger] common.post_install@[i]).data is Ok
                && text::file_name(common.post_install@[i].path@) is Some,
        forall|i: int|
            0 <= i < common.installer_config@.len() ==> {
                &&& (#[trigger] common.installer_config@[i]).file.data is Ok
                &&& common.installer_config@[i].parsed is Ok
                &&& text::file_name(common.installer_config@[i].file.path@) is Some
            },
    ensures
        r is Ok,
{
    let c = common@;
    let v = customize::untouched(features);
    let p = choose|p: Progress|
        {
            &&& #[trigger] customize::common_applied(v, c, accept, p)
            &&& issued == p.live.notices
            &&& match p.refusal {
                Some(e) => r == Err::<Map<Seq<char>, Seq<u8>>, Refusal>(e),
                None => compose::made_initrd(
                    customize::told(p.live),
                    accept,
                    to_bytes,
                    to_yaml,
                    r,
                ),
            }
        };
    let s = choose|s: Stages| #[trigger] customize::goes_through(v, c, accept, s) && p == s.live;
    // no stage is refused
    assert forall|i: int| 0 <= i < c.dest_ignition.len() implies is_usable(
        FileUse::DestIgnition,
        features,
        #[trigger] c.dest_ignition[i],
    ) by {
        assert(c.dest_ignition[i] == common.dest_ignition@[i]@);
    }
    lemma_files_unrefused(FileUse::DestIgnition, v, c.dest_ignition, accept, s.dest);
    lemma_dest_used(v, c.dest_ignition, accept, s.dest);
    let set = s.dest.and_step(Ok(customize::parameters_set(s.dest.live, c)));
    let with_device = match c.dest_device {
        Some(device) => customize::dest_device_step(s.dest.live, device),
        None => s.dest.live,
    };
    lemma_kargs_set(with_device, c.dest_karg_append, c.dest_karg_delete);
    assert(set == customize::reached(set.live));
    assert(set.live.features == features);
    let keyfiles = c.network_keyfile;
    assert forall|i: int| 0 <= i < keyfiles.len() implies is_usable(
        FileUse::NetworkKeyfile,
        features,
        #[trigger] keyfiles[i],
    ) by {
        assert(keyfiles[i] == common.network_keyfile@[i]@);
    }
    assert forall|i: int, j: int| 0 <= i < j < keyfiles.len() implies keyfile_place(
        #[trigger] keyfiles[i],
    ) != keyfile_place(#[trigger] keyfiles[j]) by {
        assert(keyfiles[i] == common.network_keyfile@[i]@);
        assert(keyfiles[j] == common.network_keyfile@[j]@);
        lemma_keyfile_apart(name_of(keyfiles[i]), name_of(keyfiles[j]));
    }
    lemma_files_unrefused(FileUse::NetworkKeyfile, set.live, keyfiles, accept, s.network);
    assert forall|i: int| 0 <= i < c.ignition_ca.len() implies is_usable(
        FileUse::IgnitionCa,
        features,
        #[trigger] c.ignition_ca[i],
    ) by {
        assert(c.ignition_ca[i] == common.ignition_ca@[i]@);
    }
    assert(s.network == customize::reached(s.network.live));
    lemma_files_unrefused(FileUse::IgnitionCa, s.network.live, c.ignition_ca, accept, s.ca);
    assert forall|i: int| 0 <= i < c.pre_install.len() implies is_usable(
        FileUse::PreInstall,
        features,
        #[trigger] c.pre_install[i],
    ) by {
        assert(c.pre_install[i] == common.pre_install@[i]@);
    }
    assert(s.ca == customize::reached(s.ca.live));
    lemma_files_unrefused(FileUse::PreInstall, s.ca.live, c.pre_install, accept, s.pre);
    assert forall|i: int| 0 <= i < c.post_install.len() implies is_usable(
        FileUse::PostInstall,
        features,
        #[trigger] c.post_install[i],
    ) by {
        assert(c.post_install[i] == common.post_install@[i]@);
    }
    assert(s.pre == customize::reached(s.pre.live));
    lemma_files_unrefused(FileUse::PostInstall, s.pre.live, c.post_install, accept, s.post);
    assert forall|i: int| 0 <= i < c.installer_config.len() implies {
        &&& (#[trigger] c.installer_config[i]).file.data is Ok
        &&& c.installer_config[i].parsed is Ok
        &&& text::file_name(c.installer_config[i].file.path) is Some
    } by {
        assert(c.installer_config[i] == common.installer_config@[i]@);
    }
    assert(s.post == customize::reached(s.post.live));
    lemma_configs_unrefused(s.post.live, c.installer_config, accept, s.installer);
    assert forall|i: int| 0 <= i < c.live_ignition.len() implies is_usable(
        FileUse::LiveIgnition,
        features,
        #[trigger] c.live_ignition[i],
    ) by {
        assert(c.live_ignition[i] == common.live_ignition@[i]@);
    }
    assert(s.installer == customize::reached(s.installer.live));
    lemma_files_unrefused(FileUse::LiveIgnition, s.installer.live, c.live_ignition, accept, p);
    lemma_applied(c, features, accept, p);
    // nor is what is made of them
    let told = customize::told(p.live);
    let dest = choose|dest: Result<LiveView, Refusal>| #[trigger]
        compose::with_dest(told, accept, to_bytes, dest) && match dest {
            Err(e) => r == Err::<Map<Seq<char>, Seq<u8>>, Refusal>(e),
            Ok(dest) => exists|installer: Result<LiveView, Refusal>| #[trigger]
                compose::with_installer(dest, accept, to_yaml, installer) && match installer {
                    Err(e) => r == Err::<Map<Seq<char>, Seq<u8>>, Refusal>(e),
                    Ok(installer) => compose::with_live(installer, to_bytes, r),
                },
        };
    if c.dest_ignition.len() > 0 {
        let document = compose::dest_document(told)->0;
        let encoded = choose|data: Result<Seq<u8>, Refusal>| #[trigger]
            compose::dest_encoded(document, accept, to_bytes, data) && match data {
                Ok(data) => compose::dest_embedded(told, data, accept, dest),
                Err(e) => dest == Err::<LiveView, Refusal>(e),
            };
        match document {
            DestView::User { source } => {
                if encoded is Err {
                    assert(r == Err::<Map<Seq<char>, Seq<u8>>, Refusal>(
                        Refusal::SerializeUserIgnition,
                    ));
                }
            },
            DestView::Own { config, additions } => {
                let complete = choose|complete: Result<Seq<DirectiveView>, Seq<char>>| #[trigger]
                    ignition::directives_added(config, additions, accept, complete)
                        && match complete {
                        Ok(directives) => compose::ignition_encoded(directives, to_bytes, encoded),
                        Err(reason) => encoded == Err::<Seq<u8>, Refusal>(
                            Refusal::AddDirective { reason },
                        ),
                    };
                lemma_directives_unrefused(config, additions, accept, complete);
            },
        }
        assert(encoded is Ok);
    }
    assert(dest is Ok);
    let d = dest->Ok_0;
    let data = lemma_dest_part(c, told, accept, to_bytes, d);
    let installer = choose|installer: Result<LiveView, Refusal>| #[trigger]
        compose::with_installer(d, accept, to_yaml, installer) && match installer {
            Err(e) => r == Err::<Map<Seq<char>, Seq<u8>>, Refusal>(e),
            Ok(installer) => compose::with_live(installer, to_bytes, r),
        };
    assert(installer is Ok);
}

proof fn lemma_keyfile_apart(a: Seq<char>, b: Seq<char>)
    requires
        a != b,
    ensures
        iso_config::keyfile_path(a) != iso_config::keyfile_path(b),
{
    let x = iso_config::keyfile_path(a);
    let y = iso_config::keyfile_path(b);
    let n = (iso_config::INITRD_NETWORK_DIR@ + "/"@).len() as int;
    assert(x.skip(n) =~= a);
    assert(y.skip(n) =~= b);
}

/// The Ignition config that the destination system gets: none, if there is none of ours
/// and the user has none; that of the user, if it is the only one and there is nothing
/// to add to it; and otherwise ours, to which each certificate authority is added, and
/// then each config of the user to be merged, in their order.
pub proof fn law_dest_document(live: LiveInitrd)
    ensures
        compose::dest_document(live@) is None <==> live.dest is None && live.user_dest@.len() == 0,
        (compose::dest_document(live@) matches Some(DestView::User { source }) && source
            == live.user_dest@[0]@) <==> live.dest is None && live.dest_ca@.len() == 0
            && live.user_dest@.len() == 1,
        compose::dest_document(live@) matches Some(DestView::Own { config, additions }) ==> {
            &&& match live.dest {
                Some(dest) => {
                    &&& config.len() == dest.directives@.len()
                    &&& forall|i: int|
                        0 <= i < config.len() ==> config[i] == (#[trigger] dest.directives@[i])@
                },
                None => config.len() == 0,
            }
            &&& additions.len() == live.dest_ca@.len() + live.user_dest@.len()
            &&& forall|i: int|
                0 <= i < live.dest_ca@.len() ==> additions[i] == (DirectiveView::Ca {
                    certificate: (#[trigger] live.dest_ca@[i])@,
                })
            &&& forall|j: int|
                0 <= j < live.user_dest@.len() ==> additions[live.dest_ca@.len() + j] == (
                DirectiveView::Merge { source: (#[trigger] live.user_dest@[j])@ })
        },
{
    let v = live@;
    assert(v.dest_ca.len() == live.dest_ca@.len());
    assert(v.user_dest.len() == live.user_dest@.len());
    if live.user_dest@.len() > 0 {
        assert(v.user_dest[0] == live.user_dest@[0]@);
    }
    if compose::dest_document(v) matches Some(DestView::Own { .. }) {
        let additions = compose::dest_document(v)->0->additions;
        assert forall|i: int| 0 <= i < live.dest_ca@.len() implies additions[i] == (
        DirectiveView::Ca { certificate: (#[trigger] live.dest_ca@[i])@ }) by {
            assert(additions[i] == compose::ca_directives(v.dest_ca)[i]);
            assert(v.dest_ca[i] == live.dest_ca@[i]@);
        }
        assert forall|j: int| 0 <= j < live.user_dest@.len() implies additions[
        live.dest_ca@.len() + j] == (DirectiveView::Merge {
            source: (#[trigger] live.user_dest@[j])@,
        }) by {
            assert(additions[live.dest_ca@.len() + j] == compose::merge_directives(v.user_dest)[j]);
            assert(v.user_dest[j] == live.user_dest@[j]@);
        }
    }
}

/// The parameters that the installer gets: those that were set, and to copy network
/// settings, if there are some and it runs, for these parameters or for a config of the
/// user.
pub proof fn law_final_parameters(live: LiveInitrd)
    ensures
        compose::final_parameters(live@) is Some <==> live.installer is Some || (
        live.installer_copy_network && live.installer_serial > 0),
        compose::final_parameters(live@) matches Some(parameters) ==> match live.installer {
            Some(installer) => {
                &&& parameters.dest_device == installer@.dest_device
                &&& parameters.append_karg == installer@.append_karg
                &&& parameters.delete_karg == installer@.delete_karg
                &&& parameters.ignition_file == installer@.ignition_file
                &&& parameters.copy_network == (installer.copy_network
                    || live.installer_copy_network)
            },
            None => {
                &&& parameters.dest_device is None
                &&& parameters.append_karg.len() == 0
                &&& parameters.delete_karg.len() == 0
                &&& parameters.ignition_file is None
                &&& parameters.copy_network
            },
        },
{
}

/// Whether an error is one that the use of an input file can end in: it was not read,
/// its path has no final component, its config is not accepted by the parser, the OS
/// does not support it, there is one of its name, or the Ignition config for the live
/// system does not take it.
pub open spec fn ends_in(u: FileUse, features: OsFeatures, file: InputFile, e: Refusal) -> bool {
    match (file.data, e) {
        (Err(reason), Refusal::ReadFile { path, reason: found }) => path == file.path@ && found
            == reason@,
        (_, Refusal::ReadFile { .. }) => false,
        (_, Refusal::NetworkUnsupported) => u == FileUse::NetworkKeyfile
            && !features.live_initrd_network,
        (Err(_), _) => false,
        (Ok(data), Refusal::ParseIgnition { path }) => (u == FileUse::DestIgnition || u
            == FileUse::LiveIgnition) && path == file.path@ && ignition::ignition_warnings(
            data@,
        ) is None,
        (Ok(_), Refusal::MissingFilename { path }) => (u == FileUse::NetworkKeyfile || u
            == FileUse::PreInstall || u == FileUse::PostInstall) && path == file.path@
            && text::file_name(file.path@) is None,
        (Ok(_), Refusal::KeyfileRepeated { name }) => u == FileUse::NetworkKeyfile
            && text::file_name(file.path@) == Some(name),
        (Ok(_), Refusal::AddDirective { .. }) => u == FileUse::IgnitionCa || u
            == FileUse::PreInstall || u == FileUse::PostInstall,
        (Ok(_), Refusal::MergeIgnition { path, .. }) => u == FileUse::LiveIgnition && path
            == file.path@,
        _ => false,
    }
}

/// Where a series of input files is refused.
proof fn lemma_files_refused<A: Fn(&Ignition, &Directive) -> Result<(), String>>(
    u: FileUse,
    v: LiveView,
    files: Seq<InputFile>,
    accept: A,
    p: Progress,
) -> (n: int)
    requires
        customize::files_used(u, customize::reached(v), input::input_views(files), accept, p),
    ensures
        p.live.features == v.features,
        p.refusal matches Some(e) ==> 0 <= n < files.len() && ends_in(u, v.features, files[n], e),
    decreases files.len(),
{
    let views = input::input_views(files);
    let start = customize::reached(v);
    let next = customize::next_file(u, accept);
    if files.len() == 0 {
        series::lemma_no_steps(start, views, next, p);
        0
    } else {
        let before = files.drop_last();
        assert(views.drop_last() =~= input::input_views(before));
        assert(views.last() == files.last()@);
        let mid = series::lemma_last_step(start, views, next, p);
        let n = lemma_files_refused(u, v, before, accept, mid);
        if mid.refusal is Some {
            assert(before[n] == files[n]);
            n
        } else {
            files.len() - 1
        }
    }
}

/// Where a series of installer configs is refused.
proof fn lemma_configs_refused<A: Fn(&Ignition, &Directive) -> Result<(), String>>(
    v: LiveView,
    configs: Seq<InstallerFile>,
    accept: A,
    p: Progress,
) -> (n: int)
    requires
        customize::configs_used(
            customize::reached(v),
            customize::installer_file_views(configs),
            accept,
            p,
        ),
    ensures
        p.live.features == v.features,
        p.refusal matches Some(e) ==> {
            &&& 0 <= n < configs.len()
            &&& match (configs[n].file.data, configs[n].parsed) {
                (Err(reason), _) => e == (Refusal::ReadFile {
                    path: configs[n].file.path@,
                    reason: reason@,
                }),
                (Ok(_), Err(reason)) => e == (Refusal::ParseInstallerConfig {
                    path: configs[n].file.path@,
                    reason: reason@,
                }),
                (Ok(_), Ok(())) => {
                    ||| e == (Refusal::MissingFilename { path: configs[n].file.path@ })
                        && text::file_name(configs[n].file.path@) is None
                    ||| e == Refusal::InstallerConfigUnsupported && !v.features.installer_config
                    ||| e is AddDirective
                },
            }
        },
    decreases configs.len(),
{
    let views = customize::installer_file_views(configs);
    let start = customize::reached(v);
    let next = customize::next_config(accept);
    if configs.len() == 0 {
        series::lemma_no_steps(start, views, next, p);
        0
    } else {
        let before = configs.drop_last();
        assert(views.drop_last() =~= customize::installer_file_views(before));
        assert(views.last() == configs.last()@);
        let mid = series::lemma_last_step(start, views, next, p);
        let n = lemma_configs_refused(v, before, accept, mid);
        if mid.refusal is Some {
            assert(before[n] == configs[n]);
            n
        } else {
            configs.len() - 1
        }
    }
}

/// A customisation that is refused on the way is so for one of the files that were
/// asked for, with an error that names that file and fits it.
pub proof fn law_customisation_refused<A: Fn(&Ignition, &Directive) -> Result<(), String>>(
    common: CommonCustomizeConfig,
    features: OsFeatures,
    accept: A,
    p: Progress,
) -> (n: int)
    requires
        customize::common_applied(customize::untouched(features), common@, accept, p),
        p.refusal is Some,
    ensures
        ({
            let e = p.refusal->0;
            ||| 0 <= n < common.dest_ignition@.len() && ends_in(
                FileUse::DestIgnition,
                features,
                common.dest_ignition@[n],
                e,
            )
            ||| 0 <= n < common.network_keyfile@.len() && ends_in(
                FileUse::NetworkKeyfile,
                features,
                common.network_keyfile@[n],
                e,
            )
            ||| 0 <= n < common.ignition_ca@.len() && ends_in(
                FileUse::IgnitionCa,
                features,
                common.ignition_ca@[n],
                e,
            )
            ||| 0 <= n < common.pre_install@.len() && ends_in(
                FileUse::PreInstall,
                features,
                common.pre_install@[n],
                e,
            )
            ||| 0 <= n < common.post_install@.len() && ends_in(
                FileUse::PostInstall,
                features,
                common.post_install@[n],
                e,
            )
            ||| 0 <= n < common.live_ignition@.len() && ends_in(
                FileUse::LiveIgnition,
                features,
                common.live_ignition@[n],
                e,
            )
            ||| 0 <= n < common.installer_config@.len() && match (
                common.installer_config@[n].file.data,
                common.installer_config@[n].parsed,
            ) {
                (Err(reason), _) => e == (Refusal::ReadFile {
                    path: common.installer_config@[n].file.path@,
                    reason: reason@,
                }),
                (Ok(_), Err(reason)) => e == (Refusal::ParseInstallerConfig {
                    path: common.installer_config@[n].file.path@,
                    reason: reason@,
                }),
                (Ok(_), Ok(())) => {
                    ||| e == (Refusal::MissingFilename {
                        path: common.installer_config@[n].file.path@,
                    }) && text::file_name(common.installer_config@[n].file.path@) is None
                    ||| e == Refusal::InstallerConfigUnsupported && !features.installer_config
                    ||| e is AddDirective
                },
            }
        }),
{
    let c = common@;
    let v = customize::untouched(features);
    let s = choose|s: Stages| #[trigger] customize::goes_through(v, c, accept, s) && p == s.live;
    let a = lemma_files_refused(
        FileUse::DestIgnition,
        v,
        common.dest_ignition@,
        accept,
        s.dest,
    );
    if s.dest.refusal is Some {
        lemma_stopped(c, accept, s, s.dest);
        a
    } else {
        let with_device = match c.dest_device {
            Some(device) => customize::dest_device_step(s.dest.live, device),
            None => s.dest.live,
        };
        lemma_kargs_set(with_device, c.dest_karg_append, c.dest_karg_delete);
        let set = s.dest.and_step(Ok(customize::parameters_set(s.dest.live, c)));
        assert(set == customize::reached(set.live));
        let b = lemma_files_refused(
            FileUse::NetworkKeyfile,
            set.live,
            common.network_keyfile@,
            accept,
            s.network,
        );
        if s.network.refusal is Some {
            lemma_stopped(c, accept, s, s.network);
            b
        } else {
            assert(s.network == customize::reached(s.network.live));
            let d = lemma_files_refused(
                FileUse::IgnitionCa,
                s.network.live,
                common.ignition_ca@,
                accept,
                s.ca,
            );
            if s.ca.refusal is Some {
                lemma_stopped(c, accept, s, s.ca);
                d
            } else {
                assert(s.ca == customize::reached(s.ca.live));
                let f = lemma_files_refused(
                    FileUse::PreInstall,
                    s.ca.live,
                    common.pre_install@,
                    accept,
                    s.pre,
                );
                if s.pre.refusal is Some {
                    lemma_stopped(c, accept, s, s.pre);
                    f
                } else {
                    assert(s.pre == customize::reached(s.pre.live));
                    let g = lemma_files_refused(
                        FileUse::PostInstall,
                        s.pre.live,
                        common.post_install@,
                        accept,
                        s.post,
                    );
                    if s.post.refusal is Some {
                        lemma_stopped(c, accept, s, s.post);
                        g
                    } else {
                        assert(s.post == customize::reached(s.post.live));
                        let h = lemma_configs_refused(
                            s.post.live,
                            common.installer_config@,
                            accept,
                            s.installer,
                        );
                        if s.installer.refusal is Some {
                            lemma_stopped(c, accept, s, s.installer);
                            h
                        } else {
                            assert(s.installer == customize::reached(s.installer.live));
                            lemma_files_refused(
                                FileUse::LiveIgnition,
                                s.installer.live,
                                common.live_ignition@,
                                accept,
                                s.live,
                            )
                        }
                    }
                }
            }
        }
    }
}

/// A series that starts from an error ends in it.
proof fn lemma_files_stay<A: Fn(&Ignition, &Directive) -> Result<(), String>>(
    u: FileUse,
    start: Progress,
    files: Seq<InputView>,
    accept: A,
    p: Progress,
)
    requires
        customize::files_used(u, start, files, accept, p),
        start.refusal is Some,
    ensures
        p == start,
    decreases files.len(),
{
    let next = customize::next_file(u, accept);
    if files.len() == 0 {
        series::lemma_no_steps(start, files, next, p);
    } else {
        let mid = series::lemma_last_step(start, files, next, p);
        lemma_files_stay(u, start, files.drop_last(), accept, mid);
    }
}

/// A series of installer configs that starts from an error ends in it.
proof fn lemma_configs_stay<A: Fn(&Ignition, &Directive) -> Result<(), String>>(
    start: Progress,
    configs: Seq<InstallerFileView>,
    accept: A,
    p: Progress,
)
    requires
        customize::configs_used(start, configs, accept, p),
        start.refusal is Some,
    ensures
        p == start,
    decreases configs.len(),
{
    let next = customize::next_config(accept);
    if configs.len() == 0 {
        series::lemma_no_steps(start, configs, next, p);
    } else {
        let mid = series::lemma_last_step(start, configs, next, p);
        lemma_configs_stay(start, configs.drop_last(), accept, mid);
    }
}

/// The stages behind one that was refused stay there.
proof fn lemma_stopped<A: Fn(&Ignition, &Directive) -> Result<(), String>>(
    c: CommonView,
    accept: A,
    s: Stages,
    stop: Progress,
)
    requires
        exists|v: LiveView| #[trigger] customize::goes_through(v, c, accept, s),
        stop.refusal is Some,
        stop == s.dest || stop == s.network || stop == s.ca || stop == s.pre || stop == s.post
            || stop == s.installer,
    ensures
        s.live.refusal == stop.refusal,
{
    let set = s.dest.and_step(Ok(customize::parameters_set(s.dest.live, c)));
    if s.dest.refusal is Some {
        lemma_files_stay(FileUse::NetworkKeyfile, set, c.network_keyfile, accept, s.network);
    }
    if s.network.refusal is Some {
        lemma_files_stay(FileUse::IgnitionCa, s.network, c.ignition_ca, accept, s.ca);
    }
    if s.ca.refusal is Some {
        lemma_files_stay(FileUse::PreInstall, s.ca, c.pre_install, accept, s.pre);
    }
    if s.pre.refusal is Some {
        lemma_files_stay(FileUse::PostInstall, s.pre, c.post_install, accept, s.post);
    }
    if s.post.refusal is Some {
        lemma_configs_stay(s.post, c.installer_config, accept, s.installer);
    }
    if s.installer.refusal is Some {
        lemma_files_stay(FileUse::LiveIgnition, s.installer, c.live_ignition, accept, s.live);
    }
}

} // verus!
