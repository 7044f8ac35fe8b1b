use std::cell::Cell;

use live_image::compose::DestDocument;
use live_image::customize::{
    CommonCustomizeConfig, InstallConfig, InstallerFile, LiveInitrd, Notice,
    OsFeatures,
};
use live_image::error::LiveError;
use live_image::ignition::{Directive, Ignition};
use live_image::initrd::Initrd;
use live_image::input::InputFile;

const IGNITION: &[u8] = br#"{"ignition": {"version": "3.0.0"}}"#;

fn input(path: &str, data: &[u8]) -> InputFile {
    InputFile { path: path.to_string(), data: Ok(data.to_vec()) }
}

fn unreadable(path: &str) -> InputFile {
    InputFile { path: path.to_string(), data: Err("no such file".to_string()) }
}

fn all() -> OsFeatures {
    OsFeatures { installer_config: true, live_initrd_network: true }
}

fn common() -> CommonCustomizeConfig {
    CommonCustomizeConfig {
        dest_ignition: vec![],
        dest_device: None,
        dest_karg_append: vec![],
        dest_karg_delete: vec![],
        network_keyfile: vec![],
        ignition_ca: vec![],
        pre_install: vec![],
        post_install: vec![],
        installer_config: vec![],
        live_ignition: vec![],
    }
}

fn live(common: &CommonCustomizeConfig, features: OsFeatures) -> Result<LiveInitrd, LiveError> {
    LiveInitrd::from_common(common, features, &accept, &mut vec![])
}

/// Takes every directive.
fn accept(_: &Ignition, _: &Directive) -> Result<(), String> {
    Ok(())
}

/// Writes out a config as lines.
fn to_bytes(config: &Ignition) -> Result<Vec<u8>, String> {
    let mut out = String::new();
    for d in &config.directives {
        let line = match d {
            Directive::Ca { certificate } => format!("ca {}", certificate.len()),
            Directive::File { path, data, mode } => {
                format!("file {} {:o} {}", path, mode, String::from_utf8_lossy(data))
            }
            Directive::Unit { name, enabled, .. } => format!("unit {} {}", name, enabled),
            Directive::Merge { source } => format!("merge {}", source.len()),
        };
        out.push_str(&line);
        out.push(';');
    }
    Ok(out.into_bytes())
}

fn to_yaml(config: &InstallConfig) -> Result<Vec<u8>, String> {
    Ok(format!(
        "device={:?} append={} delete={} ign={:?} net={}",
        config.dest_device,
        config.append_karg.len(),
        config.delete_karg.len(),
        config.ignition_file,
        config.copy_network
    )
    .into_bytes())
}

fn initrd(common: &CommonCustomizeConfig) -> Initrd {
    live(common, all()).unwrap().into_initrd(&accept, &to_bytes, &to_yaml).unwrap()
}

fn config_of(initrd: &Initrd) -> String {
    String::from_utf8(initrd.get("config.ign").unwrap().to_vec()).unwrap()
}

#[test]
fn nothing_leads_to_an_empty_config() {
    let i = initrd(&common());
    assert_eq!(config_of(&i), "");
    assert_eq!(i.members().len(), 1);
}

#[test]
fn installer_parameters_become_a_config() {
    let mut c = common();
    c.dest_device = Some("/dev/vda".to_string());
    c.dest_karg_append = vec!["a".to_string(), "b".to_string()];
    c.dest_karg_delete = vec!["c".to_string()];
    assert_eq!(
        config_of(&initrd(&c)),
        "file /etc/coreos/installer.d/0000-customize.yaml 600 device=Some(\"/dev/vda\") append=2 delete=1 ign=None net=false;"
    );
}

#[test]
fn installer_configs_are_numbered() {
    let mut c = common();
    c.installer_config = vec![
        InstallerFile { file: input("x/one.yaml", b"1"), parsed: Ok(()) },
        InstallerFile { file: input("two.yaml", b"2"), parsed: Ok(()) },
    ];
    c.dest_karg_append = vec!["a".to_string()];
    assert_eq!(
        config_of(&initrd(&c)),
        "file /etc/coreos/installer.d/0000-one.yaml 600 1;\
         file /etc/coreos/installer.d/0001-two.yaml 600 2;\
         file /etc/coreos/installer.d/0002-customize.yaml 600 device=None append=1 delete=0 ign=None net=false;"
    );
}

#[test]
fn network_settings_are_copied_if_the_installer_runs() {
    let mut c = common();
    c.network_keyfile = vec![input("k", b"K")];
    let i = initrd(&c);
    assert_eq!(config_of(&i), "");
    assert_eq!(i.get("etc/coreos-firstboot-network/k").unwrap(), b"K");
    c.installer_config = vec![InstallerFile { file: input("one", b"1"), parsed: Ok(()) }];
    assert_eq!(
        config_of(&initrd(&c)),
        "file /etc/coreos/installer.d/0000-one 600 1;\
         file /etc/coreos/installer.d/0001-customize.yaml 600 device=None append=0 delete=0 ign=None net=true;"
    );
}

#[test]
fn single_dest_config_is_embedded_directly() {
    let mut c = common();
    c.dest_ignition = vec![input("a.ign", IGNITION)];
    // rewritten as JSON without white space, and a line feed behind it
    assert_eq!(
        config_of(&initrd(&c)),
        "file /etc/coreos/dest.ign 600 {\"ignition\":{\"version\":\"3.0.0\"}}\n;\
         file /etc/coreos/installer.d/0000-customize.yaml 600 device=None append=0 delete=0 ign=Some(\"/etc/coreos/dest.ign\") net=false;"
    );
}

#[test]
fn several_dest_configs_are_merged() {
    let mut c = common();
    c.dest_ignition = vec![input("a.ign", IGNITION), input("b.ign", IGNITION)];
    assert_eq!(
        config_of(&initrd(&c)),
        "file /etc/coreos/dest.ign 600 merge 34;merge 34;;\
         file /etc/coreos/installer.d/0000-customize.yaml 600 device=None append=0 delete=0 ign=Some(\"/etc/coreos/dest.ign\") net=false;"
    );
}

#[test]
fn certificate_authorities_go_to_both_configs() {
    let mut c = common();
    c.ignition_ca = vec![input("ca.pem", b"PEM")];
    // without a dest config there is nothing to add it to
    assert_eq!(config_of(&initrd(&c)), "ca 3;");
    c.dest_ignition = vec![input("a.ign", IGNITION)];
    assert_eq!(
        config_of(&initrd(&c)),
        "ca 3;file /etc/coreos/dest.ign 600 ca 3;merge 34;;\
         file /etc/coreos/installer.d/0000-customize.yaml 600 device=None append=0 delete=0 ign=Some(\"/etc/coreos/dest.ign\") net=false;"
    );
}

#[test]
fn hooks_become_scripts_and_units() {
    let mut c = common();
    c.pre_install = vec![input("x/setup", b"#!")];
    c.post_install = vec![input("done", b"##")];
    let l = live(&c, all()).unwrap();
    assert_eq!(
        String::from_utf8(to_bytes(&l.live).unwrap()).unwrap(),
        "file /usr/local/bin/pre-install-setup 700 #!;unit pre-install-setup.service true;\
         file /usr/local/bin/post-install-done 700 ##;unit post-install-done.service true;"
    );
    let units: Vec<&String> = l
        .live
        .directives
        .iter()
        .filter_map(|d| match d {
            Directive::Unit { contents, .. } => Some(contents),
            _ => None,
        })
        .collect();
    assert_eq!(
        units[0],
        "# Generated by coreos-installer {iso|pxe} customize

[Unit]
Description=Pre-Install Script (setup)
Documentation=https://coreos.github.io/coreos-installer/customizing-install/
After=coreos-installer-pre.target
Before=coreos-installer.service

[Service]
Type=oneshot
ExecStart=/usr/local/bin/pre-install-setup
RemainAfterExit=true
StandardOutput=kmsg+console
StandardError=kmsg+console

[Install]
RequiredBy=coreos-installer.service"
    );
    assert_eq!(
        units[1],
        "# Generated by coreos-installer {iso|pxe} customize

[Unit]
Description=Post-Install Script (done)
Documentation=https://coreos.github.io/coreos-installer/customizing-install/
After=coreos-installer.service
Before=coreos-installer.target

[Service]
Type=oneshot
ExecStart=/usr/local/bin/post-install-done
RemainAfterExit=true
StandardOutput=kmsg+console
StandardError=kmsg+console

[Install]
RequiredBy=coreos-installer.target"
    );
}

#[test]
fn live_configs_are_merged_after_everything_else() {
    let mut c = common();
    c.live_ignition = vec![input("l.ign", IGNITION)];
    c.pre_install = vec![input("p", b"")];
    let l = live(&c, all()).unwrap();
    assert!(matches!(l.live.directives.last(), Some(Directive::Merge { source }) if source == IGNITION));
}

#[test]
fn warnings_are_handed_to_the_user() {
    let mut c = common();
    c.dest_ignition =
        vec![input("d.ign", br#"{"ignition": {"version": "3.0.0"}, "a": {"y": "z"}, "b": 7}"#)];
    c.dest_device = Some("/dev/sda".to_string());
    c.live_ignition = vec![input("l.ign", br#"{"ignition": {"version": "3.1.0"}, "c": null}"#)];
    let mut notices = vec![];
    LiveInitrd::from_common(&c, all(), &accept, &mut notices).unwrap();
    let texts: Vec<String> = notices
        .iter()
        .map(|n| match n {
            Notice::Overwrite { device } => format!("overwrite {}", device),
            Notice::ConfigWarning { path, warning } => format!("{}: {}", path, warning),
        })
        .collect();
    assert_eq!(
        texts,
        vec![
            "d.ign: unused key: $.a",
            "d.ign: unused key: $.b",
            "overwrite /dev/sda",
            "l.ign: unused key: $.c",
        ]
    );
}

#[test]
fn notices_come_also_before_an_error() {
    let mut c = common();
    c.dest_device = Some("/dev/sda".to_string());
    c.live_ignition = vec![unreadable("l.ign")];
    let mut notices = vec![];
    let e = LiveInitrd::from_common(&c, all(), &accept, &mut notices).unwrap_err();
    assert!(matches!(e, LiveError::ReadFile { path, .. } if path == "l.ign"));
    assert_eq!(notices.len(), 1);
}

#[test]
fn ignition_config_that_is_refused() {
    let mut c = common();
    c.dest_ignition = vec![input("bad.ign", b"{}")];
    assert!(matches!(
        live(&c, all()).unwrap_err(),
        LiveError::ParseIgnition { path, .. } if path == "bad.ign"
    ));
    let mut c = common();
    c.live_ignition = vec![input("old.ign", br#"{"ignition": {"version": "2.0.0"}}"#)];
    assert!(matches!(
        live(&c, all()).unwrap_err(),
        LiveError::ParseIgnition { path, .. } if path == "old.ign"
    ));
}

#[test]
fn first_refusal_counts() {
    let mut c = common();
    c.network_keyfile = vec![unreadable("k")];
    c.dest_ignition = vec![unreadable("d")];
    assert!(matches!(live(&c, all()).unwrap_err(), LiveError::ReadFile { path, .. } if path == "d"));
    c.dest_ignition = vec![];
    assert!(matches!(live(&c, all()).unwrap_err(), LiveError::ReadFile { path, .. } if path == "k"));
    assert!(matches!(
        live(&c, OsFeatures::default()).unwrap_err(),
        LiveError::NetworkUnsupported
    ));
}

#[test]
fn keyfiles_of_one_name_are_not_customised_twice() {
    let mut c = common();
    c.network_keyfile = vec![input("a/k", b"1"), input("b/k", b"2")];
    assert!(matches!(
        live(&c, all()).unwrap_err(),
        LiveError::KeyfileRepeated { name } if name == "k"
    ));
}

#[test]
fn installer_config_must_parse_and_be_supported() {
    let mut c = common();
    c.installer_config =
        vec![InstallerFile { file: input("i.yaml", b"x"), parsed: Err("yaml".to_string()) }];
    assert!(matches!(
        live(&c, all()).unwrap_err(),
        LiveError::ParseInstallerConfig { path, reason } if path == "i.yaml" && reason == "yaml"
    ));
    c.installer_config = vec![InstallerFile { file: input("i.yaml", b"x"), parsed: Ok(()) }];
    assert!(matches!(
        live(&c, OsFeatures::default()).unwrap_err(),
        LiveError::InstallerConfigUnsupported
    ));
    c.installer_config = vec![InstallerFile { file: input("/", b"x"), parsed: Ok(()) }];
    assert!(matches!(
        live(&c, OsFeatures::default()).unwrap_err(),
        LiveError::MissingFilename { .. }
    ));
    // our own parameters need the support, too
    let mut c = common();
    c.dest_device = Some("d".to_string());
    let l = live(&c, OsFeatures::default()).unwrap();
    assert!(matches!(
        l.into_initrd(&accept, &to_bytes, &to_yaml).unwrap_err(),
        LiveError::InstallerConfigUnsupported
    ));
}

#[test]
fn limits_count_only_where_they_are_reached() {
    // an OS without support for installer configs needs no number for one
    let mut l = LiveInitrd::new(OsFeatures::default());
    l.installer_serial = u32::MAX;
    assert!(matches!(
        l.installer_config_bytes("x", vec![], &accept).unwrap_err(),
        LiveError::InstallerConfigUnsupported
    ));
    // nor does a customisation without parameters for the installer
    let mut l = LiveInitrd::new(all());
    l.installer_serial = u32::MAX;
    assert_eq!(config_of(&l.into_initrd(&accept, &to_bytes, &to_yaml).unwrap()), "");
    // a config may have been named to the installer, if we have none to name
    let mut l = LiveInitrd::new(all());
    l.dest_device("d");
    l.installer.as_mut().unwrap().ignition_file = Some("i".to_string());
    assert_eq!(
        config_of(&l.into_initrd(&accept, &to_bytes, &to_yaml).unwrap()),
        "file /etc/coreos/installer.d/0000-customize.yaml 600 \
         device=Some(\"d\") append=0 delete=0 ign=Some(\"i\") net=false;"
    );
}

#[test]
fn encoding_errors_are_handed_on() {
    let bad_bytes = |_: &Ignition| -> Result<Vec<u8>, String> { Err("ignition".to_string()) };
    let bad_yaml = |_: &InstallConfig| -> Result<Vec<u8>, String> { Err("yaml".to_string()) };
    let l = live(&common(), all()).unwrap();
    assert!(matches!(
        l.into_initrd(&accept, &bad_bytes, &to_yaml).unwrap_err(),
        LiveError::SerializeIgnition { reason } if reason == "ignition"
    ));
    let mut c = common();
    c.dest_device = Some("d".to_string());
    let l = live(&c, all()).unwrap();
    assert!(matches!(
        l.into_initrd(&accept, &to_bytes, &bad_yaml).unwrap_err(),
        LiveError::SerializeInstallerConfig { reason } if reason == "yaml"
    ));
}

#[test]
fn directive_that_is_not_taken_stops_the_customisation_at_once() {
    let mut c = common();
    c.dest_device = Some("d".to_string());
    c.ignition_ca = vec![input("ca", b"x")];
    c.pre_install = vec![input("run", b"#!")];
    c.installer_config = vec![InstallerFile { file: input("i.yaml", b"y"), parsed: Ok(()) }];
    c.live_ignition =
        vec![input("l.ign", br#"{"ignition": {"version": "3.1.0"}, "c": null}"#)];
    // the authority, the script, its unit, the installer config, the merge
    for (n, notices_expected) in [(1, 1), (2, 1), (3, 1), (4, 1), (5, 2)] {
        let calls = Cell::new(0);
        let nth = |config: &Ignition, _: &Directive| -> Result<(), String> {
            calls.set(calls.get() + 1);
            assert_eq!(config.directives.len() + 1, calls.get());
            if calls.get() == n {
                Err(format!("call {}", n))
            } else {
                Ok(())
            }
        };
        let mut notices = vec![];
        let e = LiveInitrd::from_common(&c, all(), &nth, &mut notices).unwrap_err();
        assert_eq!(calls.get(), n);
        assert_eq!(notices.len(), notices_expected);
        match e {
            LiveError::AddDirective { reason } => {
                assert!(n < 5);
                assert_eq!(reason, format!("call {}", n));
            }
            LiveError::MergeIgnition { path, reason } => {
                assert_eq!(n, 5);
                assert_eq!(path, "l.ign");
                assert_eq!(reason, "call 5");
            }
            e => panic!("{:?}", e),
        }
    }
}

#[test]
fn directive_that_is_not_taken_stops_the_initramfs_at_once() {
    let mut c = common();
    c.ignition_ca = vec![input("ca", b"x")];
    c.dest_ignition = vec![input("a", IGNITION), input("b", IGNITION)];
    // the authority and both configs for the destination system, then its config
    // and the parameters of the installer for the live system
    for n in 1..=5 {
        let l = live(&c, all()).unwrap();
        let calls = Cell::new(0);
        let written = Cell::new(0);
        let nth = |_: &Ignition, directive: &Directive| -> Result<(), String> {
            calls.set(calls.get() + 1);
            match (calls.get(), directive) {
                (1, Directive::Ca { .. }) => {}
                (2, Directive::Merge { .. }) | (3, Directive::Merge { .. }) => {}
                (4, Directive::File { path, .. }) => assert_eq!(path, "/etc/coreos/dest.ign"),
                (5, Directive::File { path, .. }) => {
                    assert_eq!(path, "/etc/coreos/installer.d/0000-customize.yaml")
                }
                other => panic!("{:?}", other),
            }
            if calls.get() == n {
                Err("no".to_string())
            } else {
                Ok(())
            }
        };
        let count = |config: &Ignition| -> Result<Vec<u8>, String> {
            written.set(written.get() + 1);
            to_bytes(config)
        };
        let e = l.into_initrd(&nth, &count, &to_yaml).unwrap_err();
        assert!(matches!(e, LiveError::AddDirective { reason } if reason == "no"));
        assert_eq!(calls.get(), n);
        // the config for the destination system is written once it is complete
        assert_eq!(written.get(), if n > 3 { 1 } else { 0 });
    }
}

#[test]
fn accepted_dest_config_is_written() {
    for version in ["3.0.0", "3.1.0", "3.2.0", "3.3.0"] {
        let source = format!(
            "{{\"ignition\": {{\"version\": \"{}\"}}, \"x\": 1, \
             \"storage\": {{\"files\": [{{\"path\": \"/z\", \"mode\": 420}}]}}}}",
            version
        );
        let mut c = common();
        c.dest_ignition = vec![input("a", source.as_bytes())];
        let config = config_of(&initrd(&c));
        assert!(config.starts_with("file /etc/coreos/dest.ign 600 {"));
        assert!(config.contains(version));
        assert!(!config.contains("\"x\""));
    }
}

#[test]
fn dest_config_is_chosen() {
    let mut c = common();
    assert!(live(&c, all()).unwrap().dest_document().is_none());
    c.dest_ignition = vec![input("a", IGNITION)];
    assert!(matches!(
        live(&c, all()).unwrap().dest_document(),
        Some(DestDocument::User { source }) if source == IGNITION
    ));
    c.ignition_ca = vec![input("ca", b"x")];
    assert!(matches!(
        live(&c, all()).unwrap().dest_document(),
        Some(DestDocument::Own { config, additions })
            if config.directives.is_empty() && additions.len() == 2
    ));
}

#[test]
fn hook_without_a_name_is_refused() {
    let mut c = common();
    c.pre_install = vec![input("a/..", b"")];
    assert!(matches!(live(&c, all()).unwrap_err(), LiveError::MissingFilename { .. }));
    let mut c = common();
    c.post_install = vec![unreadable("p")];
    assert!(matches!(live(&c, all()).unwrap_err(), LiveError::ReadFile { .. }));
    let mut c = common();
    c.ignition_ca = vec![unreadable("ca")];
    assert!(matches!(live(&c, all()).unwrap_err(), LiveError::ReadFile { .. }));
}
