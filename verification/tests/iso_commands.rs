use live_image::area::format_area;
use live_image::cmdline::{
    IsoCustomizeConfig, IsoEmbedConfig, IsoIgnitionEmbedConfig, IsoIgnitionShowConfig,
    IsoKargsModifyConfig, IsoKargsShowConfig, IsoNetworkEmbedConfig, IsoRemoveConfig, IsoShowConfig,
};
use live_image::customize::{CommonCustomizeConfig, InstallConfig, Notice, OsFeatures};
use live_image::customize_commands::iso_customize;
use live_image::editor::KargsEditor;
use live_image::error::LiveError;
use live_image::ignition::{Directive, Ignition};
use live_image::initrd::{Initrd, Member};
use live_image::input::InputFile;
use live_image::iso::{DirectoryRecord, IsoEntry, IsoFile, IsoFs};
use live_image::iso_commands::{
    iso_embed, iso_ignition_embed, iso_ignition_remove, iso_ignition_show, iso_kargs_modify,
    iso_kargs_reset, iso_kargs_show, iso_network_embed, iso_network_extract, iso_network_remove,
    iso_remove, iso_reset, iso_show, IgnitionShown, KargsShown,
};
use live_image::iso_config::IsoConfig;
use live_image::kargs::{KargEmbedInfo, KargEmbedLocation};
use live_image::output::{destination, open_for_writing, write_live_iso, Destination, IsoOutput};
use live_image::region::Segment;

const DEFAULT: &str = "ignition.firstboot ignition.platform.id=metal";

fn iso_file(path: &str, offset: u64, length: u32) -> IsoEntry {
    IsoEntry {
        path: path.to_string(),
        record: DirectoryRecord::File(IsoFile {
            name: path.rsplit('/').next().unwrap().to_string(),
            offset,
            length,
        }),
    }
}

/// An image with an embed area at 100 and karg embed areas at 1000 and 1200.
fn blank_image() -> IsoFs {
    let mut file = vec![0u8; 40000];
    let area = format_area(DEFAULT, 100);
    file[1000..1100].copy_from_slice(&area);
    file[1200..1300].copy_from_slice(&area);
    file[2000..2010].copy_from_slice(b"kargs.json");
    IsoFs {
        file,
        entries: vec![
            iso_file("IMAGES/IGNITION.IMG", 100, 800),
            iso_file("COREOS/KARGS.JSO", 2000, 10),
            iso_file("BOOT.CFG", 1000, 300),
        ],
    }
}

fn parse(bytes: &[u8]) -> Result<KargEmbedInfo, String> {
    if bytes != b"kargs.json" {
        return Err("unexpected".to_string());
    }
    Ok(KargEmbedInfo {
        default: DEFAULT.to_string(),
        files: vec![
            KargEmbedLocation { path: "boot.cfg".to_string(), offset: 200 },
            KargEmbedLocation { path: "boot.cfg".to_string(), offset: 0 },
        ],
        size: 100,
    })
}

fn encode(files: &Initrd) -> Result<Vec<u8>, String> {
    let mut out = Vec::new();
    for Member { path, data } in files.members() {
        out.push(1);
        out.push(path.len() as u8);
        out.extend_from_slice(path.as_bytes());
        out.extend_from_slice(&(data.len() as u16).to_le_bytes());
        out.extend_from_slice(data);
    }
    Ok(out)
}

fn decode(bytes: &[u8]) -> Result<Initrd, String> {
    let mut files = Initrd::default();
    let mut i = 0;
    while i < bytes.len() && bytes[i] == 1 {
        let n = bytes[i + 1] as usize;
        let path = String::from_utf8(bytes[i + 2..i + 2 + n].to_vec()).unwrap();
        i += 2 + n;
        let n = u16::from_le_bytes([bytes[i], bytes[i + 1]]) as usize;
        files.add(&path, bytes[i + 2..i + 2 + n].to_vec());
        i += 2 + n;
    }
    Ok(files)
}

fn edit(editor: &KargsEditor, kargs: &str) -> Result<String, String> {
    let mut words: Vec<String> = kargs.split(' ').map(|w| w.to_string()).collect();
    for d in &editor.delete {
        let n = words.len();
        words.retain(|w| w != d);
        if words.len() == n {
            return Err(format!("no karg {}", d));
        }
    }
    for r in &editor.replace {
        let (old, new) = r.split_once("=>").ok_or("bad replacement")?;
        for w in words.iter_mut() {
            if w == old {
                *w = new.to_string();
            }
        }
    }
    words.extend(editor.append.iter().cloned());
    Ok(words.join(" "))
}

/// Takes every directive.
fn accept(_: &Ignition, _: &Directive) -> Result<(), String> {
    Ok(())
}

fn to_bytes(config: &Ignition) -> Result<Vec<u8>, String> {
    Ok(format!("{} directives", config.directives.len()).into_bytes())
}

fn to_yaml(config: &InstallConfig) -> Result<Vec<u8>, String> {
    Ok(format!("{:?}", config).into_bytes())
}

fn all_features(_: &[u8]) -> Result<OsFeatures, String> {
    Ok(OsFeatures { installer_config: true, live_initrd_network: true })
}

/// Puts an output into an image.
fn apply(image: &IsoFs, output: IsoOutput) -> IsoFs {
    let mut file = image.file.clone();
    match output {
        IsoOutput::Patch { ops } => {
            for op in ops {
                let start = op.offset as usize;
                file[start..start + op.data.len()].copy_from_slice(&op.data);
            }
        }
        IsoOutput::Stream { plan } => {
            file = Vec::new();
            for s in plan {
                match s {
                    Segment::Copy { offset, length } => file.extend_from_slice(
                        &image.file[offset as usize..(offset + length) as usize],
                    ),
                    Segment::Data { data } => file.extend_from_slice(&data),
                    Segment::Rest { offset } => {
                        file.extend_from_slice(&image.file[offset as usize..])
                    }
                }
            }
        }
    }
    let entries = blank_image().entries;
    IsoFs { file, entries }
}

fn rewritten(image: &IsoFs, iso: &IsoConfig) -> IsoFs {
    apply(image, write_live_iso(iso, None, &encode).unwrap())
}

fn embed_config(force: bool) -> IsoIgnitionEmbedConfig {
    IsoIgnitionEmbedConfig {
        force,
        ignition_file: None,
        output: None,
        input: "in.iso".to_string(),
    }
}

fn shown(image: &IsoFs) -> Result<Vec<u8>, LiveError> {
    let config = IsoIgnitionShowConfig { input: "in.iso".to_string(), header: false };
    match iso_ignition_show(&config, image, &decode, &parse)? {
        IgnitionShown::Config { data } => Ok(data),
        IgnitionShown::Header { .. } => panic!("header"),
    }
}

fn shown_kargs(image: &IsoFs, default: bool) -> Result<String, LiveError> {
    let config = IsoKargsShowConfig { default, header: false, input: "in.iso".to_string() };
    match iso_kargs_show(&config, image, &decode, &parse)? {
        KargsShown::Kargs { kargs } => Ok(kargs),
        KargsShown::Header { .. } => panic!("header"),
    }
}

fn input(path: &str, data: &[u8]) -> InputFile {
    InputFile { path: path.to_string(), data: Ok(data.to_vec()) }
}

#[test]
fn deprecated_commands_stand_for_others() {
    let c = iso_embed(IsoEmbedConfig {
        force: true,
        config: Some("a.ign".to_string()),
        output: Some("out.iso".to_string()),
        input: "in.iso".to_string(),
    });
    assert!(c.force);
    assert_eq!(c.ignition_file.unwrap(), "a.ign");
    assert_eq!(c.output.unwrap(), "out.iso");
    assert_eq!(c.input, "in.iso");
    let c = iso_show(IsoShowConfig { input: "in.iso".to_string() });
    assert_eq!(c.input, "in.iso");
    assert!(!c.header);
    let c = iso_remove(IsoRemoveConfig { output: None, input: "in.iso".to_string() });
    assert!(c.output.is_none());
    assert_eq!(c.input, "in.iso");
}

#[test]
fn embedded_ignition_config_is_shown() {
    let image = blank_image();
    assert!(matches!(shown(&image).unwrap_err(), LiveError::NoIgnition));
    let iso =
        iso_ignition_embed(&embed_config(false), b"{1}".to_vec(), &image, &decode, &parse).unwrap();
    let image = rewritten(&image, &iso);
    assert_eq!(shown(&image).unwrap(), b"{1}");
    // a second one needs force
    let e = iso_ignition_embed(&embed_config(false), b"{2}".to_vec(), &image, &decode, &parse)
        .unwrap_err();
    assert!(matches!(e, LiveError::IgnitionPresent));
    let iso =
        iso_ignition_embed(&embed_config(true), b"{2}".to_vec(), &image, &decode, &parse).unwrap();
    let image = rewritten(&image, &iso);
    assert_eq!(shown(&image).unwrap(), b"{2}");
    assert_eq!(shown_kargs(&image, false).unwrap(), DEFAULT);
    // and it can be removed
    let iso = iso_ignition_remove(&image, &decode, &parse).unwrap();
    let image = rewritten(&image, &iso);
    assert!(matches!(shown(&image).unwrap_err(), LiveError::NoIgnition));
    assert_eq!(image.file, blank_image().file);
}

#[test]
fn header_shows_the_embed_area() {
    let config = IsoIgnitionShowConfig { input: "in.iso".to_string(), header: true };
    let r = iso_ignition_show(&config, &blank_image(), &decode, &parse).unwrap();
    assert!(matches!(r, IgnitionShown::Header { offset: 100, length: 800 }));
}

#[test]
fn ignition_config_that_is_too_large_is_refused() {
    let image = blank_image();
    let iso =
        iso_ignition_embed(&embed_config(false), vec![7; 800], &image, &decode, &parse).unwrap();
    let e = write_live_iso(&iso, None, &encode).unwrap_err();
    assert!(matches!(e, LiveError::InitrdTooLarge { needed: 814, available: 800 }));
    let dash = "-".to_string();
    let e = write_live_iso(&iso, Some(&dash), &encode).unwrap_err();
    assert!(matches!(e, LiveError::InitrdTooLarge { .. }));
}

#[test]
fn streamed_image_equals_patched_image() {
    let image = blank_image();
    let mut iso =
        iso_ignition_embed(&embed_config(false), b"{1}".to_vec(), &image, &decode, &parse).unwrap();
    iso.set_kargs("x y").unwrap();
    let dash = "-".to_string();
    let streamed = write_live_iso(&iso, Some(&dash), &encode).unwrap();
    assert!(matches!(streamed, IsoOutput::Stream { .. }));
    let other = "other.iso".to_string();
    let patched = write_live_iso(&iso, Some(&other), &encode).unwrap();
    assert!(matches!(patched, IsoOutput::Patch { .. }));
    assert_eq!(apply(&image, streamed).file, apply(&image, patched).file);
}

#[test]
fn destinations_are_told_apart() {
    let dash = "-".to_string();
    let path = "out.iso".to_string();
    assert_eq!(destination(None), Destination::InPlace);
    assert_eq!(destination(Some(&dash)), Destination::Stdout);
    assert_eq!(destination(Some(&path)), Destination::File);
    assert!(!open_for_writing(None));
    assert!(open_for_writing(Some(None)));
    assert!(!open_for_writing(Some(Some(&path))));
}

fn network_config(force: bool) -> IsoNetworkEmbedConfig {
    IsoNetworkEmbedConfig { keyfile: vec![], force, output: None, input: "in.iso".to_string() }
}

#[test]
fn embedded_network_settings_are_extracted() {
    let image = blank_image();
    let e = iso_network_extract(&image, &decode, &parse).unwrap_err();
    assert!(matches!(e, LiveError::NoNetwork));
    let keyfiles = vec![input("net/b.nmconnection", b"B"), input("a.nmconnection", b"A")];
    let iso = iso_network_embed(&network_config(false), &keyfiles, &image, &decode, &parse).unwrap();
    assert_eq!(iso.initrd().get("etc/coreos-firstboot-network/b.nmconnection").unwrap(), b"B");
    let image = rewritten(&image, &iso);
    let x = iso_network_extract(&image, &decode, &parse).unwrap();
    assert!(x.refusal.is_none());
    let names: Vec<&str> = x.files.iter().map(|f| f.name.as_str()).collect();
    assert_eq!(names, vec!["a.nmconnection", "b.nmconnection"]);
    assert_eq!(x.files[1].contents, b"B");
    assert_eq!(
        x.listing(),
        b"########## a.nmconnection ##########\nA\n########## b.nmconnection ##########\nB".to_vec()
    );
    // others need force, and replace those that are there
    let keyfiles = vec![input("c", b"C")];
    let e =
        iso_network_embed(&network_config(false), &keyfiles, &image, &decode, &parse).unwrap_err();
    assert!(matches!(e, LiveError::NetworkPresent));
    let iso = iso_network_embed(&network_config(true), &keyfiles, &image, &decode, &parse).unwrap();
    let image = rewritten(&image, &iso);
    let x = iso_network_extract(&image, &decode, &parse).unwrap();
    assert_eq!(x.files.len(), 1);
    assert_eq!(x.files[0].name, "c");
    // and they can be removed
    let iso = iso_network_remove(&image, &decode, &parse).unwrap();
    assert!(!iso.have_network());
}

#[test]
fn network_settings_are_removed_alone() {
    let image = blank_image();
    let mut iso =
        iso_ignition_embed(&embed_config(false), b"{1}".to_vec(), &image, &decode, &parse).unwrap();
    iso.initrd_mut().add("etc/coreos-firstboot-network/x", vec![1]);
    iso.initrd_mut().add("etc/coreos-firstboot-network", vec![2]);
    let image = rewritten(&image, &iso);
    let iso = iso_network_remove(&image, &decode, &parse).unwrap();
    assert!(iso.have_ignition());
    assert!(!iso.have_network());
    assert_eq!(iso.initrd().get("etc/coreos-firstboot-network").unwrap(), [2]);
}

#[test]
fn keyfiles_with_one_name_are_refused() {
    let keyfiles = vec![input("x/a", b"1"), input("y/a", b"2")];
    let e = iso_network_embed(&network_config(false), &keyfiles, &blank_image(), &decode, &parse)
        .unwrap_err();
    assert!(matches!(e, LiveError::DuplicateKeyfile { name } if name == "a"));
    let keyfiles = vec![InputFile { path: "k".to_string(), data: Err("gone".to_string()) }];
    let e = iso_network_embed(&network_config(false), &keyfiles, &blank_image(), &decode, &parse)
        .unwrap_err();
    assert!(matches!(e, LiveError::ReadFile { path, reason } if path == "k" && reason == "gone"));
    let keyfiles = vec![input("x/..", b"1")];
    let e = iso_network_embed(&network_config(false), &keyfiles, &blank_image(), &decode, &parse)
        .unwrap_err();
    assert!(matches!(e, LiveError::MissingFilename { path } if path == "x/.."));
}

#[test]
fn extraction_stops_at_a_path_without_a_name() {
    let image = blank_image();
    let mut iso = IsoConfig::for_iso(&image, &decode, &parse).unwrap();
    iso.initrd_mut().add("etc/coreos-firstboot-network/-", vec![1]);
    iso.initrd_mut().add("etc/coreos-firstboot-network/..", vec![2]);
    iso.initrd_mut().add("etc/coreos-firstboot-network/x", vec![3]);
    let image = rewritten(&image, &iso);
    let x = iso_network_extract(&image, &decode, &parse).unwrap();
    assert_eq!(x.files.len(), 1);
    assert_eq!(x.files[0].name, "-");
    assert!(matches!(x.refusal, Some(LiveError::MissingFilename { .. })));
    assert_eq!(x.listing(), b"########## - ##########\n\x01\n".to_vec());
}

fn modify(append: &[&str], delete: &[&str], replace: &[&str]) -> IsoKargsModifyConfig {
    let strings = |v: &[&str]| v.iter().map(|s| s.to_string()).collect::<Vec<String>>();
    IsoKargsModifyConfig {
        append: strings(append),
        delete: strings(delete),
        replace: strings(replace),
        output: None,
        input: "in.iso".to_string(),
    }
}

#[test]
fn kargs_are_modified_and_reset() {
    let image = blank_image();
    let config = modify(&["console=ttyS0"], &["ignition.firstboot"], &[]);
    let iso = iso_kargs_modify(&config, &image, &decode, &parse, &edit).unwrap();
    let image = rewritten(&image, &iso);
    assert_eq!(
        shown_kargs(&image, false).unwrap(),
        "ignition.platform.id=metal console=ttyS0"
    );
    assert_eq!(shown_kargs(&image, true).unwrap(), DEFAULT);
    let config = modify(&[], &[], &["console=ttyS0=>quiet"]);
    let iso = iso_kargs_modify(&config, &image, &decode, &parse, &edit).unwrap();
    let image = rewritten(&image, &iso);
    assert_eq!(shown_kargs(&image, false).unwrap(), "ignition.platform.id=metal quiet");
    let e = iso_kargs_modify(&modify(&[], &["nope"], &[]), &image, &decode, &parse, &edit)
        .unwrap_err();
    assert!(matches!(e, LiveError::EditKargs { reason } if reason == "no karg nope"));
    let long = "x".repeat(100);
    let e = iso_kargs_modify(&modify(&[&long], &[], &[]), &image, &decode, &parse, &edit)
        .unwrap_err();
    assert!(matches!(e, LiveError::KargsTooLarge { available: 100, .. }));
    let iso = iso_kargs_reset(&image, &decode, &parse).unwrap();
    let image = rewritten(&image, &iso);
    assert_eq!(shown_kargs(&image, false).unwrap(), DEFAULT);
    assert_eq!(image.file, blank_image().file);
}

#[test]
fn header_shows_the_karg_areas() {
    let config = IsoKargsShowConfig { default: false, header: true, input: "i".to_string() };
    match iso_kargs_show(&config, &blank_image(), &decode, &parse).unwrap() {
        KargsShown::Header { areas } => {
            let areas = areas.unwrap();
            assert_eq!(areas.length, 100);
            assert_eq!(areas.regions[0].offset, 1000);
            assert_eq!(areas.regions[1].offset, 1200);
        }
        KargsShown::Kargs { .. } => panic!("kargs"),
    }
}

fn image_without_kargs() -> IsoFs {
    let mut image = blank_image();
    image.entries.remove(1);
    image
}

#[test]
fn image_without_karg_areas_has_no_kargs() {
    let image = image_without_kargs();
    assert!(matches!(shown_kargs(&image, false).unwrap_err(), LiveError::KargAreasMissing));
    assert!(matches!(shown_kargs(&image, true).unwrap_err(), LiveError::KargAreasMissing));
    let e = iso_kargs_reset(&image, &decode, &parse).unwrap_err();
    assert!(matches!(e, LiveError::KargAreasMissing));
    let e = iso_kargs_modify(&modify(&[], &[], &[]), &image, &decode, &parse, &edit).unwrap_err();
    assert!(matches!(e, LiveError::KargAreasMissing));
    let e = iso_reset(&image, &decode, &parse).unwrap_err();
    assert!(matches!(e, LiveError::KargAreasMissing));
    let config = IsoKargsShowConfig { default: false, header: true, input: "i".to_string() };
    match iso_kargs_show(&config, &image, &decode, &parse).unwrap() {
        KargsShown::Header { areas } => assert!(areas.is_none()),
        KargsShown::Kargs { .. } => panic!("kargs"),
    }
}

#[test]
fn reset_takes_everything_back() {
    let image = blank_image();
    let mut iso = IsoConfig::for_iso(&image, &decode, &parse).unwrap();
    iso.initrd_mut().add("config.ign", vec![1]);
    iso.initrd_mut().add("etc/coreos-firstboot-network/x", vec![2]);
    iso.set_kargs("other").unwrap();
    let image = rewritten(&image, &iso);
    assert!(IsoConfig::for_iso(&image, &decode, &parse).unwrap().check_pristine(false).is_err());
    let iso = iso_reset(&image, &decode, &parse).unwrap();
    let image = rewritten(&image, &iso);
    assert_eq!(image.file, blank_image().file);
    IsoConfig::for_iso(&image, &decode, &parse).unwrap().check_pristine(false).unwrap();
    // a second time changes nothing
    let iso = iso_reset(&image, &decode, &parse).unwrap();
    assert_eq!(rewritten(&image, &iso).file, image.file);
}

#[test]
fn resets_of_changed_images_meet() {
    let image = blank_image();
    let mut changed = vec![];
    let mut iso = IsoConfig::for_iso(&image, &decode, &parse).unwrap();
    iso.initrd_mut().add("config.ign", vec![1]);
    changed.push(rewritten(&image, &iso));
    iso.set_kargs("other").unwrap();
    changed.push(rewritten(&image, &iso));
    let mut iso = IsoConfig::for_iso(&changed[1], &decode, &parse).unwrap();
    iso.initrd_mut().add("etc/coreos-firstboot-network/x", vec![2]);
    changed.push(rewritten(&changed[1], &iso));
    for other in &changed {
        assert_ne!(other.file, image.file);
        let iso = iso_reset(other, &decode, &parse).unwrap();
        let reset = rewritten(other, &iso);
        assert_eq!(reset.file, image.file);
        assert!(reset.file[100..900].iter().all(|b| *b == 0));
        assert_eq!(reset.file[1000..1100], format_area(DEFAULT, 100)[..]);
        // streamed too
        let dash = "-".to_string();
        let streamed = write_live_iso(&iso, Some(&dash), &encode).unwrap();
        assert_eq!(apply(other, streamed).file, image.file);
    }
}

#[test]
fn kargs_reset_does_not_depend_on_earlier_kargs() {
    let image = blank_image();
    let iso =
        iso_ignition_embed(&embed_config(false), b"{1}".to_vec(), &image, &decode, &parse).unwrap();
    let image = rewritten(&image, &iso);
    let mut other = rewritten(&image, &iso);
    for config in [modify(&["x"], &[], &[]), modify(&["y"], &["x"], &[])] {
        let iso = iso_kargs_modify(&config, &other, &decode, &parse, &edit).unwrap();
        other = rewritten(&other, &iso);
        assert_ne!(other.file, image.file);
        assert_eq!(other.file[100..900], image.file[100..900]);
    }
    let a = rewritten(&image, &iso_kargs_reset(&image, &decode, &parse).unwrap());
    let b = rewritten(&other, &iso_kargs_reset(&other, &decode, &parse).unwrap());
    assert_eq!(a.file, b.file);
    assert_eq!(a.file[100..900], image.file[100..900]);
    assert_eq!(shown(&b).unwrap(), b"{1}");
}

#[test]
fn removed_ignition_config_leaves_no_trace() {
    // in a blank area, and beside network settings
    let blank = blank_image();
    let keyfiles = vec![input("a", b"A")];
    let iso =
        iso_network_embed(&network_config(false), &keyfiles, &blank, &decode, &parse).unwrap();
    let network = rewritten(&blank, &iso);
    for image in [blank, network] {
        let config = embed_config(false);
        let iso =
            iso_ignition_embed(&config, b"{1}".to_vec(), &image, &decode, &parse).unwrap();
        let embedded = rewritten(&image, &iso);
        assert_ne!(embedded.file, image.file);
        let iso = iso_ignition_remove(&embedded, &decode, &parse).unwrap();
        assert_eq!(rewritten(&embedded, &iso).file, image.file);
        // and there need not be one
        let iso = iso_ignition_remove(&image, &decode, &parse).unwrap();
        assert_eq!(rewritten(&image, &iso).file, image.file);
    }
}

#[test]
fn what_is_written_is_read_back() {
    let image = blank_image();
    let mut iso = IsoConfig::for_iso(&image, &decode, &parse).unwrap();
    iso.initrd_mut().add("config.ign", b"ign".to_vec());
    iso.initrd_mut().add("etc/x", vec![]);
    iso.set_kargs(" a b ").unwrap();
    let image = rewritten(&image, &iso);
    let again = IsoConfig::for_iso(&image, &decode, &parse).unwrap();
    assert_eq!(again.initrd().get("config.ign").unwrap(), b"ign");
    assert_eq!(again.initrd().get("etc/x").unwrap(), b"");
    assert_eq!(again.initrd().members().len(), 2);
    assert_eq!(again.kargs().unwrap(), "a b");
    assert_eq!(again.kargs_default().unwrap(), DEFAULT);
    // and an image that is not changed needs no writes
    match write_live_iso(&again, None, &encode).unwrap() {
        IsoOutput::Patch { ops } => assert!(ops.is_empty()),
        IsoOutput::Stream { .. } => panic!("stream"),
    }
}

fn common() -> CommonCustomizeConfig {
    CommonCustomizeConfig {
        dest_ignition: vec![],
        dest_device: None,
        dest_karg_append: vec![],
        dest_karg_delete: vec![],
        network_keyfile: vec![],
        ignition_ca: vec![],
        pre_install: vec![],
        post_install: vec![],
        installer_config: vec![],
        live_ignition: vec![],
    }
}

fn customize_config(common: CommonCustomizeConfig, force: bool) -> IsoCustomizeConfig {
    IsoCustomizeConfig {
        common,
        live_karg_append: vec!["live".to_string()],
        live_karg_delete: vec!["ignition.firstboot".to_string()],
        live_karg_replace: vec![],
        force,
        output: None,
        input: "in.iso".to_string(),
    }
}

#[test]
fn customized_image_has_config_and_kargs() {
    let mut image = blank_image();
    image.entries.push(iso_file("COREOS/FEATURES.JSO", 3000, 2));
    let mut c = common();
    c.dest_device = Some("/dev/sda".to_string());
    c.network_keyfile = vec![input("k", b"K")];
    let config = customize_config(c, false);
    let mut notices = vec![];
    let iso = iso_customize(
        &config, &image, &decode, &parse, &all_features, &accept, &to_bytes, &to_yaml, &edit, &mut notices,
    )
    .unwrap();
    assert_eq!(notices.len(), 1);
    assert!(matches!(&notices[0], Notice::Overwrite { device } if device == "/dev/sda"));
    assert_eq!(iso.initrd().get("config.ign").unwrap(), b"1 directives");
    assert_eq!(iso.initrd().get("etc/coreos-firstboot-network/k").unwrap(), b"K");
    assert_eq!(iso.kargs().unwrap(), "ignition.platform.id=metal live");
    // it counts as customised then
    let mut again = rewritten(&image, &iso);
    again.entries.push(iso_file("COREOS/FEATURES.JSO", 3000, 2));
    let e = iso_customize(
        &config, &again, &decode, &parse, &all_features, &accept, &to_bytes, &to_yaml, &edit, &mut notices,
    )
    .unwrap_err();
    assert!(matches!(e, LiveError::AlreadyCustomized));
    assert_eq!(notices.len(), 1);
    // unless that is forced; the kargs are made of the default ones
    let config = customize_config(common(), true);
    let iso = iso_customize(
        &config, &again, &decode, &parse, &all_features, &accept, &to_bytes, &to_yaml, &edit, &mut notices,
    )
    .unwrap();
    assert_eq!(iso.kargs().unwrap(), "ignition.platform.id=metal live");
    assert_eq!(iso.initrd().get("config.ign").unwrap(), b"0 directives");
    assert!(!iso.have_network());
}

#[test]
fn forced_customisation_leaves_nothing_of_the_last_one() {
    let blank = blank_image();
    let mut iso = IsoConfig::for_iso(&blank, &decode, &parse).unwrap();
    iso.initrd_mut().add("config.ign", vec![1]);
    iso.initrd_mut().add("etc/coreos-firstboot-network/x", vec![2]);
    iso.set_kargs("other").unwrap();
    let image = rewritten(&blank, &iso);
    let reset = rewritten(&image, &iso_reset(&image, &decode, &parse).unwrap());
    let mut notices = vec![];
    let mut images = vec![];
    for (image, force) in [(&image, true), (&reset, false)] {
        let mut c = common();
        c.pre_install = vec![input("run", b"#!")];
        let config = customize_config(c, force);
        let iso = iso_customize(
            &config, image, &decode, &parse, &all_features, &accept, &to_bytes, &to_yaml, &edit,
            &mut notices,
        )
        .unwrap();
        images.push(rewritten(image, &iso).file);
    }
    assert_eq!(images[0], images[1]);
    assert_ne!(images[0], blank.file);
    assert_ne!(images[0], image.file);
}

#[test]
fn image_without_feature_list_has_no_features() {
    let image = blank_image();
    let mut c = common();
    c.network_keyfile = vec![input("k", b"K")];
    let mut notices = vec![];
    let e = iso_customize(
        &customize_config(c, false),
        &image,
        &decode,
        &parse,
        &all_features,
        &accept,
        &to_bytes,
        &to_yaml,
        &edit,
        &mut notices,
    )
    .unwrap_err();
    assert!(matches!(e, LiveError::NetworkUnsupported));
}

#[test]
fn feature_list_that_cannot_be_parsed_is_refused() {
    let mut image = blank_image();
    image.entries.push(iso_file("COREOS/FEATURES.JSO", 3000, 2));
    let bad = |_: &[u8]| -> Result<OsFeatures, String> { Err("bad".to_string()) };
    let mut notices = vec![];
    let e = iso_customize(
        &customize_config(common(), false),
        &image,
        &decode,
        &parse,
        &bad,
        &accept,
        &to_bytes,
        &to_yaml,
        &edit,
        &mut notices,
    )
    .unwrap_err();
    assert!(matches!(e, LiveError::ParseFeatures { reason } if reason == "bad"));
}

#[test]
fn directives_are_recorded_in_order() {
    let mut config = Ignition::default();
    config.add_ca(vec![1], &accept).unwrap();
    config.add_file("/a".to_string(), vec![2], 0o644, &accept).unwrap();
    config.add_unit("u".to_string(), "c".to_string(), false, &accept).unwrap();
    config.merge_config(vec![3], &accept).unwrap();
    let copy = config.clone();
    assert_eq!(copy.directives.len(), 4);
    assert!(matches!(&copy.directives[0], Directive::Ca { certificate } if certificate == &[1]));
    assert!(matches!(&copy.directives[3], Directive::Merge { source } if source == &[3]));
    // one that is not taken is not recorded
    let full = |config: &Ignition, _: &Directive| -> Result<(), String> {
        Err(format!("{} are enough", config.directives.len()))
    };
    assert_eq!(config.add_ca(vec![4], &full).unwrap_err(), "4 are enough");
    assert_eq!(config.directives.len(), 4);
}
