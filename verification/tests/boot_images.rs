use live_image::area::format_area;
use live_image::cmdline::{IsoExtractMinimalIsoConfig, IsoExtractPxeConfig, PxeCustomizeConfig};
use live_image::customize::{CommonCustomizeConfig, InstallConfig, Notice, OsFeatures};
use live_image::editor::KargsEditor;
use live_image::error::LiveError;
use live_image::extract::{iso_extract_pxe, iso_inspect};
use live_image::ignition::{Directive, Ignition};
use live_image::initrd::{Initrd, Member};
use live_image::input::InputFile;
use live_image::iso::{DirectoryRecord, IsoEntry, IsoFile, IsoFs};
use live_image::iso_commands::iso_kargs_reset;
use live_image::iso_config::IsoConfig;
use live_image::kargs::{KargEmbedInfo, KargEmbedLocation};
use live_image::miniso::{
    collect_iso_files, iso_extract_minimal_iso, iso_pack_minimal_iso, modify_miniso_kargs,
    packed_write, update_miniso_default,
};
use live_image::output::{write_live_iso, IsoOutput};
use live_image::pxe::{
    pxe_customize, pxe_ignition_unwrap, pxe_ignition_wrap, pxe_network_unwrap, pxe_network_wrap,
};

fn iso_file(path: &str, offset: u64, length: u32) -> IsoEntry {
    IsoEntry {
        path: path.to_string(),
        record: DirectoryRecord::File(IsoFile {
            name: path.rsplit('/').next().unwrap().to_string(),
            offset,
            length,
        }),
    }
}

fn directory(path: &str) -> IsoEntry {
    IsoEntry { path: path.to_string(), record: DirectoryRecord::Directory }
}

fn input(path: &str, data: &[u8]) -> InputFile {
    InputFile { path: path.to_string(), data: Ok(data.to_vec()) }
}

fn encode(files: &Initrd) -> Result<Vec<u8>, String> {
    let mut out = Vec::new();
    for Member { path, data } in files.members() {
        out.push(path.len() as u8);
        out.extend_from_slice(path.as_bytes());
        out.push(data.len() as u8);
        out.extend_from_slice(data);
    }
    Ok(out)
}

fn unpack(bytes: &[u8]) -> Result<Vec<Member>, String> {
    let mut members = Vec::new();
    let mut i = 0;
    while i < bytes.len() {
        let n = bytes[i] as usize;
        if i + 1 + n > bytes.len() {
            return Err("truncated".to_string());
        }
        let path = String::from_utf8(bytes[i + 1..i + 1 + n].to_vec()).unwrap();
        i += 1 + n;
        let n = bytes[i] as usize;
        members.push(Member { path, data: bytes[i + 1..i + 1 + n].to_vec() });
        i += 1 + n;
    }
    Ok(members)
}

fn archive(files: &[(&str, &[u8])]) -> Vec<u8> {
    let mut i = Initrd::default();
    for (path, data) in files {
        i.add(path, data.to_vec());
    }
    encode(&i).unwrap()
}

/// Takes every directive.
fn accept(_: &Ignition, _: &Directive) -> Result<(), String> {
    Ok(())
}

fn to_bytes(config: &Ignition) -> Result<Vec<u8>, String> {
    Ok(vec![config.directives.len() as u8])
}

fn to_yaml(_: &InstallConfig) -> Result<Vec<u8>, String> {
    Ok(vec![])
}

fn features(json: &[u8]) -> Result<OsFeatures, String> {
    match json {
        b"net" => Ok(OsFeatures { installer_config: false, live_initrd_network: true }),
        _ => Err("unknown".to_string()),
    }
}

#[test]
fn wrapped_ignition_config_is_unwrapped() {
    let bytes = pxe_ignition_wrap(b"{}".to_vec(), &encode).unwrap();
    assert_eq!(bytes, archive(&[("config.ign", b"{}")]));
    assert_eq!(pxe_ignition_unwrap(&bytes, &unpack).unwrap(), b"{}");
    // the last one counts
    let mut twice = bytes.clone();
    twice.extend(pxe_ignition_wrap(b"{2}".to_vec(), &encode).unwrap());
    assert_eq!(pxe_ignition_unwrap(&twice, &unpack).unwrap(), b"{2}");
    let e = pxe_ignition_unwrap(&archive(&[("x", b"1")]), &unpack).unwrap_err();
    assert!(matches!(e, LiveError::IgnitionNotInArchive));
    let e = pxe_ignition_unwrap(&[9], &unpack).unwrap_err();
    assert!(matches!(e, LiveError::DecodeInitrd { reason } if reason == "truncated"));
    let fail = |_: &Initrd| -> Result<Vec<u8>, String> { Err("xz".to_string()) };
    let e = pxe_ignition_wrap(vec![], &fail).unwrap_err();
    assert!(matches!(e, LiveError::EncodeInitrd { reason } if reason == "xz"));
}

#[test]
fn wrapped_network_settings_are_unwrapped() {
    let keyfiles = vec![input("dir/b", b"B"), input("a", b"A")];
    let bytes = pxe_network_wrap(&keyfiles, &encode).unwrap();
    let x = pxe_network_unwrap(&bytes, &unpack).unwrap();
    assert!(x.refusal.is_none());
    assert_eq!(x.files.len(), 2);
    assert_eq!(x.files[0].name, "a");
    assert_eq!(x.files[0].contents, b"A");
    assert_eq!(x.files[1].name, "b");
    // it holds no Ignition config
    let e = pxe_ignition_unwrap(&bytes, &unpack).unwrap_err();
    assert!(matches!(e, LiveError::IgnitionNotInArchive));
    let e = pxe_network_unwrap(&archive(&[("x", b"1")]), &unpack).unwrap_err();
    assert!(matches!(e, LiveError::NoNetwork));
    let keyfiles = vec![input("dir/a", b"B"), input("a", b"A")];
    let e = pxe_network_wrap(&keyfiles, &encode).unwrap_err();
    assert!(matches!(e, LiveError::DuplicateKeyfile { name } if name == "a"));
}

fn pxe_config(network_keyfile: Vec<InputFile>) -> PxeCustomizeConfig {
    PxeCustomizeConfig {
        common: CommonCustomizeConfig {
            dest_ignition: vec![],
            dest_device: None,
            dest_karg_append: vec![],
            dest_karg_delete: vec![],
            network_keyfile,
            ignition_ca: vec![input("ca", b"x")],
            pre_install: vec![],
            post_install: vec![],
            installer_config: vec![],
            live_ignition: vec![],
        },
        output: "-".to_string(),
        input: "initrd".to_string(),
    }
}

fn customize(archive: &[u8], keyfiles: Vec<InputFile>) -> Result<Vec<u8>, LiveError> {
    let mut notices: Vec<Notice> = vec![];
    pxe_customize(
        &pxe_config(keyfiles),
        archive,
        &unpack,
        &features,
        &accept,
        &to_bytes,
        &to_yaml,
        &encode,
        &mut notices,
    )
}

#[test]
fn customisation_is_appended_to_a_live_initramfs() {
    let base = archive(&[
        ("etc/coreos-live-initramfs", b""),
        ("etc/coreos/features.json", b"net"),
        ("usr/lib/x", b"y"),
    ]);
    let addition = customize(&base, vec![input("k", b"K")]).unwrap();
    assert_eq!(
        addition,
        archive(&[("config.ign", &[1]), ("etc/coreos-firstboot-network/k", b"K")])
    );
    // the result is customised
    let mut whole = base;
    whole.extend(addition);
    let e = customize(&whole, vec![]).unwrap_err();
    assert!(matches!(e, LiveError::InputAlreadyCustomized));
}

#[test]
fn other_initramfs_is_not_customised() {
    let e = customize(&archive(&[("usr/x", b"")]), vec![]).unwrap_err();
    assert!(matches!(e, LiveError::NotLiveInitrd));
    let base = archive(&[
        ("etc/coreos-live-initramfs", b""),
        ("etc/coreos-firstboot-network/x", b""),
    ]);
    let e = customize(&base, vec![]).unwrap_err();
    assert!(matches!(e, LiveError::InputAlreadyCustomized));
    let base = archive(&[
        ("etc/coreos-live-initramfs", b""),
        ("etc/coreos/features.json", b"?"),
    ]);
    let e = customize(&base, vec![]).unwrap_err();
    assert!(matches!(e, LiveError::ParseFeatures { reason } if reason == "unknown"));
    // without a list of features there are none
    let base = archive(&[("etc/coreos-live-initramfs", b"")]);
    let e = customize(&base, vec![input("k", b"K")]).unwrap_err();
    assert!(matches!(e, LiveError::NetworkUnsupported));
    let e = customize(&[200], vec![]).unwrap_err();
    assert!(matches!(e, LiveError::DecodeInitrd { .. }));
}

fn boot_image() -> IsoFs {
    IsoFs {
        file: vec![],
        entries: vec![
            directory("IMAGES"),
            directory("IMAGES/PXEBOOT"),
            directory("IMAGES/PXEBOOT/SUB"),
            iso_file("IMAGES/PXEBOOT/VMLINUZ", 10, 1),
            iso_file("IMAGES/PXEBOOT/SUB/X", 20, 1),
            iso_file("IMAGES/PXEBOOT/ROOTFS.IMG", 30, 1),
            iso_file("IMAGES/OTHER", 40, 1),
        ],
    }
}

#[test]
fn boot_files_are_extracted_under_lower_case_names() {
    let config = IsoExtractPxeConfig {
        input: "dir/fedora-34.live.iso".to_string(),
        output_dir: "out".to_string(),
    };
    let files = iso_extract_pxe(&config, &boot_image()).unwrap();
    let names: Vec<&str> = files.iter().map(|f| f.name.as_str()).collect();
    assert_eq!(names, vec!["fedora-34.live-vmlinuz", "fedora-34.live-rootfs.img"]);
    assert_eq!(files[1].file.offset, 30);
    let mut image = boot_image();
    image.entries.remove(1);
    let e = iso_extract_pxe(&config, &image).unwrap_err();
    assert!(matches!(e, LiveError::NotFound { path } if path == "IMAGES/PXEBOOT"));
    image.entries.push(iso_file("IMAGES/PXEBOOT", 1, 1));
    let e = iso_extract_pxe(&config, &image).unwrap_err();
    assert!(matches!(e, LiveError::NotADirectory { path } if path == "IMAGES/PXEBOOT"));
}

#[test]
fn all_paths_are_inspected() {
    let records = iso_inspect(&boot_image());
    assert_eq!(records.len(), 7);
    assert_eq!(records[0], "IMAGES");
    assert_eq!(records[6], "IMAGES/OTHER");
}

#[test]
fn files_are_collected_once() {
    let mut image = boot_image();
    image.entries.push(iso_file("IMAGES/OTHER", 99, 2));
    let files = collect_iso_files(&image);
    assert_eq!(files.len(), 4);
    let other = files.iter().find(|f| f.path == "IMAGES/OTHER").unwrap();
    assert_eq!(other.file.offset, 99);
}

#[test]
fn images_without_files_are_not_packed() {
    let empty = IsoFs { file: vec![], entries: vec![directory("A")] };
    let e = iso_pack_minimal_iso(&empty, &boot_image()).unwrap_err();
    assert!(matches!(e, LiveError::NoFilesInFullIso));
    let e = iso_pack_minimal_iso(&boot_image(), &empty).unwrap_err();
    assert!(matches!(e, LiveError::NoFilesInMinimalIso));
    let plan = iso_pack_minimal_iso(&boot_image(), &boot_image()).unwrap();
    assert_eq!(plan.full_files.len(), 4);
    assert_eq!(plan.minimal_files.len(), 4);
}

#[test]
fn packed_image_must_fit_its_file() {
    let op = packed_write(&minimal_image(KARGS), vec![7; 10]).unwrap();
    assert_eq!(op.offset, 1600);
    assert_eq!(op.data, vec![7; 10]);
    let e = packed_write(&minimal_image(KARGS), vec![7; 11]).unwrap_err();
    assert!(matches!(e, LiveError::MinisoTooLarge { needed: 11, file_length: 10 }));
    let e = packed_write(&boot_image(), vec![]).unwrap_err();
    assert!(matches!(e, LiveError::NotFound { .. }));
}

const KARGS: &str = "quiet coreos.liveiso=fedora-34 ignition.firstboot";

fn minimal_image(kargs: &str) -> IsoFs {
    let mut file = vec![0u8; 2000];
    file[1000..1100].copy_from_slice(&format_area(kargs, 100));
    file[1500..1504].copy_from_slice(b"json");
    IsoFs {
        file,
        entries: vec![
            iso_file("IMAGES/IGNITION.IMG", 100, 200),
            iso_file("COREOS/KARGS.JSO", 1500, 60),
            iso_file("BOOT.CFG", 1000, 100),
            iso_file("COREOS/MINISO.DAT", 1600, 10),
        ],
    }
}

fn parse(bytes: &[u8]) -> Result<KargEmbedInfo, String> {
    assert_eq!(&bytes[..4], b"json");
    Ok(KargEmbedInfo {
        default: KARGS.to_string(),
        files: vec![KargEmbedLocation { path: "boot.cfg".to_string(), offset: 0 }],
        size: 100,
    })
}

fn decode(_: &[u8]) -> Result<Initrd, String> {
    let mut files = Initrd::default();
    files.add("config.ign", vec![]);
    Ok(files)
}

fn edit(editor: &KargsEditor, kargs: &str) -> Result<String, String> {
    let mut words: Vec<String> = kargs
        .split(' ')
        .filter(|w| !editor.delete.iter().any(|d| d == w))
        .map(|w| w.to_string())
        .collect();
    words.extend(editor.append.iter().cloned());
    Ok(words.join(" "))
}

fn to_json(info: &KargEmbedInfo) -> Result<String, String> {
    Ok(format!("default={}", info.default))
}

#[test]
fn minimal_image_does_not_name_the_live_image() {
    let image = minimal_image(KARGS);
    let m = modify_miniso_kargs(&image, None, &decode, &parse, &edit).unwrap();
    assert_eq!(m.default, "quiet ignition.firstboot");
    assert_eq!(m.config.kargs().unwrap(), "quiet ignition.firstboot");
    let url = "https://example.com/rootfs".to_string();
    let m = modify_miniso_kargs(&image, Some(&url), &decode, &parse, &edit).unwrap();
    assert_eq!(m.default, "quiet ignition.firstboot");
    assert_eq!(
        m.config.kargs().unwrap(),
        "quiet ignition.firstboot coreos.live.rootfs_url=https://example.com/rootfs"
    );
    // a reset goes to the new default
    let op = update_miniso_default(&image, m.default, &parse, &to_json).unwrap();
    assert_eq!(op.offset, 1500);
    assert_eq!(op.data.len(), 60);
    assert_eq!(String::from_utf8(op.data).unwrap().trim_end(), "default=quiet ignition.firstboot");
}

fn line_json(info: &KargEmbedInfo) -> Result<String, String> {
    Ok(format!("{}|{}|{}", info.size, info.files[0].path, info.default))
}

fn parse_line(bytes: &[u8]) -> Result<KargEmbedInfo, String> {
    let text = String::from_utf8(bytes.to_vec()).unwrap();
    let parts: Vec<&str> = text.trim_end().splitn(3, '|').collect();
    Ok(KargEmbedInfo {
        default: parts[2].to_string(),
        files: vec![KargEmbedLocation { path: parts[1].to_string(), offset: 0 }],
        size: parts[0].parse().unwrap(),
    })
}

#[test]
fn reset_minimal_image_does_not_name_the_live_image() {
    let mut image = minimal_image(KARGS);
    let line = format!("{:<100}", format!("100|boot.cfg|{}", KARGS));
    image.file[1500..1600].copy_from_slice(line.as_bytes());
    image.entries[1] = iso_file("COREOS/KARGS.JSO", 1500, 100);
    let url = "https://example.com/rootfs".to_string();
    let m = modify_miniso_kargs(&image, Some(&url), &decode, &parse_line, &edit).unwrap();
    let ops = match write_live_iso(&m.config, None, &encode).unwrap() {
        IsoOutput::Patch { ops } => ops,
        IsoOutput::Stream { .. } => panic!("stream"),
    };
    for op in &ops {
        image.file[op.offset as usize..][..op.data.len()].copy_from_slice(&op.data);
    }
    let op = update_miniso_default(&image, m.default, &parse_line, &line_json).unwrap();
    image.file[op.offset as usize..][..op.data.len()].copy_from_slice(&op.data);
    let read = IsoConfig::for_iso(&image, &decode, &parse_line).unwrap();
    assert_eq!(
        read.kargs().unwrap(),
        "quiet ignition.firstboot coreos.live.rootfs_url=https://example.com/rootfs"
    );
    assert_eq!(read.kargs_default().unwrap(), "quiet ignition.firstboot");
    let reset = iso_kargs_reset(&image, &decode, &parse_line).unwrap();
    assert_eq!(reset.kargs().unwrap(), "quiet ignition.firstboot");
}

#[test]
fn minimal_image_must_name_a_live_image() {
    let image = minimal_image("quiet xcoreos.liveiso=1");
    let e = modify_miniso_kargs(&image, None, &decode, &parse, &edit).unwrap_err();
    assert!(matches!(e, LiveError::LiveisoKargMissing));
    let url = "https://example.com/a b".to_string();
    let e = modify_miniso_kargs(&minimal_image(KARGS), Some(&url), &decode, &parse, &edit)
        .unwrap_err();
    assert!(matches!(e, LiveError::UrlHasWhitespace { url } if url == "https://example.com/a b"));
    let mut image = minimal_image(KARGS);
    image.entries.remove(1);
    let e = update_miniso_default(&image, String::new(), &parse, &to_json).unwrap_err();
    assert!(matches!(e, LiveError::KargInfoMissing));
}

fn minimal_config(rootfs: Option<&str>) -> IsoExtractMinimalIsoConfig {
    IsoExtractMinimalIsoConfig {
        input: "in.iso".to_string(),
        output: "-".to_string(),
        output_rootfs: rootfs.map(|s| s.to_string()),
        rootfs_url: None,
    }
}

#[test]
fn minimal_image_is_extracted_from_a_pristine_one() {
    let image = minimal_image(KARGS);
    let parts = iso_extract_minimal_iso(&minimal_config(None), &image, &decode, &parse).unwrap();
    assert!(parts.rootfs.is_none());
    assert_eq!(parts.data.unwrap().offset, 1600);
    let parts =
        iso_extract_minimal_iso(&minimal_config(Some("r")), &image, &decode, &parse).unwrap();
    assert!(matches!(
        parts.rootfs,
        Some(Err(LiveError::NotFound { path })) if path == "IMAGES/PXEBOOT/ROOTFS.IMG"
    ));
    let e = iso_extract_minimal_iso(&minimal_config(None), &minimal_image("quiet"), &decode, &parse)
        .unwrap_err();
    assert!(matches!(e, LiveError::MinimalKargsChanged));
    let mut image = minimal_image(KARGS);
    image.file[100] = 1;
    let e =
        iso_extract_minimal_iso(&minimal_config(None), &image, &decode, &parse).unwrap_err();
    assert!(matches!(e, LiveError::MinimalIgnitionPresent));
}

fn decode_network(_: &[u8]) -> Result<Initrd, String> {
    let mut files = Initrd::default();
    files.add("etc/coreos-firstboot-network/eth0.nmconnection", vec![1]);
    Ok(files)
}

#[test]
fn minimal_image_is_not_extracted_from_one_with_network_settings() {
    let mut image = minimal_image(KARGS);
    image.file[100] = 1;
    let e = iso_extract_minimal_iso(&minimal_config(None), &image, &decode_network, &parse)
        .unwrap_err();
    assert!(matches!(e, LiveError::MinimalNetworkPresent));
    let mut image = minimal_image("quiet");
    image.file[100] = 1;
    let e = iso_extract_minimal_iso(&minimal_config(None), &image, &decode_network, &parse)
        .unwrap_err();
    assert!(matches!(e, LiveError::MinimalKargsChanged));
}

#[test]
fn initramfs_keeps_one_file_for_each_path() {
    let mut i = Initrd::default();
    assert!(i.is_empty());
    i.add("b", vec![1]);
    i.add("a", vec![2]);
    i.add("b", vec![3]);
    let paths: Vec<&str> = i.members().iter().map(|m| m.path.as_str()).collect();
    assert_eq!(paths, vec!["a", "b"]);
    assert_eq!(i.get("b").unwrap(), [3]);
    i.remove("a");
    i.remove("none");
    assert!(i.get("a").is_none());
    assert_eq!(i.clone().members().len(), 1);
    let j = Initrd::from_members(unpack(&encode(&i).unwrap()).unwrap());
    assert_eq!(j.get("b").unwrap(), [3]);
}
