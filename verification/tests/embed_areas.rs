use live_image::area::{format_area, parse_area};
use live_image::embed::InitrdEmbedArea;
use live_image::error::LiveError;
use live_image::initrd::Initrd;
use live_image::iso::{DirectoryRecord, IsoEntry, IsoFile, IsoFs};
use live_image::kargs::{KargEmbedAreas, KargEmbedInfo, KargEmbedLocation};
use live_image::region::Region;

const DEFAULT_KARGS: &str = "mitigations=auto,nosmt coreos.liveiso=fedora-coreos-34.20210921.dev.0 ignition.firstboot ignition.platform.id=metal";
const AREA_LENGTH: usize = 1139;
const FIRST_AREA: u64 = 98126;
const SECOND_AREA: u64 = 371658;
const EMBED_OFFSET: u64 = 102400;
const EMBED_LENGTH: u32 = 262144;
const DEFAULT_AREA: u64 = 40000;

fn file(path: &str, offset: u64, length: u32) -> IsoEntry {
    IsoEntry {
        path: path.to_string(),
        record: DirectoryRecord::File(IsoFile {
            name: path.rsplit('/').next().unwrap().to_string(),
            offset,
            length,
        }),
    }
}

fn directory(path: &str) -> IsoEntry {
    IsoEntry { path: path.to_string(), record: DirectoryRecord::Directory }
}

fn put(bytes: &mut [u8], offset: usize, data: &[u8]) {
    bytes[offset..offset + data.len()].copy_from_slice(data);
}

fn header(length: u64, default: u64, areas: &[u64]) -> Vec<u8> {
    let mut h = b"coreKarg".to_vec();
    h.extend_from_slice(&length.to_le_bytes());
    h.extend_from_slice(&default.to_le_bytes());
    for i in 0..6 {
        let offset = areas.get(i).copied().unwrap_or(0);
        h.extend_from_slice(&offset.to_le_bytes());
    }
    h
}

/// An image with the embed areas of a live image, described in both ways.
fn live_image_with_areas() -> IsoFs {
    let mut bytes = vec![0u8; 380000];
    let area = format_area(DEFAULT_KARGS, AREA_LENGTH);
    put(&mut bytes, FIRST_AREA as usize, &area);
    put(&mut bytes, SECOND_AREA as usize, &area);
    put(&mut bytes, DEFAULT_AREA as usize, &area);
    let h = header(AREA_LENGTH as u64, DEFAULT_AREA, &[FIRST_AREA, SECOND_AREA]);
    put(&mut bytes, 32672, &h);
    let json = format!(
        "{{\"default\": \"{}\", \"files\": [{{\"path\": \"isolinux/isolinux.cfg\", \"offset\": 1658}}, {{\"path\": \"EFI/fedora/grub.cfg\", \"offset\": 1166}}], \"size\": 1139}}",
        DEFAULT_KARGS
    );
    put(&mut bytes, 60000, json.as_bytes());
    let entries = vec![
        directory("COREOS"),
        file("COREOS/KARGS.JSO", 60000, json.len() as u32),
        file("EFI/FEDORA/GRUB.CFG", 96960, 4000),
        file("IMAGES/IGNITION.IMG", EMBED_OFFSET, EMBED_LENGTH),
        file("ISOLINUX/ISOLINUX.CFG", 370000, 4000),
    ];
    IsoFs { file: bytes, entries }
}

fn without(image: IsoFs, path: &str) -> IsoFs {
    IsoFs {
        file: image.file,
        entries: image.entries.into_iter().filter(|e| e.path != path).collect(),
    }
}

fn parse_info(bytes: &[u8]) -> Result<KargEmbedInfo, String> {
    let v: serde_json::Value = serde_json::from_slice(bytes).map_err(|e| e.to_string())?;
    let files = v["files"].as_array().ok_or("no files")?;
    Ok(KargEmbedInfo {
        default: v["default"].as_str().ok_or("no default")?.to_string(),
        files: files
            .iter()
            .map(|f| KargEmbedLocation {
                path: f["path"].as_str().unwrap().to_string(),
                offset: f["offset"].as_u64().unwrap(),
            })
            .collect(),
        size: v["size"].as_u64().ok_or("no size")? as usize,
    })
}

fn refuse_info(_: &[u8]) -> Result<KargEmbedInfo, String> {
    Err("bad JSON".to_string())
}

fn decode(bytes: &[u8]) -> Result<Initrd, String> {
    if bytes[0] != b'!' {
        return Err("no magic".to_string());
    }
    let mut files = Initrd::default();
    files.add("config.ign", vec![bytes[1]]);
    Ok(files)
}

#[test]
fn test_initrd_embed_area() {
    let image = live_image_with_areas();
    // normal read
    let area = InitrdEmbedArea::for_iso(&image, &decode).unwrap();
    assert_eq!(area.region.offset, 102400);
    assert_eq!(area.region.length, 262144);
    // missing embed area
    let image = without(image, "IMAGES/IGNITION.IMG");
    InitrdEmbedArea::for_iso(&image, &decode).unwrap_err();
}

fn check_karg_embed_areas(image: &IsoFs) {
    let areas = KargEmbedAreas::for_iso(image, &parse_info).unwrap().unwrap();
    assert_eq!(areas.length, 1139);
    assert_eq!(areas.default, "mitigations=auto,nosmt coreos.liveiso=fedora-coreos-34.20210921.dev.0 ignition.firstboot ignition.platform.id=metal");
    assert_eq!(areas.regions.len(), 2);
    assert_eq!(areas.regions[0].offset, 98126);
    assert_eq!(areas.regions[0].length, 1139);
    assert_eq!(areas.regions[1].offset, 371658);
    assert_eq!(areas.regions[1].length, 1139);
}

#[test]
fn test_karg_embed_area() {
    let mut image = live_image_with_areas();
    // normal read
    check_karg_embed_areas(&image);
    // JSON only
    put(&mut image.file, 32672, &[0; 8]);
    check_karg_embed_areas(&image);
    // legacy header only
    put(&mut image.file, 32672, b"coreKarg");
    let mut image = without(image, "COREOS/KARGS.JSO");
    check_karg_embed_areas(&image);
    // neither header
    put(&mut image.file, 32672, &[0; 8]);
    assert!(KargEmbedAreas::for_iso(&image, &parse_info).unwrap().is_none());
}

#[test]
fn blank_embed_area_holds_no_files() {
    let image = live_image_with_areas();
    let area = InitrdEmbedArea::for_iso(&image, &decode).unwrap();
    assert!(area.initrd().is_empty());
    assert!(!area.region.modified);
    assert!(area.region.contents.is_empty());
}

#[test]
fn filled_embed_area_is_decoded() {
    let mut image = live_image_with_areas();
    put(&mut image.file, EMBED_OFFSET as usize, b"!x");
    let area = InitrdEmbedArea::for_iso(&image, &decode).unwrap();
    assert_eq!(area.initrd().get("config.ign").unwrap(), b"x");
    put(&mut image.file, EMBED_OFFSET as usize, b"?x");
    let e = InitrdEmbedArea::for_iso(&image, &decode).unwrap_err();
    assert!(matches!(e, LiveError::DecodeInitrd { reason } if reason == "no magic"));
}

#[test]
fn embed_area_that_is_a_directory_is_refused() {
    let mut image = without(live_image_with_areas(), "IMAGES/IGNITION.IMG");
    image.entries.push(directory("IMAGES/IGNITION.IMG"));
    let e = InitrdEmbedArea::for_iso(&image, &decode).unwrap_err();
    assert!(matches!(e, LiveError::NotAFile { path } if path == "IMAGES/IGNITION.IMG"));
}

#[test]
fn embed_area_behind_the_image_is_refused() {
    let mut image = live_image_with_areas();
    image.file.truncate(200000);
    let e = InitrdEmbedArea::for_iso(&image, &decode).unwrap_err();
    assert!(matches!(e, LiveError::ReadRegion { offset: 102400, length: 262144 }));
}

#[test]
fn initramfs_fills_its_area() {
    let image = live_image_with_areas();
    let mut area = InitrdEmbedArea::for_iso(&image, &decode).unwrap();
    area.region.length = 5;
    area.initrd_mut().add("a", vec![1]);
    let encode = |_: &Initrd| -> Result<Vec<u8>, String> { Ok(vec![7, 8]) };
    let region = area.region(&encode).unwrap();
    assert_eq!(region.contents, vec![7, 8, 0, 0, 0]);
    assert!(region.modified);
    let op = area.write(&encode).unwrap().unwrap();
    assert_eq!(op.offset, 102400);
    assert_eq!(op.data, vec![7, 8, 0, 0, 0]);
    let large = |_: &Initrd| -> Result<Vec<u8>, String> { Ok(vec![1; 6]) };
    let e = area.region(&large).unwrap_err();
    assert!(matches!(e, LiveError::InitrdTooLarge { needed: 6, available: 5 }));
    let fail = |_: &Initrd| -> Result<Vec<u8>, String> { Err("xz".to_string()) };
    let e = area.region(&fail).unwrap_err();
    assert!(matches!(e, LiveError::EncodeInitrd { reason } if reason == "xz"));
}

#[test]
fn area_without_files_is_zeros() {
    let image = live_image_with_areas();
    let mut area = InitrdEmbedArea::for_iso(&image, &decode).unwrap();
    area.region.length = 3;
    let fail = |_: &Initrd| -> Result<Vec<u8>, String> { Err("not called".to_string()) };
    assert_eq!(area.region(&fail).unwrap().contents, vec![0, 0, 0]);
    // an area that was not modified needs no write
    assert!(area.write(&fail).unwrap().is_none());
}

#[test]
fn description_that_cannot_be_parsed_is_refused() {
    let image = live_image_with_areas();
    let e = KargEmbedAreas::for_iso(&image, &refuse_info).unwrap_err();
    assert!(matches!(e, LiveError::ParseKargInfo { reason } if reason == "bad JSON"));
}

fn info(default: &str, files: Vec<(&str, u64)>, size: usize) -> KargEmbedInfo {
    KargEmbedInfo {
        default: default.to_string(),
        files: files
            .into_iter()
            .map(|(path, offset)| KargEmbedLocation { path: path.to_string(), offset })
            .collect(),
        size,
    }
}

#[test]
fn description_with_large_areas_is_refused() {
    let image = live_image_with_areas();
    let e = KargEmbedAreas::from_info(&image, info("", vec![], 2049)).unwrap_err();
    assert!(matches!(e, LiveError::KargSizeTooLarge { size: 2049 }));
    // the largest size is in order, but there is no area
    let e = KargEmbedAreas::from_info(&image, info("", vec![], 2048)).unwrap_err();
    assert!(matches!(e, LiveError::KargAreasCorrupted));
}

#[test]
fn description_with_large_default_is_refused() {
    let image = live_image_with_areas();
    let e = KargEmbedAreas::from_info(&image, info("abcd", vec![], 3)).unwrap_err();
    assert!(matches!(e, LiveError::DefaultKargsTooLarge { needed: 4, available: 3 }));
}

#[test]
fn description_of_missing_file_is_refused() {
    let image = live_image_with_areas();
    let e = KargEmbedAreas::from_info(&image, info("", vec![("efi/none", 0)], 10)).unwrap_err();
    // paths are looked up in upper case
    assert!(matches!(e, LiveError::NotFound { path } if path == "EFI/NONE"));
}

#[test]
fn description_of_area_behind_the_image_is_refused() {
    let image = live_image_with_areas();
    let e = KargEmbedAreas::from_info(
        &image,
        info("", vec![("isolinux/isolinux.cfg", 10000)], 1000),
    )
    .unwrap_err();
    assert!(matches!(e, LiveError::ReadRegion { offset: 380000, length: 1000 }));
    let e = KargEmbedAreas::from_info(
        &image,
        info("", vec![("isolinux/isolinux.cfg", u64::MAX)], 1000),
    )
    .unwrap_err();
    assert!(matches!(e, LiveError::KargOffsetUnusable { relative: u64::MAX }));
}

#[test]
fn areas_are_sorted_by_offset() {
    let image = live_image_with_areas();
    let areas = KargEmbedAreas::from_info(
        &image,
        info(
            DEFAULT_KARGS,
            vec![("isolinux/isolinux.cfg", 1658), ("EFI/fedora/grub.cfg", 1166)],
            AREA_LENGTH,
        ),
    )
    .unwrap();
    assert_eq!(areas.regions[0].offset, FIRST_AREA);
    assert_eq!(areas.regions[1].offset, SECOND_AREA);
}

#[test]
fn areas_that_disagree_are_refused() {
    let mut image = live_image_with_areas();
    put(&mut image.file, SECOND_AREA as usize, b"M");
    let e = KargEmbedAreas::for_iso(&image, &parse_info).unwrap_err();
    match e {
        LiveError::KargsMismatch { first, offset, other } => {
            assert_eq!(first, DEFAULT_KARGS);
            assert_eq!(offset, SECOND_AREA);
            assert_eq!(other, DEFAULT_KARGS.replacen('m', "M", 1));
        }
        e => panic!("{:?}", e),
    }
}

#[test]
fn area_that_is_not_utf8_is_refused() {
    let mut image = live_image_with_areas();
    put(&mut image.file, FIRST_AREA as usize, &[0xff]);
    let e = KargEmbedAreas::for_iso(&image, &parse_info).unwrap_err();
    assert!(matches!(e, LiveError::KargAreaEncoding));
}

#[test]
fn system_area_with_large_areas_is_refused() {
    let mut image = without(live_image_with_areas(), "COREOS/KARGS.JSO");
    put(&mut image.file, 32672, &header(2049, DEFAULT_AREA, &[FIRST_AREA]));
    let e = KargEmbedAreas::for_iso(&image, &parse_info).unwrap_err();
    assert!(matches!(e, LiveError::KargLengthTooLarge { length: 2049 }));
}

#[test]
fn system_area_without_areas_is_refused() {
    let mut image = without(live_image_with_areas(), "COREOS/KARGS.JSO");
    put(&mut image.file, 32672, &header(1139, DEFAULT_AREA, &[]));
    let e = KargEmbedAreas::for_iso(&image, &parse_info).unwrap_err();
    assert!(matches!(e, LiveError::KargAreasCorrupted));
}

#[test]
fn system_area_lists_up_to_six_areas() {
    let mut image = without(live_image_with_areas(), "COREOS/KARGS.JSO");
    let listed = [FIRST_AREA; 6];
    put(&mut image.file, 32672, &header(1139, DEFAULT_AREA, &listed));
    let areas = KargEmbedAreas::for_iso(&image, &parse_info).unwrap().unwrap();
    assert_eq!(areas.regions.len(), 6);
}

#[test]
fn system_area_offset_behind_the_image_is_refused() {
    let mut image = without(live_image_with_areas(), "COREOS/KARGS.JSO");
    put(&mut image.file, 32672, &header(1139, DEFAULT_AREA, &[380000]));
    let e = KargEmbedAreas::for_iso(&image, &parse_info).unwrap_err();
    assert!(matches!(e, LiveError::ReadRegion { offset: 380000, length: 1139 }));
    put(&mut image.file, 32672, &header(1139, u64::MAX, &[FIRST_AREA]));
    let e = KargEmbedAreas::for_iso(&image, &parse_info).unwrap_err();
    assert!(matches!(e, LiveError::ReadRegion { offset: u64::MAX, length: 1139 }));
}

#[test]
fn image_shorter_than_the_system_area_is_refused() {
    let mut image = without(live_image_with_areas(), "COREOS/KARGS.JSO");
    image.file.truncate(32700);
    let e = KargEmbedAreas::for_iso(&image, &parse_info).unwrap_err();
    assert!(matches!(e, LiveError::ReadRegion { offset: 32672, length: 72 }));
}

#[test]
fn kargs_are_set_in_all_areas() {
    let image = live_image_with_areas();
    let mut areas = KargEmbedAreas::for_iso(&image, &parse_info).unwrap().unwrap();
    areas.set_kargs("  foo bar\n").unwrap();
    assert_eq!(areas.kargs(), "foo bar");
    assert_eq!(areas.kargs_default(), DEFAULT_KARGS);
    for region in &areas.regions {
        assert!(region.modified);
        assert_eq!(region.contents.len(), 1139);
        assert_eq!(&region.contents[..10], b"foo bar\n##");
        assert!(region.contents[8..].iter().all(|b| *b == b'#'));
    }
    let ops = areas.write().unwrap();
    assert_eq!(ops.len(), 2);
    assert_eq!(ops[0].offset, FIRST_AREA);
    assert_eq!(ops[1].offset, SECOND_AREA);
}

#[test]
fn kargs_with_their_line_feed_may_fill_an_area() {
    let image = live_image_with_areas();
    let mut areas = KargEmbedAreas::for_iso(&image, &parse_info).unwrap().unwrap();
    areas.set_kargs(&"x".repeat(1138)).unwrap();
    assert_eq!(areas.regions[0].contents[1138], b'\n');
    let e = areas.set_kargs(&"y".repeat(1139)).unwrap_err();
    assert!(matches!(e, LiveError::KargsTooLarge { needed: 1140, available: 1139 }));
    // and nothing has changed
    assert_eq!(areas.kargs(), "x".repeat(1138));
}

#[test]
fn areas_that_were_not_modified_need_no_write() {
    let image = live_image_with_areas();
    let areas = KargEmbedAreas::for_iso(&image, &parse_info).unwrap().unwrap();
    assert!(areas.write().unwrap().is_empty());
}

#[test]
fn kargs_are_read_back_from_an_area() {
    for kargs in ["", "a", "a=b c=d", "#", "a#", "#a # b#", "\u{e4}\u{4e16}"] {
        let bytes = format_area(kargs, 40);
        assert_eq!(bytes.len(), 40);
        assert_eq!(parse_area(&bytes).unwrap(), kargs);
    }
    // fillers at the end of an area without a line feed do not count
    assert_eq!(parse_area(&b"a b##".to_vec()).unwrap(), "a b");
    assert_eq!(parse_area(&b" a b ##".to_vec()).unwrap(), "a b");
    assert!(parse_area(&vec![0xc3]).is_none());
}

#[test]
fn regions_are_parsed_as_kargs() {
    let region = Region { offset: 0, length: 4, contents: b"k\n##".to_vec(), modified: false };
    assert_eq!(KargEmbedAreas::parse(&region).unwrap(), "k");
    let region = Region { offset: 0, length: 1, contents: vec![0x80], modified: false };
    assert!(matches!(KargEmbedAreas::parse(&region).unwrap_err(), LiveError::KargAreaEncoding));
}

fn to_json(info: &KargEmbedInfo) -> Result<String, String> {
    Ok(format!("{{\"default\": \"{}\"}}", info.default))
}

#[test]
fn description_is_replaced_and_filled_up_with_spaces() {
    let mut image = live_image_with_areas();
    image.entries[1] = file("COREOS/KARGS.JSO", 60000, 20);
    let info = info("abc", vec![], 10);
    let op = info.update_iso(&image, &to_json).unwrap();
    assert_eq!(op.offset, 60000);
    assert_eq!(op.data, b"{\"default\": \"abc\"}  ".to_vec());
    image.entries[1] = file("COREOS/KARGS.JSO", 60000, 17);
    let e = info.update_iso(&image, &to_json).unwrap_err();
    assert!(matches!(e, LiveError::KargInfoTooLarge { needed: 18, file_length: 17 }));
    let fail = |_: &KargEmbedInfo| -> Result<String, String> { Err("no".to_string()) };
    let e = info.update_iso(&image, &fail).unwrap_err();
    assert!(matches!(e, LiveError::SerializeKargInfo { reason } if reason == "no"));
    let image = without(image, "COREOS/KARGS.JSO");
    let e = info.update_iso(&image, &to_json).unwrap_err();
    assert!(matches!(e, LiveError::NotFound { .. }));
}

fn full_json(info: &KargEmbedInfo) -> Result<String, String> {
    let files: Vec<String> = info
        .files
        .iter()
        .map(|f| format!("{{\"path\": \"{}\", \"offset\": {}}}", f.path, f.offset))
        .collect();
    Ok(format!(
        "{{\"default\": \"{}\", \"files\": [{}], \"size\": {}}}",
        info.default,
        files.join(", "),
        info.size
    ))
}

#[test]
fn replaced_description_is_read_back() {
    let mut image = live_image_with_areas();
    image.entries[1] = file("COREOS/KARGS.JSO", 60000, 200);
    let new = info("abc", vec![("a.cfg", 7), ("b.cfg", 0)], 10);
    let op = new.update_iso(&image, &full_json).unwrap();
    let start = op.offset as usize;
    image.file[start..start + op.data.len()].copy_from_slice(&op.data);
    let read = KargEmbedInfo::for_iso(&image, &parse_info).unwrap().unwrap();
    assert_eq!(read.default, "abc");
    assert_eq!(read.size, 10);
    assert_eq!(read.files.len(), 2);
    assert_eq!(read.files[0].path, "a.cfg");
    assert_eq!(read.files[0].offset, 7);
    assert_eq!(read.files[1].path, "b.cfg");
}

#[test]
fn embed_area_is_read_without_its_contents() {
    let mut image = live_image_with_areas();
    let area = InitrdEmbedArea::for_iso(&image, &decode).unwrap();
    assert!(area.initrd.is_empty());
    assert!(area.region.contents.is_empty());
    assert!(!area.region.modified);
    let start = EMBED_OFFSET as usize;
    image.file[start] = b'!';
    image.file[start + 1] = 7;
    let area = InitrdEmbedArea::for_iso(&image, &decode).unwrap();
    assert_eq!(area.initrd.get("config.ign").unwrap(), [7]);
    assert!(area.region.contents.is_empty());
    assert!(!area.region.modified);
    assert_eq!(area.region.length, EMBED_LENGTH as usize);
}

#[test]
fn kargs_of_the_system_area_are_read_back() {
    let mut image = without(live_image_with_areas(), "COREOS/KARGS.JSO");
    let mut areas = KargEmbedAreas::for_iso(&image, &parse_info).unwrap().unwrap();
    areas.set_kargs("one two ").unwrap();
    for op in areas.write().unwrap() {
        put(&mut image.file, op.offset as usize, &op.data);
    }
    let again = KargEmbedAreas::for_iso(&image, &parse_info).unwrap().unwrap();
    assert_eq!(again.kargs(), "one two");
    assert_eq!(again.kargs_default(), DEFAULT_KARGS);
    assert!(again.regions.iter().all(|r| !r.modified));
    // all other bytes are as they were
    let before = live_image_with_areas();
    for (i, (a, b)) in before.file.iter().zip(image.file.iter()).enumerate() {
        let inside = [FIRST_AREA, SECOND_AREA]
            .iter()
            .any(|o| i >= *o as usize && i < *o as usize + AREA_LENGTH);
        assert!(inside || a == b);
    }
    assert_eq!(before.file.len(), image.file.len());
}
