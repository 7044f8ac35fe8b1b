use live_image::error::LiveError;
use live_image::region::{Region, Segment, WriteOp};
use live_image::stream::stream;

fn region(offset: u64, data: &[u8], modified: bool) -> Region {
    Region { offset, length: data.len(), contents: data.to_vec(), modified }
}

fn write_all(file: &[u8], regions: &[&Region]) -> Vec<u8> {
    let mut out = file.to_vec();
    for r in regions {
        if let Some(WriteOp { offset, data }) = r.write().unwrap() {
            let start = offset as usize;
            out[start..start + data.len()].copy_from_slice(&data);
        }
    }
    out
}

fn render(file: &[u8], plan: &[Segment]) -> Vec<u8> {
    let mut out = Vec::new();
    for s in plan {
        match s {
            Segment::Copy { offset, length } => {
                out.extend_from_slice(&file[*offset as usize..(*offset + *length) as usize])
            }
            Segment::Data { data } => out.extend_from_slice(data),
            Segment::Rest { offset } => {
                if (*offset as usize) < file.len() {
                    out.extend_from_slice(&file[*offset as usize..])
                }
            }
        }
    }
    out
}

#[test]
fn region_is_read_within_the_file() {
    let file = b"0123456789";
    let r = Region::read(file, 3, 4).unwrap();
    assert_eq!(r.contents, b"3456");
    assert!(!r.modified);
    assert_eq!(Region::read(file, 6, 4).unwrap().contents, b"6789");
    assert!(matches!(
        Region::read(file, 7, 4).unwrap_err(),
        LiveError::ReadRegion { offset: 7, length: 4 }
    ));
    assert!(Region::read(file, u64::MAX, 1).is_err());
    // nothing can be read from anywhere that can be sought
    assert!(Region::read(file, 100, 0).unwrap().contents.is_empty());
    assert!(Region::read(file, u64::MAX, 0).is_err());
}

#[test]
fn region_contents_must_fill_the_region() {
    let mut r = region(0, b"abc", true);
    r.validate().unwrap();
    r.length = 4;
    assert!(matches!(
        r.validate().unwrap_err(),
        LiveError::RegionLength { expected: 4, found: 3 }
    ));
    assert!(r.write().is_err());
    assert!(stream(&vec![&r]).is_err());
}

#[test]
fn streamed_file_equals_written_file() {
    let file: Vec<u8> = (0..100).collect();
    let a = region(50, b"abcde", true);
    let b = region(10, b"xyz", true);
    let c = region(20, b"not written", false);
    let d = region(55, b"next", true);
    let e = region(0, b"!", true);
    let regions = vec![&a, &b, &c, &d, &e];
    let plan = stream(&regions).unwrap();
    let out = render(&file, &plan);
    assert_eq!(out, write_all(&file, &regions));
    assert_eq!(&out[50..59], b"abcdenext");
    assert_eq!(out[0], b'!');
    assert_eq!(out[20], 20);
}

#[test]
fn unmodified_regions_stream_the_file_as_it_is() {
    let file: Vec<u8> = (0..30).collect();
    let a = region(3, b"abc", false);
    let plan = stream(&vec![&a]).unwrap();
    assert_eq!(render(&file, &plan), file);
    assert!(a.write().unwrap().is_none());
    assert_eq!(render(&file, &stream(&vec![]).unwrap()), file);
}

#[test]
fn overlapping_regions_are_not_streamed() {
    let a = region(10, b"abcde", true);
    let b = region(14, b"x", true);
    let e = stream(&vec![&b, &a]).unwrap_err();
    assert!(matches!(e, LiveError::RegionOverlap { offset: 14, cursor: 15 }));
    // one that is not modified does not count
    let b = region(14, b"x", false);
    stream(&vec![&b, &a]).unwrap();
}

#[test]
fn region_at_the_end_of_the_file() {
    let file = b"0123456789";
    let a = region(7, b"abc", true);
    let plan = stream(&vec![&a]).unwrap();
    assert_eq!(render(file, &plan), b"0123456abc");
}
