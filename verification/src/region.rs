//! Regions of an image file: reading them, and the writes and copies that put
//! their new contents in place.

use crate::error::{LiveError, Refusal};
use crate::order;
use vstd::prelude::*;

verus! {

/// A byte range of an image file, with what it is to hold.
#[derive(Debug)]
pub struct Region {
    /// Where the region begins in the file.
    pub offset: u64,
    /// The number of bytes of the region.
    pub length: usize,
    /// What the region holds.
    pub contents: Vec<u8>,
    /// Whether the contents differ from what was read.
    pub modified: bool,
}

/// A region with its contents as a sequence.
#[verifier::ext_equal]
pub struct RegionView {
    pub offset: u64,
    pub length: usize,
    pub contents: Seq<u8>,
    pub modified: bool,
}

impl View for Region {
    type V = RegionView;

    open spec fn view(&self) -> RegionView {
        RegionView {
            offset: self.offset,
            length: self.length,
            contents: self.contents@,
            modified: self.modified,
        }
    }
}

impl RegionView {
    /// The position behind the region.
    pub open spec fn end(self) -> int {
        self.offset + self.length
    }

    /// Whether the contents fill the region exactly.
    pub open spec fn fits(self) -> bool {
        self.contents.len() == self.length
    }

    /// Whether position `i` of the file belongs to the region.
    pub open spec fn covers(self, i: int) -> bool {
        self.offset <= i < self.end()
    }
}

impl Clone for Region {
    fn clone(&self) -> (r: Region)
        ensures
            r@ == self@,
    {
        let contents = self.contents.clone();
        assert(contents@ =~= self.contents@);
        Region {
            offset: self.offset,
            length: self.length,
            contents,
            modified: self.modified,
        }
    }
}

/// The largest position that can be sought in a file.
pub const MAX_FILE_OFFSET: u64 = 0x7fff_ffff_ffff_ffff;

/// Whether `length` bytes can be read from position `offset` of `file`.
pub open spec fn readable(file: Seq<u8>, offset: int, length: int) -> bool {
    offset <= MAX_FILE_OFFSET && (length == 0 || offset + length <= file.len())
}

/// What a region of `file` holds, as far as it is `readable`.
pub open spec fn region_at(file: Seq<u8>, offset: u64, length: usize) -> RegionView {
    RegionView {
        offset,
        length,
        contents: if length == 0 {
            Seq::empty()
        } else {
            file.subrange(offset as int, offset + length)
        },
        modified: false,
    }
}

impl Region {
    /// Reads a region of `file`.
    pub fn read(file: &[u8], offset: u64, length: usize) -> (r: Result<Region, LiveError>)
        ensures
            match r {
                Ok(region) => readable(file@, offset as int, length as int) && region@ == region_at(
                    file@,
                    offset,
                    length,
                ),
                Err(e) => !readable(file@, offset as int, length as int) && e@
                    == (Refusal::ReadRegion { offset, length }),
            },
    {
        if offset > MAX_FILE_OFFSET {
            return Err(LiveError::ReadRegion { offset, length });
        }
        let mut contents: Vec<u8> = Vec::new();
        if length > 0 {
            let size: u64 = file.len() as u64;
            if offset > size || length as u64 > size - offset {
                return Err(LiveError::ReadRegion { offset, length });
            }
            let start: usize = offset as usize;
            contents.extend_from_slice(&file[start..start + length]);
            assert(contents@ =~= file@.subrange(offset as int, offset + length));
        }
        Ok(Region { offset, length, contents, modified: false })
    }

    /// Checks that the contents fill the region exactly.
    pub fn validate(&self) -> (r: Result<(), LiveError>)
        ensures
            match r {
                Ok(()) => self@.fits(),
                Err(e) => !self@.fits() && e@ == (Refusal::RegionLength {
                    expected: self.length,
                    found: self.contents@.len() as usize,
                }),
            },
    {
        if self.length != self.contents.len() {
            return Err(
                LiveError::RegionLength { expected: self.length, found: self.contents.len() },
            );
        }
        Ok(())
    }

    /// The write that puts a modified region in place. A region that was not
    /// modified needs none.
    pub fn write(&self) -> (r: Result<Option<WriteOp>, LiveError>)
        ensures
            match r {
                Ok(op) => self@.fits() && optional_write(op) == region_write(self@),
                Err(e) => !self@.fits() && e@ == (Refusal::RegionLength {
                    expected: self.length,
                    found: self.contents@.len() as usize,
                }),
            },
    {
        match self.validate() {
            Ok(()) => {},
            Err(e) => {
                return Err(e);
            },
        }
        if self.modified {
            let data = self.contents.clone();
            assert(data@ =~= self.contents@);
            Ok(Some(WriteOp { offset: self.offset, data }))
        } else {
            Ok(None)
        }
    }
}

/// An instruction to write `data` at position `offset` of a file.
#[derive(Debug)]
pub struct WriteOp {
    pub offset: u64,
    pub data: Vec<u8>,
}

/// A write with its data as a sequence.
#[verifier::ext_equal]
pub struct WriteView {
    pub offset: u64,
    pub data: Seq<u8>,
}

impl View for WriteOp {
    type V = WriteView;

    open spec fn view(&self) -> WriteView {
        WriteView { offset: self.offset, data: self.data@ }
    }
}

/// The views of a list of writes.
pub open spec fn writes(ops: Seq<WriteOp>) -> Seq<WriteView> {
    ops.map_values(|op: WriteOp| op@)
}

/// The view of a write that may be absent.
pub open spec fn optional_write(op: Option<WriteOp>) -> Option<WriteView> {
    match op {
        Some(op) => Some(op@),
        None => None,
    }
}

/// The write that a region needs.
pub open spec fn region_write(region: RegionView) -> Option<WriteView> {
    if region.modified {
        Some(WriteView { offset: region.offset, data: region.contents })
    } else {
        None
    }
}

/// The writes that a list of regions needs, in order.
pub open spec fn region_writes(regions: Seq<RegionView>) -> Seq<WriteView>
    decreases regions.len(),
{
    if regions.len() == 0 {
        Seq::empty()
    } else {
        let before = region_writes(regions.drop_last());
        match region_write(regions.last()) {
            Some(write) => before.push(write),
            None => before,
        }
    }
}

/// A file after `data` has been written at position `offset`: a gap behind the
/// old end is filled with zeros.
pub open spec fn overwrite(file: Seq<u8>, offset: int, data: Seq<u8>) -> Seq<u8> {
    if data.len() == 0 {
        file
    } else {
        let size = if file.len() >= offset + data.len() {
            file.len() as int
        } else {
            offset + data.len()
        };
        Seq::new(
            size as nat,
            |i: int|
                if offset <= i < offset + data.len() {
                    data[i - offset]
                } else if i < file.len() {
                    file[i]
                } else {
                    0
                },
        )
    }
}

/// A file after a list of writes, one behind the other.
pub open spec fn overwrite_all(file: Seq<u8>, ops: Seq<WriteView>) -> Seq<u8>
    decreases ops.len(),
{
    if ops.len() == 0 {
        file
    } else {
        overwrite(overwrite_all(file, ops.drop_last()), ops.last().offset as int, ops.last().data)
    }
}

/// A piece of an output that is derived from an input file.
#[derive(Debug)]
pub enum Segment {
    /// Exactly `length` bytes of the input, from position `offset` on.
    Copy { offset: u64, length: u64 },
    /// Given bytes.
    Data { data: Vec<u8> },
    /// The input from position `offset` to its end.
    Rest { offset: u64 },
}

/// A segment with its data as a sequence.
pub enum SegmentView {
    Copy { offset: int, length: int },
    Data { data: Seq<u8> },
    Rest { offset: int },
}

impl View for Segment {
    type V = SegmentView;

    open spec fn view(&self) -> SegmentView {
        match *self {
            Segment::Copy { offset, length } => SegmentView::Copy {
                offset: offset as int,
                length: length as int,
            },
            Segment::Data { data } => SegmentView::Data { data: data@ },
            Segment::Rest { offset } => SegmentView::Rest { offset: offset as int },
        }
    }
}

/// The views of a list of segments.
pub open spec fn segments(v: Seq<Segment>) -> Seq<SegmentView> {
    v.map_values(|s: Segment| s@)
}

/// The bytes of one segment, or `None` where the input is too short for it.
pub open spec fn segment_bytes(input: Seq<u8>, segment: SegmentView) -> Option<Seq<u8>> {
    match segment {
        SegmentView::Copy { offset, length } => if length == 0 {
            Some(Seq::empty())
        } else if offset + length <= input.len() {
            Some(input.subrange(offset, offset + length))
        } else {
            None
        },
        SegmentView::Data { data } => Some(data),
        SegmentView::Rest { offset } => Some(
            if offset <= input.len() {
                input.skip(offset)
            } else {
                Seq::empty()
            },
        ),
    }
}

/// The output that a list of segments describes, or `None` where the input is
/// too short for one of them.
pub open spec fn render(input: Seq<u8>, plan: Seq<SegmentView>) -> Option<Seq<u8>>
    decreases plan.len(),
{
    if plan.len() == 0 {
        Some(Seq::empty())
    } else {
        match (segment_bytes(input, plan.first()), render(input, plan.drop_first())) {
            (Some(head), Some(tail)) => Some(head + tail),
            _ => None,
        }
    }
}

/// The order of regions: by offset, then length, then contents, then whether
/// they are modified.
pub open spec fn region_le(a: RegionView, b: RegionView) -> bool {
    if a.offset != b.offset {
        a.offset < b.offset
    } else if a.length != b.length {
        a.length < b.length
    } else if a.contents != b.contents {
        order::bytes_le(a.contents, b.contents)
    } else {
        a.modified ==> b.modified
    }
}

/// The order of regions, as a function value.
pub open spec fn region_order() -> spec_fn(RegionView, RegionView) -> bool {
    |a: RegionView, b: RegionView| region_le(a, b)
}

/// The regions of a list that are modified, in their order.
pub open spec fn modified_in_order(regions: Seq<RegionView>) -> Seq<RegionView> {
    regions.filter(|r: RegionView| r.modified).sort_by(region_order())
}

/// The first fault of a sorted list of regions that is to be copied around, from
/// position `cursor` on: contents of the wrong length, or an overlap.
pub open spec fn first_fault(regions: Seq<RegionView>, cursor: int) -> Option<Refusal>
    decreases regions.len(),
{
    if regions.len() == 0 {
        None
    } else {
        let r = regions.first();
        if !r.fits() {
            Some(
                Refusal::RegionLength {
                    expected: r.length,
                    found: r.contents.len() as usize,
                },
            )
        } else if r.offset < cursor {
            Some(Refusal::RegionOverlap { offset: r.offset, cursor: cursor as u64 })
        } else {
            first_fault(regions.drop_first(), r.end())
        }
    }
}

/// The copy of a file from position `cursor` on with a sorted list of regions
/// replaced.
pub open spec fn copy_plan(regions: Seq<RegionView>, cursor: int) -> Seq<SegmentView>
    decreases regions.len(),
{
    if regions.len() == 0 {
        seq![SegmentView::Rest { offset: cursor }]
    } else {
        let r = regions.first();
        seq![
            SegmentView::Copy { offset: cursor, length: r.offset - cursor },
            SegmentView::Data { data: r.contents },
        ] + copy_plan(regions.drop_first(), r.end())
    }
}

/// The views of a list of borrowed regions.
pub open spec fn regions_of(v: Seq<&Region>) -> Seq<RegionView> {
    v.map_values(|r: &Region| r@)
}

/// Whether the end of each modified region is a file position.
pub open spec fn ends_fit(regions: Seq<RegionView>) -> bool {
    forall|i: int|
        0 <= i < regions.len() && (#[trigger] regions[i]).modified ==> regions[i].end() <= u64::MAX
}

} // verus!
