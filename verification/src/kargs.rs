//! The karg embed areas of a live image: the places that hold its kernel
//! arguments.

use crate::area;
use crate::error;
use crate::error::{LiveError, Refusal};
use crate::iso;
use crate::iso::{IsoFile, IsoFs, IsoView};
use crate::order;
use crate::region;
use crate::region::{Region, RegionView, WriteOp};
use crate::stream;
use crate::text;
use vstd::prelude::*;
use vstd::string::*;
use vstd::utf8::*;

verus! {

/// The file of the image that describes the karg embed areas.
pub const KARG_INFO_PATH: &'static str = "COREOS/KARGS.JSO";

/// The largest length of a karg embed area.
pub const KARG_AREA_MAX_SIZE: usize = 2048;

/// The bytes `coreKarg` that begin the header in the system area.
pub const KARG_HEADER_MAGIC: [u8; 8] = [0x63, 0x6f, 0x72, 0x65, 0x4b, 0x61, 0x72, 0x67];

/// Where the header lies in the system area: in front of the 24 bytes at the
/// end of its 32 KiB.
pub const KARG_HEADER_OFFSET: u64 = 32672;

/// The number of bytes of the header.
pub const KARG_HEADER_SIZE: usize = 72;

/// The number of karg embed areas that the header has room for.
pub const KARG_HEADER_MAX_AREAS: usize = 6;

/// The number that bytes denote, the least significant byte first.
pub open spec fn little_endian(bytes: Seq<u8>) -> nat
    decreases bytes.len(),
{
    if bytes.len() == 0 {
        0
    } else {
        bytes.first() as nat + 256 * little_endian(bytes.drop_first())
    }
}

/// Takes a 64-bit number off the front of a buffer.
///
/// `Buf::get_u64_le` of the `bytes` crate, on a slice: it gives the number that
/// the first eight bytes denote, the least significant byte first, and advances
/// the slice by eight. It panics on a shorter slice.
#[verifier::external_body]
fn get_u64_le(buf: &mut &[u8]) -> (r: u64)
    requires
        old(buf)@.len() >= 8,
    ensures
        r == little_endian(old(buf)@.take(8)),
        final(buf)@ == old(buf)@.skip(8),
{
    bytes::Buf::get_u64_le(buf)
}

/// Takes bytes off the front of a buffer.
///
/// `Buf::copy_to_bytes` of the `bytes` crate, on a slice: it gives the first
/// `len` bytes and advances the slice by as many. It panics on a shorter slice.
#[verifier::external_body]
fn copy_to_bytes(buf: &mut &[u8], len: usize) -> (r: Vec<u8>)
    requires
        old(buf)@.len() >= len,
    ensures
        r@ == old(buf)@.take(len as int),
        final(buf)@ == old(buf)@.skip(len as int),
{
    bytes::Buf::copy_to_bytes(buf, len).to_vec()
}

/// Where a karg embed area lies: at an offset within a file of the image.
#[derive(Debug)]
pub struct KargEmbedLocation {
    pub path: String,
    pub offset: u64,
}

/// A location with its path as a sequence.
pub struct LocationView {
    pub path: Seq<char>,
    pub offset: u64,
}

impl View for KargEmbedLocation {
    type V = LocationView;

    open spec fn view(&self) -> LocationView {
        LocationView { path: self.path@, offset: self.offset }
    }
}

/// The description of the karg embed areas that an image carries.
#[derive(Debug)]
pub struct KargEmbedInfo {
    /// The kargs that the image was built with.
    pub default: String,
    /// Where the areas lie.
    pub files: Vec<KargEmbedLocation>,
    /// The length of each area.
    pub size: usize,
}

/// A description with its parts as sequences.
pub struct InfoView {
    pub default: Seq<char>,
    pub files: Seq<LocationView>,
    pub size: usize,
}

/// The views of a list of locations.
pub open spec fn location_views(v: Seq<KargEmbedLocation>) -> Seq<LocationView> {
    v.map_values(|l: KargEmbedLocation| l@)
}

impl View for KargEmbedInfo {
    type V = InfoView;

    open spec fn view(&self) -> InfoView {
        InfoView {
            default: self.default@,
            files: location_views(self.files@),
            size: self.size,
        }
    }
}

/// The karg embed areas of an image.
#[derive(Debug)]
pub struct KargEmbedAreas {
    /// The length of each area.
    pub length: usize,
    /// The kargs that the image was built with.
    pub default: String,
    /// The areas, which all hold the same kargs.
    pub regions: Vec<Region>,
    /// The kargs that the areas hold.
    pub args: String,
}

/// Karg embed areas with their parts as sequences.
#[verifier::ext_equal]
pub struct AreasView {
    pub length: usize,
    pub default: Seq<char>,
    pub regions: Seq<RegionView>,
    pub args: Seq<char>,
}

impl View for KargEmbedAreas {
    type V = AreasView;

    open spec fn view(&self) -> AreasView {
        AreasView {
            length: self.length,
            default: self.default@,
            regions: stream::region_views(self.regions@),
            args: self.args@,
        }
    }
}

impl AreasView {
    /// There is at least one area, and each is a region of the common length
    /// that holds the kargs.
    pub open spec fn wf(self) -> bool {
        &&& self.regions.len() > 0
        &&& forall|i: int|
            0 <= i < self.regions.len() ==> {
                &&& (#[trigger] self.regions[i]).length == self.length
                &&& self.regions[i].fits()
                &&& self.regions[i].end() <= u64::MAX
                &&& area::area_kargs(self.regions[i].contents) == Some(self.args)
            }
    }

    /// The areas with other kargs.
    pub open spec fn with_kargs(self, kargs: Seq<char>) -> AreasView {
        AreasView {
            regions: Seq::new(
                self.regions.len(),
                |i: int|
                    RegionView {
                        contents: area::area_bytes(kargs, self.length as nat),
                        modified: true,
                        ..self.regions[i]
                    },
            ),
            args: kargs,
            ..self
        }
    }
}

/// The first region of a list that does not hold the given kargs, if any.
pub open spec fn first_disagreement(regions: Seq<RegionView>, args: Seq<char>) -> Option<Refusal>
    decreases regions.len(),
{
    if regions.len() == 0 {
        None
    } else {
        match area::area_kargs(regions.first().contents) {
            None => Some(Refusal::KargAreaEncoding),
            Some(other) => if other != args {
                Some(
                    Refusal::KargsMismatch { first: args, offset: regions.first().offset, other },
                )
            } else {
                first_disagreement(regions.drop_first(), args)
            },
        }
    }
}

/// The karg embed areas made of the given regions, or why there are none.
pub open spec fn built(length: usize, default: Seq<char>, regions: Seq<RegionView>) -> Result<
    AreasView,
    Refusal,
> {
    if regions.len() == 0 {
        Err(Refusal::KargAreasCorrupted)
    } else {
        match area::area_kargs(regions[0].contents) {
            None => Err(Refusal::KargAreaEncoding),
            Some(args) => match first_disagreement(regions.drop_first(), args) {
                Some(e) => Err(e),
                None => Ok(AreasView { length, default, regions, args }),
            },
        }
    }
}

/// Regions that were read with one length.
pub open spec fn read_with_length(regions: Seq<RegionView>, length: usize) -> bool {
    forall|i: int|
        0 <= i < regions.len() ==> {
            &&& (#[trigger] regions[i]).length == length
            &&& regions[i].fits()
            &&& regions[i].end() <= u64::MAX
        }
}

proof fn lemma_agreement(regions: Seq<RegionView>, args: Seq<char>)
    requires
        first_disagreement(regions, args) is None,
    ensures
        forall|i: int|
            0 <= i < regions.len() ==> area::area_kargs((#[trigger] regions[i]).contents) == Some(
                args,
            ),
    decreases regions.len(),
{
    if regions.len() > 0 {
        lemma_agreement(regions.drop_first(), args);
        assert forall|i: int| 0 <= i < regions.len() implies area::area_kargs(
            (#[trigger] regions[i]).contents,
        ) == Some(args) by {
            if i > 0 {
                assert(regions[i] == regions.drop_first()[i - 1]);
            }
        }
    }
}

/// Areas that are built of regions of one length are well-formed.
pub proof fn lemma_built_wf(length: usize, default: Seq<char>, regions: Seq<RegionView>)
    requires
        read_with_length(regions, length),
        built(length, default, regions) is Ok,
    ensures
        built(length, default, regions)->Ok_0.wf(),
{
    let areas = built(length, default, regions)->Ok_0;
    lemma_agreement(regions.drop_first(), areas.args);
    assert forall|i: int| 0 <= i < regions.len() implies area::area_kargs(
        (#[trigger] regions[i]).contents,
    ) == Some(areas.args) by {
        if i > 0 {
            assert(regions[i] == regions.drop_first()[i - 1]);
        }
    }
}

/// The karg embed area at an offset within the file at a path of the image.
pub open spec fn located_area(
    image: IsoView,
    path: Seq<char>,
    relative: u64,
    size: usize,
) -> Result<RegionView, Refusal> {
    match iso::file_at(image.entries, path) {
        Err(e) => Err(e),
        Ok(file) => {
            let offset = file.offset + relative;
            if offset > u64::MAX {
                Err(Refusal::KargOffsetUnusable { relative })
            } else if !region::readable(image.file, offset, size as int) {
                Err(Refusal::ReadRegion { offset: offset as u64, length: size })
            } else {
                Ok(region::region_at(image.file, offset as u64, size))
            }
        },
    }
}

/// The karg embed areas at a list of locations, whose paths are looked up in
/// upper case.
pub open spec fn located_areas(image: IsoView, files: Seq<LocationView>, size: usize) -> Result<
    Seq<RegionView>,
    Refusal,
>
    decreases files.len(),
{
    if files.len() == 0 {
        Ok(Seq::empty())
    } else {
        match located_areas(image, files.drop_last(), size) {
            Err(e) => Err(e),
            Ok(before) => match located_area(
                image,
                text::uppercase(files.last().path),
                files.last().offset,
                size,
            ) {
                Err(e) => Err(e),
                Ok(area) => Ok(before.push(area)),
            },
        }
    }
}

/// The karg embed areas that a description announces, or why there are none.
pub open spec fn described_areas(image: IsoView, info: InfoView) -> Result<AreasView, Refusal> {
    if info.size > KARG_AREA_MAX_SIZE {
        Err(Refusal::KargSizeTooLarge { size: info.size })
    } else if encode_utf8(info.default).len() > info.size {
        Err(
            Refusal::DefaultKargsTooLarge {
                needed: encode_utf8(info.default).len() as usize,
                available: info.size,
            },
        )
    } else {
        match located_areas(image, info.files, info.size) {
            Err(e) => Err(e),
            Ok(regions) => built(
                info.size,
                info.default,
                regions.sort_by(region::region_order()),
            ),
        }
    }
}

/// The number in the `i`-th eight bytes.
pub open spec fn header_number(bytes: Seq<u8>, i: int) -> nat {
    little_endian(bytes.subrange(8 * i, 8 * i + 8))
}

/// The karg embed areas at a list of offsets from the `i`-th on. An offset of
/// zero ends the list.
pub open spec fn header_areas(file: Seq<u8>, offsets: Seq<u8>, length: usize, i: int) -> Result<
    Seq<RegionView>,
    Refusal,
>
    decreases KARG_HEADER_MAX_AREAS - i,
{
    if i >= KARG_HEADER_MAX_AREAS {
        Ok(Seq::empty())
    } else {
        let offset = header_number(offsets, i) as u64;
        if offset == 0 {
            Ok(Seq::empty())
        } else if !region::readable(file, offset as int, length as int) {
            Err(Refusal::ReadRegion { offset, length })
        } else {
            match header_areas(file, offsets, length, i + 1) {
                Err(e) => Err(e),
                Ok(rest) => Ok(seq![region::region_at(file, offset, length)] + rest),
            }
        }
    }
}

/// The karg embed areas that the system area of an image announces: `None` if
/// there is no header.
pub open spec fn system_areas(file: Seq<u8>) -> Result<Option<AreasView>, Refusal> {
    if !region::readable(file, KARG_HEADER_OFFSET as int, KARG_HEADER_SIZE as int) {
        Err(Refusal::ReadRegion { offset: KARG_HEADER_OFFSET, length: KARG_HEADER_SIZE })
    } else {
        let header = file.subrange(
            KARG_HEADER_OFFSET as int,
            KARG_HEADER_OFFSET + KARG_HEADER_SIZE,
        );
        let length = header_number(header, 1);
        let default_offset = header_number(header, 2) as u64;
        if header.take(8) != KARG_HEADER_MAGIC@ {
            Ok(None)
        } else if length > usize::MAX {
            Err(Refusal::KargLengthUnusable { value: length as u64 })
        } else if length > KARG_AREA_MAX_SIZE {
            Err(Refusal::KargLengthTooLarge { length: length as usize })
        } else if !region::readable(file, default_offset as int, length as int) {
            Err(Refusal::ReadRegion { offset: default_offset, length: length as usize })
        } else {
            match area::area_kargs(
                region::region_at(file, default_offset, length as usize).contents,
            ) {
                None => Err(Refusal::KargAreaEncoding),
                Some(default) => match header_areas(file, header.skip(24), length as usize, 0) {
                    Err(e) => Err(e),
                    Ok(regions) => match built(length as usize, default, regions) {
                        Err(e) => Err(e),
                        Ok(areas) => Ok(Some(areas)),
                    },
                },
            }
        }
    }
}

/// The write that replaces the description file of an image: the text, filled
/// up with spaces to the length of the file.
pub open spec fn info_write(json: Seq<char>, file: iso::IsoFileView) -> Result<
    region::WriteView,
    Refusal,
> {
    let bytes = encode_utf8(json);
    if bytes.len() > file.length {
        Err(
            Refusal::KargInfoTooLarge {
                needed: bytes.len() as usize,
                file_length: file.length,
            },
        )
    } else {
        Ok(
            region::WriteView {
                offset: file.offset,
                data: bytes + Seq::new((file.length - bytes.len()) as nat, |i: int| 32u8),
            },
        )
    }
}

/// How the description of the karg embed areas is read: it is absent where the
/// image has no such file, and otherwise what `parse` makes of the bytes of the
/// file.
pub open spec fn info_read<F: Fn(&[u8]) -> Result<KargEmbedInfo, String>>(
    image: IsoView,
    parse: F,
    r: Result<Option<KargEmbedInfo>, LiveError>,
) -> bool {
    match iso::file_at(image.entries, KARG_INFO_PATH@) {
        Err(Refusal::NotFound { .. }) => r == Ok::<Option<KargEmbedInfo>, LiveError>(None),
        Err(e) => r matches Err(found) && found@ == e,
        Ok(file) => exists|bytes: &[u8], parsed: Result<KargEmbedInfo, String>|
            {
                &&& bytes@ == iso::file_bytes(image.file, file)
                &&& #[trigger] call_ensures(parse, (bytes,), parsed)
                &&& match parsed {
                    Ok(info) => r == Ok::<Option<KargEmbedInfo>, LiveError>(Some(info)),
                    Err(reason) => r matches Err(found) && found@ == (Refusal::ParseKargInfo {
                        reason: reason@,
                    }),
                }
            },
    }
}

/// How the description of an image is replaced: by what `to_json` makes of the
/// new one.
pub open spec fn info_updated<G: Fn(&KargEmbedInfo) -> Result<String, String>>(
    image: IsoView,
    info: InfoView,
    to_json: G,
    r: Result<region::WriteView, Refusal>,
) -> bool {
    match iso::file_at(image.entries, KARG_INFO_PATH@) {
        Err(e) => r == Err::<region::WriteView, Refusal>(e),
        Ok(file) => exists|i: &KargEmbedInfo, json: Result<String, String>|
            {
                &&& i@ == info
                &&& #[trigger] call_ensures(to_json, (i,), json)
                &&& r == match json {
                    Ok(json) => info_write(json@, file),
                    Err(reason) => Err(Refusal::SerializeKargInfo { reason: reason@ }),
                }
            },
    }
}

impl KargEmbedInfo {
    /// Reads the description of the karg embed areas, if the image has one.
    pub fn for_iso<F: Fn(&[u8]) -> Result<KargEmbedInfo, String>>(image: &IsoFs, parse: &F) -> (r:
        Result<Option<KargEmbedInfo>, LiveError>)
        requires
            forall|bytes: &[u8]| call_requires(*parse, (bytes,)),
        ensures
            info_read(image@, *parse, r),
    {
        let file = match image.get_file(KARG_INFO_PATH) {
            Ok(file) => file,
            Err(LiveError::NotFound { .. }) => {
                return Ok(None);
            },
            Err(e) => {
                return Err(e);
            },
        };
        let bytes: &[u8] = image.read_file(&file);
        match parse(bytes) {
            Ok(info) => Ok(Some(info)),
            Err(reason) => Err(LiveError::ParseKargInfo { reason }),
        }
    }

    /// The write that replaces the description by the given text.
    pub fn replacement(json: &str, file: &IsoFile) -> (r: Result<WriteOp, LiveError>)
        ensures
            error::outcome(r) == info_write(json@, file@),
    {
        let mut data: Vec<u8> = Vec::new();
        data.extend_from_slice(json.as_bytes());
        assert(data@ =~= encode_utf8(json@));
        let needed: usize = data.len();
        if needed as u64 > file.length as u64 {
            return Err(LiveError::KargInfoTooLarge { needed, file_length: file.length });
        }
        let ghost text = data@;
        while (data.len() as u64) < file.length as u64
            invariant
                text.len() <= data@.len() <= file.length,
                data@ == text + Seq::new((data@.len() - text.len()) as nat, |i: int| 32u8),
            decreases file.length - data.len(),
        {
            data.push(32);
            assert(data@ =~= text + Seq::new((data@.len() - text.len()) as nat, |i: int| 32u8));
        }
        assert(data@ =~= text + Seq::new((file.length - text.len()) as nat, |i: int| 32u8));
        Ok(WriteOp { offset: file.offset, data })
    }

    /// The write that replaces the description of an image by this one.
    pub fn update_iso<G: Fn(&KargEmbedInfo) -> Result<String, String>>(
        &self,
        image: &IsoFs,
        to_json: &G,
    ) -> (r: Result<WriteOp, LiveError>)
        requires
            forall|info: &KargEmbedInfo| call_requires(*to_json, (info,)),
        ensures
            info_updated(image@, self@, *to_json, error::outcome(r)),
    {
        let file = match image.get_file(KARG_INFO_PATH) {
            Ok(file) => file,
            Err(e) => {
                return Err(e);
            },
        };
        match to_json(self) {
            Ok(json) => KargEmbedInfo::replacement(json.as_str(), &file),
            Err(reason) => Err(LiveError::SerializeKargInfo { reason }),
        }
    }
}

impl KargEmbedAreas {
    /// Reads the karg embed area at an offset within the file at a path.
    pub fn read_area(image: &IsoFs, path: &str, relative: u64, size: usize) -> (r: Result<
        Region,
        LiveError,
    >)
        ensures
            error::outcome(r) == located_area(image@, path@, relative, size),
    {
        let file = match image.get_file(path) {
            Ok(file) => file,
            Err(e) => {
                return Err(e);
            },
        };
        if relative > u64::MAX - file.offset {
            return Err(LiveError::KargOffsetUnusable { relative });
        }
        Region::read(image.file.as_slice(), file.offset + relative, size)
    }

    /// The kargs that a region holds.
    pub fn parse(region: &Region) -> (r: Result<String, LiveError>)
        ensures
            match r {
                Ok(kargs) => area::area_kargs(region@.contents) == Some(kargs@),
                Err(e) => area::area_kargs(region@.contents) is None && e@
                    == Refusal::KargAreaEncoding,
            },
    {
        match area::parse_area(&region.contents) {
            Some(kargs) => Ok(kargs),
            None => Err(LiveError::KargAreaEncoding),
        }
    }

    /// Makes karg embed areas of regions, which must all hold the same kargs.
    pub fn build(length: usize, default: String, regions: Vec<Region>) -> (r: Result<
        KargEmbedAreas,
        LiveError,
    >)
        ensures
            error::outcome(r) == built(length, default@, stream::region_views(regions@)),
    {
        let ghost rv = stream::region_views(regions@);
        if regions.len() == 0 {
            return Err(LiveError::KargAreasCorrupted);
        }
        assert(rv[0] == regions@[0]@);
        let args = match KargEmbedAreas::parse(&regions[0]) {
            Ok(args) => args,
            Err(e) => {
                return Err(e);
            },
        };
        let mut i: usize = 1;
        assert(rv.skip(1) =~= rv.drop_first());
        while i < regions.len()
            invariant
                1 <= i <= regions.len(),
                rv == stream::region_views(regions@),
                area::area_kargs(rv[0].contents) == Some(args@),
                first_disagreement(rv.drop_first(), args@) == first_disagreement(
                    rv.skip(i as int),
                    args@,
                ),
            decreases regions.len() - i,
        {
            assert(rv.skip(i as int).first() == regions@[i as int]@);
            assert(rv.skip(i as int).drop_first() =~= rv.skip(i + 1));
            match KargEmbedAreas::parse(&regions[i]) {
                Err(e) => {
                    return Err(e);
                },
                Ok(current) => {
                    if current != args {
                        return Err(
                            LiveError::KargsMismatch {
                                first: args,
                                offset: regions[i].offset,
                                other: current,
                            },
                        );
                    }
                },
            }
            i = i + 1;
        }
        Ok(KargEmbedAreas { length, default, regions, args })
    }

    /// The karg embed areas that a description announces.
    pub fn from_info(image: &IsoFs, info: KargEmbedInfo) -> (r: Result<KargEmbedAreas, LiveError>)
        ensures
            error::outcome(r) == described_areas(image@, info@),
            r matches Ok(areas) ==> areas@.wf(),
    {
        if info.size > KARG_AREA_MAX_SIZE {
            return Err(LiveError::KargSizeTooLarge { size: info.size });
        }
        let needed: usize = info.default.as_str().as_bytes().len();
        if needed > info.size {
            return Err(LiveError::DefaultKargsTooLarge { needed, available: info.size });
        }
        let ghost files = location_views(info.files@);
        let mut regions: Vec<Region> = Vec::new();
        let mut i: usize = 0;
        assert(stream::region_views(regions@) =~= Seq::empty());
        while i < info.files.len()
            invariant
                i <= info.files.len(),
                files == location_views(info.files@),
                located_areas(image@, files.take(i as int), info.size) == Ok::<
                    Seq<RegionView>,
                    Refusal,
                >(stream::region_views(regions@)),
                read_with_length(stream::region_views(regions@), info.size),
                info.size <= KARG_AREA_MAX_SIZE,
                encode_utf8(info.default@).len() <= info.size,
            decreases info.files.len() - i,
        {
            let ghost before = stream::region_views(regions@);
            assert(files.take(i + 1).drop_last() =~= files.take(i as int));
            assert(files.take(i + 1).last() == info.files@[i as int]@);
            let path = text::to_uppercase(info.files[i].path.as_str());
            let found = KargEmbedAreas::read_area(
                image,
                path.as_str(),
                info.files[i].offset,
                info.size,
            );
            match found {
                Err(e) => {
                    proof {
                        lemma_located_error(image@, files, i + 1, info.size);
                    }
                    return Err(e);
                },
                Ok(region) => {
                    let ghost view = region@;
                    regions.push(region);
                    proof {
                        assert(stream::region_views(regions@) =~= before.push(view));
                        assert forall|k: int|
                            0 <= k < stream::region_views(regions@).len() implies {
                            &&& (#[trigger] stream::region_views(regions@)[k]).length == info.size
                            &&& stream::region_views(regions@)[k].fits()
                            &&& stream::region_views(regions@)[k].end() <= u64::MAX
                        } by {
                            if k < before.len() {
                                assert(stream::region_views(regions@)[k] == before[k]);
                            }
                        }
                    }
                },
            }
            i = i + 1;
        }
        assert(files.take(i as int) =~= files);
        let ghost unsorted = stream::region_views(regions@);
        let sorted = stream::sort_regions(regions);
        let ghost rv = stream::region_views(sorted@);
        proof {
            stream::lemma_region_order();
            unsorted.lemma_sort_by_ensures(region::region_order());
            assert forall|k: int| 0 <= k < rv.len() implies {
                &&& (#[trigger] rv[k]).length == info.size
                &&& rv[k].fits()
                &&& rv[k].end() <= u64::MAX
            } by {
                assert(rv.contains(rv[k]));
                assert(unsorted.contains(rv[k]));
            }
        }
        let r = KargEmbedAreas::build(info.size, info.default, sorted);
        proof {
            if r is Ok {
                lemma_built_wf(info.size, info.default@, rv);
            }
        }
        r
    }

    /// Reads the karg embed areas at a list of offsets, which an offset of zero
    /// ends.
    fn listed_areas(file: &[u8], offsets: &[u8], length: usize) -> (r: Result<
        Vec<Region>,
        LiveError,
    >)
        requires
            offsets@.len() == 8 * KARG_HEADER_MAX_AREAS,
            length <= KARG_AREA_MAX_SIZE,
        ensures
            match r {
                Ok(regions) => header_areas(file@, offsets@, length, 0) == Ok::<
                    Seq<RegionView>,
                    Refusal,
                >(stream::region_views(regions@)) && read_with_length(
                    stream::region_views(regions@),
                    length,
                ),
                Err(e) => header_areas(file@, offsets@, length, 0) == Err::<
                    Seq<RegionView>,
                    Refusal,
                >(e@),
            },
    {
        let ghost h = offsets@;
        let ghost total = header_areas(file@, h, length, 0);
        let mut header: &[u8] = offsets;
        let mut regions: Vec<Region> = Vec::new();
        proof {
            assert(stream::region_views(regions@) =~= Seq::<RegionView>::empty());
            if total is Ok {
                assert(Seq::<RegionView>::empty() + total->Ok_0 =~= total->Ok_0);
            }
            assert(h.skip(0) =~= h);
        }
        while regions.len() < KARG_HEADER_MAX_AREAS
            invariant
                h == offsets@,
                h.len() == 8 * KARG_HEADER_MAX_AREAS,
                regions.len() <= KARG_HEADER_MAX_AREAS,
                header@ == h.skip(8 * regions@.len() as int),
                length <= KARG_AREA_MAX_SIZE,
                read_with_length(stream::region_views(regions@), length),
                total == header_areas(file@, h, length, 0),
                match header_areas(file@, h, length, regions@.len() as int) {
                    Ok(rest) => total == Ok::<Seq<RegionView>, Refusal>(
                        stream::region_views(regions@) + rest,
                    ),
                    Err(e) => total == Err::<Seq<RegionView>, Refusal>(e),
                },
            decreases KARG_HEADER_MAX_AREAS - regions.len(),
        {
            let ghost n = regions@.len() as int;
            let ghost before = stream::region_views(regions@);
            assert(header@.take(8) =~= h.subrange(8 * n, 8 * n + 8));
            let offset: u64 = get_u64_le(&mut header);
            assert(offset == header_number(h, n));
            if offset == 0 {
                assert(before + Seq::<RegionView>::empty() =~= before);
                return Ok(regions);
            }
            match Region::read(file, offset, length) {
                Err(e) => {
                    return Err(e);
                },
                Ok(region) => {
                    let ghost view = region@;
                    regions.push(region);
                    proof {
                        let after = stream::region_views(regions@);
                        assert(after =~= before.push(view));
                        assert(header@ =~= h.skip(8 * (n + 1)));
                        match header_areas(file@, h, length, n + 1) {
                            Ok(rest) => {
                                assert(before + (seq![view] + rest) =~= after + rest);
                            },
                            Err(e) => {},
                        }
                        assert forall|k: int| 0 <= k < after.len() implies {
                            &&& (#[trigger] after[k]).length == length
                            &&& after[k].fits()
                            &&& after[k].end() <= u64::MAX
                        } by {
                            if k < before.len() {
                                assert(after[k] == before[k]);
                            }
                        }
                    }
                },
            }
        }
        let ghost rv = stream::region_views(regions@);
        assert(rv + Seq::<RegionView>::empty() =~= rv);
        Ok(regions)
    }

    /// The karg embed areas that the system area of an image announces, if it
    /// has a header for them.
    pub fn for_file_via_system_area(file: &[u8]) -> (r: Result<Option<KargEmbedAreas>, LiveError>)
        ensures
            error::optional_outcome(r) == system_areas(file@),
            r matches Ok(Some(areas)) ==> areas@.wf(),
    {
        let region = match Region::read(file, KARG_HEADER_OFFSET, KARG_HEADER_SIZE) {
            Ok(region) => region,
            Err(e) => {
                return Err(e);
            },
        };
        let ghost h = region.contents@;
        assert(h == file@.subrange(
            KARG_HEADER_OFFSET as int,
            KARG_HEADER_OFFSET + KARG_HEADER_SIZE,
        ));
        let mut header: &[u8] = region.contents.as_slice();
        let magic = copy_to_bytes(&mut header, 8);
        if !order::same_bytes(magic.as_slice(), KARG_HEADER_MAGIC.as_slice()) {
            return Ok(None);
        }
        assert(h.skip(8).take(8) =~= h.subrange(8, 16));
        let value: u64 = get_u64_le(&mut header);
        assert(value == header_number(h, 1));
        if value > usize::MAX as u64 {
            return Err(LiveError::KargLengthUnusable { value });
        }
        let length: usize = value as usize;
        if length > KARG_AREA_MAX_SIZE {
            return Err(LiveError::KargLengthTooLarge { length });
        }
        assert(header@ =~= h.skip(16));
        assert(h.skip(16).take(8) =~= h.subrange(16, 24));
        let default_offset: u64 = get_u64_le(&mut header);
        assert(default_offset == header_number(h, 2));
        let default_region = match Region::read(file, default_offset, length) {
            Ok(region) => region,
            Err(e) => {
                return Err(e);
            },
        };
        let default = match KargEmbedAreas::parse(&default_region) {
            Ok(default) => default,
            Err(e) => {
                return Err(e);
            },
        };
        assert(header@ =~= h.skip(24));
        let regions = match KargEmbedAreas::listed_areas(file, header, length) {
            Ok(regions) => regions,
            Err(e) => {
                return Err(e);
            },
        };
        let ghost rv = stream::region_views(regions@);
        let ghost default_text = default@;
        match KargEmbedAreas::build(length, default, regions) {
            Ok(areas) => {
                proof {
                    lemma_built_wf(length, default_text, rv);
                }
                Ok(Some(areas))
            },
            Err(e) => Err(e),
        }
    }

    /// The karg embed areas of an image, if it has any: those of its
    /// description, or, in an image without one, those of its system area.
    pub fn for_iso<F: Fn(&[u8]) -> Result<KargEmbedInfo, String>>(image: &IsoFs, parse: &F) -> (r:
        Result<Option<KargEmbedAreas>, LiveError>)
        requires
            forall|bytes: &[u8]| call_requires(*parse, (bytes,)),
        ensures
            areas_read(image@, *parse, error::optional_outcome(r)),
            r matches Ok(Some(areas)) ==> areas@.wf(),
    {
        let read = KargEmbedInfo::for_iso(image, parse);
        let ghost info = read;
        match read {
            Err(e) => {
                let r: Result<Option<KargEmbedAreas>, LiveError> = Err(e);
                assert(info_read(image@, *parse, info));
                r
            },
            Ok(None) => KargEmbedAreas::for_file_via_system_area(image.file.as_slice()),
            Ok(Some(found)) => match KargEmbedAreas::from_info(image, found) {
                Ok(areas) => Ok(Some(areas)),
                Err(e) => Err(e),
            },
        }
    }

    /// The kargs that the image was built with.
    pub fn kargs_default(&self) -> (r: &str)
        ensures
            r@ == self@.default,
    {
        self.default.as_str()
    }

    /// The kargs that the areas hold.
    pub fn kargs(&self) -> (r: &str)
        ensures
            r@ == self@.args,
    {
        self.args.as_str()
    }

    /// Puts other kargs in all areas. White space at their ends is dropped.
    pub fn set_kargs(&mut self, kargs: &str) -> (r: Result<(), LiveError>)
        ensures
            match r {
                Ok(()) => area::area_fits(text::trimmed(kargs@), old(self)@.length as nat)
                    && final(self)@ == old(self)@.with_kargs(text::trimmed(kargs@)),
                Err(e) => {
                    &&& !area::area_fits(text::trimmed(kargs@), old(self)@.length as nat)
                    &&& e@ == (Refusal::KargsTooLarge {
                        needed: area::area_need(text::trimmed(kargs@)),
                        available: old(self)@.length,
                    })
                    &&& final(self)@ == old(self)@
                },
            },
            old(self)@.wf() ==> final(self)@.wf(),
    {
        let unformatted: &str = text::trim(kargs);
        let size: usize = unformatted.as_bytes().len();
        if size >= self.length {
            return Err(
                LiveError::KargsTooLarge {
                    needed: size.saturating_add(1),
                    available: self.length,
                },
            );
        }
        let contents = area::format_area(unformatted, self.length);
        let ghost before = stream::region_views(self.regions@);
        let ghost bytes = contents@;
        let mut i: usize = 0;
        while i < self.regions.len()
            invariant
                i <= self.regions@.len(),
                self.regions@.len() == before.len(),
                contents@ == bytes,
                self.length == old(self).length,
                self.default == old(self).default,
                self.args == old(self).args,
                forall|k: int|
                    0 <= k < i ==> (#[trigger] self.regions@[k])@ == (RegionView {
                        contents: bytes,
                        modified: true,
                        ..before[k]
                    }),
                forall|k: int|
                    i <= k < before.len() ==> (#[trigger] self.regions@[k])@ == before[k],
            decreases self.regions.len() - i,
        {
            let copy = contents.clone();
            assert(copy@ =~= bytes);
            let region = Region {
                offset: self.regions[i].offset,
                length: self.regions[i].length,
                contents: copy,
                modified: true,
            };
            assert(self.regions@[i as int]@ == before[i as int]);
            self.regions.set(i, region);
            i = i + 1;
        }
        self.args = unformatted.to_owned();
        proof {
            let k = text::trimmed(kargs@);
            assert(self@.regions =~= old(self)@.with_kargs(k).regions);
            assert(self@ =~= old(self)@.with_kargs(k));
            area::law_area_round_trip(kargs@, self.length as nat);
            if old(self)@.wf() {
                assert forall|j: int| 0 <= j < self@.regions.len() implies {
                    &&& (#[trigger] self@.regions[j]).length == self@.length
                    &&& self@.regions[j].fits()
                    &&& self@.regions[j].end() <= u64::MAX
                    &&& area::area_kargs(self@.regions[j].contents) == Some(self@.args)
                } by {
                    assert(old(self)@.regions[j].length == self@.length);
                }
            }
        }
        Ok(())
    }

    /// The writes that put the modified areas in place.
    pub fn write(&self) -> (r: Result<Vec<WriteOp>, LiveError>)
        ensures
            match r {
                Ok(ops) => first_unfit(self@.regions) is None && region::writes(ops@)
                    == region::region_writes(self@.regions),
                Err(e) => first_unfit(self@.regions) == Some(e@),
            },
    {
        let ghost rv = self@.regions;
        let mut ops: Vec<WriteOp> = Vec::new();
        let mut i: usize = 0;
        assert(region::writes(ops@) =~= region::region_writes(rv.take(0)));
        assert(rv.skip(0) =~= rv);
        while i < self.regions.len()
            invariant
                i <= self.regions.len(),
                rv == self@.regions,
                region::writes(ops@) == region::region_writes(rv.take(i as int)),
                first_unfit(rv) == first_unfit(rv.skip(i as int)),
            decreases self.regions.len() - i,
        {
            let ghost before = region::writes(ops@);
            assert(rv.take(i + 1).drop_last() =~= rv.take(i as int));
            assert(rv.take(i + 1).last() == self.regions@[i as int]@);
            assert(rv.skip(i as int).first() == self.regions@[i as int]@);
            assert(rv.skip(i as int).drop_first() =~= rv.skip(i + 1));
            match self.regions[i].write() {
                Err(e) => {
                    return Err(e);
                },
                Ok(Some(op)) => {
                    let ghost view = op@;
                    ops.push(op);
                    assert(region::writes(ops@) =~= before.push(view));
                },
                Ok(None) => {},
            }
            i = i + 1;
        }
        assert(rv.take(i as int) =~= rv);
        Ok(ops)
    }
}

/// The first region of a list whose contents do not fill it.
pub open spec fn first_unfit(regions: Seq<RegionView>) -> Option<Refusal>
    decreases regions.len(),
{
    if regions.len() == 0 {
        None
    } else if !regions.first().fits() {
        Some(
            Refusal::RegionLength {
                expected: regions.first().length,
                found: regions.first().contents.len() as usize,
            },
        )
    } else {
        first_unfit(regions.drop_first())
    }
}

/// How the karg embed areas of an image are read.
pub open spec fn areas_read<F: Fn(&[u8]) -> Result<KargEmbedInfo, String>>(
    image: IsoView,
    parse: F,
    r: Result<Option<AreasView>, Refusal>,
) -> bool {
    exists|info: Result<Option<KargEmbedInfo>, LiveError>|
        #[trigger] info_read(image, parse, info) && r == (match info {
            Err(e) => Err(e@),
            Ok(None) => system_areas(image.file),
            Ok(Some(info)) => match described_areas(image, info@) {
                Ok(areas) => Ok(Some(areas)),
                Err(e) => Err(e),
            },
        })
}

/// An error on the way to a prefix of the locations is the error of all.
proof fn lemma_located_error(image: IsoView, files: Seq<LocationView>, n: int, size: usize)
    requires
        0 <= n <= files.len(),
        located_areas(image, files.take(n), size) is Err,
    ensures
        located_areas(image, files, size) == located_areas(image, files.take(n), size),
    decreases files.len() - n,
{
    if n < files.len() {
        assert(files.take(n + 1).drop_last() =~= files.take(n));
        lemma_located_error(image, files, n + 1, size);
    } else {
        assert(files.take(n) =~= files);
    }
}

} // verus!
