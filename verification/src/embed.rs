//! The embed area of a live image for an initramfs.

use crate::error;
use crate::error::{LiveError, Refusal};
use crate::initrd::Initrd;
use crate::iso;
use crate::iso::{IsoFs, IsoView};
use crate::region;
use crate::region::{Region, RegionView, WriteOp};
use vstd::prelude::*;

verus! {

/// The file of the image that is the embed area.
pub const INITRD_EMBED_PATH: &'static str = "IMAGES/IGNITION.IMG";

/// The embed area of an image: where it lies, and the initramfs that it holds.
#[derive(Debug)]
pub struct InitrdEmbedArea {
    /// The area. Its contents stay empty: they are made when they are needed.
    pub region: Region,
    /// The initramfs.
    pub initrd: Initrd,
}

/// An embed area with its files as a map.
#[verifier::ext_equal]
pub struct EmbedView {
    pub region: RegionView,
    pub files: Map<Seq<char>, Seq<u8>>,
}

impl View for InitrdEmbedArea {
    type V = EmbedView;

    open spec fn view(&self) -> EmbedView {
        EmbedView { region: self.region@, files: self.initrd@ }
    }
}

impl EmbedView {
    /// The contents of the area are left empty, and its end is a file position.
    pub open spec fn wf(self) -> bool {
        self.region.contents.len() == 0 && self.region.end() <= u64::MAX
    }
}

/// The embed area of an image, or why there is none.
pub open spec fn embed_region(image: IsoView) -> Result<RegionView, Refusal> {
    match iso::file_at(image.entries, INITRD_EMBED_PATH@) {
        Err(e) => Err(e),
        Ok(file) => if region::readable(image.file, file.offset as int, file.length as int) {
            Ok(region::region_at(image.file, file.offset, file.length as usize))
        } else {
            Err(Refusal::ReadRegion { offset: file.offset, length: file.length as usize })
        },
    }
}

/// Whether bytes are all zero.
pub open spec fn blank(bytes: Seq<u8>) -> bool {
    forall|i: int| 0 <= i < bytes.len() ==> #[trigger] bytes[i] == 0
}

/// A region without its contents.
pub open spec fn emptied(region: RegionView) -> RegionView {
    RegionView { contents: Seq::empty(), ..region }
}

/// The embed area that a region and the outcome of its decoding make.
pub open spec fn decoded_area(region: RegionView, decoded: Result<Initrd, String>) -> Result<
    EmbedView,
    Refusal,
> {
    match decoded {
        Ok(initrd) => Ok(EmbedView { region: emptied(region), files: initrd@ }),
        Err(reason) => Err(Refusal::DecodeInitrd { reason: reason@ }),
    }
}

/// How the embed area of an image is read: a blank area holds no files, and any
/// other what `decode` makes of its bytes.
pub open spec fn embed_read<D: Fn(&[u8]) -> Result<Initrd, String>>(
    image: IsoView,
    decode: D,
    r: Result<EmbedView, Refusal>,
) -> bool {
    match embed_region(image) {
        Err(e) => r == Err::<EmbedView, Refusal>(e),
        Ok(region) => if blank(region.contents) {
            r == Ok::<EmbedView, Refusal>(
                EmbedView { region: emptied(region), files: Map::empty() },
            )
        } else {
            exists|bytes: &[u8], decoded: Result<Initrd, String>|
                {
                    &&& bytes@ == region.contents
                    &&& #[trigger] call_ensures(decode, (bytes,), decoded)
                    &&& r == decoded_area(region, decoded)
                }
        },
    }
}

/// An area filled with an encoded initramfs, and zeros behind it.
pub open spec fn filled_region(region: RegionView, encoded: Seq<u8>) -> Result<
    RegionView,
    Refusal,
> {
    if encoded.len() > region.length {
        Err(
            Refusal::InitrdTooLarge {
                needed: encoded.len() as usize,
                available: region.length,
            },
        )
    } else {
        Ok(
            RegionView {
                contents: encoded + Seq::new((region.length - encoded.len()) as nat, |i: int| 0u8),
                ..region
            },
        )
    }
}

/// How an embed area is encoded: without files as zeros alone, and otherwise as
/// what `encode` makes of the files.
pub open spec fn embed_encoded<E: Fn(&Initrd) -> Result<Vec<u8>, String>>(
    area: EmbedView,
    encode: E,
    r: Result<RegionView, Refusal>,
) -> bool {
    if area.files == Map::<Seq<char>, Seq<u8>>::empty() {
        r == filled_region(area.region, Seq::empty())
    } else {
        exists|initrd: &Initrd, encoded: Result<Vec<u8>, String>|
            {
                &&& initrd@ == area.files
                &&& #[trigger] call_ensures(encode, (initrd,), encoded)
                &&& r == match encoded {
                    Ok(bytes) => filled_region(area.region, bytes@),
                    Err(reason) => Err(Refusal::EncodeInitrd { reason: reason@ }),
                }
            }
    }
}

/// Whether bytes are all zero.
fn is_blank(bytes: &Vec<u8>) -> (r: bool)
    ensures
        r == blank(bytes@),
{
    let mut i: usize = 0;
    while i < bytes.len()
        invariant
            i <= bytes.len(),
            forall|k: int| 0 <= k < i ==> #[trigger] bytes@[k] == 0,
        decreases bytes.len() - i,
    {
        if bytes[i] != 0 {
            return false;
        }
        i = i + 1;
    }
    true
}

impl InitrdEmbedArea {
    /// Reads the region of the embed area.
    pub fn locate(image: &IsoFs) -> (r: Result<Region, LiveError>)
        ensures
            error::outcome(r) == embed_region(image@),
            r matches Ok(region) ==> region@.end() <= u64::MAX,
    {
        let file = match image.get_file(INITRD_EMBED_PATH) {
            Ok(file) => file,
            Err(e) => {
                return Err(e);
            },
        };
        Region::read(image.file.as_slice(), file.offset, file.length as usize)
    }

    /// Makes the embed area of its region and the outcome of its decoding.
    pub fn from_decoded(region: Region, decoded: Result<Initrd, String>) -> (r: Result<
        InitrdEmbedArea,
        LiveError,
    >)
        ensures
            error::outcome(r) == decoded_area(region@, decoded),
    {
        match decoded {
            Ok(initrd) => {
                let region = Region {
                    offset: region.offset,
                    length: region.length,
                    contents: Vec::new(),
                    modified: region.modified,
                };
                assert(region.contents@ =~= Seq::<u8>::empty());
                Ok(InitrdEmbedArea { region, initrd })
            },
            Err(reason) => Err(LiveError::DecodeInitrd { reason }),
        }
    }

    /// Reads the embed area of an image.
    pub fn for_iso<D: Fn(&[u8]) -> Result<Initrd, String>>(image: &IsoFs, decode: &D) -> (r: Result<
        InitrdEmbedArea,
        LiveError,
    >)
        requires
            forall|bytes: &[u8]| call_requires(*decode, (bytes,)),
        ensures
            embed_read(image@, *decode, error::outcome(r)),
            r matches Ok(area) ==> area@.wf(),
    {
        let region = match InitrdEmbedArea::locate(image) {
            Ok(region) => region,
            Err(e) => {
                return Err(e);
            },
        };
        if is_blank(&region.contents) {
            return InitrdEmbedArea::from_decoded(region, Ok(Initrd::default()));
        }
        let bytes: &[u8] = region.contents.as_slice();
        let decoded = decode(bytes);
        InitrdEmbedArea::from_decoded(region, decoded)
    }

    /// The initramfs.
    pub fn initrd(&self) -> (r: &Initrd)
        ensures
            r == self.initrd,
    {
        &self.initrd
    }

    /// The initramfs, to be changed.
    pub fn initrd_mut(&mut self) -> (r: &mut Initrd)
        ensures
            *r == old(self).initrd,
            final(self).initrd == *final(r),
            final(self)@ == (EmbedView {
                region: RegionView { modified: true, ..old(self)@.region },
                files: final(r)@,
            }),
    {
        self.region.modified = true;
        &mut self.initrd
    }

    /// The region of the area, filled with an encoded initramfs.
    pub fn filled(&self, encoded: Vec<u8>) -> (r: Result<Region, LiveError>)
        ensures
            error::outcome(r) == filled_region(self@.region, encoded@),
    {
        let capacity: usize = self.region.length;
        let mut contents: Vec<u8> = encoded;
        let ghost data = contents@;
        if contents.len() > capacity {
            return Err(LiveError::InitrdTooLarge { needed: contents.len(), available: capacity });
        }
        while contents.len() < capacity
            invariant
                data.len() <= contents@.len() <= capacity,
                contents@ == data + Seq::new((contents@.len() - data.len()) as nat, |i: int| 0u8),
            decreases capacity - contents.len(),
        {
            contents.push(0);
            assert(contents@ =~= data + Seq::new(
                (contents@.len() - data.len()) as nat,
                |i: int| 0u8,
            ));
        }
        Ok(
            Region {
                offset: self.region.offset,
                length: capacity,
                contents,
                modified: self.region.modified,
            },
        )
    }

    /// The region of the area with its contents.
    pub fn region<E: Fn(&Initrd) -> Result<Vec<u8>, String>>(&self, encode: &E) -> (r: Result<
        Region,
        LiveError,
    >)
        requires
            forall|initrd: &Initrd| call_requires(*encode, (initrd,)),
        ensures
            embed_encoded(self@, *encode, error::outcome(r)),
            r matches Ok(region) ==> region@.fits() && region@ == (RegionView {
                contents: region@.contents,
                ..self@.region
            }),
    {
        if self.initrd.is_empty() {
            return self.filled(Vec::new());
        }
        match encode(&self.initrd) {
            Ok(encoded) => self.filled(encoded),
            Err(reason) => Err(LiveError::EncodeInitrd { reason }),
        }
    }

    /// The write that puts a modified area in place.
    pub fn write<E: Fn(&Initrd) -> Result<Vec<u8>, String>>(&self, encode: &E) -> (r: Result<
        Option<WriteOp>,
        LiveError,
    >)
        requires
            forall|initrd: &Initrd| call_requires(*encode, (initrd,)),
        ensures
            exists|region: Result<RegionView, Refusal>| #[trigger]
                embed_encoded(self@, *encode, region) && error::optional_outcome(r) == (
                match region {
                    Ok(region) => Ok(region::region_write(region)),
                    Err(e) => Err(e),
                }),
    {
        let region = self.region(encode);
        let ghost outcome = error::outcome(region);
        assert(embed_encoded(self@, *encode, outcome));
        match region {
            Ok(region) => region.write(),
            Err(e) => Err(e),
        }
    }
}

} // verus!
