//! What holds of reading, changing and writing images as a whole.

use crate::area;
use crate::embed;
use crate::embed::EmbedView;
use crate::error::{LiveError, Refusal};
use crate::initrd::Initrd;
use crate::iso;
use crate::iso::IsoView;
use crate::iso_config;
use crate::iso_config::ConfigView;
use crate::kargs;
use crate::kargs::{AreasView, InfoView, KargEmbedInfo};
use crate::read_back;
use crate::region;
use crate::region::RegionView;
use crate::stream;
use crate::text;
use vstd::prelude::*;

verus! {

/// Whether bytes are others with zeros behind them.
pub open spec fn zero_padded(data: Seq<u8>, bytes: Seq<u8>) -> bool {
    &&& data.len() <= bytes.len()
    &&& bytes.take(data.len() as int) == data
    &&& embed::blank(bytes.skip(data.len() as int))
}

/// Whether an initramfs is decoded as it was encoded, also with zeros behind it.
pub open spec fn inverse<
    D: Fn(&[u8]) -> Result<Initrd, String>,
    E: Fn(&Initrd) -> Result<Vec<u8>, String>,
>(decode: D, encode: E) -> bool {
    forall|
        initrd: &Initrd,
        encoded: Result<Vec<u8>, String>,
        bytes: &[u8],
        decoded: Result<Initrd, String>,
    |
        #![trigger call_ensures(encode, (initrd,), encoded), call_ensures(decode, (bytes,), decoded)]
        call_ensures(encode, (initrd,), encoded) && call_ensures(decode, (bytes,), decoded) && (
        encoded matches Ok(data) && zero_padded(data@, bytes@)) ==> (decoded matches Ok(again)
            && again@ == initrd@)
}

/// Whether no initramfs with files is encoded as zeros alone.
pub open spec fn never_blank<E: Fn(&Initrd) -> Result<Vec<u8>, String>>(encode: E) -> bool {
    forall|initrd: &Initrd, encoded: Result<Vec<u8>, String>| #[trigger]
        call_ensures(encode, (initrd,), encoded) && initrd@ != Map::<Seq<char>, Seq<u8>>::empty()
            ==> (encoded matches Ok(data) ==> !embed::blank(data@))
}

/// Whether an initramfs is always decoded in the same way.
pub open spec fn steady_decoder<D: Fn(&[u8]) -> Result<Initrd, String>>(decode: D) -> bool {
    forall|a: &[u8], b: &[u8], ra: Result<Initrd, String>, rb: Result<Initrd, String>|
        #![trigger call_ensures(decode, (a,), ra), call_ensures(decode, (b,), rb)]
        call_ensures(decode, (a,), ra) && call_ensures(decode, (b,), rb) && a@ == b@ ==> (match (
            ra,
            rb,
        ) {
            (Ok(x), Ok(y)) => x@ == y@,
            (Err(_), Err(_)) => true,
            _ => false,
        })
}

/// Whether a description of karg embed areas is always parsed in the same way.
pub open spec fn steady_parser<P: Fn(&[u8]) -> Result<KargEmbedInfo, String>>(parse: P) -> bool {
    forall|a: &[u8], b: &[u8], ra: Result<KargEmbedInfo, String>, rb: Result<KargEmbedInfo, String>|
        #![trigger call_ensures(parse, (a,), ra), call_ensures(parse, (b,), rb)]
        call_ensures(parse, (a,), ra) && call_ensures(parse, (b,), rb) && a@ == b@ ==> (match (
            ra,
            rb,
        ) {
            (Ok(x), Ok(y)) => x@ == y@,
            (Err(_), Err(_)) => true,
            _ => false,
        })
}

/// An embed area as it is read back once it has been written.
pub open spec fn area_stored(area: EmbedView) -> EmbedView {
    EmbedView { region: read_back::stored(area.region), ..area }
}

/// A customisation as it is read back once it has been written.
pub open spec fn config_stored(config: ConfigView) -> ConfigView {
    ConfigView {
        initrd: area_stored(config.initrd),
        kargs: match config.kargs {
            Some(areas) => Some(read_back::areas_stored(areas)),
            None => None,
        },
    }
}

/// The embed area that is read of an image lies where the image has it, is not
/// modified and leaves its contents out; and a blank one holds no files.
pub proof fn law_area_read<D: Fn(&[u8]) -> Result<Initrd, String>>(
    image: IsoView,
    decode: D,
    area: EmbedView,
)
    requires
        embed::embed_read(image, decode, Ok(area)),
    ensures
        area.region.contents.len() == 0,
        !area.region.modified,
        embed::embed_region(image) matches Ok(found) && {
            &&& area.region.offset == found.offset
            &&& area.region.length == found.contents.len()
            &&& embed::blank(found.contents) ==> area.files == Map::<Seq<char>, Seq<u8>>::empty()
        },
{
}

/// An embed area that holds what files were encoded as is read as these files, if
/// there are none or they are decoded as they were encoded.
pub proof fn law_files_given_back<
    D: Fn(&[u8]) -> Result<Initrd, String>,
    E: Fn(&Initrd) -> Result<Vec<u8>, String>,
>(
    image: IsoView,
    area: EmbedView,
    decode: D,
    encode: E,
    written: RegionView,
    again: Result<EmbedView, Refusal>,
)
    requires
        area.files != Map::<Seq<char>, Seq<u8>>::empty() ==> inverse(decode, encode)
            && never_blank(encode),
        embed::embed_encoded(area, encode, Ok(written)),
        embed::embed_region(image) matches Ok(found) && found.contents == written.contents,
        embed::embed_read(image, decode, again),
    ensures
        again matches Ok(read) && {
            &&& read.files == area.files
            &&& read.region == embed::emptied(embed::embed_region(image)->Ok_0)
        },
{
    let found = embed::embed_region(image)->Ok_0;
    let none = Map::<Seq<char>, Seq<u8>>::empty();
    if area.files == none {
        let zeros = Seq::new(area.region.length as nat, |i: int| 0u8);
        assert(written.contents =~= zeros);
        assert(embed::blank(found.contents));
    } else {
        let (initrd, encoded) = choose|initrd: &Initrd, encoded: Result<Vec<u8>, String>|
            {
                &&& initrd@ == area.files
                &&& #[trigger] call_ensures(encode, (initrd,), encoded)
                &&& Ok::<RegionView, Refusal>(written) == match encoded {
                    Ok(bytes) => embed::filled_region(area.region, bytes@),
                    Err(reason) => Err(Refusal::EncodeInitrd { reason: reason@ }),
                }
            };
        let data = encoded->Ok_0@;
        let fill = Seq::new((area.region.length - data.len()) as nat, |i: int| 0u8);
        assert(written.contents == data + fill);
        assert((data + fill).take(data.len() as int) =~= data);
        assert((data + fill).skip(data.len() as int) =~= fill);
        assert(zero_padded(data, written.contents));
        assert(!embed::blank(data));
        let i = choose|i: int| 0 <= i < data.len() && #[trigger] data[i] != 0;
        assert(found.contents[i] == data[i]);
        assert(!embed::blank(found.contents));
        let (bytes, decoded) = choose|bytes: &[u8], decoded: Result<Initrd, String>|
            {
                &&& bytes@ == found.contents
                &&& #[trigger] call_ensures(decode, (bytes,), decoded)
                &&& again == embed::decoded_area(found, decoded)
            };
        assert(call_ensures(encode, (initrd,), encoded) && call_ensures(
            decode,
            (bytes,),
            decoded,
        ));
    }
}

/// The initramfs that has been put into the embed area of an image is read back
/// from there, if it has no files or is decoded as it was encoded.
pub proof fn law_initrd_read_back<
    D: Fn(&[u8]) -> Result<Initrd, String>,
    E: Fn(&Initrd) -> Result<Vec<u8>, String>,
>(
    image: IsoView,
    area: EmbedView,
    decode: D,
    encode: E,
    written: RegionView,
    after: Seq<u8>,
    again: Result<EmbedView, Refusal>,
)
    requires
        area.files != Map::<Seq<char>, Seq<u8>>::empty() ==> inverse(decode, encode)
            && never_blank(encode),
        embed::embed_region(image) matches Ok(found) && area.region == embed::emptied(
            (RegionView { modified: area.region.modified, ..found }),
        ),
        embed::embed_encoded(area, encode, Ok(written)),
        after.len() == image.file.len(),
        read_back::holds(after, written),
        embed::embed_read((IsoView { file: after, ..image }), decode, again),
    ensures
        again == Ok::<EmbedView, Refusal>(area_stored(area)),
{
    let image2 = IsoView { file: after, ..image };
    let found = embed::embed_region(image2)->Ok_0;
    assert(embed::embed_region(image2) is Ok);
    assert(found.contents =~= written.contents);
    assert(embed::emptied(found) == read_back::stored(area.region));
    law_files_given_back(image2, area, decode, encode, written, again);
}

/// A customisation with other files, other kargs, or both.
pub open spec fn altered(
    read: ConfigView,
    files: Option<Map<Seq<char>, Seq<u8>>>,
    kargs: Option<Seq<char>>,
) -> Result<ConfigView, Refusal> {
    let config = match files {
        Some(files) => read.with_files(files),
        None => read,
    };
    match kargs {
        Some(kargs) => config.with_kargs(kargs),
        None => Ok(config),
    }
}

/// Whether a file says the same of the karg embed areas as that of an image.
pub open spec fn same_description(image: IsoView, after: Seq<u8>) -> bool {
    match iso::file_at(image.entries, kargs::KARG_INFO_PATH@) {
        Ok(file) => read_back::alike(
            image.file,
            after,
            file.offset as int,
            file.length as int,
        ),
        Err(_) => {
            &&& read_back::alike(
                image.file,
                after,
                kargs::KARG_HEADER_OFFSET as int,
                kargs::KARG_HEADER_SIZE as int,
            )
            &&& kargs::system_areas(image.file) matches Ok(Some(areas)) ==> read_back::alike(
                image.file,
                after,
                read_back::system_default_offset(image.file),
                areas.length as int,
            )
        },
    }
}

/// Whether a file holds the same as that of an image in those parts of the
/// customisation that are not altered.
pub open spec fn same_rest(
    image: IsoView,
    read: ConfigView,
    files: Option<Map<Seq<char>, Seq<u8>>>,
    kargs: Option<Seq<char>>,
    after: Seq<u8>,
) -> bool {
    &&& files is None ==> read_back::alike(
        image.file,
        after,
        read.initrd.region.offset as int,
        read.initrd.region.length as int,
    )
    &&& kargs is None ==> (read.kargs matches Some(areas) ==> forall|i: int|
        0 <= i < areas.regions.len() ==> read_back::alike(
            image.file,
            after,
            (#[trigger] areas.regions[i]).offset as int,
            areas.length as int,
        ))
}

/// How the karg embed areas of an image that was read can be described.
pub open spec fn areas_source(
    image: IsoView,
    info: Option<InfoView>,
    kargs: Option<AreasView>,
) -> bool {
    match info {
        None => kargs::system_areas(image.file) == Ok::<Option<AreasView>, Refusal>(kargs),
        Some(info) => kargs matches Some(areas) && kargs::described_areas(image, info) == Ok::<
            AreasView,
            Refusal,
        >(areas),
    }
}

/// Karg embed areas that were read are as they were read.
proof fn lemma_source_shape(image: IsoView, info: Option<InfoView>, areas: AreasView)
    requires
        areas_source(image, info, Some(areas)),
    ensures
        read_back::as_read(image.file, areas),
{
    match info {
        None => {
            read_back::lemma_system_shape(image.file);
        },
        Some(info) => {
            read_back::lemma_described_shape(image, info);
        },
    }
}

/// The regions that a customisation is written to, with what is needed of them.
proof fn lemma_config_regions(
    image: IsoView,
    read: ConfigView,
    files: Option<Map<Seq<char>, Seq<u8>>>,
    kargs: Option<Seq<char>>,
    config: ConfigView,
    written: RegionView,
)
    requires
        altered(read, files, kargs) == Ok::<ConfigView, Refusal>(config),
        embed::embed_region(image) matches Ok(found) && read.initrd.region == embed::emptied(found),
        written == (RegionView { contents: written.contents, ..config.initrd.region }),
        written.fits(),
        read.kargs matches Some(areas) ==> read_back::as_read(image.file, areas),
    ensures
        ({
            let regions = config.regions(written);
            forall|k: int|
                0 <= k < regions.len() && (#[trigger] regions[k]).modified ==> {
                    &&& regions[k].fits()
                    &&& regions[k].length > 0 ==> regions[k].end() <= image.file.len()
                }
        }),
{
    let regions = config.regions(written);
    let found = embed::embed_region(image)->Ok_0;
    assert forall|k: int| 0 <= k < regions.len() && (#[trigger] regions[k]).modified implies {
        &&& regions[k].fits()
        &&& regions[k].length > 0 ==> regions[k].end() <= image.file.len()
    } by {
        if k == 0 {
            assert(regions[0] == written);
        } else {
            let areas = read.kargs->0;
            assert(regions[k] == config.kargs->0.regions[k - 1]);
            assert(areas.regions[k - 1] == region::region_at(
                image.file,
                areas.regions[k - 1].offset,
                areas.length,
            ));
            if kargs is Some {
                area::law_area_round_trip(kargs->0, areas.length as nat);
            }
        }
    }
}

/// Where the karg embed areas of an image that was read are described.
pub open spec fn info_of(info: Option<KargEmbedInfo>) -> Option<InfoView> {
    match info {
        Some(info) => Some(info@),
        None => None,
    }
}

/// The description of an image is read back, if it is left alone.
pub proof fn lemma_info_again<P: Fn(&[u8]) -> Result<KargEmbedInfo, String>>(
    image: IsoView,
    after: Seq<u8>,
    parse: P,
    info: Option<KargEmbedInfo>,
    again: Result<Option<KargEmbedInfo>, LiveError>,
)
    requires
        steady_parser(parse),
        after.len() == image.file.len(),
        kargs::info_read(image, parse, Ok(info)),
        kargs::info_read((IsoView { file: after, ..image }), parse, again),
        iso::file_at(image.entries, kargs::KARG_INFO_PATH@) matches Ok(file) ==> read_back::alike(
            image.file,
            after,
            file.offset as int,
            file.length as int,
        ),
    ensures
        again matches Ok(found) && info_of(found) == info_of(info),
        info is None <==> iso::file_at(image.entries, kargs::KARG_INFO_PATH@) is Err,
{
    match iso::file_at(image.entries, kargs::KARG_INFO_PATH@) {
        Err(_) => {},
        Ok(file) => {
            assert(iso::file_bytes(after, file) =~= iso::file_bytes(image.file, file));
            let (a, ra) = choose|bytes: &[u8], parsed: Result<KargEmbedInfo, String>|
                {
                    &&& bytes@ == iso::file_bytes(image.file, file)
                    &&& #[trigger] call_ensures(parse, (bytes,), parsed)
                    &&& match parsed {
                        Ok(found) => Ok::<Option<KargEmbedInfo>, LiveError>(info) == Ok::<
                            Option<KargEmbedInfo>,
                            LiveError,
                        >(Some(found)),
                        Err(reason) => false,
                    }
                };
            let (b, rb) = choose|bytes: &[u8], parsed: Result<KargEmbedInfo, String>|
                {
                    &&& bytes@ == iso::file_bytes(after, file)
                    &&& #[trigger] call_ensures(parse, (bytes,), parsed)
                    &&& match parsed {
                        Ok(found) => again == Ok::<Option<KargEmbedInfo>, LiveError>(Some(found)),
                        Err(reason) => again matches Err(found) && found@
                            == (Refusal::ParseKargInfo { reason: reason@ }),
                    }
                };
            assert(call_ensures(parse, (a,), ra) && call_ensures(parse, (b,), rb));
        },
    }
}

/// The karg embed areas of an image are read back as they were written.
pub proof fn lemma_kargs_again(
    image: IsoView,
    info: Option<InfoView>,
    before: Option<AreasView>,
    kargs: Option<Seq<char>>,
    now: Option<AreasView>,
    after: Seq<u8>,
)
    requires
        areas_source(image, info, before),
        after.len() == image.file.len(),
        info is None ==> {
            &&& read_back::alike(
                image.file,
                after,
                kargs::KARG_HEADER_OFFSET as int,
                kargs::KARG_HEADER_SIZE as int,
            )
            &&& before matches Some(areas) ==> read_back::alike(
                image.file,
                after,
                read_back::system_default_offset(image.file),
                areas.length as int,
            )
        },
        match kargs {
            None => now == before && (before matches Some(areas) ==> forall|i: int|
                0 <= i < areas.regions.len() ==> read_back::alike(
                    image.file,
                    after,
                    (#[trigger] areas.regions[i]).offset as int,
                    areas.length as int,
                )),
            Some(kargs) => before matches Some(areas) && area::area_fits(
                text::trimmed(kargs),
                areas.length as nat,
            ) && now == Some(areas.with_kargs(text::trimmed(kargs))) && forall|i: int|
                0 <= i < now->0.regions.len() ==> read_back::holds(
                    after,
                    #[trigger] now->0.regions[i],
                ),
        },
    ensures
        areas_source(
            IsoView { file: after, ..image },
            info,
            match now {
                Some(areas) => Some(read_back::areas_stored(areas)),
                None => None,
            },
        ),
{
    if before is Some {
        let areas = before->0;
        lemma_source_shape(image, info, areas);
        match kargs {
            None => {
                read_back::lemma_as_read_stored(image.file, areas);
                match info {
                    None => {
                        read_back::lemma_system_same(image.file, after);
                    },
                    Some(info) => {
                        read_back::lemma_described_same(image, info, areas, after);
                    },
                }
            },
            Some(kargs) => {
                let new = areas.with_kargs(text::trimmed(kargs));
                assert forall|i: int| 0 <= i < new.regions.len() implies read_back::holds(
                    after,
                    #[trigger] new.regions[i],
                ) by {
                    assert(read_back::holds(after, now->0.regions[i]));
                }
                match info {
                    None => {
                        read_back::lemma_system_read_back(image.file, areas, kargs, after);
                    },
                    Some(info) => {
                        read_back::lemma_described_read_back(image, info, areas, kargs, after);
                    },
                }
            },
        }
    } else {
        read_back::lemma_system_same(image.file, after);
    }
}

/// A customisation that is changed and written in place is read back as it was
/// written: the files of the initramfs and the kargs.
///
/// This holds where the initramfs is decoded as it was encoded, or is emptied, where
/// the regions that are written agree with each other, and where the written image
/// holds the same as before in what describes the karg embed areas and in those
/// parts of the customisation that are not changed.
pub proof fn law_config_read_back<
    D: Fn(&[u8]) -> Result<Initrd, String>,
    P: Fn(&[u8]) -> Result<KargEmbedInfo, String>,
    E: Fn(&Initrd) -> Result<Vec<u8>, String>,
>(
    image: IsoView,
    decode: D,
    parse: P,
    encode: E,
    read: ConfigView,
    files: Option<Map<Seq<char>, Seq<u8>>>,
    kargs: Option<Seq<char>>,
    config: ConfigView,
    written: RegionView,
    after: Seq<u8>,
    again: Result<ConfigView, Refusal>,
)
    requires
        files matches Some(files) ==> files == Map::<Seq<char>, Seq<u8>>::empty() || (inverse(
            decode,
            encode,
        ) && never_blank(encode)),
        files is None ==> steady_decoder(decode),
        steady_parser(parse),
        iso_config::config_read(image, decode, parse, Ok(read)),
        altered(read, files, kargs) == Ok::<ConfigView, Refusal>(config),
        embed::embed_encoded(config.initrd, encode, Ok(written)),
        stream::agree(config.regions(written)),
        after == region::overwrite_all(
            image.file,
            region::region_writes(config.regions(written)),
        ),
        same_description(image, after),
        same_rest(image, read, files, kargs, after),
        iso_config::config_read((IsoView { file: after, ..image }), decode, parse, again),
    ensures
        again == Ok::<ConfigView, Refusal>(config_stored(config)),
{
    let regions = config.regions(written);
    let image2 = IsoView { file: after, ..image };
    // what was read at first
    let area = choose|area: Result<EmbedView, Refusal>| #[trigger]
        embed::embed_read(image, decode, area) && match area {
            Err(e) => Ok::<ConfigView, Refusal>(read) == Err::<ConfigView, Refusal>(e),
            Ok(area) => exists|kargs: Result<Option<AreasView>, Refusal>| #[trigger]
                kargs::areas_read(image, parse, kargs) && Ok::<ConfigView, Refusal>(read) == (
                match kargs {
                    Err(e) => Err(e),
                    Ok(kargs) => Ok(ConfigView { initrd: area, kargs }),
                }),
        };
    let found = choose|kargs: Result<Option<AreasView>, Refusal>| #[trigger]
        kargs::areas_read(image, parse, kargs) && Ok::<ConfigView, Refusal>(read) == (match kargs {
            Err(e) => Err(e),
            Ok(kargs) => Ok(ConfigView { initrd: area->Ok_0, kargs }),
        });
    assert(found == Ok::<Option<AreasView>, Refusal>(read.kargs));
    let info = choose|info: Result<Option<KargEmbedInfo>, LiveError>| #[trigger]
        kargs::info_read(image, parse, info) && found == (match info {
            Err(e) => Err(e@),
            Ok(None) => kargs::system_areas(image.file),
            Ok(Some(info)) => match kargs::described_areas(image, info@) {
                Ok(areas) => Ok(Some(areas)),
                Err(e) => Err(e),
            },
        });
    let source = info_of(info->Ok_0);
    assert(areas_source(image, source, read.kargs));
    if read.kargs is Some {
        lemma_source_shape(image, source, read.kargs->0);
    }
    let place = embed::embed_region(image)->Ok_0;
    assert(read.initrd.region == embed::emptied(place));
    lemma_written_shape(config.initrd, encode, written);
    lemma_config_regions(image, read, files, kargs, config, written);
    stream::law_write_regions(image.file, regions);
    assert(after.len() == image.file.len());
    // what is read again
    let area2 = choose|area: Result<EmbedView, Refusal>| #[trigger]
        embed::embed_read(image2, decode, area) && match area {
            Err(e) => again == Err::<ConfigView, Refusal>(e),
            Ok(area) => exists|kargs: Result<Option<AreasView>, Refusal>| #[trigger]
                kargs::areas_read(image2, parse, kargs) && again == (match kargs {
                    Err(e) => Err(e),
                    Ok(kargs) => Ok(ConfigView { initrd: area, kargs }),
                }),
        };
    // the initramfs
    if files is Some {
        assert(regions[0] == written);
        assert(written.modified);
        assert(read_back::holds(after, written));
        law_initrd_read_back(image, config.initrd, decode, encode, written, after, area2);
    } else {
        lemma_initrd_again(image, after, decode, config.initrd, area2);
    }
    assert(area2 == Ok::<EmbedView, Refusal>(area_stored(config.initrd)));
    // the kargs
    let found2 = choose|kargs: Result<Option<AreasView>, Refusal>| #[trigger]
        kargs::areas_read(image2, parse, kargs) && again == (match kargs {
            Err(e) => Err(e),
            Ok(kargs) => Ok(ConfigView { initrd: area2->Ok_0, kargs }),
        });
    let info2 = choose|info: Result<Option<KargEmbedInfo>, LiveError>| #[trigger]
        kargs::info_read(image2, parse, info) && found2 == (match info {
            Err(e) => Err(e@),
            Ok(None) => kargs::system_areas(image2.file),
            Ok(Some(info)) => match kargs::described_areas(image2, info@) {
                Ok(areas) => Ok(Some(areas)),
                Err(e) => Err(e),
            },
        });
    lemma_info_again(image, after, parse, info->Ok_0, info2);
    if kargs is Some {
        let now = config.kargs->0;
        assert forall|i: int| 0 <= i < now.regions.len() implies read_back::holds(
            after,
            #[trigger] now.regions[i],
        ) by {
            assert(regions[i + 1] == now.regions[i]);
        }
    }
    lemma_kargs_again(image, source, read.kargs, kargs, config.kargs, after);
}

/// The region of an embed area that has been encoded is that of the area, with
/// contents that fill it.
proof fn lemma_written_shape<E: Fn(&Initrd) -> Result<Vec<u8>, String>>(
    area: EmbedView,
    encode: E,
    written: RegionView,
)
    requires
        embed::embed_encoded(area, encode, Ok(written)),
    ensures
        written == (RegionView { contents: written.contents, ..area.region }),
        written.fits(),
{
}

/// The initramfs of an image is read back, if its embed area is left alone.
pub proof fn lemma_initrd_again<D: Fn(&[u8]) -> Result<Initrd, String>>(
    image: IsoView,
    after: Seq<u8>,
    decode: D,
    area: EmbedView,
    again: Result<EmbedView, Refusal>,
)
    requires
        steady_decoder(decode),
        after.len() == image.file.len(),
        embed::embed_read(image, decode, Ok(area)),
        embed::embed_region(image) matches Ok(place) && read_back::alike(
            image.file,
            after,
            place.offset as int,
            place.length as int,
        ),
        embed::embed_read((IsoView { file: after, ..image }), decode, again),
    ensures
        again == Ok::<EmbedView, Refusal>(area_stored(area)),
{
    let image2 = IsoView { file: after, ..image };
    let place = embed::embed_region(image)->Ok_0;
    let place2 = embed::embed_region(image2)->Ok_0;
    assert(place2 =~= place);
    if !embed::blank(place.contents) {
        let (a, ra) = choose|bytes: &[u8], decoded: Result<Initrd, String>|
            {
                &&& bytes@ == place.contents
                &&& #[trigger] call_ensures(decode, (bytes,), decoded)
                &&& Ok::<EmbedView, Refusal>(area) == embed::decoded_area(place, decoded)
            };
        let (b, rb) = choose|bytes: &[u8], decoded: Result<Initrd, String>|
            {
                &&& bytes@ == place2.contents
                &&& #[trigger] call_ensures(decode, (bytes,), decoded)
                &&& again == embed::decoded_area(place2, decoded)
            };
        assert(call_ensures(decode, (a,), ra) && call_ensures(decode, (b,), rb));
    }
}

/// Where the karg embed areas of an image that was read are described.
pub proof fn lemma_read_source<
    D: Fn(&[u8]) -> Result<Initrd, String>,
    P: Fn(&[u8]) -> Result<KargEmbedInfo, String>,
>(image: IsoView, decode: D, parse: P, read: ConfigView) -> (info: Option<KargEmbedInfo>)
    requires
        iso_config::config_read(image, decode, parse, Ok(read)),
    ensures
        kargs::info_read(image, parse, Ok(info)),
        areas_source(image, info_of(info), read.kargs),
{
    let found = choose|kargs: Result<Option<AreasView>, Refusal>| #[trigger]
        kargs::areas_read(image, parse, kargs) && kargs == Ok::<Option<AreasView>, Refusal>(
            read.kargs,
        );
    let info = choose|info: Result<Option<KargEmbedInfo>, LiveError>| #[trigger]
        kargs::info_read(image, parse, info) && found == (match info {
            Err(e) => Err(e@),
            Ok(None) => kargs::system_areas(image.file),
            Ok(Some(info)) => match kargs::described_areas(image, info@) {
                Ok(areas) => Ok(Some(areas)),
                Err(e) => Err(e),
            },
        });
    info->Ok_0
}

/// The karg embed areas of an image that was read are as they were read.
pub proof fn lemma_read_kargs<
    D: Fn(&[u8]) -> Result<Initrd, String>,
    P: Fn(&[u8]) -> Result<KargEmbedInfo, String>,
>(image: IsoView, decode: D, parse: P, read: ConfigView)
    requires
        iso_config::config_read(image, decode, parse, Ok(read)),
    ensures
        read.kargs matches Some(areas) ==> read_back::as_read(image.file, areas)
            && read_back::areas_stored(areas) == areas,
{
    let info = lemma_read_source(image, decode, parse, read);
    let source = info_of(info);
    if read.kargs is Some {
        lemma_source_shape(image, source, read.kargs->0);
        read_back::lemma_as_read_stored(image.file, read.kargs->0);
    }
}

} // verus!
