//! What holds of the bytes of images that are changed and written.

use crate::cmdline::IsoCustomizeConfig;
use crate::customize::{InstallConfig, NoticeView, OsFeatures};
use crate::customize_commands;
use crate::editor;
use crate::editor::{EditView, KargsEditor};
use crate::embed;
use crate::embed::EmbedView;
use crate::error::Refusal;
use crate::ignition::{Directive, Ignition};
use crate::initrd::Initrd;
use crate::input::InputView;
use crate::iso::IsoView;
use crate::iso_commands;
use crate::iso_config;
use crate::iso_config::ConfigView;
use crate::kargs;
use crate::kargs::KargEmbedInfo;
use crate::laws;
use crate::output;
use crate::output::{Destination, OutputView};
use crate::read_back;
use crate::region;
use crate::region::{RegionView, SegmentView, WriteView};
use crate::stream;
use vstd::prelude::*;

verus! {

/// Whether a value is always written in the same way.
pub open spec fn steady_writer<T: View, W: Fn(&T) -> Result<Vec<u8>, String>>(write: W) -> bool {
    forall|a: &T, b: &T, ra: Result<Vec<u8>, String>, rb: Result<Vec<u8>, String>|
        #![trigger call_ensures(write, (a,), ra), call_ensures(write, (b,), rb)]
        call_ensures(write, (a,), ra) && call_ensures(write, (b,), rb) && a@ == b@ ==> (match (
            ra,
            rb,
        ) {
            (Ok(x), Ok(y)) => x@ == y@,
            (Err(_), Err(_)) => true,
            _ => false,
        })
}

/// Writing the same regions to two files of one length leads to the same bytes
/// wherever a region is written or the files held the same.
proof fn lemma_writes_meet(a: Seq<u8>, b: Seq<u8>, regions: Seq<RegionView>)
    requires
        a.len() == b.len(),
        forall|k: int|
            0 <= k < regions.len() && (#[trigger] regions[k]).modified ==> regions[k].fits(),
    ensures
        ({
            let ops = region::region_writes(regions);
            let x = region::overwrite_all(a, ops);
            let y = region::overwrite_all(b, ops);
            &&& x.len() == y.len() >= a.len()
            &&& forall|p: int|
                0 <= p < x.len() && (stream::covered(regions, p) || p >= a.len() || a[p] == b[p])
                    ==> #[trigger] x[p] == y[p]
        }),
    decreases regions.len(),
{
    if regions.len() > 0 {
        let before = regions.drop_last();
        let last = regions.last();
        let ops = region::region_writes(regions);
        let x = region::overwrite_all(a, ops);
        let y = region::overwrite_all(b, ops);
        assert(regions[regions.len() - 1] == last);
        assert forall|k: int| 0 <= k < before.len() implies #[trigger] before[k] == regions[k] by {
        }
        lemma_writes_meet(a, b, before);
        if last.modified {
            assert(ops.drop_last() =~= region::region_writes(before));
        }
        assert forall|p: int|
            0 <= p < x.len() && (stream::covered(regions, p) || p >= a.len() || a[p]
                == b[p]) implies #[trigger] x[p] == y[p] by {
            if stream::covered(regions, p) {
                let k = choose|k: int|
                    0 <= k < regions.len() && (#[trigger] regions[k]).modified
                        && regions[k].covers(p);
                if k < before.len() {
                    assert(before[k].modified && before[k].covers(p));
                    assert(stream::covered(before, p));
                }
            }
        }
    }
}

/// Regions that are not modified do not matter for what is written.
proof fn lemma_writes_of_modified(a: Seq<RegionView>, b: Seq<RegionView>)
    requires
        a.len() == b.len(),
        forall|k: int|
            0 <= k < a.len() ==> (#[trigger] a[k]).modified == b[k].modified && (a[k].modified
                ==> a[k] == b[k]),
    ensures
        region::region_writes(a) == region::region_writes(b),
    decreases a.len(),
{
    if a.len() > 0 {
        assert(a[a.len() - 1] == a.last());
        assert forall|k: int| 0 <= k < a.drop_last().len() implies (
        #[trigger] a.drop_last()[k]).modified == b.drop_last()[k].modified && (
        a.drop_last()[k].modified ==> a.drop_last()[k] == b.drop_last()[k]) by {
            assert(a[k].modified == b[k].modified);
        }
        lemma_writes_of_modified(a.drop_last(), b.drop_last());
    }
}

/// How an image becomes another by the regions of a customisation, of which the
/// initramfs has been encoded.
pub open spec fn rewritten<E: Fn(&Initrd) -> Result<Vec<u8>, String>>(
    input: Seq<u8>,
    config: ConfigView,
    encode: E,
    written: RegionView,
    image: Seq<u8>,
) -> bool {
    &&& embed::embed_encoded(config.initrd, encode, Ok(written))
    &&& image == region::overwrite_all(input, region::region_writes(config.regions(written)))
    &&& forall|k: int|
        0 <= k < config.regions(written).len() && (#[trigger] config.regions(
            written,
        )[k]).modified ==> config.regions(written)[k].fits()
}

/// How a customisation is output, as one step from image to image.
pub open spec fn becomes<E: Fn(&Initrd) -> Result<Vec<u8>, String>>(
    input: Seq<u8>,
    config: ConfigView,
    encode: E,
    image: Seq<u8>,
) -> bool {
    exists|destination: Destination, out: OutputView| #[trigger]
        output::image_output(config, destination, encode, Ok(out)) && output::output_image(
            input,
            out,
        ) == Some(image)
}

/// Where no region is unfit, the contents of each fill it.
proof fn lemma_no_unfit(regions: Seq<RegionView>)
    requires
        kargs::first_unfit(regions) is None,
    ensures
        forall|k: int| 0 <= k < regions.len() ==> (#[trigger] regions[k]).fits(),
    decreases regions.len(),
{
    if regions.len() > 0 {
        let rest = regions.drop_first();
        lemma_no_unfit(rest);
        assert forall|k: int| 0 <= k < regions.len() implies (#[trigger] regions[k]).fits() by {
            if k > 0 {
                assert(regions[k] == rest[k - 1]);
            }
        }
    }
}

/// Wherever an image is written to, it is the one that writing the regions of the
/// customisation leads to.
pub proof fn lemma_becomes<E: Fn(&Initrd) -> Result<Vec<u8>, String>>(
    input: Seq<u8>,
    config: ConfigView,
    encode: E,
    image: Seq<u8>,
) -> (written: RegionView)
    requires
        becomes(input, config, encode, image),
    ensures
        rewritten(input, config, encode, written, image),
{
    let (destination, out) = choose|destination: Destination, out: OutputView| #[trigger]
        output::image_output(config, destination, encode, Ok(out)) && output::output_image(
            input,
            out,
        ) == Some(image);
    if destination == Destination::Stdout {
        let plan = choose|plan: Result<Seq<SegmentView>, Refusal>| #[trigger]
            iso_config::config_streamed(config, encode, plan) && Ok::<OutputView, Refusal>(out)
                == match plan {
                Ok(plan) => Ok(OutputView::Stream { plan }),
                Err(e) => Err(e),
            };
        let initrd = choose|initrd: Result<RegionView, Refusal>| #[trigger]
            embed::embed_encoded(config.initrd, encode, initrd) && plan == (match initrd {
                Err(e) => Err(e),
                Ok(initrd) => iso_config::config_copy(config, initrd),
            });
        let written = initrd->Ok_0;
        let regions = config.regions(written);
        stream::law_stream_equals_write(input, regions);
        stream::lemma_planned(regions);
        written
    } else {
        let ops = choose|ops: Result<Seq<WriteView>, Refusal>| #[trigger]
            iso_config::config_written(config, encode, ops) && Ok::<OutputView, Refusal>(out)
                == match ops {
                Ok(ops) => Ok(OutputView::Patch { ops }),
                Err(e) => Err(e),
            };
        let initrd = choose|initrd: Result<RegionView, Refusal>| #[trigger]
            embed::embed_encoded(config.initrd, encode, initrd) && ops == (match initrd {
                Err(e) => Err(e),
                Ok(initrd) => iso_config::config_writes(config, initrd),
            });
        let written = initrd->Ok_0;
        lemma_no_unfit(config.regions(written));
        written
    }
}

/// An embed area is encoded in one way, if the initramfs is.
pub proof fn lemma_encoded_once<E: Fn(&Initrd) -> Result<Vec<u8>, String>>(
    area: EmbedView,
    encode: E,
    a: RegionView,
    b: Result<RegionView, Refusal>,
)
    requires
        area.files == Map::<Seq<char>, Seq<u8>>::empty() || steady_writer::<Initrd, E>(encode),
        embed::embed_encoded(area, encode, Ok(a)),
        embed::embed_encoded(area, encode, b),
    ensures
        b == Ok::<RegionView, Refusal>(a),
{
    if area.files != Map::<Seq<char>, Seq<u8>>::empty() {
        let (ia, ra) = choose|initrd: &Initrd, encoded: Result<Vec<u8>, String>|
            {
                &&& initrd@ == area.files
                &&& #[trigger] call_ensures(encode, (initrd,), encoded)
                &&& Ok::<RegionView, Refusal>(a) == match encoded {
                    Ok(bytes) => embed::filled_region(area.region, bytes@),
                    Err(reason) => Err(Refusal::EncodeInitrd { reason: reason@ }),
                }
            };
        let (ib, rb) = choose|initrd: &Initrd, encoded: Result<Vec<u8>, String>|
            {
                &&& initrd@ == area.files
                &&& #[trigger] call_ensures(encode, (initrd,), encoded)
                &&& b == match encoded {
                    Ok(bytes) => embed::filled_region(area.region, bytes@),
                    Err(reason) => Err(Refusal::EncodeInitrd { reason: reason@ }),
                }
            };
        assert(call_ensures(encode, (ia,), ra) && call_ensures(encode, (ib,), rb));
    }
}

/// Whether a customisation is written to position `p` of the image.
pub open spec fn writes_to(config: ConfigView, p: int) -> bool {
    ||| config.initrd.region.modified && config.initrd.region.covers(p)
    ||| config.kargs matches Some(areas) && exists|i: int|
        0 <= i < areas.regions.len() && (#[trigger] areas.regions[i]).modified
            && areas.regions[i].covers(p)
}

/// Whether two customisations change the same: the initramfs either not at all or
/// to the same files in the same place, and the kargs alike.
pub open spec fn same_change(a: ConfigView, b: ConfigView) -> bool {
    &&& a.initrd == b.initrd || (!a.initrd.region.modified && !b.initrd.region.modified)
    &&& a.kargs == b.kargs
}

/// Two images that differ at most where a change is written are the same image
/// once it has been written to both, wherever the output goes.
///
/// This holds where the initramfs is always encoded in the same way, unless the
/// change leaves it alone or empties it.
pub proof fn law_same_change<E: Fn(&Initrd) -> Result<Vec<u8>, String>>(
    a: Seq<u8>,
    b: Seq<u8>,
    config_a: ConfigView,
    config_b: ConfigView,
    encode: E,
    after_a: Seq<u8>,
    after_b: Seq<u8>,
)
    requires
        !config_a.initrd.region.modified || config_a.initrd.files == Map::<
            Seq<char>,
            Seq<u8>,
        >::empty() || steady_writer::<Initrd, E>(encode),
        a.len() == b.len(),
        same_change(config_a, config_b),
        forall|p: int| 0 <= p < a.len() && !writes_to(config_a, p) ==> #[trigger] a[p] == b[p],
        becomes(a, config_a, encode, after_a),
        becomes(b, config_b, encode, after_b),
    ensures
        after_a == after_b,
{
    let wa = lemma_becomes(a, config_a, encode, after_a);
    let wb = lemma_becomes(b, config_b, encode, after_b);
    let ra = config_a.regions(wa);
    let rb = config_b.regions(wb);
    assert(wa.modified == config_a.initrd.region.modified);
    assert(wa.offset == config_a.initrd.region.offset);
    assert(wa.length == config_a.initrd.region.length);
    assert(wb.modified == config_b.initrd.region.modified);
    if config_a.initrd.region.modified {
        lemma_encoded_once(config_a.initrd, encode, wa, Ok(wb));
    }
    assert forall|k: int| 0 <= k < ra.len() implies (#[trigger] ra[k]).modified == rb[k].modified
        && (ra[k].modified ==> ra[k] == rb[k]) by {
        if k > 0 {
            assert(ra[k] == config_a.kargs->0.regions[k - 1]);
            assert(rb[k] == config_b.kargs->0.regions[k - 1]);
        }
    }
    lemma_writes_of_modified(ra, rb);
    lemma_writes_meet(a, b, ra);
    assert forall|p: int| 0 <= p < after_a.len() implies after_a[p] == after_b[p] by {
        if p < a.len() && writes_to(config_a, p) {
            lemma_covered(config_a, wa, p);
        }
    }
    assert(after_a =~= after_b);
}

/// The positions that the regions of a customisation cover.
pub proof fn lemma_covered(config: ConfigView, written: RegionView, p: int)
    requires
        written == (RegionView { contents: written.contents, ..config.initrd.region }),
    ensures
        stream::covered(config.regions(written), p) <==> writes_to(config, p),
{
    let regions = config.regions(written);
    assert(regions[0] == written);
    if stream::covered(regions, p) {
        let k = choose|k: int|
            0 <= k < regions.len() && (#[trigger] regions[k]).modified && regions[k].covers(p);
        if k > 0 {
            let areas = config.kargs->0;
            assert(regions[k] == areas.regions[k - 1]);
        }
    }
    if writes_to(config, p) {
        if config.initrd.region.modified && config.initrd.region.covers(p) {
            assert(regions[0].modified && regions[0].covers(p));
        } else {
            let areas = config.kargs->0;
            let i = choose|i: int|
                0 <= i < areas.regions.len() && (#[trigger] areas.regions[i]).modified
                    && areas.regions[i].covers(p);
            assert(regions[i + 1] == areas.regions[i]);
            assert(regions[i + 1].modified && regions[i + 1].covers(p));
        }
    }
}

/// Where the contents of each region fill it, none is unfit.
pub proof fn lemma_all_fit(regions: Seq<RegionView>)
    requires
        forall|k: int| 0 <= k < regions.len() ==> (#[trigger] regions[k]).fits(),
    ensures
        kargs::first_unfit(regions) is None,
    decreases regions.len(),
{
    if regions.len() > 0 {
        let rest = regions.drop_first();
        assert(regions[0].fits());
        assert forall|k: int| 0 <= k < rest.len() implies (#[trigger] rest[k]).fits() by {
            assert(rest[k] == regions[k + 1]);
        }
        lemma_all_fit(rest);
    }
}

/// Whether the regions that a customisation is written to do not overlap, and an
/// image reaches to the end of each.
pub open spec fn writable(input: Seq<u8>, config: ConfigView) -> bool {
    let regions = config.regions(config.initrd.region);
    &&& stream::apart(regions)
    &&& forall|k: int|
        0 <= k < regions.len() && (#[trigger] regions[k]).modified ==> regions[k].end()
            <= input.len()
}

/// An image is the same wherever it is written to: in place, to standard output or
/// to another file. Where one of them succeeds, so do the others, if the regions
/// that are written do not overlap and lie in the image.
///
/// This holds where the initramfs is always encoded in the same way, or has no
/// files.
pub proof fn law_outputs_agree<E: Fn(&Initrd) -> Result<Vec<u8>, String>>(
    input: Seq<u8>,
    config: ConfigView,
    encode: E,
    image: Seq<u8>,
    destination: Destination,
    r: Result<OutputView, Refusal>,
)
    requires
        config.wf(),
        config.initrd.files == Map::<Seq<char>, Seq<u8>>::empty() || steady_writer::<Initrd, E>(
            encode,
        ),
        becomes(input, config, encode, image),
        output::image_output(config, destination, encode, r),
    ensures
        r matches Ok(out) ==> (output::output_image(input, out) matches Some(other) ==> other
            == image),
        writable(input, config) ==> (r matches Ok(out) && output::output_image(input, out) == Some(
            image,
        )),
        destination != Destination::Stdout ==> r is Ok,
{
    let written = lemma_becomes(input, config, encode, image);
    let regions = config.regions(written);
    let places = config.regions(config.initrd.region);
    if r is Ok && output::output_image(input, r->Ok_0) is Some {
        let out = r->Ok_0;
        let other = output::output_image(input, out)->0;
        assert(output::image_output(config, destination, encode, Ok(out)));
        assert(becomes(input, config, encode, other));
        law_same_change(input, input, config, config, encode, image, other);
    }
    assert forall|k: int| 0 <= k < regions.len() implies (#[trigger] regions[k]).fits() by {
        if k > 0 {
            assert(regions[k] == config.kargs->0.regions[k - 1]);
        }
    }
    lemma_all_fit(regions);
    if writable(input, config) {
        assert forall|i: int, j: int|
            0 <= i < j < regions.len() && regions[i].modified
                && regions[j].modified implies #[trigger] stream::clear_of(
            regions[i],
            regions[j],
        ) by {
            assert(places[j] == regions[j]);
            assert(stream::clear_of(places[i], places[j]));
        }
        assert forall|k: int|
            0 <= k < regions.len() && (#[trigger] regions[k]).modified implies regions[k].end()
            <= input.len() by {
            assert(places[k].modified);
        }
        stream::law_apart_regions_stream(input, regions);
        stream::law_stream_equals_write(input, regions);
    }
    if destination == Destination::Stdout {
        let plan = choose|plan: Result<Seq<SegmentView>, Refusal>| #[trigger]
            iso_config::config_streamed(config, encode, plan) && r == match plan {
                Ok(plan) => Ok(OutputView::Stream { plan }),
                Err(e) => Err(e),
            };
        let initrd = choose|initrd: Result<RegionView, Refusal>| #[trigger]
            embed::embed_encoded(config.initrd, encode, initrd) && plan == (match initrd {
                Err(e) => Err(e),
                Ok(initrd) => iso_config::config_copy(config, initrd),
            });
        lemma_encoded_once(config.initrd, encode, written, initrd);
    } else {
        let ops = choose|ops: Result<Seq<WriteView>, Refusal>| #[trigger]
            iso_config::config_written(config, encode, ops) && r == match ops {
                Ok(ops) => Ok(OutputView::Patch { ops }),
                Err(e) => Err(e),
            };
        let initrd = choose|initrd: Result<RegionView, Refusal>| #[trigger]
            embed::embed_encoded(config.initrd, encode, initrd) && ops == (match initrd {
                Err(e) => Err(e),
                Ok(initrd) => iso_config::config_writes(config, initrd),
            });
        lemma_encoded_once(config.initrd, encode, written, initrd);
    }
}

/// Whether two customisations lie in the same places of an image, which was built
/// with the same kargs.
pub open spec fn same_places(a: ConfigView, b: ConfigView) -> bool {
    &&& read_back::place(a.initrd.region) == read_back::place(b.initrd.region)
    &&& read_back::same_optional_areas(a.kargs, b.kargs)
}

/// Whether position `p` of an image belongs to its karg embed areas.
pub open spec fn in_kargs(config: ConfigView, p: int) -> bool {
    config.kargs matches Some(areas) && exists|i: int|
        0 <= i < areas.regions.len() && (#[trigger] areas.regions[i]).covers(p)
}

/// Whether position `p` of an image belongs to its customisation.
pub open spec fn in_customisation(config: ConfigView, p: int) -> bool {
    config.initrd.region.covers(p) || in_kargs(config, p)
}

/// Whether two images, with the customisations that they have, differ at most in
/// these customisations.
pub open spec fn differ_by_customisation(
    a: IsoView,
    config_a: ConfigView,
    b: IsoView,
    config_b: ConfigView,
) -> bool {
    &&& a.entries == b.entries
    &&& a.file.len() == b.file.len()
    &&& same_places(config_a, config_b)
    &&& forall|p: int|
        0 <= p < a.file.len() && !in_customisation(config_a, p) ==> #[trigger] a.file[p]
            == b.file[p]
}

/// Whether two images, with the customisations that they have, differ at most in
/// their karg embed areas.
pub open spec fn differ_by_kargs(
    a: IsoView,
    config_a: ConfigView,
    b: IsoView,
    config_b: ConfigView,
) -> bool {
    &&& a.entries == b.entries
    &&& a.file.len() == b.file.len()
    &&& same_places(config_a, config_b)
    &&& forall|p: int|
        0 <= p < a.file.len() && !in_kargs(config_a, p) ==> #[trigger] a.file[p] == b.file[p]
}

/// Customisations that lie in the same places cover the same positions.
pub proof fn lemma_same_positions(a: ConfigView, b: ConfigView, p: int)
    requires
        same_places(a, b),
    ensures
        in_kargs(a, p) == in_kargs(b, p),
        in_customisation(a, p) == in_customisation(b, p),
{
    if a.kargs is Some {
        let x = a.kargs->0.regions;
        let y = b.kargs->0.regions;
        assert forall|i: int| 0 <= i < x.len() implies (#[trigger] x[i]).covers(p) == y[i].covers(
            p,
        ) by {
            assert(read_back::place(x[i]) == read_back::place(y[i]));
            assert(x[i].offset == read_back::place(x[i]).offset);
            assert(x[i].length == read_back::place(x[i]).length);
            assert(y[i].offset == read_back::place(y[i]).offset);
            assert(y[i].length == read_back::place(y[i]).length);
        }
        if in_kargs(a, p) {
            let i = choose|i: int| 0 <= i < x.len() && (#[trigger] x[i]).covers(p);
            assert(y[i].covers(p));
        }
        if in_kargs(b, p) {
            let i = choose|i: int| 0 <= i < y.len() && (#[trigger] y[i]).covers(p);
            assert(x[i].covers(p));
        }
    }
}

/// To lie in the same places is an equivalence.
pub proof fn lemma_same_places(a: ConfigView, b: ConfigView, c: ConfigView)
    ensures
        same_places(a, a),
        same_places(a, b) ==> same_places(b, a),
        same_places(a, b) && same_places(b, c) ==> same_places(a, c),
{
    if same_places(a, b) && a.kargs is Some {
        let x = a.kargs->0.regions;
        let y = b.kargs->0.regions;
        assert forall|i: int| 0 <= i < y.len() implies read_back::place(#[trigger] y[i])
            == read_back::place(x[i]) by {
            assert(read_back::place(x[i]) == read_back::place(y[i]));
        }
        if same_places(b, c) {
            let z = c.kargs->0.regions;
            assert forall|i: int| 0 <= i < x.len() implies read_back::place(#[trigger] x[i])
                == read_back::place(z[i]) by {
                assert(read_back::place(y[i]) == read_back::place(z[i]));
            }
        }
    }
}

/// To differ at most by customisation is an equivalence, so that it holds after
/// any number of changes of which each keeps to the customisation.
pub proof fn law_differ_by_customisation(
    a: IsoView,
    config_a: ConfigView,
    b: IsoView,
    config_b: ConfigView,
    c: IsoView,
    config_c: ConfigView,
)
    ensures
        differ_by_customisation(a, config_a, a, config_a),
        differ_by_customisation(a, config_a, b, config_b) ==> differ_by_customisation(
            b,
            config_b,
            a,
            config_a,
        ),
        differ_by_customisation(a, config_a, b, config_b) && differ_by_customisation(
            b,
            config_b,
            c,
            config_c,
        ) ==> differ_by_customisation(a, config_a, c, config_c),
{
    lemma_same_places(config_a, config_b, config_c);
    if same_places(config_a, config_b) {
        assert forall|p: int| in_customisation(config_a, p) == in_customisation(config_b, p) by {
            lemma_same_positions(config_a, config_b, p);
        }
    }
}

/// To differ at most by kargs is an equivalence, so that it holds after any number
/// of changes of the kargs.
pub proof fn law_differ_by_kargs(
    a: IsoView,
    config_a: ConfigView,
    b: IsoView,
    config_b: ConfigView,
    c: IsoView,
    config_c: ConfigView,
)
    ensures
        differ_by_kargs(a, config_a, a, config_a),
        differ_by_kargs(a, config_a, b, config_b) ==> differ_by_kargs(b, config_b, a, config_a),
        differ_by_kargs(a, config_a, b, config_b) && differ_by_kargs(b, config_b, c, config_c)
            ==> differ_by_kargs(a, config_a, c, config_c),
        differ_by_kargs(a, config_a, b, config_b) ==> differ_by_customisation(
            a,
            config_a,
            b,
            config_b,
        ),
{
    lemma_same_places(config_a, config_b, config_c);
    if same_places(config_a, config_b) {
        assert forall|p: int| in_kargs(config_a, p) == in_kargs(config_b, p) by {
            lemma_same_positions(config_a, config_b, p);
        }
    }
}

/// Other files and other kargs lie where the old ones lay.
pub proof fn lemma_altered_places(
    config: ConfigView,
    files: Option<Map<Seq<char>, Seq<u8>>>,
    kargs: Option<Seq<char>>,
    new: ConfigView,
)
    requires
        laws::altered(config, files, kargs) == Ok::<ConfigView, Refusal>(new),
    ensures
        same_places(config, new),
        files is None ==> new.initrd == config.initrd,
        kargs is None ==> new.kargs == config.kargs,
{
    lemma_same_places(config, config, config);
    if kargs is Some {
        let x = config.kargs->0.regions;
        let y = new.kargs->0.regions;
        assert forall|i: int| 0 <= i < x.len() implies read_back::place(#[trigger] x[i])
            == read_back::place(y[i]) by {}
    }
}

/// No command moves the customisation of an image to another place or changes the
/// kargs that the image was built with; those for Ignition configs and network
/// settings leave the kargs alone, and those for kargs leave the initramfs alone.
pub proof fn law_commands_keep_places<
    A: Fn(&Ignition, &Directive) -> Result<(), String>,
    B: Fn(&Ignition) -> Result<Vec<u8>, String>,
    Y: Fn(&InstallConfig) -> Result<Vec<u8>, String>,
    K: Fn(&KargsEditor, &str) -> Result<String, String>,
>(
    config: ConfigView,
    ignition: Seq<u8>,
    keyfiles: Seq<InputView>,
    force: bool,
    editor: EditView,
    edit: K,
    customisation: IsoCustomizeConfig,
    features: OsFeatures,
    accept: A,
    to_bytes: B,
    to_yaml: Y,
    issued: Seq<NoticeView>,
    new: ConfigView,
)
    ensures
        iso_commands::ignition_embedded(config, ignition, force) == Ok::<ConfigView, Refusal>(new)
            ==> same_places(config, new) && new.kargs == config.kargs,
        iso_commands::ignition_removed(config) == new ==> same_places(config, new) && new.kargs
            == config.kargs,
        iso_commands::network_embedded(config, keyfiles, force) == Ok::<ConfigView, Refusal>(new)
            ==> same_places(config, new) && new.kargs == config.kargs,
        iso_commands::network_removed(config) == new ==> same_places(config, new) && new.kargs
            == config.kargs,
        iso_commands::kargs_edited(config, editor, edit, Ok(new)) ==> same_places(config, new)
            && new.initrd == config.initrd,
        iso_commands::kargs_restored(config) == Ok::<ConfigView, Refusal>(new) ==> same_places(
            config,
            new,
        ) && new.initrd == config.initrd,
        iso_commands::all_restored(config) == Ok::<ConfigView, Refusal>(new) ==> same_places(
            config,
            new,
        ),
        customize_commands::config_customized(
            customisation,
            config,
            features,
            accept,
            to_bytes,
            to_yaml,
            edit,
            issued,
            Ok(new),
        ) ==> same_places(config, new),
{
    let ok = Ok::<ConfigView, Refusal>(new);
    if iso_commands::ignition_embedded(config, ignition, force) == ok
        || iso_commands::ignition_removed(config) == new || iso_commands::network_embedded(
        config,
        keyfiles,
        force,
    ) == ok || iso_commands::network_removed(config) == new {
        lemma_altered_places(config, Some(new.initrd.files), None, new);
    }
    if iso_commands::kargs_edited(config, editor, edit, ok) {
        let kargs = choose|kargs: Result<Seq<char>, Refusal>| #[trigger]
            editor::edited(editor, config.kargs->0.args, edit, kargs) && ok == match kargs {
                Ok(kargs) => config.with_kargs(kargs),
                Err(e) => Err(e),
            };
        lemma_altered_places(config, None, Some(kargs->Ok_0), new);
    }
    if iso_commands::kargs_restored(config) == ok {
        lemma_altered_places(config, None, Some(config.kargs->0.default), new);
    }
    if iso_commands::all_restored(config) == ok {
        lemma_altered_places(config, Some(Map::empty()), Some(config.kargs->0.default), new);
    }
    if customize_commands::config_customized(
        customisation,
        config,
        features,
        accept,
        to_bytes,
        to_yaml,
        edit,
        issued,
        ok,
    ) {
        let files = choose|files: Result<Map<Seq<char>, Seq<u8>>, Refusal>| #[trigger]
            customize_commands::live_initrd_made(
                customisation.common@,
                features,
                accept,
                to_bytes,
                to_yaml,
                issued,
                files,
            ) && match files {
                Ok(files) => customize_commands::default_kargs_edited(
                    config.with_files(files),
                    customize_commands::live_edit(customisation),
                    edit,
                    ok,
                ),
                Err(e) => ok == Err::<ConfigView, Refusal>(e),
            };
        let mid = config.with_files(files->Ok_0);
        let kargs = choose|kargs: Result<Seq<char>, Refusal>| #[trigger]
            editor::edited(
                customize_commands::live_edit(customisation),
                mid.kargs->0.default,
                edit,
                kargs,
            ) && ok == match kargs {
                Ok(kargs) => mid.with_kargs(kargs),
                Err(e) => Err(e),
            };
        lemma_altered_places(config, Some(files->Ok_0), Some(kargs->Ok_0), new);
    }
}

/// The customisation of an image lies in the same places in another file that is
/// alike in what describes the karg embed areas.
pub proof fn lemma_places_again<
    D: Fn(&[u8]) -> Result<Initrd, String>,
    P: Fn(&[u8]) -> Result<KargEmbedInfo, String>,
>(
    image: IsoView,
    decode: D,
    parse: P,
    read: ConfigView,
    after: Seq<u8>,
    again: ConfigView,
)
    requires
        laws::steady_parser(parse),
        iso_config::config_read(image, decode, parse, Ok(read)),
        after.len() == image.file.len(),
        laws::same_description(image, after),
        iso_config::config_read((IsoView { file: after, ..image }), decode, parse, Ok(again)),
    ensures
        same_places(read, again),
{
    let image2 = IsoView { file: after, ..image };
    let info = laws::lemma_read_source(image, decode, parse, read);
    let info2 = laws::lemma_read_source(image2, decode, parse, again);
    laws::lemma_info_again(image, after, parse, info, Ok(info2));
    match laws::info_of(info) {
        None => {
            read_back::lemma_system_places(image.file, after);
        },
        Some(info) => {
            read_back::lemma_described_places(image, info, after);
        },
    }
}

/// A change that is written to an image, wherever the output goes, keeps to the
/// customisation of the image, and to what of it is changed; and the image that
/// was written has its customisation in the same places.
///
/// This holds where the written image holds the same as before in what describes
/// the karg embed areas.
pub proof fn law_change_keeps_to_customisation<
    D: Fn(&[u8]) -> Result<Initrd, String>,
    P: Fn(&[u8]) -> Result<KargEmbedInfo, String>,
    E: Fn(&Initrd) -> Result<Vec<u8>, String>,
>(
    image: IsoView,
    decode: D,
    parse: P,
    read: ConfigView,
    encode: E,
    config: ConfigView,
    after: Seq<u8>,
    again: ConfigView,
)
    requires
        laws::steady_parser(parse),
        iso_config::config_read(image, decode, parse, Ok(read)),
        same_places(read, config),
        becomes(image.file, config, encode, after),
        laws::same_description(image, after),
        iso_config::config_read((IsoView { file: after, ..image }), decode, parse, Ok(again)),
    ensures
        differ_by_customisation(image, read, (IsoView { file: after, ..image }), again),
        forall|p: int|
            0 <= p < image.file.len() && !writes_to(config, p) ==> #[trigger] after[p]
                == image.file[p],
        config.initrd == read.initrd ==> differ_by_kargs(
            image,
            read,
            (IsoView { file: after, ..image }),
            again,
        ),
{
    lemma_change_in_place(image, decode, parse, read, encode, config, after);
    lemma_places_again(image, decode, parse, read, after, again);
}

/// A change that is written to an image keeps to the regions that it modifies.
pub proof fn lemma_change_in_place<
    D: Fn(&[u8]) -> Result<Initrd, String>,
    P: Fn(&[u8]) -> Result<KargEmbedInfo, String>,
    E: Fn(&Initrd) -> Result<Vec<u8>, String>,
>(
    image: IsoView,
    decode: D,
    parse: P,
    read: ConfigView,
    encode: E,
    config: ConfigView,
    after: Seq<u8>,
)
    requires
        iso_config::config_read(image, decode, parse, Ok(read)),
        same_places(read, config),
        becomes(image.file, config, encode, after),
    ensures
        after.len() == image.file.len(),
        forall|p: int|
            0 <= p < image.file.len() && !writes_to(config, p) ==> #[trigger] after[p]
                == image.file[p],
        forall|p: int| #[trigger] writes_to(config, p) ==> in_customisation(read, p),
        config.initrd == read.initrd ==> forall|p: int| #[trigger]
            writes_to(config, p) ==> in_kargs(read, p),
{
    let written = lemma_becomes(image.file, config, encode, after);
    let regions = config.regions(written);
    laws::lemma_read_kargs(image, decode, parse, read);
    assert(!read.initrd.region.modified);
    stream::lemma_writes(image.file, regions);
    assert forall|p: int| 0 <= p < after.len() implies stream::covered(regions, p) == writes_to(
        config,
        p,
    ) by {
        lemma_covered(config, written, p);
    }
    assert forall|p: int| #[trigger] writes_to(config, p) implies in_customisation(read, p) && (
    config.initrd == read.initrd ==> in_kargs(read, p)) by {
        lemma_same_positions(read, config, p);
    }
    if after.len() > image.file.len() {
        let k = choose|k: int|
            0 <= k < regions.len() && (#[trigger] regions[k]).modified && regions[k].length > 0
                && regions[k].end() == after.len();
        if k == 0 {
            assert(regions[0] == written);
            assert(read_back::place(read.initrd.region) == read_back::place(config.initrd.region));
        } else {
            let a = read.kargs->0.regions[k - 1];
            let b = config.kargs->0.regions[k - 1];
            assert(regions[k] == b);
            assert(read_back::place(a) == read_back::place(b));
        }
    }
}

} // verus!
