//! What is read from an image after it has been written: the kargs.

use crate::area;
use crate::error::Refusal;
use crate::iso::IsoView;
use crate::kargs;
use crate::kargs::{AreasView, InfoView, LocationView};
use crate::region;
use crate::region::RegionView;
use crate::stream;
use crate::text;
use vstd::prelude::*;
use vstd::relations::*;
use vstd::seq_lib::*;

verus! {

/// A region as it is read back once it has been written.
pub open spec fn stored(r: RegionView) -> RegionView {
    RegionView { modified: false, ..r }
}

/// Karg embed areas as they are read back once they have been written.
pub open spec fn areas_stored(areas: AreasView) -> AreasView {
    AreasView { regions: areas.regions.map_values(|r: RegionView| stored(r)), ..areas }
}

/// Whether a file holds what a region wants it to.
pub open spec fn holds(file: Seq<u8>, r: RegionView) -> bool {
    r.length == 0 || (r.end() <= file.len() && file.subrange(r.offset as int, r.end())
        == r.contents)
}

/// A region with other contents.
pub open spec fn refilled(bytes: Seq<u8>) -> spec_fn(RegionView) -> RegionView {
    |r: RegionView| RegionView { contents: bytes, ..r }
}

/// A permutation of a list leads to a permutation of what its elements are
/// mapped to.
proof fn lemma_permuted_map(
    s: Seq<RegionView>,
    t: Seq<RegionView>,
    f: spec_fn(RegionView) -> RegionView,
)
    requires
        s.to_multiset() == t.to_multiset(),
    ensures
        s.map_values(f).to_multiset() == t.map_values(f).to_multiset(),
    decreases s.len(),
{
    broadcast use group_to_multiset_ensures;

    assert(s.len() == t.len()) by {
        assert(s.to_multiset().len() == s.len());
        assert(t.to_multiset().len() == t.len());
    }
    if s.len() == 0 {
        assert(s.map_values(f) =~= t.map_values(f));
    } else {
        let x = s.last();
        let rest = s.drop_last();
        assert(s =~= rest.push(x));
        assert(s.to_multiset().count(x) > 0) by {
            assert(s.contains(s[s.len() - 1]));
        }
        assert(t.contains(x));
        let j = choose|j: int| 0 <= j < t.len() && t[j] == x;
        let other = t.remove(j);
        assert(rest.to_multiset() =~= other.to_multiset()) by {
            assert(s.to_multiset() =~= rest.to_multiset().insert(x));
            assert(other.to_multiset() =~= t.to_multiset().remove(x));
        }
        lemma_permuted_map(rest, other, f);
        let sm = s.map_values(f);
        let tm = t.map_values(f);
        assert(sm =~= rest.map_values(f).push(f(x)));
        assert(tm.remove(j) =~= other.map_values(f));
        assert(tm[j] == f(x));
        assert(tm.to_multiset().count(f(x)) > 0) by {
            assert(tm.contains(tm[j]));
        }
        assert(tm.to_multiset() =~= other.map_values(f).to_multiset().insert(f(x)));
    }
}

/// Regions of one length are sorted in the same way once they all have the same
/// contents.
proof fn lemma_sort_refilled(regions: Seq<RegionView>, length: usize, bytes: Seq<u8>)
    requires
        forall|i: int| 0 <= i < regions.len() ==> (#[trigger] regions[i]).length == length,
        forall|i: int| 0 <= i < regions.len() ==> !(#[trigger] regions[i]).modified,
    ensures
        regions.map_values(refilled(bytes)).sort_by(region::region_order()) == regions.sort_by(
            region::region_order(),
        ).map_values(refilled(bytes)),
{
    let leq = region::region_order();
    let f = refilled(bytes);
    let sorted = regions.sort_by(leq);
    stream::lemma_region_order();
    regions.lemma_sort_by_ensures(leq);
    regions.map_values(f).lemma_sort_by_ensures(leq);
    lemma_permuted_map(regions, sorted, f);
    let mapped = sorted.map_values(f);
    assert forall|i: int| 0 <= i < sorted.len() implies (#[trigger] sorted[i]).length == length
        && !sorted[i].modified by {
        broadcast use group_to_multiset_ensures;

        assert(sorted.contains(sorted[i]));
        assert(regions.contains(sorted[i]));
    }
    assert(sorted_by(mapped, leq)) by {
        assert forall|i: int, j: int| 0 <= i < j < mapped.len() implies #[trigger] leq(
            mapped[i],
            mapped[j],
        ) by {
            assert(leq(sorted[i], sorted[j]));
            assert(mapped[i] == f(sorted[i]) && mapped[j] == f(sorted[j]));
        }
    }
    lemma_sorted_unique(regions.map_values(f).sort_by(leq), mapped, leq);
}

/// What the description announces in a file that holds other kargs.
proof fn lemma_located(
    image: IsoView,
    after: Seq<u8>,
    files: Seq<LocationView>,
    size: usize,
    bytes: Seq<u8>,
)
    requires
        after.len() == image.file.len(),
        size > 0,
        kargs::located_areas(image, files, size) is Ok,
        ({
            let list = kargs::located_areas(image, files, size)->Ok_0;
            forall|i: int|
                0 <= i < list.len() ==> after.subrange(
                    (#[trigger] list[i]).offset as int,
                    list[i].end(),
                ) == bytes
        }),
    ensures
        kargs::located_areas(IsoView { file: after, ..image }, files, size) == Ok::<
            Seq<RegionView>,
            Refusal,
        >(kargs::located_areas(image, files, size)->Ok_0.map_values(refilled(bytes))),
        ({
            let list = kargs::located_areas(image, files, size)->Ok_0;
            forall|i: int|
                0 <= i < list.len() ==> (#[trigger] list[i]).length == size && !list[i].modified
        }),
    decreases files.len(),
{
    let image2 = IsoView { file: after, ..image };
    let list = kargs::located_areas(image, files, size)->Ok_0;
    let f = refilled(bytes);
    if files.len() == 0 {
        assert(list.map_values(f) =~= Seq::<RegionView>::empty());
    } else {
        let before = kargs::located_areas(image, files.drop_last(), size)->Ok_0;
        let last = kargs::located_area(
            image,
            text::uppercase(files.last().path),
            files.last().offset,
            size,
        )->Ok_0;
        assert(list == before.push(last));
        assert forall|i: int| 0 <= i < before.len() implies after.subrange(
            (#[trigger] before[i]).offset as int,
            before[i].end(),
        ) == bytes by {
            assert(list[i] == before[i]);
        }
        lemma_located(image, after, files.drop_last(), size, bytes);
        assert(list[list.len() - 1] == last);
        assert(region::region_at(after, last.offset, size) =~= f(last));
        assert(list.map_values(f) =~= before.map_values(f).push(f(last)));
        assert forall|i: int| 0 <= i < list.len() implies (#[trigger] list[i]).length == size
            && !list[i].modified by {
            if i < before.len() {
                assert(list[i] == before[i]);
            }
        }
    }
}

/// Areas that all hold the same kargs can be built.
proof fn lemma_built_alike(
    length: usize,
    default: Seq<char>,
    regions: Seq<RegionView>,
    kargs: Seq<char>,
)
    requires
        regions.len() > 0,
        forall|i: int|
            0 <= i < regions.len() ==> area::area_kargs((#[trigger] regions[i]).contents) == Some(
                kargs,
            ),
    ensures
        kargs::built(length, default, regions) == Ok::<AreasView, Refusal>(
            AreasView { length, default, regions, args: kargs },
        ),
{
    lemma_no_disagreement(regions.drop_first(), kargs);
}

proof fn lemma_no_disagreement(regions: Seq<RegionView>, kargs: Seq<char>)
    requires
        forall|i: int|
            0 <= i < regions.len() ==> area::area_kargs((#[trigger] regions[i]).contents) == Some(
                kargs,
            ),
    ensures
        kargs::first_disagreement(regions, kargs) is None,
    decreases regions.len(),
{
    if regions.len() > 0 {
        let rest = regions.drop_first();
        assert forall|i: int| 0 <= i < rest.len() implies area::area_kargs(
            (#[trigger] rest[i]).contents,
        ) == Some(kargs) by {
            assert(rest[i] == regions[i + 1]);
        }
        lemma_no_disagreement(rest, kargs);
    }
}

/// The kargs that have been put into the areas that a description announces are
/// read back from there.
pub proof fn lemma_described_read_back(
    image: IsoView,
    info: InfoView,
    areas: AreasView,
    kargs: Seq<char>,
    after: Seq<u8>,
)
    requires
        kargs::described_areas(image, info) == Ok::<AreasView, Refusal>(areas),
        area::area_fits(text::trimmed(kargs), areas.length as nat),
        after.len() == image.file.len(),
        ({
            let new = areas.with_kargs(text::trimmed(kargs));
            forall|i: int| 0 <= i < new.regions.len() ==> holds(after, #[trigger] new.regions[i])
        }),
    ensures
        kargs::described_areas(IsoView { file: after, ..image }, info) == Ok::<AreasView, Refusal>(
            areas_stored(areas.with_kargs(text::trimmed(kargs))),
        ),
{
    let k = text::trimmed(kargs);
    let new = areas.with_kargs(k);
    let size = info.size;
    let bytes = area::area_bytes(k, size as nat);
    let f = refilled(bytes);
    let leq = region::region_order();
    let list = kargs::located_areas(image, info.files, size)->Ok_0;
    let sorted = list.sort_by(leq);
    area::law_area_round_trip(kargs, size as nat);
    stream::lemma_region_order();
    list.lemma_sort_by_ensures(leq);
    assert(areas.regions == sorted);
    assert(areas.length == size);
    lemma_located_shape(image, info.files, size);
    assert forall|i: int| 0 <= i < list.len() implies after.subrange(
        (#[trigger] list[i]).offset as int,
        list[i].end(),
    ) == bytes by {
        broadcast use group_to_multiset_ensures;

        assert(list.contains(list[i]));
        assert(list.to_multiset().count(list[i]) > 0);
        assert(sorted.to_multiset().count(list[i]) > 0);
        assert(sorted.contains(list[i]));
        let j = choose|j: int| 0 <= j < sorted.len() && sorted[j] == list[i];
        assert(holds(after, new.regions[j]));
    }
    lemma_located(image, after, info.files, size, bytes);
    lemma_sort_refilled(list, size, bytes);
    let read = sorted.map_values(f);
    assert(read.len() > 0);
    lemma_built_alike(size, info.default, read, k);
    assert forall|i: int| 0 <= i < sorted.len() implies !(#[trigger] sorted[i]).modified by {
        broadcast use group_to_multiset_ensures;

        assert(sorted.contains(sorted[i]));
        assert(list.contains(sorted[i]));
    }
    assert(read =~= areas_stored(new).regions);
}

/// The areas that a description announces have its size, and are as they were
/// read.
proof fn lemma_located_shape(image: IsoView, files: Seq<LocationView>, size: usize)
    requires
        kargs::located_areas(image, files, size) is Ok,
    ensures
        ({
            let list = kargs::located_areas(image, files, size)->Ok_0;
            forall|i: int|
                0 <= i < list.len() ==> (#[trigger] list[i]) == region::region_at(
                    image.file,
                    list[i].offset,
                    size,
                ) && region::readable(image.file, list[i].offset as int, size as int)
        }),
    decreases files.len(),
{
    if files.len() > 0 {
        lemma_located_shape(image, files.drop_last(), size);
        let list = kargs::located_areas(image, files, size)->Ok_0;
        let before = kargs::located_areas(image, files.drop_last(), size)->Ok_0;
        assert forall|i: int| 0 <= i < list.len() implies (#[trigger] list[i])
            == region::region_at(image.file, list[i].offset, size) && region::readable(
            image.file,
            list[i].offset as int,
            size as int,
        ) by {
            if i < before.len() {
                assert(list[i] == before[i]);
            }
        }
    }
}

/// What the header lists in a file that holds other kargs.
proof fn lemma_listed(
    file: Seq<u8>,
    after: Seq<u8>,
    offsets: Seq<u8>,
    length: usize,
    i: int,
    bytes: Seq<u8>,
)
    requires
        0 <= i <= kargs::KARG_HEADER_MAX_AREAS,
        after.len() == file.len(),
        length > 0,
        kargs::header_areas(file, offsets, length, i) is Ok,
        ({
            let list = kargs::header_areas(file, offsets, length, i)->Ok_0;
            forall|j: int|
                0 <= j < list.len() ==> after.subrange(
                    (#[trigger] list[j]).offset as int,
                    list[j].end(),
                ) == bytes
        }),
    ensures
        kargs::header_areas(after, offsets, length, i) == Ok::<Seq<RegionView>, Refusal>(
            kargs::header_areas(file, offsets, length, i)->Ok_0.map_values(refilled(bytes)),
        ),
        ({
            let list = kargs::header_areas(file, offsets, length, i)->Ok_0;
            forall|j: int|
                0 <= j < list.len() ==> (#[trigger] list[j]).length == length && !list[j].modified
        }),
    decreases kargs::KARG_HEADER_MAX_AREAS - i,
{
    let list = kargs::header_areas(file, offsets, length, i)->Ok_0;
    let f = refilled(bytes);
    let offset = kargs::header_number(offsets, i) as u64;
    if i >= kargs::KARG_HEADER_MAX_AREAS || offset == 0 {
        assert(list.map_values(f) =~= Seq::<RegionView>::empty());
    } else {
        let first = region::region_at(file, offset, length);
        let rest = kargs::header_areas(file, offsets, length, i + 1)->Ok_0;
        assert(list == seq![first] + rest);
        assert(list[0] == first);
        assert forall|j: int| 0 <= j < rest.len() implies after.subrange(
            (#[trigger] rest[j]).offset as int,
            rest[j].end(),
        ) == bytes by {
            assert(list[j + 1] == rest[j]);
        }
        lemma_listed(file, after, offsets, length, i + 1, bytes);
        assert(region::region_at(after, offset, length) =~= f(first));
        assert(list.map_values(f) =~= seq![f(first)] + rest.map_values(f));
        assert forall|j: int| 0 <= j < list.len() implies (#[trigger] list[j]).length == length
            && !list[j].modified by {
            if j > 0 {
                assert(list[j] == rest[j - 1]);
            }
        }
    }
}

/// Whether two files hold the same bytes in some part.
pub open spec fn alike(a: Seq<u8>, b: Seq<u8>, offset: int, length: int) -> bool {
    forall|p: int|
        offset <= p < offset + length && 0 <= p < a.len() ==> p < b.len() && #[trigger] a[p] == b[p]
}

/// Where the default kargs of the system area lie.
pub open spec fn system_default_offset(file: Seq<u8>) -> int {
    kargs::header_number(
        file.subrange(
            kargs::KARG_HEADER_OFFSET as int,
            kargs::KARG_HEADER_OFFSET + kargs::KARG_HEADER_SIZE,
        ),
        2,
    ) as u64 as int
}

/// The kargs that have been put into the areas that the system area announces
/// are read back from there, if the system area and its default kargs are left
/// alone.
pub proof fn lemma_system_read_back(
    file: Seq<u8>,
    areas: AreasView,
    kargs: Seq<char>,
    after: Seq<u8>,
)
    requires
        kargs::system_areas(file) == Ok::<Option<AreasView>, Refusal>(Some(areas)),
        area::area_fits(text::trimmed(kargs), areas.length as nat),
        after.len() == file.len(),
        alike(
            file,
            after,
            kargs::KARG_HEADER_OFFSET as int,
            kargs::KARG_HEADER_SIZE as int,
        ),
        alike(file, after, system_default_offset(file), areas.length as int),
        ({
            let new = areas.with_kargs(text::trimmed(kargs));
            forall|i: int| 0 <= i < new.regions.len() ==> holds(after, #[trigger] new.regions[i])
        }),
    ensures
        kargs::system_areas(after) == Ok::<Option<AreasView>, Refusal>(
            Some(areas_stored(areas.with_kargs(text::trimmed(kargs)))),
        ),
{
    let start = kargs::KARG_HEADER_OFFSET as int;
    let end = kargs::KARG_HEADER_OFFSET + kargs::KARG_HEADER_SIZE;
    let k = text::trimmed(kargs);
    let new = areas.with_kargs(k);
    let header = file.subrange(start, end);
    assert(after.subrange(start, end) =~= header);
    let length = areas.length;
    let offset = system_default_offset(file);
    let bytes = area::area_bytes(k, length as nat);
    area::law_area_round_trip(kargs, length as nat);
    assert(region::region_at(after, offset as u64, length) =~= region::region_at(
        file,
        offset as u64,
        length,
    ));
    let list = kargs::header_areas(file, header.skip(24), length, 0)->Ok_0;
    assert(areas.regions == list);
    assert forall|j: int| 0 <= j < list.len() implies after.subrange(
        (#[trigger] list[j]).offset as int,
        list[j].end(),
    ) == bytes by {
        lemma_listed_length(file, header.skip(24), length, 0);
        assert(holds(after, new.regions[j]));
    }
    lemma_listed(file, after, header.skip(24), length, 0, bytes);
    let read = list.map_values(refilled(bytes));
    lemma_built_alike(length, areas.default, read, k);
    assert(read =~= areas_stored(new).regions);
}

/// The areas that the header lists have the length that it gives.
proof fn lemma_listed_length(file: Seq<u8>, offsets: Seq<u8>, length: usize, i: int)
    requires
        kargs::header_areas(file, offsets, length, i) is Ok,
        0 <= i,
    ensures
        ({
            let list = kargs::header_areas(file, offsets, length, i)->Ok_0;
            forall|j: int| 0 <= j < list.len() ==> (#[trigger] list[j]) == region::region_at(
                file,
                list[j].offset,
                length,
            ) && region::readable(file, list[j].offset as int, length as int)
        }),
    decreases kargs::KARG_HEADER_MAX_AREAS - i,
{
    let list = kargs::header_areas(file, offsets, length, i)->Ok_0;
    if i < kargs::KARG_HEADER_MAX_AREAS && kargs::header_number(offsets, i) as u64 != 0 {
        lemma_listed_length(file, offsets, length, i + 1);
        let rest = kargs::header_areas(file, offsets, length, i + 1)->Ok_0;
        assert forall|j: int| 0 <= j < list.len() implies (#[trigger] list[j])
            == region::region_at(file, list[j].offset, length) && region::readable(
            file,
            list[j].offset as int,
            length as int,
        ) by {
            if j > 0 {
                assert(list[j] == rest[j - 1]);
            }
        }
    }
}

/// A region of a file is the same in a file that is alike there.
proof fn lemma_region_alike(file: Seq<u8>, after: Seq<u8>, offset: u64, length: usize)
    requires
        after.len() == file.len(),
        alike(file, after, offset as int, length as int),
        region::readable(file, offset as int, length as int),
    ensures
        region::region_at(after, offset, length) == region::region_at(file, offset, length),
{
    assert(region::region_at(after, offset, length) =~= region::region_at(file, offset, length));
}

/// What the description announces is the same in a file that is alike there.
proof fn lemma_located_same(
    image: IsoView,
    after: Seq<u8>,
    files: Seq<LocationView>,
    size: usize,
)
    requires
        after.len() == image.file.len(),
        kargs::located_areas(image, files, size) is Ok,
        ({
            let list = kargs::located_areas(image, files, size)->Ok_0;
            forall|i: int|
                0 <= i < list.len() ==> alike(
                    image.file,
                    after,
                    (#[trigger] list[i]).offset as int,
                    size as int,
                )
        }),
    ensures
        kargs::located_areas(IsoView { file: after, ..image }, files, size)
            == kargs::located_areas(image, files, size),
    decreases files.len(),
{
    if files.len() > 0 {
        let list = kargs::located_areas(image, files, size)->Ok_0;
        let before = kargs::located_areas(image, files.drop_last(), size)->Ok_0;
        let last = kargs::located_area(
            image,
            text::uppercase(files.last().path),
            files.last().offset,
            size,
        )->Ok_0;
        assert(list == before.push(last));
        assert forall|i: int| 0 <= i < before.len() implies alike(
            image.file,
            after,
            (#[trigger] before[i]).offset as int,
            size as int,
        ) by {
            assert(list[i] == before[i]);
        }
        lemma_located_same(image, after, files.drop_last(), size);
        assert(list[list.len() - 1] == last);
        lemma_region_alike(image.file, after, last.offset, size);
    }
}

/// What the header lists is the same in a file that is alike there.
proof fn lemma_listed_same(
    file: Seq<u8>,
    after: Seq<u8>,
    offsets: Seq<u8>,
    length: usize,
    i: int,
)
    requires
        0 <= i,
        after.len() == file.len(),
        kargs::header_areas(file, offsets, length, i) is Ok,
        ({
            let list = kargs::header_areas(file, offsets, length, i)->Ok_0;
            forall|j: int|
                0 <= j < list.len() ==> alike(
                    file,
                    after,
                    (#[trigger] list[j]).offset as int,
                    length as int,
                )
        }),
    ensures
        kargs::header_areas(after, offsets, length, i) == kargs::header_areas(
            file,
            offsets,
            length,
            i,
        ),
    decreases kargs::KARG_HEADER_MAX_AREAS - i,
{
    let offset = kargs::header_number(offsets, i) as u64;
    if i < kargs::KARG_HEADER_MAX_AREAS && offset != 0 {
        let list = kargs::header_areas(file, offsets, length, i)->Ok_0;
        let rest = kargs::header_areas(file, offsets, length, i + 1)->Ok_0;
        assert(list == seq![region::region_at(file, offset, length)] + rest);
        assert(list[0].offset == offset);
        assert forall|j: int| 0 <= j < rest.len() implies alike(
            file,
            after,
            (#[trigger] rest[j]).offset as int,
            length as int,
        ) by {
            assert(list[j + 1] == rest[j]);
        }
        lemma_listed_same(file, after, offsets, length, i + 1);
        lemma_region_alike(file, after, offset, length);
    }
}

/// Whether karg embed areas are as they were read from a file.
pub open spec fn as_read(file: Seq<u8>, areas: AreasView) -> bool {
    forall|i: int|
        0 <= i < areas.regions.len() ==> {
            &&& #[trigger] areas.regions[i] == region::region_at(
                file,
                areas.regions[i].offset,
                areas.length,
            )
            &&& region::readable(file, areas.regions[i].offset as int, areas.length as int)
        }
}

/// Areas that a description announces are as they were read.
pub proof fn lemma_described_shape(image: IsoView, info: InfoView)
    requires
        kargs::described_areas(image, info) is Ok,
    ensures
        as_read(image.file, kargs::described_areas(image, info)->Ok_0),
{
    let areas = kargs::described_areas(image, info)->Ok_0;
    let leq = region::region_order();
    let list = kargs::located_areas(image, info.files, info.size)->Ok_0;
    stream::lemma_region_order();
    list.lemma_sort_by_ensures(leq);
    lemma_located_shape(image, info.files, info.size);
    assert forall|i: int| 0 <= i < areas.regions.len() implies {
        &&& #[trigger] areas.regions[i] == region::region_at(
            image.file,
            areas.regions[i].offset,
            areas.length,
        )
        &&& region::readable(image.file, areas.regions[i].offset as int, areas.length as int)
    } by {
        broadcast use group_to_multiset_ensures;

        let r = areas.regions[i];
        assert(areas.regions.contains(r));
        assert(areas.regions.to_multiset().count(r) > 0);
        assert(list.to_multiset().count(r) > 0);
        assert(list.contains(r));
    }
}

/// Areas that the system area announces are as they were read.
pub proof fn lemma_system_shape(file: Seq<u8>)
    requires
        kargs::system_areas(file) matches Ok(Some(_)),
    ensures
        as_read(file, kargs::system_areas(file)->Ok_0->0),
{
    let areas = kargs::system_areas(file)->Ok_0->0;
    let header = file.subrange(
        kargs::KARG_HEADER_OFFSET as int,
        kargs::KARG_HEADER_OFFSET + kargs::KARG_HEADER_SIZE,
    );
    lemma_listed_length(file, header.skip(24), areas.length, 0);
}

/// Areas that are as they were read are read back as they are.
pub proof fn lemma_as_read_stored(file: Seq<u8>, areas: AreasView)
    requires
        as_read(file, areas),
    ensures
        areas_stored(areas) == areas,
{
    assert forall|i: int| 0 <= i < areas.regions.len() implies stored(areas.regions[i])
        == areas.regions[i] by {
        assert(!areas.regions[i].modified);
    }
    assert(areas_stored(areas).regions =~= areas.regions);
}

/// What a description announces is the same in a file that is alike there.
pub proof fn lemma_described_same(
    image: IsoView,
    info: InfoView,
    areas: AreasView,
    after: Seq<u8>,
)
    requires
        kargs::described_areas(image, info) == Ok::<AreasView, Refusal>(areas),
        after.len() == image.file.len(),
        forall|i: int|
            0 <= i < areas.regions.len() ==> alike(
                image.file,
                after,
                (#[trigger] areas.regions[i]).offset as int,
                areas.length as int,
            ),
    ensures
        kargs::described_areas(IsoView { file: after, ..image }, info) == Ok::<AreasView, Refusal>(
            areas,
        ),
{
    let leq = region::region_order();
    let list = kargs::located_areas(image, info.files, info.size)->Ok_0;
    let sorted = areas.regions;
    stream::lemma_region_order();
    list.lemma_sort_by_ensures(leq);
    assert forall|i: int| 0 <= i < list.len() implies alike(
        image.file,
        after,
        (#[trigger] list[i]).offset as int,
        info.size as int,
    ) by {
        broadcast use group_to_multiset_ensures;

        assert(list.contains(list[i]));
        assert(list.to_multiset().count(list[i]) > 0);
        assert(sorted.to_multiset().count(list[i]) > 0);
        assert(sorted.contains(list[i]));
        let j = choose|j: int| 0 <= j < sorted.len() && sorted[j] == list[i];
        assert(alike(image.file, after, areas.regions[j].offset as int, areas.length as int));
    }
    lemma_located_same(image, after, info.files, info.size);
}

/// What the system area announces is the same in a file that is alike there.
pub proof fn lemma_system_same(file: Seq<u8>, after: Seq<u8>)
    requires
        kargs::system_areas(file) is Ok,
        after.len() == file.len(),
        alike(
            file,
            after,
            kargs::KARG_HEADER_OFFSET as int,
            kargs::KARG_HEADER_SIZE as int,
        ),
        kargs::system_areas(file) matches Ok(Some(areas)) ==> {
            &&& alike(file, after, system_default_offset(file), areas.length as int)
            &&& forall|i: int|
                0 <= i < areas.regions.len() ==> alike(
                    file,
                    after,
                    (#[trigger] areas.regions[i]).offset as int,
                    areas.length as int,
                )
        },
    ensures
        kargs::system_areas(after) == kargs::system_areas(file),
{
    let start = kargs::KARG_HEADER_OFFSET as int;
    let end = kargs::KARG_HEADER_OFFSET + kargs::KARG_HEADER_SIZE;
    let header = file.subrange(start, end);
    assert(after.subrange(start, end) =~= header);
    if kargs::system_areas(file)->Ok_0 is Some {
        let areas = kargs::system_areas(file)->Ok_0->0;
        lemma_region_alike(file, after, system_default_offset(file) as u64, areas.length);
        let list = kargs::header_areas(file, header.skip(24), areas.length, 0)->Ok_0;
        assert(areas.regions == list);
        assert forall|j: int| 0 <= j < list.len() implies alike(
            file,
            after,
            (#[trigger] list[j]).offset as int,
            areas.length as int,
        ) by {
            assert(alike(file, after, areas.regions[j].offset as int, areas.length as int));
        }
        lemma_listed_same(file, after, header.skip(24), areas.length, 0);
    }
}

/// Where a region lies, whatever it holds.
pub open spec fn place(r: RegionView) -> RegionView {
    RegionView { contents: Seq::empty(), modified: false, ..r }
}

/// Whether two lists of regions lie in the same places.
pub open spec fn same_regions(a: Seq<RegionView>, b: Seq<RegionView>) -> bool {
    &&& a.len() == b.len()
    &&& forall|i: int| 0 <= i < a.len() ==> place(#[trigger] a[i]) == place(b[i])
}

/// Whether karg embed areas are alike but for the kargs that they hold.
pub open spec fn same_areas(a: AreasView, b: AreasView) -> bool {
    &&& a.length == b.length
    &&& a.default == b.default
    &&& same_regions(a.regions, b.regions)
}

/// Whether karg embed areas that may be absent are alike but for the kargs that
/// they hold.
pub open spec fn same_optional_areas(a: Option<AreasView>, b: Option<AreasView>) -> bool {
    match (a, b) {
        (Some(a), Some(b)) => same_areas(a, b),
        (None, None) => true,
        _ => false,
    }
}

/// A description announces the same places in files of one length.
proof fn lemma_located_places(
    image: IsoView,
    after: Seq<u8>,
    files: Seq<LocationView>,
    size: usize,
)
    requires
        kargs::located_areas(image, files, size) is Ok,
        kargs::located_areas(IsoView { file: after, ..image }, files, size) is Ok,
    ensures
        same_regions(
            kargs::located_areas(image, files, size)->Ok_0,
            kargs::located_areas(IsoView { file: after, ..image }, files, size)->Ok_0,
        ),
    decreases files.len(),
{
    if files.len() > 0 {
        let image2 = IsoView { file: after, ..image };
        let a = kargs::located_areas(image, files, size)->Ok_0;
        let b = kargs::located_areas(image2, files, size)->Ok_0;
        let before_a = kargs::located_areas(image, files.drop_last(), size)->Ok_0;
        let before_b = kargs::located_areas(image2, files.drop_last(), size)->Ok_0;
        lemma_located_places(image, after, files.drop_last(), size);
        assert forall|i: int| 0 <= i < a.len() implies place(#[trigger] a[i]) == place(b[i]) by {
            if i < before_a.len() {
                assert(a[i] == before_a[i] && b[i] == before_b[i]);
            }
        }
    }
}

/// The areas that a description announces lie in the same places in files of one
/// length.
pub proof fn lemma_described_places(image: IsoView, info: InfoView, after: Seq<u8>)
    requires
        kargs::described_areas(image, info) is Ok,
        kargs::described_areas(IsoView { file: after, ..image }, info) is Ok,
    ensures
        same_areas(
            kargs::described_areas(image, info)->Ok_0,
            kargs::described_areas(IsoView { file: after, ..image }, info)->Ok_0,
        ),
{
    let image2 = IsoView { file: after, ..image };
    let none = Seq::<u8>::empty();
    let f = refilled(none);
    let a = kargs::located_areas(image, info.files, info.size)->Ok_0;
    let b = kargs::located_areas(image2, info.files, info.size)->Ok_0;
    lemma_located_places(image, after, info.files, info.size);
    lemma_located_shape(image, info.files, info.size);
    lemma_located_shape(image2, info.files, info.size);
    lemma_sort_refilled(a, info.size, none);
    lemma_sort_refilled(b, info.size, none);
    assert forall|i: int| 0 <= i < a.len() implies a.map_values(f)[i] == b.map_values(f)[i] by {
        assert(place(a[i]) == place(b[i]));
    }
    assert(a.map_values(f) =~= b.map_values(f));
    lemma_described_shape(image, info);
    lemma_described_shape(image2, info);
    let sa = kargs::described_areas(image, info)->Ok_0.regions;
    let sb = kargs::described_areas(image2, info)->Ok_0.regions;
    assert(sa.map_values(f) == sb.map_values(f));
    assert(sa.len() == sa.map_values(f).len() && sb.len() == sb.map_values(f).len());
    assert forall|i: int| 0 <= i < sa.len() implies place(#[trigger] sa[i]) == place(sb[i]) by {
        assert(sa.map_values(f)[i] == f(sa[i]));
        assert(sb.map_values(f)[i] == f(sb[i]));
        assert(!sa[i].modified && !sb[i].modified);
    }
}

/// The header lists the same places in two files.
proof fn lemma_listed_places(
    file: Seq<u8>,
    after: Seq<u8>,
    offsets: Seq<u8>,
    length: usize,
    i: int,
)
    requires
        kargs::header_areas(file, offsets, length, i) is Ok,
        kargs::header_areas(after, offsets, length, i) is Ok,
    ensures
        same_regions(
            kargs::header_areas(file, offsets, length, i)->Ok_0,
            kargs::header_areas(after, offsets, length, i)->Ok_0,
        ),
    decreases kargs::KARG_HEADER_MAX_AREAS - i,
{
    let a = kargs::header_areas(file, offsets, length, i)->Ok_0;
    let b = kargs::header_areas(after, offsets, length, i)->Ok_0;
    if i < kargs::KARG_HEADER_MAX_AREAS && kargs::header_number(offsets, i) as u64 != 0 {
        lemma_listed_places(file, after, offsets, length, i + 1);
        let rest_a = kargs::header_areas(file, offsets, length, i + 1)->Ok_0;
        let rest_b = kargs::header_areas(after, offsets, length, i + 1)->Ok_0;
        assert forall|j: int| 0 <= j < a.len() implies place(#[trigger] a[j]) == place(b[j]) by {
            if j > 0 {
                assert(a[j] == rest_a[j - 1] && b[j] == rest_b[j - 1]);
            }
        }
    }
}

/// The areas that the system area announces lie in the same places in a file
/// that is alike in what describes them.
pub proof fn lemma_system_places(file: Seq<u8>, after: Seq<u8>)
    requires
        kargs::system_areas(file) is Ok,
        kargs::system_areas(after) is Ok,
        alike(
            file,
            after,
            kargs::KARG_HEADER_OFFSET as int,
            kargs::KARG_HEADER_SIZE as int,
        ),
        kargs::system_areas(file) matches Ok(Some(areas)) ==> alike(
            file,
            after,
            system_default_offset(file),
            areas.length as int,
        ),
        after.len() == file.len(),
    ensures
        same_optional_areas(kargs::system_areas(file)->Ok_0, kargs::system_areas(after)->Ok_0),
{
    let start = kargs::KARG_HEADER_OFFSET as int;
    let end = kargs::KARG_HEADER_OFFSET + kargs::KARG_HEADER_SIZE;
    let header = file.subrange(start, end);
    assert(after.subrange(start, end) =~= header);
    if kargs::system_areas(file)->Ok_0 is Some {
        let areas = kargs::system_areas(file)->Ok_0->0;
        lemma_region_alike(file, after, system_default_offset(file) as u64, areas.length);
        lemma_listed_places(file, after, header.skip(24), areas.length, 0);
    }
}

} // verus!
