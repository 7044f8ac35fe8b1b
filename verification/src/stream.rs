//! Copying an image file with some of its regions replaced.

use crate::error::LiveError;
use crate::order;
use crate::region;
use crate::region::{Region, RegionView, Segment, SegmentView};
use vstd::prelude::*;
use vstd::relations::*;
use vstd::seq_lib::*;

verus! {

/// The order of regions is a total order.
pub proof fn lemma_region_order()
    ensures
        total_ordering(region::region_order()),
{
    let leq = region::region_order();
    assert forall|x: RegionView| #[trigger] leq(x, x) by {
        order::lemma_bytes_le_reflexive(x.contents);
    }
    assert forall|x: RegionView, y: RegionView| #[trigger]
        leq(x, y) && #[trigger] leq(y, x) implies x == y by {
        if x.contents != y.contents {
            order::lemma_bytes_le_antisymmetric(x.contents, y.contents);
        }
    }
    assert forall|x: RegionView, y: RegionView, z: RegionView| #[trigger]
        leq(x, y) && #[trigger] leq(y, z) implies leq(x, z) by {
        order::lemma_bytes_le_reflexive(x.contents);
        if order::bytes_le(x.contents, y.contents) && order::bytes_le(y.contents, z.contents) {
            order::lemma_bytes_le_transitive(x.contents, y.contents, z.contents);
            if x.contents == z.contents && x.contents != y.contents {
                order::lemma_bytes_le_antisymmetric(x.contents, y.contents);
            }
        }
    }
    assert forall|x: RegionView, y: RegionView| #[trigger] leq(x, y) || #[trigger] leq(y, x) by {
        order::lemma_bytes_le_total(x.contents, y.contents);
    }
}

/// Whether region `a` is at most region `b` in the order of regions.
fn region_at_most(a: &Region, b: &Region) -> (r: bool)
    ensures
        r == region::region_le(a@, b@),
{
    if a.offset != b.offset {
        a.offset < b.offset
    } else if a.length != b.length {
        a.length < b.length
    } else if !order::same_bytes(a.contents.as_slice(), b.contents.as_slice()) {
        order::bytes_at_most(a.contents.as_slice(), b.contents.as_slice())
    } else {
        !a.modified || b.modified
    }
}

/// The views of a list of regions.
pub open spec fn region_views(v: Seq<Region>) -> Seq<RegionView> {
    v.map_values(|r: Region| r@)
}

/// Inserting an element into a sorted sequence where it belongs keeps it sorted.
proof fn lemma_insert_sorted(s: Seq<RegionView>, at: int, r: RegionView)
    requires
        sorted_by(s, region::region_order()),
        0 <= at <= s.len(),
        forall|j: int| 0 <= j < at ==> region::region_le(#[trigger] s[j], r),
        forall|j: int| at <= j < s.len() ==> region::region_le(r, #[trigger] s[j]),
    ensures
        sorted_by(s.insert(at, r), region::region_order()),
        s.insert(at, r).to_multiset() == s.to_multiset().insert(r),
{
    let leq = region::region_order();
    let t = s.insert(at, r);
    assert forall|i: int, j: int| 0 <= i < j < t.len() implies #[trigger] leq(t[i], t[j]) by {
        let a = if i < at {
            i
        } else {
            i - 1
        };
        let b = if j < at {
            j
        } else {
            j - 1
        };
        if i != at && j != at {
            assert(t[i] == s[a] && t[j] == s[b]);
            assert(leq(s[a], s[b]));
        } else if i == at {
            assert(t[j] == s[b]);
        } else {
            assert(t[i] == s[a]);
        }
    }
    broadcast use group_to_multiset_ensures;

    assert(t.remove(at) =~= s);
    assert(t.to_multiset().count(t[at]) > 0) by {
        assert(t.contains(t[at]));
    }
    assert(t.to_multiset().remove(r).insert(r) =~= t.to_multiset());
}

/// Sorts a list of regions.
pub fn sort_regions(regions: Vec<Region>) -> (r: Vec<Region>)
    ensures
        region_views(r@) == region_views(regions@).sort_by(region::region_order()),
{
    let ghost input = region_views(regions@);
    let mut pending: Vec<Region> = regions;
    let mut done: Vec<Region> = Vec::new();
    proof {
        lemma_region_order();
        broadcast use group_to_multiset_ensures;

        assert(region_views(done@) =~= Seq::<RegionView>::empty());
        assert(Seq::<RegionView>::empty().to_multiset() =~= vstd::multiset::Multiset::empty());
        assert(input.to_multiset().add(Seq::<RegionView>::empty().to_multiset())
            =~= input.to_multiset());
    }
    loop
        invariant
            total_ordering(region::region_order()),
            sorted_by(region_views(done@), region::region_order()),
            region_views(pending@).to_multiset().add(region_views(done@).to_multiset())
                == input.to_multiset(),
        ensures
            pending@.len() == 0,
        decreases pending.len(),
    {
        let ghost pending_before = region_views(pending@);
        match pending.pop() {
            None => {
                break;
            },
            Some(region) => {
                proof {
                    broadcast use group_to_multiset_ensures;

                    assert(pending_before =~= region_views(pending@).push(region@));
                }
                let mut at: usize = 0;
                while at < done.len() && region_at_most(&done[at], &region)
                    invariant
                        at <= done.len(),
                        forall|j: int| 0 <= j < at ==> region::region_le(#[trigger] done@[j]@, region@),
                    decreases done.len() - at,
                {
                    at = at + 1;
                }
                let ghost s = region_views(done@);
                proof {
                    let leq = region::region_order();
                    assert forall|j: int| at <= j < s.len() implies region::region_le(
                        region@,
                        #[trigger] s[j],
                    ) by {
                        assert(leq(region@, s[at as int]) || leq(s[at as int], region@));
                        if j > at {
                            assert(leq(s[at as int], s[j]));
                        }
                    }
                    lemma_insert_sorted(s, at as int, region@);
                }
                let ghost rv = region@;
                done.insert(at, region);
                proof {
                    assert(region_views(done@) =~= s.insert(at as int, rv));
                    assert(region_views(pending@).to_multiset().insert(rv).add(s.to_multiset())
                        =~= region_views(pending@).to_multiset().add(s.to_multiset().insert(rv)));
                }
            },
        }
    }
    proof {
        broadcast use group_to_multiset_ensures;

        assert(region_views(pending@) =~= Seq::<RegionView>::empty());
        assert(region_views(pending@).to_multiset() =~= vstd::multiset::Multiset::empty());
        assert(region_views(done@).to_multiset() =~= input.to_multiset());
        input.lemma_sort_by_ensures(region::region_order());
        lemma_sorted_unique(
            region_views(done@),
            input.sort_by(region::region_order()),
            region::region_order(),
        );
    }
    done
}

/// The modified regions of a list belong to the list.
proof fn lemma_modified_in_order(regions: Seq<RegionView>)
    ensures
        sorted_by(region::modified_in_order(regions), region::region_order()),
        forall|x: RegionView|
            #[trigger] region::modified_in_order(regions).contains(x) <==> regions.contains(x)
                && x.modified,
{
    let pred = |r: RegionView| r.modified;
    let kept = regions.filter(pred);
    let sorted = region::modified_in_order(regions);
    lemma_region_order();
    kept.lemma_sort_by_ensures(region::region_order());
    broadcast use group_filter_ensures;

    assert forall|x: RegionView|
        #[trigger] sorted.contains(x) <==> regions.contains(x) && x.modified by {
        broadcast use group_to_multiset_ensures;

        assert(sorted.contains(x) <==> sorted.to_multiset().count(x) > 0);
        assert(kept.contains(x) <==> kept.to_multiset().count(x) > 0);
        lemma_filter_contains_iff(regions, pred, x);
    }
}

/// A list without modified regions has none to be put in order.
pub proof fn lemma_none_modified(regions: Seq<RegionView>)
    requires
        forall|k: int| 0 <= k < regions.len() ==> !(#[trigger] regions[k]).modified,
    ensures
        region::modified_in_order(regions) == Seq::<RegionView>::empty(),
{
    let sorted = region::modified_in_order(regions);
    lemma_modified_in_order(regions);
    if sorted.len() > 0 {
        assert(region::modified_in_order(regions).contains(sorted[0]));
        let k = choose|k: int| 0 <= k < regions.len() && regions[k] == sorted[0];
        assert(!regions[k].modified);
    }
    assert(sorted =~= Seq::<RegionView>::empty());
}

proof fn lemma_filter_contains_iff(
    s: Seq<RegionView>,
    pred: spec_fn(RegionView) -> bool,
    x: RegionView,
)
    ensures
        s.filter(pred).contains(x) <==> s.contains(x) && pred(x),
    decreases s.len(),
{
    reveal(Seq::filter);
    if s.len() > 0 {
        lemma_filter_contains_iff(s.drop_last(), pred, x);
        let rest = s.drop_last().filter(pred);
        assert(s.contains(x) <==> s.drop_last().contains(x) || s.last() == x) by {
            assert(s =~= s.drop_last().push(s.last()));
            if s.last() == x {
                assert(s[s.len() - 1] == x);
            }
            if s.drop_last().contains(x) {
                let i = choose|i: int| 0 <= i < s.drop_last().len() && s.drop_last()[i] == x;
                assert(s[i] == x);
            }
            if s.contains(x) && s.last() != x {
                let i = choose|i: int| 0 <= i < s.len() && s[i] == x;
                assert(s.drop_last()[i] == x);
            }
        }
        if pred(s.last()) {
            let t = rest.push(s.last());
            assert(t.contains(x) <==> rest.contains(x) || s.last() == x) by {
                if rest.contains(x) {
                    let i = choose|i: int| 0 <= i < rest.len() && rest[i] == x;
                    assert(t[i] == x);
                }
                if s.last() == x {
                    assert(t[rest.len() as int] == x);
                }
                if t.contains(x) && s.last() != x {
                    let i = choose|i: int| 0 <= i < t.len() && t[i] == x;
                    assert(rest[i] == x);
                }
            }
        }
    }
}

/// Copies of the modified regions of a list, in order.
fn modified_regions(regions: &Vec<&Region>) -> (r: Vec<Region>)
    ensures
        region_views(r@) == region::modified_in_order(region::regions_of(regions@)),
{
    let ghost all = region::regions_of(regions@);
    let ghost pred = |r: RegionView| r.modified;
    let mut picked: Vec<Region> = Vec::new();
    let mut i: usize = 0;
    proof {
        reveal(Seq::filter);
        assert(region_views(picked@) =~= all.take(0).filter(pred));
    }
    while i < regions.len()
        invariant
            i <= regions.len(),
            all == region::regions_of(regions@),
            pred == (|r: RegionView| r.modified),
            region_views(picked@) == all.take(i as int).filter(pred),
        decreases regions.len() - i,
    {
        let ghost before = region_views(picked@);
        proof {
            reveal(Seq::filter);
            assert(all.take(i + 1).drop_last() =~= all.take(i as int));
            assert(all.take(i + 1).last() == all[i as int]);
        }
        if regions[i].modified {
            let region = regions[i].clone();
            let ghost view = region@;
            picked.push(region);
            assert(region_views(picked@) =~= before.push(view));
        }
        i = i + 1;
    }
    assert(all.take(i as int) =~= all);
    sort_regions(picked)
}

/// The copy of a file with the modified ones among `regions` replaced.
pub fn stream(regions: &Vec<&Region>) -> (r: Result<Vec<Segment>, LiveError>)
    requires
        region::ends_fit(region::regions_of(regions@)),
    ensures
        ({
            let sorted = region::modified_in_order(region::regions_of(regions@));
            match r {
                Ok(plan) => region::first_fault(sorted, 0) is None && region::segments(plan@)
                    == region::copy_plan(sorted, 0),
                Err(e) => region::first_fault(sorted, 0) == Some(e@),
            }
        }),
{
    let sorted = modified_regions(regions);
    let ghost sv = region_views(sorted@);
    proof {
        lemma_modified_in_order(region::regions_of(regions@));
        assert forall|j: int| 0 <= j < sv.len() implies (#[trigger] sv[j]).end() <= u64::MAX by {
            let all = region::regions_of(regions@);
            assert(region::modified_in_order(all).contains(sv[j]));
            let k = choose|k: int| 0 <= k < all.len() && all[k] == sv[j];
            assert(all[k].modified);
        }
        assert(sv.skip(0) =~= sv);
    }
    let mut cursor: u64 = 0;
    let mut i: usize = 0;
    while i < sorted.len()
        invariant
            i <= sorted.len(),
            sv == region_views(sorted@),
            sv == region::modified_in_order(region::regions_of(regions@)),
            forall|j: int| 0 <= j < sv.len() ==> (#[trigger] sv[j]).end() <= u64::MAX,
            region::first_fault(sv, 0) == region::first_fault(sv.skip(i as int), cursor as int),
        decreases sorted.len() - i,
    {
        assert(sv.skip(i as int).first() == sorted@[i as int]@);
        assert(sv.skip(i as int).drop_first() =~= sv.skip(i + 1));
        assert(sv[i as int].end() <= u64::MAX);
        match sorted[i].validate() {
            Ok(()) => {},
            Err(e) => {
                return Err(e);
            },
        }
        if sorted[i].offset < cursor {
            return Err(LiveError::RegionOverlap { offset: sorted[i].offset, cursor });
        }
        cursor = sorted[i].offset + sorted[i].length as u64;
        i = i + 1;
    }
    assert(region::first_fault(sv, 0) is None);
    cursor = 0;
    i = 0;
    let mut plan: Vec<Segment> = Vec::new();
    assert(region::segments(plan@) + region::copy_plan(sv.skip(0), 0) =~= region::copy_plan(sv, 0));
    while i < sorted.len()
        invariant
            i <= sorted.len(),
            sv == region_views(sorted@),
            forall|j: int| 0 <= j < sv.len() ==> (#[trigger] sv[j]).end() <= u64::MAX,
            region::first_fault(sv.skip(i as int), cursor as int) is None,
            region::segments(plan@) + region::copy_plan(sv.skip(i as int), cursor as int)
                == region::copy_plan(sv, 0),
        decreases sorted.len() - i,
    {
        assert(sv.skip(i as int).first() == sorted@[i as int]@);
        assert(sv.skip(i as int).drop_first() =~= sv.skip(i + 1));
        assert(sv[i as int].end() <= u64::MAX);
        let ghost before = region::segments(plan@);
        let ghost from = cursor as int;
        let data = sorted[i].contents.clone();
        assert(data@ =~= sorted@[i as int].contents@);
        plan.push(Segment::Copy { offset: cursor, length: sorted[i].offset - cursor });
        plan.push(Segment::Data { data });
        cursor = sorted[i].offset + sorted[i].length as u64;
        i = i + 1;
        proof {
            let r = sv[i - 1];
            let head = seq![
                SegmentView::Copy { offset: from, length: r.offset - from },
                SegmentView::Data { data: r.contents },
            ];
            assert(region::segments(plan@) =~= before + head);
            assert(region::segments(plan@) + region::copy_plan(sv.skip(i as int), cursor as int)
                =~= before + (head + region::copy_plan(sv.skip(i as int), cursor as int)));
        }
    }
    let ghost before = region::segments(plan@);
    plan.push(Segment::Rest { offset: cursor });
    assert(region::segments(plan@) =~= before + seq![SegmentView::Rest { offset: cursor as int }]);
    Ok(plan)
}

/// In a faultless list each region ends before the next begins.
proof fn lemma_faultless(regions: Seq<RegionView>, cursor: int)
    requires
        region::first_fault(regions, cursor) is None,
    ensures
        forall|k: int| 0 <= k < regions.len() ==> (#[trigger] regions[k]).fits(),
        forall|k: int| 0 <= k < regions.len() ==> cursor <= (#[trigger] regions[k]).offset,
        forall|a: int, b: int|
            0 <= a < b < regions.len() ==> (#[trigger] regions[a]).end() <= (
            #[trigger] regions[b]).offset,
    decreases regions.len(),
{
    if regions.len() > 0 {
        let rest = regions.drop_first();
        lemma_faultless(rest, regions.first().end());
        assert forall|k: int| 0 <= k < regions.len() implies (#[trigger] regions[k]).fits()
            && cursor <= regions[k].offset by {
            if k > 0 {
                assert(regions[k] == rest[k - 1]);
            }
        }
        assert forall|a: int, b: int| 0 <= a < b < regions.len() implies (
        #[trigger] regions[a]).end() <= (#[trigger] regions[b]).offset by {
            assert(regions[b] == rest[b - 1]);
            if a > 0 {
                assert(regions[a] == rest[a - 1]);
            }
        }
    }
}

/// Where a copy can be planned, the contents of each modified region fill it.
pub proof fn lemma_planned(regions: Seq<RegionView>)
    requires
        region::first_fault(region::modified_in_order(regions), 0) is None,
    ensures
        forall|k: int|
            0 <= k < regions.len() && (#[trigger] regions[k]).modified ==> regions[k].fits(),
{
    let sorted = region::modified_in_order(regions);
    lemma_faultless(sorted, 0);
    lemma_modified_in_order(regions);
    assert forall|k: int|
        0 <= k < regions.len() && (#[trigger] regions[k]).modified implies regions[k].fits() by {
        assert(regions.contains(regions[k]));
        assert(region::modified_in_order(regions).contains(regions[k]));
        let m = choose|m: int| 0 <= m < sorted.len() && sorted[m] == regions[k];
        assert(sorted[m].fits());
    }
}

/// What the copy of a file from position `cursor` on holds.
proof fn lemma_copy(file: Seq<u8>, regions: Seq<RegionView>, cursor: int, out: Seq<u8>)
    requires
        0 <= cursor,
        region::first_fault(regions, cursor) is None,
        forall|k: int| 0 <= k < regions.len() ==> (#[trigger] regions[k]).modified,
        region::render(file, region::copy_plan(regions, cursor)) == Some(out),
    ensures
        cursor + out.len() >= file.len(),
        forall|k: int| 0 <= k < regions.len() ==> (#[trigger] regions[k]).end() <= cursor
            + out.len(),
        forall|k: int, i: int|
            0 <= k < regions.len() && 0 <= i < out.len() && (#[trigger] regions[k]).covers(
                cursor + i,
            ) ==> #[trigger] out[i] == regions[k].contents[cursor + i - regions[k].offset],
        forall|p: int|
            cursor <= p < cursor + out.len() && !#[trigger] covered(regions, p) ==> p < file.len()
                && out[p - cursor] == file[p],
    decreases regions.len(),
{
    let plan = region::copy_plan(regions, cursor);
    lemma_faultless(regions, cursor);
    if regions.len() == 0 {
        reveal_with_fuel(region::render, 2);
        assert(plan.drop_first() =~= Seq::<SegmentView>::empty());
        assert(out =~= region::segment_bytes(file, plan.first())->0);
        assert forall|p: int|
            cursor <= p < cursor + out.len() && !#[trigger] covered(regions, p) implies p
            < file.len() && out[p - cursor] == file[p] by {
        }
    } else {
        let r = regions.first();
        let rest = regions.drop_first();
        let tail_plan = region::copy_plan(rest, r.end());
        assert(plan.drop_first().drop_first() =~= tail_plan);
        assert(plan.first() == SegmentView::Copy { offset: cursor, length: r.offset - cursor });
        assert(plan.drop_first().first() == SegmentView::Data { data: r.contents });
        let gap = region::segment_bytes(file, plan.first())->0;
        let data_and_tail = region::render(file, plan.drop_first())->0;
        let tail = region::render(file, tail_plan)->0;
        assert(out =~= gap + data_and_tail);
        assert(data_and_tail =~= r.contents + tail);
        assert(gap.len() == r.offset - cursor);
        assert(regions[0].fits());
        lemma_copy(file, rest, r.end(), tail);
        let head: int = r.offset - cursor + r.length;
        assert forall|i: int| head <= i < out.len() implies #[trigger] out[i] == tail[i - head] by {
        }
        assert forall|k: int| 0 <= k < regions.len() implies (#[trigger] regions[k]).end() <= cursor
            + out.len() by {
            if k > 0 {
                assert(regions[k] == rest[k - 1]);
            }
        }
        assert forall|k: int, i: int|
            0 <= k < regions.len() && 0 <= i < out.len() && (#[trigger] regions[k]).covers(
                cursor + i,
            ) implies #[trigger] out[i] == regions[k].contents[cursor + i
            - regions[k].offset] by {
            if k > 0 {
                assert(regions[k] == rest[k - 1]);
                assert(regions[0].end() <= regions[k].offset);
                assert(rest[k - 1].covers(r.end() + (i - head)));
                assert(out[i] == tail[i - head]);
            }
        }
        assert forall|p: int|
            cursor <= p < cursor + out.len() && !#[trigger] covered(regions, p) implies p
            < file.len() && out[p - cursor] == file[p] by {
            let i = p - cursor;
            assert(!regions[0].covers(p));
            if i < gap.len() {
                assert(out[i] == gap[i]);
            } else {
                assert(i >= head);
                if covered(rest, p) {
                    let k = choose|k: int|
                        0 <= k < rest.len() && (#[trigger] rest[k]).modified && rest[k].covers(p);
                    assert(rest[k] == regions[k + 1]);
                    assert(regions[k + 1].modified && regions[k + 1].covers(p));
                }
                assert(out[i] == tail[i - head]);
            }
        }
    }
}

/// The copy of a file that reaches the end of each region succeeds.
proof fn lemma_copy_succeeds(file: Seq<u8>, regions: Seq<RegionView>, cursor: int)
    requires
        0 <= cursor <= file.len(),
        region::first_fault(regions, cursor) is None,
        forall|k: int| 0 <= k < regions.len() ==> (#[trigger] regions[k]).end() <= file.len(),
    ensures
        region::render(file, region::copy_plan(regions, cursor)) is Some,
    decreases regions.len(),
{
    let plan = region::copy_plan(regions, cursor);
    if regions.len() == 0 {
        reveal_with_fuel(region::render, 2);
        assert(plan.drop_first() =~= Seq::<SegmentView>::empty());
    } else {
        let r = regions.first();
        let rest = regions.drop_first();
        assert(regions[0].end() <= file.len());
        assert forall|k: int| 0 <= k < rest.len() implies (#[trigger] rest[k]).end()
            <= file.len() by {
            assert(rest[k] == regions[k + 1]);
        }
        lemma_copy_succeeds(file, rest, r.end());
        assert(plan.drop_first().drop_first() =~= region::copy_plan(rest, r.end()));
        assert(plan.first() == SegmentView::Copy { offset: cursor, length: r.offset - cursor });
        assert(plan.drop_first().first() == SegmentView::Data { data: r.contents });
        assert(region::render(file, plan.drop_first()) is Some);
    }
}

/// What a file holds after the modified regions of a list have been written.
pub proof fn lemma_writes(file: Seq<u8>, regions: Seq<RegionView>)
    requires
        forall|k: int|
            0 <= k < regions.len() && (#[trigger] regions[k]).modified ==> regions[k].fits(),
    ensures
        ({
            let out = region::overwrite_all(file, region::region_writes(regions));
            &&& out.len() >= file.len()
            &&& forall|k: int|
                0 <= k < regions.len() && (#[trigger] regions[k]).modified && regions[k].length > 0
                    ==> regions[k].end() <= out.len()
            &&& out.len() > file.len() ==> exists|k: int|
                0 <= k < regions.len() && (#[trigger] regions[k]).modified && regions[k].length > 0
                    && regions[k].end() == out.len()
            &&& forall|p: int|
                0 <= p < out.len() && !covered(regions, p) ==> #[trigger] out[p] == (if p
                    < file.len() {
                    file[p]
                } else {
                    0
                })
            &&& forall|p: int|
                0 <= p < out.len() && covered(regions, p) ==> holds_from(
                    regions,
                    p,
                    #[trigger] out[p],
                )
        }),
    decreases regions.len(),
{
    let out = region::overwrite_all(file, region::region_writes(regions));
    if regions.len() > 0 {
        let before = regions.drop_last();
        let last = regions.last();
        let n = before.len() as int;
        assert(regions[n] == last);
        assert forall|k: int| 0 <= k < n implies #[trigger] before[k] == regions[k] by {
        }
        lemma_writes(file, before);
        let mid = region::overwrite_all(file, region::region_writes(before));
        if last.modified {
            let ops = region::region_writes(regions);
            assert(ops.drop_last() =~= region::region_writes(before));
            assert(out == region::overwrite(mid, last.offset as int, last.contents));
        }
        assert forall|p: int| covered(before, p) implies covered(regions, p) by {
            let k = choose|k: int|
                0 <= k < before.len() && (#[trigger] before[k]).modified && before[k].covers(p);
            assert(regions[k].modified && regions[k].covers(p));
        }
        assert forall|p: int| covered(regions, p) implies covered(before, p) || (last.modified
            && last.covers(p)) by {
            let k = choose|k: int|
                0 <= k < regions.len() && (#[trigger] regions[k]).modified && regions[k].covers(p);
            if k < n {
                assert(before[k].modified && before[k].covers(p));
            }
        }
        assert forall|k: int|
            0 <= k < regions.len() && (#[trigger] regions[k]).modified && regions[k].length
                > 0 implies regions[k].end() <= out.len() by {
            if k < n {
                assert(before[k].modified);
            }
        }
        if out.len() > file.len() {
            if last.modified && last.length > 0 && last.end() == out.len() {
                assert(regions[n].modified && regions[n].end() == out.len());
            } else {
                let k = choose|k: int|
                    0 <= k < before.len() && (#[trigger] before[k]).modified && before[k].length > 0
                        && before[k].end() == mid.len();
                assert(regions[k].modified && regions[k].end() == out.len());
            }
        }
        assert forall|p: int|
            0 <= p < out.len() && covered(regions, p) implies holds_from(
            regions,
            p,
            #[trigger] out[p],
        ) by {
            if last.modified && last.covers(p) {
                assert(regions[n].modified && regions[n].covers(p));
            } else {
                assert(covered(before, p));
                let j = choose|j: int|
                    0 <= j < before.len() && (#[trigger] before[j]).modified && before[j].covers(p);
                assert(before[j].end() <= mid.len());
                assert(mid[p] == out[p]);
                assert(holds_from(before, p, mid[p]));
                let k = choose|k: int|
                    0 <= k < before.len() && (#[trigger] before[k]).modified && before[k].covers(p)
                        && mid[p] == before[k].contents[p - before[k].offset];
                assert(regions[k].modified && regions[k].covers(p));
            }
        }
        assert forall|p: int| 0 <= p < out.len() && !covered(regions, p) implies #[trigger] out[p]
            == (if p < file.len() {
            file[p]
        } else {
            0
        }) by {
            assert(!covered(before, p));
            if last.modified {
                assert(!regions[n].covers(p));
            }
            if p < mid.len() {
                assert(out[p] == mid[p]);
            }
        }
    }
}

/// Whether a modified region of the list covers position `p`.
pub open spec fn covered(regions: Seq<RegionView>, p: int) -> bool {
    exists|k: int|
        0 <= k < regions.len() && (#[trigger] regions[k]).modified && regions[k].covers(p)
}

/// Whether `b` is what a modified region of the list holds for position `p`.
pub open spec fn holds_from(regions: Seq<RegionView>, p: int, b: u8) -> bool {
    exists|k: int|
        0 <= k < regions.len() && (#[trigger] regions[k]).modified && regions[k].covers(p) && b
            == regions[k].contents[p - regions[k].offset]
}

/// The modified regions of a list cover the same positions in either order.
proof fn lemma_covered_in_order(regions: Seq<RegionView>, p: int)
    ensures
        covered(region::modified_in_order(regions), p) <==> covered(regions, p),
{
    let sorted = region::modified_in_order(regions);
    lemma_modified_in_order(regions);
    if covered(regions, p) {
        let k = choose|k: int|
            0 <= k < regions.len() && (#[trigger] regions[k]).modified && regions[k].covers(p);
        assert(region::modified_in_order(regions).contains(regions[k]));
        let m = choose|m: int| 0 <= m < sorted.len() && sorted[m] == regions[k];
        assert(sorted[m].modified && sorted[m].covers(p));
    }
    if covered(sorted, p) {
        let m = choose|m: int|
            0 <= m < sorted.len() && (#[trigger] sorted[m]).modified && sorted[m].covers(p);
        assert(region::modified_in_order(regions).contains(sorted[m]));
        let k = choose|k: int| 0 <= k < regions.len() && regions[k] == sorted[m];
        assert(regions[k].modified && regions[k].covers(p));
    }
}

/// A successful copy is the file with the regions written in place.
proof fn lemma_copy_is_write(file: Seq<u8>, regions: Seq<RegionView>, out: Seq<u8>)
    requires
        region::first_fault(region::modified_in_order(regions), 0) is None,
        region::render(file, region::copy_plan(region::modified_in_order(regions), 0)) == Some(out),
    ensures
        out == region::overwrite_all(file, region::region_writes(regions)),
{
    let sorted = region::modified_in_order(regions);
    let written = region::overwrite_all(file, region::region_writes(regions));
    lemma_modified_in_order(regions);
    lemma_faultless(sorted, 0);
    assert forall|m: int| 0 <= m < sorted.len() implies (#[trigger] sorted[m]).modified by {
        assert(region::modified_in_order(regions).contains(sorted[m]));
    }
    assert forall|k: int|
        0 <= k < regions.len() && (#[trigger] regions[k]).modified implies regions[k].fits() by {
        assert(region::modified_in_order(regions).contains(regions[k]));
        let m = choose|m: int| 0 <= m < sorted.len() && sorted[m] == regions[k];
        assert(sorted[m].fits());
    }
    lemma_copy(file, sorted, 0, out);
    lemma_writes(file, regions);
    if written.len() > out.len() {
        let k = choose|k: int|
            0 <= k < regions.len() && (#[trigger] regions[k]).modified && regions[k].length > 0
                && regions[k].end() == written.len();
        assert(region::modified_in_order(regions).contains(regions[k]));
        let m = choose|m: int| 0 <= m < sorted.len() && sorted[m] == regions[k];
        assert(sorted[m].end() <= out.len());
    }
    if written.len() < out.len() {
        let p = written.len() as int;
        lemma_covered_in_order(regions, p);
        if covered(regions, p) {
            let k = choose|k: int|
                0 <= k < regions.len() && (#[trigger] regions[k]).modified && regions[k].covers(p);
            assert(regions[k].end() <= written.len());
        } else {
            assert(!covered(sorted, p));
            assert(out[p - 0] == file[p]);
        }
    }
    assert forall|p: int| 0 <= p < out.len() implies out[p] == written[p] by {
        lemma_covered_in_order(regions, p);
        if covered(regions, p) {
            assert(holds_from(regions, p, written[p]));
            let k = choose|k: int|
                0 <= k < regions.len() && (#[trigger] regions[k]).modified && regions[k].covers(p)
                    && written[p] == regions[k].contents[p - regions[k].offset];
            assert(region::modified_in_order(regions).contains(regions[k]));
            let m = choose|m: int| 0 <= m < sorted.len() && sorted[m] == regions[k];
            assert(sorted[m].covers(0 + p));
            assert(out[p] == sorted[m].contents[0 + p - sorted[m].offset]);
        } else {
            assert(!covered(sorted, p));
            assert(out[p - 0] == file[p]);
        }
    }
    assert(out =~= written);
}

/// Copying an image with its regions replaced gives the same file as writing
/// the regions in place, whenever the copy succeeds; and it does succeed if
/// the image reaches to the end of each modified region.
pub proof fn law_stream_equals_write(file: Seq<u8>, regions: Seq<RegionView>)
    requires
        region::first_fault(region::modified_in_order(regions), 0) is None,
    ensures
        region::render(file, region::copy_plan(region::modified_in_order(regions), 0)) matches Some(
            out,
        ) ==> out == region::overwrite_all(file, region::region_writes(regions)),
        (forall|k: int|
            0 <= k < regions.len() && (#[trigger] regions[k]).modified ==> regions[k].end()
                <= file.len()) ==> region::render(
            file,
            region::copy_plan(region::modified_in_order(regions), 0),
        ) is Some,
{
    let sorted = region::modified_in_order(regions);
    let plan = region::copy_plan(sorted, 0);
    if region::render(file, plan) is Some {
        lemma_copy_is_write(file, regions, region::render(file, plan)->0);
    }
    if forall|k: int|
        0 <= k < regions.len() && (#[trigger] regions[k]).modified ==> regions[k].end()
            <= file.len() {
        lemma_modified_in_order(regions);
        assert forall|m: int| 0 <= m < sorted.len() implies (#[trigger] sorted[m]).end()
            <= file.len() by {
            assert(region::modified_in_order(regions).contains(sorted[m]));
            let k = choose|k: int| 0 <= k < regions.len() && regions[k] == sorted[m];
            assert(regions[k].modified);
        }
        lemma_copy_succeeds(file, sorted, 0);
    }
}

/// Whether the modified regions of a list want the same bytes where they
/// overlap.
pub open spec fn agree(regions: Seq<RegionView>) -> bool {
    forall|a: int, b: int, p: int|
        #![trigger regions[a].covers(p), regions[b].covers(p)]
        0 <= a < regions.len() && 0 <= b < regions.len() && regions[a].modified
            && regions[b].modified && regions[a].covers(p) && regions[b].covers(p)
            ==> regions[a].contents[p - regions[a].offset] == regions[b].contents[p
            - regions[b].offset]
}

/// Writing regions that agree with each other puts each in place, changes no
/// other byte of the file, and does not make a file longer that reaches to the
/// end of each.
pub proof fn law_write_regions(file: Seq<u8>, regions: Seq<RegionView>)
    requires
        forall|k: int|
            0 <= k < regions.len() && (#[trigger] regions[k]).modified ==> regions[k].fits(),
        agree(regions),
    ensures
        ({
            let out = region::overwrite_all(file, region::region_writes(regions));
            &&& forall|k: int|
                0 <= k < regions.len() && (#[trigger] regions[k]).modified && regions[k].length > 0
                    ==> regions[k].end() <= out.len() && out.subrange(
                    regions[k].offset as int,
                    regions[k].end(),
                ) == regions[k].contents
            &&& forall|p: int|
                0 <= p < file.len() && !covered(regions, p) ==> #[trigger] out[p] == file[p]
            &&& out.len() >= file.len()
            &&& (forall|k: int|
                0 <= k < regions.len() && (#[trigger] regions[k]).modified && regions[k].length > 0
                    ==> regions[k].end() <= file.len()) ==> out.len() == file.len()
        }),
{
    let out = region::overwrite_all(file, region::region_writes(regions));
    lemma_writes(file, regions);
    assert forall|k: int|
        0 <= k < regions.len() && (#[trigger] regions[k]).modified && regions[k].length
            > 0 implies out.subrange(regions[k].offset as int, regions[k].end())
        == regions[k].contents by {
        let part = out.subrange(regions[k].offset as int, regions[k].end());
        assert forall|i: int| 0 <= i < part.len() implies part[i] == regions[k].contents[i] by {
            let p = regions[k].offset + i;
            assert(regions[k].covers(p));
            assert(covered(regions, p));
            assert(holds_from(regions, p, out[p]));
            let m = choose|m: int|
                0 <= m < regions.len() && (#[trigger] regions[m]).modified && regions[m].covers(p)
                    && out[p] == regions[m].contents[p - regions[m].offset];
            assert(regions[m].covers(p));
        }
        assert(part =~= regions[k].contents);
    }
}

/// Whether two regions do not overlap.
pub open spec fn clear_of(a: RegionView, b: RegionView) -> bool {
    a.end() <= b.offset || b.end() <= a.offset
}

/// Whether no two modified regions of a list overlap.
pub open spec fn apart(regions: Seq<RegionView>) -> bool {
    forall|i: int, j: int|
        0 <= i < j < regions.len() && regions[i].modified && regions[j].modified
            ==> #[trigger] clear_of(regions[i], regions[j])
}

/// Regions that do not overlap do not do so in another order.
proof fn lemma_apart_permuted(a: Seq<RegionView>, b: Seq<RegionView>)
    requires
        apart(a),
        a.to_multiset() == b.to_multiset(),
    ensures
        apart(b),
    decreases b.len(),
{
    broadcast use group_to_multiset_ensures;

    if b.len() > 0 {
        let last = b.last();
        assert(b.contains(b[b.len() - 1]));
        assert(b.to_multiset().count(last) > 0);
        assert(a.contains(last));
        let j = choose|j: int| 0 <= j < a.len() && a[j] == last;
        let other = a.remove(j);
        let rest = b.drop_last();
        assert(rest =~= b.remove(b.len() - 1));
        assert(other.to_multiset() =~= rest.to_multiset());
        assert forall|k: int, m: int|
            0 <= k < m < other.len() && other[k].modified && other[m].modified implies #[trigger]
        clear_of(other[k], other[m]) by {
            let k2: int = if k < j {
                k
            } else {
                k + 1
            };
            let m2: int = if m < j {
                m
            } else {
                m + 1
            };
            assert(clear_of(a[k2], a[m2]));
        }
        lemma_apart_permuted(other, rest);
        assert forall|k: int, m: int|
            0 <= k < m < b.len() && b[k].modified && b[m].modified implies #[trigger] clear_of(
            b[k],
            b[m],
        ) by {
            if m < rest.len() {
                assert(clear_of(rest[k], rest[m]));
            } else {
                assert(rest.contains(rest[k]));
                assert(rest.to_multiset().count(rest[k]) > 0);
                assert(other.contains(rest[k]));
                let n = choose|n: int| 0 <= n < other.len() && other[n] == rest[k];
                if n < j {
                    assert(clear_of(a[n], a[j]));
                } else {
                    assert(clear_of(a[j], a[n + 1]));
                }
            }
        }
    }
}

/// The modified regions of a list do not overlap if those of the list do not.
proof fn lemma_apart_filtered(regions: Seq<RegionView>)
    requires
        apart(regions),
    ensures
        apart(regions.filter(|r: RegionView| r.modified)),
    decreases regions.len(),
{
    let pred = |r: RegionView| r.modified;
    reveal(Seq::filter);
    if regions.len() > 0 {
        let before = regions.drop_last();
        let last = regions.last();
        let kept = regions.filter(pred);
        let rest = before.filter(pred);
        assert forall|i: int, j: int|
            0 <= i < j < before.len() && before[i].modified
                && before[j].modified implies #[trigger] clear_of(before[i], before[j]) by {
            assert(clear_of(regions[i], regions[j]));
        }
        lemma_apart_filtered(before);
        assert forall|i: int, j: int|
            0 <= i < j < kept.len() && kept[i].modified && kept[j].modified implies #[trigger]
        clear_of(kept[i], kept[j]) by {
            if j < rest.len() {
                assert(kept[i] == rest[i] && kept[j] == rest[j]);
                assert(clear_of(rest[i], rest[j]));
            } else {
                assert(kept[i] == rest[i]);
                assert(kept[j] == last);
                assert(rest.contains(rest[i]));
                lemma_filter_contains_iff(before, pred, rest[i]);
                let n = choose|n: int| 0 <= n < before.len() && before[n] == rest[i];
                assert(clear_of(regions[n], regions[regions.len() - 1]));
            }
        }
    }
}

/// A sorted list of regions that do not overlap is without fault.
proof fn lemma_apart_faultless(regions: Seq<RegionView>, cursor: int)
    requires
        apart(regions),
        sorted_by(regions, region::region_order()),
        forall|k: int| 0 <= k < regions.len() ==> (#[trigger] regions[k]).modified,
        forall|k: int| 0 <= k < regions.len() ==> (#[trigger] regions[k]).fits(),
        forall|k: int| 0 <= k < regions.len() ==> cursor <= (#[trigger] regions[k]).offset,
    ensures
        region::first_fault(regions, cursor) is None,
    decreases regions.len(),
{
    if regions.len() > 0 {
        let rest = regions.drop_first();
        let leq = region::region_order();
        assert forall|k: int| 0 <= k < rest.len() implies (#[trigger] rest[k]).modified
            && rest[k].fits() && regions.first().end() <= rest[k].offset by {
            assert(rest[k] == regions[k + 1]);
            assert(leq(regions[0], regions[k + 1]));
            assert(clear_of(regions[0], regions[k + 1]));
        }
        assert forall|i: int, j: int|
            0 <= i < j < rest.len() && rest[i].modified && rest[j].modified implies #[trigger]
        clear_of(rest[i], rest[j]) by {
            assert(clear_of(regions[i + 1], regions[j + 1]));
        }
        assert(sorted_by(rest, leq)) by {
            assert forall|i: int, j: int| 0 <= i < j < rest.len() implies #[trigger] leq(
                rest[i],
                rest[j],
            ) by {
                assert(leq(regions[i + 1], regions[j + 1]));
            }
        }
        lemma_apart_faultless(rest, regions.first().end());
    }
}

/// A copy can be planned, and made of a file that reaches to the end of each
/// modified region, wherever the modified regions do not overlap and their
/// contents fill them.
pub proof fn law_apart_regions_stream(file: Seq<u8>, regions: Seq<RegionView>)
    requires
        apart(regions),
        forall|k: int|
            0 <= k < regions.len() && (#[trigger] regions[k]).modified ==> regions[k].fits(),
    ensures
        region::first_fault(region::modified_in_order(regions), 0) is None,
        (forall|k: int|
            0 <= k < regions.len() && (#[trigger] regions[k]).modified ==> regions[k].end()
                <= file.len()) ==> region::render(
            file,
            region::copy_plan(region::modified_in_order(regions), 0),
        ) is Some,
{
    let kept = regions.filter(|r: RegionView| r.modified);
    let sorted = region::modified_in_order(regions);
    lemma_region_order();
    kept.lemma_sort_by_ensures(region::region_order());
    lemma_apart_filtered(regions);
    lemma_apart_permuted(kept, sorted);
    lemma_modified_in_order(regions);
    assert forall|k: int| 0 <= k < sorted.len() implies (#[trigger] sorted[k]).modified
        && sorted[k].fits() by {
        assert(region::modified_in_order(regions).contains(sorted[k]));
        let m = choose|m: int| 0 <= m < regions.len() && regions[m] == sorted[k];
        assert(regions[m].modified);
    }
    lemma_apart_faultless(sorted, 0);
    law_stream_equals_write(file, regions);
}

} // verus!
