//! Planning one scan of a monitored directory.
//!
//! The application lists the directory and reads file metadata; this module
//! decides, from those plain values, which thumbnails to probe, which to
//! regenerate and which to evict. The work items are independent of one
//! another and may be executed in any order, in parallel.

use vstd::prelude::*;

use crate::cache::ThumbCache;
use crate::media::{is_supported_name, is_supported, spec_thumb_name, thumb_file_name};
use crate::record::{Thumb, ThumbView};
use crate::staleness::{needs_regeneration, spec_fresh, FileTimes, Freshness};
use crate::strutil::{join_path, lemma_filter_take_step};

verus! {

/// What the application read about one directory entry: the file's name,
/// its timestamps, and the timestamps of its thumbnail where one exists.
#[derive(Debug)]
pub struct SourceInfo {
    pub name: String,
    pub times: FileTimes,
    pub thumb_times: Option<FileTimes>,
}

#[verifier::ext_equal]
pub ghost struct SourceInfoView {
    pub name: Seq<char>,
    pub times: FileTimes,
    pub thumb_times: Option<FileTimes>,
}

impl View for SourceInfo {
    type V = SourceInfoView;

    open spec fn view(&self) -> SourceInfoView {
        SourceInfoView { name: self.name@, times: self.times, thumb_times: self.thumb_times }
    }
}

/// One unit of work for the pool: the record to cache, the source's full
/// path (the cache key), and which queue the item belongs to.
#[derive(Debug)]
pub struct WorkItem {
    pub rec: Thumb,
    pub orig: String,
    pub need_thumb: bool,
    pub probe: bool,
}

#[verifier::ext_equal]
pub ghost struct WorkItemView {
    pub rec: ThumbView,
    pub orig: Seq<char>,
    pub need_thumb: bool,
    pub probe: bool,
}

impl View for WorkItem {
    type V = WorkItemView;

    open spec fn view(&self) -> WorkItemView {
        WorkItemView { rec: self.rec@, orig: self.orig@, need_thumb: self.need_thumb, probe: self.probe }
    }
}

/// The views of a vector of sources.
pub open spec fn source_views(s: Seq<SourceInfo>) -> Seq<SourceInfoView> {
    s.map_values(|x: SourceInfo| x@)
}

/// The views of a vector of work items.
pub open spec fn item_views(s: Seq<WorkItem>) -> Seq<WorkItemView> {
    s.map_values(|w: WorkItem| w@)
}

/// The views of a vector of strings.
pub open spec fn str_views(s: Seq<String>) -> Seq<Seq<char>> {
    s.map_values(|x: String| x@)
}

pub open spec fn src_supported(s: SourceInfoView) -> bool {
    is_supported_name(s.name)
}

/// Whether the source's thumbnail is fresh, from the gathered timestamps.
pub open spec fn src_fresh(s: SourceInfoView) -> bool {
    s.thumb_times is Some && spec_fresh(s.times, s.thumb_times->0)
}

/// The work item the scanner builds for one supported source file.
pub open spec fn spec_item(
    dir: Seq<char>,
    s: SourceInfoView,
    first_run: bool,
    cached: Map<Seq<char>, ThumbView>,
) -> WorkItemView {
    let orig = dir + "/"@ + s.name;
    let need = !src_fresh(s);
    WorkItemView {
        rec: ThumbView {
            name: s.name,
            thumb: Some(spec_thumb_name(s.name)),
            width: None,
            height: None,
        },
        orig: orig,
        need_thumb: need,
        probe: first_run && !need && !cached.contains_key(orig),
    }
}

/// The sources the scanner accepts, in directory order.
pub open spec fn spec_candidates(srcs: Seq<SourceInfoView>) -> Seq<SourceInfoView> {
    srcs.filter(|s: SourceInfoView| src_supported(s))
}

/// All work items of one scan.
pub open spec fn spec_items(
    dir: Seq<char>,
    srcs: Seq<SourceInfoView>,
    first_run: bool,
    cached: Map<Seq<char>, ThumbView>,
) -> Seq<WorkItemView> {
    spec_candidates(srcs).map_values(|s: SourceInfoView| spec_item(dir, s, first_run, cached))
}

/// The thumbnail file names every current candidate lays claim to.
pub open spec fn spec_thumb_names(srcs: Seq<SourceInfoView>) -> Seq<Seq<char>> {
    spec_candidates(srcs).map_values(|s: SourceInfoView| spec_thumb_name(s.name))
}

/// The thumbnail files of one scan's eviction pass: every file in the
/// `thumbs/` listing whose name no current candidate claims.
pub open spec fn spec_evict(listing: Seq<Seq<char>>, srcs: Seq<SourceInfoView>) -> Seq<Seq<char>> {
    listing.filter(|t: Seq<char>| !spec_thumb_names(srcs).contains(t))
}

/// Builds the work item for one supported source file.
pub fn make_work_item(
    dir: &str,
    src: &SourceInfo,
    first_run: bool,
    cache: &ThumbCache,
) -> (r: WorkItem)
    requires
        cache.wf(),
    ensures
        r@ == spec_item(dir@, src@, first_run, cache@),
{
    let orig = join_path(dir, src.name.as_str());
    let fresh = match needs_regeneration(&src.times, &src.thumb_times) {
        Freshness::UpToDate => true,
        Freshness::NeedsGeneration => false,
    };
    let probe = first_run && fresh && !cache.contains_key(orig.as_str());
    let r = WorkItem {
        rec: Thumb {
            name: src.name.clone(),
            thumb: Some(thumb_file_name(src.name.as_str())),
            width: None,
            height: None,
        },
        orig: orig,
        need_thumb: !fresh,
        probe: probe,
    };
    proof {
        assert(r@ =~= spec_item(dir@, src@, first_run, cache@));
    }
    r
}

/// One scan's decisions: the work items (each marked for the probing or the
/// regeneration queue, or neither), and the thumbnail files to delete.
#[derive(Debug)]
pub struct ScanPlan {
    pub items: Vec<WorkItem>,
    pub evict: Vec<String>,
}

/// True when some planned item claims the thumbnail file name `t`.
fn items_claim_name(items: &Vec<WorkItem>, t: &String) -> (r: bool)
    ensures
        r == exists|j: int|
            0 <= j < items@.len() && (#[trigger] items@[j])@.rec.thumb == Some(t@),
{
    let n = items.len();
    let mut j: usize = 0;
    while j < n
        invariant
            0 <= j <= n == items@.len(),
            forall|a: int| 0 <= a < j ==> (#[trigger] items@[a])@.rec.thumb != Some(t@),
        decreases n - j,
    {
        match &items[j].rec.thumb {
            Some(name) => {
                if *name == *t {
                    assert(items@[j as int]@.rec.thumb == Some(t@));
                    return true;
                }
            }
            None => {}
        }
        j = j + 1;
    }
    false
}

/// Every element of a filtered sequence is an element of the original.
proof fn lemma_filter_elems<A>(s: Seq<A>, pred: spec_fn(A) -> bool)
    ensures
        forall|j: int|
            0 <= j < s.filter(pred).len() ==> s.contains(#[trigger] s.filter(pred)[j]),
    decreases s.len(),
{
    reveal(Seq::filter);
    if s.len() > 0 {
        lemma_filter_elems(s.drop_last(), pred);
        let f = s.filter(pred);
        let g = s.drop_last().filter(pred);
        assert forall|j: int| 0 <= j < f.len() implies s.contains(f[j]) by {
            if j < g.len() {
                assert(s.drop_last().contains(g[j]));
                let k = choose|k: int|
                    0 <= k < s.drop_last().len() && s.drop_last()[k] == g[j];
                assert(s[k] == f[j]);
            } else {
                assert(f[j] == s[s.len() - 1]);
            }
        }
    }
}

/// Plans one scan: filters the directory listing down to the supported
/// sources, builds their work items, and lists the orphaned thumbnails.
pub fn plan_scan(
    dir: &str,
    sources: &Vec<SourceInfo>,
    existing_thumbs: &Vec<String>,
    first_run: bool,
    cache: &ThumbCache,
) -> (plan: ScanPlan)
    requires
        cache.wf(),
    ensures
        item_views(plan.items@) == spec_items(
            dir@,
            source_views(sources@),
            first_run,
            cache@,
        ),
        str_views(plan.evict@) == spec_evict(
            str_views(existing_thumbs@),
            source_views(sources@),
        ),
{
    let ghost srcs = sources@.map_values(|s: SourceInfo| s@);
    let ghost pred = |s: SourceInfoView| src_supported(s);
    let n = sources.len();
    let mut items: Vec<WorkItem> = Vec::new();
    let mut i: usize = 0;
    proof {
        assert(srcs.take(0).filter(pred) =~= Seq::<SourceInfoView>::empty().filter(pred));
        reveal(Seq::filter);
    }
    while i < n
        invariant
            0 <= i <= n == sources@.len(),
            cache.wf(),
            srcs == sources@.map_values(|s: SourceInfo| s@),
            pred == (|s: SourceInfoView| src_supported(s)),
            items@.map_values(|w: WorkItem| w@) == srcs.take(i as int).filter(pred).map_values(
                |s: SourceInfoView| spec_item(dir@, s, first_run, cache@),
            ),
        decreases n - i,
    {
        proof {
            lemma_filter_take_step(srcs, pred, i as int);
        }
        let ghost old_items = items@;
        if is_supported(sources[i].name.as_str()) {
            let w = make_work_item(dir, &sources[i], first_run, cache);
            items.push(w);
            proof {
                assert(items@.map_values(|w: WorkItem| w@) =~= old_items.map_values(
                    |w: WorkItem| w@,
                ).push(spec_item(dir@, srcs[i as int], first_run, cache@)));
                assert(srcs.take(i + 1).filter(pred).map_values(
                    |s: SourceInfoView| spec_item(dir@, s, first_run, cache@),
                ) =~= srcs.take(i as int).filter(pred).map_values(
                    |s: SourceInfoView| spec_item(dir@, s, first_run, cache@),
                ).push(spec_item(dir@, srcs[i as int], first_run, cache@)));
            }
        } else {
            proof {
                assert(!src_supported(srcs[i as int]));
            }
        }
        i = i + 1;
    }
    proof {
        assert(srcs.take(n as int) =~= srcs);
    }

    // The eviction pass: keep only thumbnail files some candidate claims.
    let ghost tnames = spec_thumb_names(srcs);
    let ghost epred = |t: Seq<char>| !spec_thumb_names(srcs).contains(t);
    let ghost listing = existing_thumbs@.map_values(|s: String| s@);
    let m = existing_thumbs.len();
    let mut evict: Vec<String> = Vec::new();
    let mut k: usize = 0;
    proof {
        assert(listing.take(0).filter(epred) =~= Seq::<Seq<char>>::empty().filter(epred));
    }
    while k < m
        invariant
            0 <= k <= m == existing_thumbs@.len(),
            srcs == sources@.map_values(|s: SourceInfo| s@),
            listing == existing_thumbs@.map_values(|s: String| s@),
            epred == (|t: Seq<char>| !spec_thumb_names(srcs).contains(t)),
            tnames == spec_thumb_names(srcs),
            items@.map_values(|w: WorkItem| w@) == spec_items(dir@, srcs, first_run, cache@),
            evict@.map_values(|s: String| s@) == listing.take(k as int).filter(epred),
        decreases m - k,
    {
        proof {
            lemma_filter_take_step(listing, epred, k as int);
        }
        let ghost old_evict = evict@;
        let claimed = items_claim_name(&items, &existing_thumbs[k]);
        proof {
            let iviews = items@.map_values(|w: WorkItem| w@);
            let cands = spec_candidates(srcs);
            let t = listing[k as int];
            if claimed {
                let j = choose|j: int|
                    0 <= j < items@.len() && (#[trigger] items@[j])@.rec.thumb == Some(t);
                assert(iviews == spec_items(dir@, srcs, first_run, cache@));
                assert(iviews.len() == items@.len());
                assert(spec_items(dir@, srcs, first_run, cache@).len() == cands.len());
                assert(0 <= j < cands.len());
                assert(iviews[j] == items@[j]@);
                assert(iviews[j] == spec_item(dir@, cands[j], first_run, cache@));
                assert(tnames[j] == t);
                assert(tnames.contains(t));
            } else {
                if tnames.contains(t) {
                    let j = choose|j: int| 0 <= j < tnames.len() && tnames[j] == t;
                    assert(iviews == spec_items(dir@, srcs, first_run, cache@));
                    assert(iviews.len() == items@.len());
                    assert(tnames.len() == cands.len() == iviews.len());
                    assert(iviews[j] == spec_item(dir@, cands[j], first_run, cache@));
                    assert(iviews[j] == items@[j]@);
                    assert(tnames[j] == spec_thumb_name(cands[j].name));
                    assert(items@[j]@.rec.thumb == Some(t));
                    assert(false);
                }
            }
        }
        if !claimed {
            evict.push(existing_thumbs[k].clone());
            proof {
                assert(evict@.map_values(|s: String| s@) =~= old_evict.map_values(
                    |s: String| s@,
                ).push(listing[k as int]));
            }
        }
        k = k + 1;
    }
    proof {
        assert(listing.take(m as int) =~= listing);
        assert(source_views(sources@) =~= srcs);
        assert(item_views(items@) =~= items@.map_values(|w: WorkItem| w@));
        assert(str_views(existing_thumbs@) =~= listing);
        assert(str_views(evict@) =~= evict@.map_values(|s: String| s@));
    }
    ScanPlan { items, evict }
}

/// Some work item of this scan uses `key` as its cache key.
pub open spec fn spec_claimed(keep: Seq<WorkItem>, key: Seq<char>) -> bool {
    exists|j: int| 0 <= j < keep.len() && (#[trigger] keep[j])@.orig == key
}

/// True when some work item's source path is `key`.
fn keeps_key(keep: &Vec<WorkItem>, key: &String) -> (r: bool)
    ensures
        r == spec_claimed(keep@, key@),
{
    let kn = keep.len();
    let mut j: usize = 0;
    while j < kn
        invariant
            0 <= j <= kn == keep@.len(),
            forall|b: int| 0 <= b < j ==> (#[trigger] keep@[b])@.orig != key@,
        decreases kn - j,
    {
        if keep[j].orig == *key {
            proof {
                assert(keep@[j as int]@.orig == key@);
            }
            return true;
        }
        j = j + 1;
    }
    false
}

/// After the scan's eviction pass the cache keeps exactly the records whose
/// keys some current work item claims; every kept record is unchanged. A
/// record whose source file is gone is therefore absent from all later
/// snapshots.
pub fn evict_records(cache: &mut ThumbCache, keep: &Vec<WorkItem>)
    requires
        old(cache).wf(),
    ensures
        final(cache).wf(),
        forall|key: Seq<char>|
            #[trigger] final(cache)@.contains_key(key) <==> (old(cache)@.contains_key(key)
                && spec_claimed(keep@, key)),
        forall|key: Seq<char>|
            final(cache)@.contains_key(key) ==> final(cache)@[key] == old(cache)@[key],
{
    let ks = cache.keys();
    let n = ks.len();
    let ghost kviews = ks@.map_values(|s: String| s@);
    proof {
        cache.lemma_entries();
    }
    let mut i: usize = 0;
    while i < n
        invariant
            0 <= i <= n == ks@.len(),
            cache.wf(),
            kviews == ks@.map_values(|s: String| s@),
            forall|key: Seq<char>|
                #[trigger] cache@.contains_key(key) ==> old(cache)@.contains_key(key)
                    && cache@[key] == old(cache)@[key],
            forall|key: Seq<char>|
                old(cache)@.contains_key(key) && spec_claimed(keep@, key)
                    ==> #[trigger] cache@.contains_key(key),
            forall|a: int|
                0 <= a < i && !spec_claimed(keep@, kviews[a]) ==> !cache@.contains_key(
                    #[trigger] kviews[a],
                ),
            forall|key: Seq<char>|
                #[trigger] old(cache)@.contains_key(key) ==> kviews.contains(key),
        decreases n - i,
    {
        let claimed = keeps_key(keep, &ks[i]);
        if !claimed {
            cache.remove(ks[i].as_str());
            proof {
                assert(!cache@.contains_key(kviews[i as int]));
            }
        }
        i = i + 1;
    }
    proof {
        assert forall|key: Seq<char>|
            #[trigger] cache@.contains_key(key) implies old(cache)@.contains_key(key)
            && spec_claimed(keep@, key) by {
            if !spec_claimed(keep@, key) {
                let a = choose|a: int| 0 <= a < kviews.len() && kviews[a] == key;
                assert(!cache@.contains_key(kviews[a]));
            }
        }
    }
}

/// A second scan over an unchanged directory regenerates nothing: when every
/// supported source still has a fresh thumbnail, the plan's regeneration
/// queue is empty.
pub proof fn lemma_scan_idempotent(
    dir: Seq<char>,
    srcs: Seq<SourceInfoView>,
    first_run: bool,
    cached: Map<Seq<char>, ThumbView>,
)
    requires
        forall|i: int|
            0 <= i < srcs.len() && src_supported(#[trigger] srcs[i]) ==> src_fresh(srcs[i]),
    ensures
        forall|j: int|
            0 <= j < spec_items(dir, srcs, first_run, cached).len() ==> !(
            #[trigger] spec_items(dir, srcs, first_run, cached)[j]).need_thumb,
{
    broadcast use vstd::seq_lib::group_filter_ensures;

    let pred = |s: SourceInfoView| src_supported(s);
    let cands = spec_candidates(srcs);
    lemma_filter_elems(srcs, pred);
    assert forall|j: int|
        0 <= j < spec_items(dir, srcs, first_run, cached).len() implies !(
    #[trigger] spec_items(dir, srcs, first_run, cached)[j]).need_thumb by {
        assert(srcs.contains(cands[j]));
        let i = choose|i: int| 0 <= i < srcs.len() && srcs[i] == cands[j];
        assert(pred(cands[j]));
        assert(src_fresh(srcs[i]));
    }
}

/// A removed source's leftovers go: when a file `f` is no longer among the
/// sources and no remaining candidate derives the same thumbnail name, the
/// thumbnail file `f` left behind is listed for deletion. (Two sources can
/// share a derived name — `a.jpg` beside `a.mp4` — and then the survivor
/// rightly keeps the file.)
pub proof fn lemma_removed_source_evicted(
    listing: Seq<Seq<char>>,
    srcs: Seq<SourceInfoView>,
    f: SourceInfoView,
)
    requires
        listing.contains(spec_thumb_name(f.name)),
        forall|j: int|
            0 <= j < spec_candidates(srcs).len() ==> spec_thumb_name(
                (#[trigger] spec_candidates(srcs)[j]).name,
            ) != spec_thumb_name(f.name),
    ensures
        spec_evict(listing, srcs).contains(spec_thumb_name(f.name)),
{
    let t = spec_thumb_name(f.name);
    if spec_thumb_names(srcs).contains(t) {
        let j = choose|j: int|
            0 <= j < spec_thumb_names(srcs).len() && spec_thumb_names(srcs)[j] == t;
        assert(spec_thumb_name(spec_candidates(srcs)[j].name) == t);
    }
    lemma_eviction(listing, srcs, t);
}

/// The scan of one album with two files, over arbitrary timestamps: the
/// source without a thumbnail is planned for regeneration, the one with a
/// fresh thumbnail is left alone, their cache keys differ, and caching the
/// two workers' records yields exactly the two entries, each under its own
/// key.
pub proof fn lemma_scan_two_files(
    dir: Seq<char>,
    a: SourceInfoView,
    b: SourceInfoView,
    wa: ThumbView,
    wb: ThumbView,
)
    requires
        src_supported(a),
        src_supported(b),
        a.thumb_times is None,
        src_fresh(b),
        a.name != b.name,
    ensures
        ({
            let items = spec_items(dir, seq![a, b], false, Map::<Seq<char>, ThumbView>::empty());
            &&& items.len() == 2
            &&& items[0].need_thumb
            &&& !items[1].need_thumb
            &&& items[0].orig != items[1].orig
            &&& ({
                let m = Map::<Seq<char>, ThumbView>::empty().insert(items[0].orig, wa).insert(
                    items[1].orig,
                    wb,
                );
                m.len() == 2 && m[items[0].orig] == wa && m[items[1].orig] == wb
            })
        }),
{
    reveal(Seq::filter);
    reveal_strlit("/");
    let s = seq![a, b];
    let pred = |x: SourceInfoView| src_supported(x);
    lemma_filter_take_step(s, pred, 0);
    lemma_filter_take_step(s, pred, 1);
    assert(s.take(0).filter(pred) =~= Seq::<SourceInfoView>::empty());
    assert(s.take(2) =~= s);
    assert(spec_candidates(s) =~= s);
    let oa = dir + "/"@ + a.name;
    let ob = dir + "/"@ + b.name;
    assert(("/"@).len() == 1);
    assert(oa.len() == dir.len() + 1 + a.name.len());
    assert(ob.len() == dir.len() + 1 + b.name.len());
    if oa == ob {
        assert(a.name.len() == b.name.len());
        assert forall|i: int| 0 <= i < a.name.len() implies a.name[i] == b.name[i] by {
            assert(oa[dir.len() + 1 + i] == a.name[i]);
            assert(ob[dir.len() + 1 + i] == b.name[i]);
        }
        assert(a.name =~= b.name);
    }
    let m0 = Map::<Seq<char>, ThumbView>::empty();
    assert(m0.dom() =~= Set::<Seq<char>>::empty());
    crate::cache::lemma_map_insert_fresh_len(m0, oa, wa);
    crate::cache::lemma_map_insert_fresh_len(m0.insert(oa, wa), ob, wb);
}

/// Eviction is exact: a thumbnail file is deleted if and only if it is in
/// the `thumbs/` listing and no current candidate's derived thumbnail name
/// matches it. In particular, after a source file is removed from the
/// directory, the thumbnail it left behind is deleted.
pub proof fn lemma_eviction(listing: Seq<Seq<char>>, srcs: Seq<SourceInfoView>, t: Seq<char>)
    ensures
        spec_evict(listing, srcs).contains(t) <==> (listing.contains(t) && !spec_thumb_names(
            srcs,
        ).contains(t)),
{
    broadcast use vstd::seq_lib::group_filter_ensures;

    let pred = |x: Seq<char>| !spec_thumb_names(srcs).contains(x);
    lemma_filter_elems(listing, pred);
    if spec_evict(listing, srcs).contains(t) {
        let j = choose|j: int|
            0 <= j < spec_evict(listing, srcs).len() && spec_evict(listing, srcs)[j] == t;
        assert(listing.contains(spec_evict(listing, srcs)[j]));
        assert(pred(spec_evict(listing, srcs)[j]));
    }
    if listing.contains(t) && pred(t) {
        let i = choose|i: int| 0 <= i < listing.len() && listing[i] == t;
        assert(listing.filter(pred).contains(listing[i]));
    }
}

} // verus!
