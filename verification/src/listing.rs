//! Building the gallery listing that the request handlers serve.
//!
//! The application lists the directory; this module pairs each file with
//! its cached record — a miss degrades to a record with unknown dimensions,
//! it never fails the request — and orders the newest files first.

use vstd::prelude::*;
use vstd::multiset::Multiset;
use vstd::seq_lib::group_to_multiset_ensures;

use crate::cache::ThumbCache;
use crate::record::{Thumb, ThumbView};
use crate::strutil::{lemma_filter_take_step, str_eq};

verus! {

/// What the application read about one directory entry when listing the
/// gallery: the full path (the cache key), the bare file name, and the
/// file's creation time in nanoseconds since the Unix epoch.
#[derive(Debug)]
pub struct ListedFile {
    pub path: String,
    pub name: String,
    pub created: u64,
}

#[verifier::ext_equal]
pub ghost struct ListedFileView {
    pub path: Seq<char>,
    pub name: Seq<char>,
    pub created: u64,
}

impl View for ListedFile {
    type V = ListedFileView;

    open spec fn view(&self) -> ListedFileView {
        ListedFileView { path: self.path@, name: self.name@, created: self.created }
    }
}

/// One file of the listing, paired with its creation time for ordering.
#[derive(Debug)]
pub struct ListingEntry {
    pub rec: Thumb,
    pub created: u64,
}

#[verifier::ext_equal]
pub ghost struct ListingEntryView {
    pub rec: ThumbView,
    pub created: u64,
}

impl View for ListingEntry {
    type V = ListingEntryView;

    open spec fn view(&self) -> ListingEntryView {
        ListingEntryView { rec: self.rec@, created: self.created }
    }
}

impl Clone for ListingEntry {
    fn clone(&self) -> (r: Self)
        ensures
            r@ == self@,
    {
        let r = ListingEntry { rec: self.rec.clone(), created: self.created };
        proof {
            assert(r@ =~= self@);
        }
        r
    }
}

/// The record served for a file the cache knows nothing about.
pub open spec fn fallback_record(name: Seq<char>) -> ThumbView {
    ThumbView { name: name, thumb: None, width: None, height: None }
}

/// The placeholder file that keeps empty directories under version control
/// is never listed.
pub open spec fn listed(f: ListedFileView) -> bool {
    f.name != ".gitignore"@
}

pub open spec fn spec_entry(f: ListedFileView, m: Map<Seq<char>, ThumbView>) -> ListingEntryView {
    ListingEntryView {
        rec: if m.contains_key(f.path) {
            m[f.path]
        } else {
            fallback_record(f.name)
        },
        created: f.created,
    }
}

/// The listing's entries in directory order, before sorting.
pub open spec fn spec_gallery(
    files: Seq<ListedFileView>,
    m: Map<Seq<char>, ThumbView>,
) -> Seq<ListingEntryView> {
    files.filter(|f: ListedFileView| listed(f)).map_values(|f: ListedFileView| spec_entry(f, m))
}

/// Newest first: creation times never increase along the sequence.
pub open spec fn sorted_newest_first(s: Seq<ListingEntryView>) -> bool {
    forall|i: int, j: int|
        #![trigger s[i].created, s[j].created]
        0 <= i <= j < s.len() ==> s[i].created >= s[j].created
}

/// Pairs each listed file with its cached record, or with the fallback
/// record when the cache has none.
pub fn gallery_records(files: &Vec<ListedFile>, cache: &ThumbCache) -> (r: Vec<ListingEntry>)
    requires
        cache.wf(),
    ensures
        r@.map_values(|e: ListingEntry| e@) == spec_gallery(
            files@.map_values(|f: ListedFile| f@),
            cache@,
        ),
{
    let ghost fviews = files@.map_values(|f: ListedFile| f@);
    let ghost pred = |f: ListedFileView| listed(f);
    let n = files.len();
    let mut r: Vec<ListingEntry> = Vec::new();
    let mut i: usize = 0;
    proof {
        reveal(Seq::filter);
        assert(fviews.take(0).filter(pred) =~= Seq::<ListedFileView>::empty().filter(pred));
    }
    while i < n
        invariant
            0 <= i <= n == files@.len(),
            cache.wf(),
            fviews == files@.map_values(|f: ListedFile| f@),
            pred == (|f: ListedFileView| listed(f)),
            r@.map_values(|e: ListingEntry| e@) == fviews.take(i as int).filter(pred).map_values(
                |f: ListedFileView| spec_entry(f, cache@),
            ),
        decreases n - i,
    {
        proof {
            lemma_filter_take_step(fviews, pred, i as int);
        }
        let ghost old_r = r@;
        if !str_eq(files[i].name.as_str(), ".gitignore") {
            let rec = match cache.get(files[i].path.as_str()) {
                Some(t) => t,
                None => Thumb {
                    name: files[i].name.clone(),
                    thumb: None,
                    width: None,
                    height: None,
                },
            };
            let e = ListingEntry { rec, created: files[i].created };
            proof {
                assert(e@ =~= spec_entry(fviews[i as int], cache@));
            }
            r.push(e);
            proof {
                assert(r@.map_values(|e: ListingEntry| e@) =~= old_r.map_values(
                    |e: ListingEntry| e@,
                ).push(spec_entry(fviews[i as int], cache@)));
                assert(fviews.take(i + 1).filter(pred).map_values(
                    |f: ListedFileView| spec_entry(f, cache@),
                ) =~= fviews.take(i as int).filter(pred).map_values(
                    |f: ListedFileView| spec_entry(f, cache@),
                ).push(spec_entry(fviews[i as int], cache@)));
            }
        } else {
            proof {
                assert(!pred(fviews[i as int]));
            }
        }
        i = i + 1;
    }
    proof {
        assert(fviews.take(n as int) =~= fviews);
    }
    r
}

/// The first position whose entry is strictly older than `created`.
fn insertion_point(out: &Vec<ListingEntry>, created: u64) -> (idx: usize)
    ensures
        0 <= idx <= out@.len(),
        forall|a: int| 0 <= a < idx ==> (#[trigger] out@[a])@.created >= created,
        idx < out@.len() ==> out@[idx as int]@.created < created,
{
    let m = out.len();
    let mut idx: usize = 0;
    while idx < m
        invariant
            0 <= idx <= m == out@.len(),
            forall|a: int| 0 <= a < idx ==> (#[trigger] out@[a])@.created >= created,
        decreases m - idx,
    {
        if out[idx].created < created {
            return idx;
        }
        idx = idx + 1;
    }
    m
}

/// Sorts the entries newest first. The result holds exactly the given
/// entries, reordered.
pub fn sort_newest_first_entries(entries: &Vec<ListingEntry>) -> (r: Vec<ListingEntry>)
    ensures
        sorted_newest_first(r@.map_values(|e: ListingEntry| e@)),
        r@.map_values(|e: ListingEntry| e@).to_multiset() == entries@.map_values(
            |e: ListingEntry| e@,
        ).to_multiset(),
{
    broadcast use group_to_multiset_ensures;

    let ghost eviews = entries@.map_values(|e: ListingEntry| e@);
    let n = entries.len();
    let mut out: Vec<ListingEntry> = Vec::new();
    let mut i: usize = 0;
    proof {
        assert(eviews.take(0) =~= Seq::<ListingEntryView>::empty());
        assert(out@.map_values(|e: ListingEntry| e@) =~= Seq::<ListingEntryView>::empty());
        assert(Seq::<ListingEntryView>::empty().to_multiset() =~= Multiset::<
            ListingEntryView,
        >::empty());
    }
    while i < n
        invariant
            0 <= i <= n == entries@.len(),
            eviews == entries@.map_values(|e: ListingEntry| e@),
            sorted_newest_first(out@.map_values(|e: ListingEntry| e@)),
            out@.map_values(|e: ListingEntry| e@).to_multiset() == eviews.take(
                i as int,
            ).to_multiset(),
        decreases n - i,
    {
        broadcast use group_to_multiset_ensures;

        let e = entries[i].clone();
        let ghost old_views = out@.map_values(|x: ListingEntry| x@);
        let idx = insertion_point(&out, e.created);
        // idx is the insertion point: everything before it is at least as
        // new as `e`, and the entry at it (if any) is strictly older.
        out.insert(idx, e);
        proof {
            let new_views = out@.map_values(|x: ListingEntry| x@);
            assert(new_views =~= old_views.insert(idx as int, eviews[i as int]));
            // Sortedness: the prefix is newer or equal, the suffix older or
            // equal because the old sequence was sorted.
            assert forall|a: int, b: int|
                #![trigger new_views[a].created, new_views[b].created]
                0 <= a <= b < new_views.len() implies new_views[a].created
                >= new_views[b].created by {
                let av = if a < idx {
                    old_views[a]
                } else if a == idx {
                    eviews[i as int]
                } else {
                    old_views[a - 1]
                };
                let bv = if b < idx {
                    old_views[b]
                } else if b == idx {
                    eviews[i as int]
                } else {
                    old_views[b - 1]
                };
                assert(new_views[a] == av);
                assert(new_views[b] == bv);
                if idx < old_views.len() && a <= idx && idx <= b {
                    assert(old_views[idx as int].created < eviews[i as int].created || idx
                        == old_views.len());
                }
            }
            // The multiset gains exactly the inserted element.
            assert(new_views =~= old_views.take(idx as int).push(eviews[i as int])
                + old_views.skip(idx as int));
            assert(old_views =~= old_views.take(idx as int) + old_views.skip(idx as int));
            vstd::seq_lib::lemma_multiset_commutative(
                old_views.take(idx as int).push(eviews[i as int]),
                old_views.skip(idx as int),
            );
            vstd::seq_lib::lemma_multiset_commutative(
                old_views.take(idx as int),
                old_views.skip(idx as int),
            );
            assert(new_views.to_multiset() =~= old_views.to_multiset().insert(eviews[i as int]));
            assert(eviews.take(i + 1).drop_last() =~= eviews.take(i as int));
            assert(eviews.take(i + 1) =~= eviews.take(i as int).push(eviews[i as int]));
        }
        i = i + 1;
    }
    proof {
        assert(eviews.take(n as int) =~= eviews);
    }
    out
}

/// Builds the listing the gallery handler serialises: every listed file's
/// record, newest files first; files the cache does not know get the
/// fallback record rather than failing the request.
pub fn build_listing(files: &Vec<ListedFile>, cache: &ThumbCache) -> (r: Vec<Thumb>)
    requires
        cache.wf(),
    ensures
        exists|s: Seq<ListingEntryView>|
            {
                &&& sorted_newest_first(s)
                &&& s.to_multiset() == spec_gallery(
                    files@.map_values(|f: ListedFile| f@),
                    cache@,
                ).to_multiset()
                &&& r@.map_values(|t: Thumb| t@) == s.map_values(|e: ListingEntryView| e.rec)
            },
{
    let entries = gallery_records(files, cache);
    let sorted = sort_newest_first_entries(&entries);
    let ghost sviews = sorted@.map_values(|e: ListingEntry| e@);
    let n = sorted.len();
    let mut r: Vec<Thumb> = Vec::new();
    let mut i: usize = 0;
    while i < n
        invariant
            0 <= i <= n == sorted@.len(),
            sviews == sorted@.map_values(|e: ListingEntry| e@),
            r@.len() == i,
            forall|j: int| 0 <= j < i ==> r@[j]@ == sviews[j].rec,
        decreases n - i,
    {
        r.push(sorted[i].rec.clone());
        i = i + 1;
    }
    proof {
        assert(r@.map_values(|t: Thumb| t@) =~= sviews.map_values(|e: ListingEntryView| e.rec));
    }
    r
}

} // verus!
