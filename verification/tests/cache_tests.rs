//! The dimension cache: updates, lookups, snapshots, eviction, and the
//! end-to-end scan scenario.

use zeltlager_website::cache::ThumbCache;
use zeltlager_website::listing::{build_listing, ListedFile};
use zeltlager_website::record::Thumb;
use zeltlager_website::scan::{evict_records, plan_scan, SourceInfo};
use zeltlager_website::shared::SharedThumbCache;
use zeltlager_website::staleness::FileTimes;

fn rec(name: &str, w: u32, h: u32) -> Thumb {
    Thumb {
        name: name.to_string(),
        thumb: Some(name.to_string()),
        width: Some(w),
        height: Some(h),
    }
}

fn times(modified: u64, change: i64) -> FileTimes {
    FileTimes { modified, change: Some(change) }
}

#[test]
fn upsert_get_and_replace() {
    let mut c = ThumbCache::new();
    assert_eq!(c.len(), 0);
    assert!(c.get("Bilder/a.jpg").is_none());
    c.upsert("Bilder/a.jpg".to_string(), rec("a.jpg", 300, 200));
    assert_eq!(c.len(), 1);
    let got = c.get("Bilder/a.jpg").unwrap();
    assert_eq!(got.name, "a.jpg");
    assert_eq!(got.width, Some(300));
    assert_eq!(got.height, Some(200));
    // Replacing under the same key keeps one entry.
    c.upsert("Bilder/a.jpg".to_string(), rec("a.jpg", 150, 100));
    assert_eq!(c.len(), 1);
    assert_eq!(c.get("Bilder/a.jpg").unwrap().width, Some(150));
    c.remove("Bilder/a.jpg");
    assert_eq!(c.len(), 0);
    assert!(c.get("Bilder/a.jpg").is_none());
}

#[test]
fn disjoint_upserts_lose_nothing() {
    // Two workers' disjoint key sets, interleaved in an arbitrary order:
    // every insert lands, none is lost.
    let mut c = ThumbCache::new();
    let first: Vec<usize> = vec![0, 2, 4, 6];
    let second: Vec<usize> = vec![1, 3, 5, 7];
    for (a, b) in first.iter().zip(second.iter()) {
        c.upsert(format!("Bilder/{}.jpg", b), rec(&format!("{}.jpg", b), *b as u32, 1));
        c.upsert(format!("Bilder/{}.jpg", a), rec(&format!("{}.jpg", a), *a as u32, 1));
    }
    assert_eq!(c.len(), 8);
    for k in 0..8usize {
        let got = c.get(&format!("Bilder/{}.jpg", k)).unwrap();
        assert_eq!(got.width, Some(k as u32));
    }
    assert_eq!(c.snapshot().len(), 8);
}

#[test]
fn shared_cache_round_trip() {
    let c = SharedThumbCache::new();
    assert_eq!(c.len(), 0);
    c.upsert("Bilder/a.jpg".to_string(), rec("a.jpg", 300, 200));
    c.upsert("Bilder/b.jpg".to_string(), rec("b.jpg", 100, 100));
    assert_eq!(c.len(), 2);
    assert_eq!(c.get("Bilder/a.jpg").unwrap().width, Some(300));
    assert!(c.get("Bilder/missing.jpg").is_none());
    assert_eq!(c.snapshot().len(), 2);
    c.remove("Bilder/a.jpg");
    assert_eq!(c.len(), 1);
}

#[test]
fn eviction_removes_deleted_sources() {
    // A source disappears from the directory: its thumbnail file is listed
    // for deletion and its record leaves the cache.
    let mut cache = ThumbCache::new();
    cache.upsert("Bilder/a.jpg".to_string(), rec("a.jpg", 300, 200));
    cache.upsert("Bilder/gone.jpg".to_string(), rec("gone.jpg", 300, 200));

    let sources = vec![SourceInfo {
        name: "a.jpg".to_string(),
        times: times(100, 10),
        thumb_times: Some(times(200, 20)),
    }];
    let existing = vec!["a.jpg".to_string(), "gone.jpg".to_string()];
    let plan = plan_scan("Bilder", &sources, &existing, false, &cache);
    assert_eq!(plan.evict, vec!["gone.jpg".to_string()]);

    evict_records(&mut cache, &plan.items);
    assert_eq!(cache.len(), 1);
    assert!(cache.get("Bilder/a.jpg").is_some());
    assert!(cache.get("Bilder/gone.jpg").is_none());
    let snap = cache.snapshot();
    assert_eq!(snap.len(), 1);
    assert_eq!(snap[0].name, "a.jpg");
}

#[test]
fn scan_scenario_two_files() {
    // `Album/` holds `a.jpg` without a thumbnail and `b.jpg` with a fresh
    // one (cached since the first run). After the scan: `a.jpg` is
    // regenerated, `b.jpg` is untouched and not evicted, and the cache
    // holds two records with dimensions.
    let mut cache = ThumbCache::new();
    cache.upsert("Album/b.jpg".to_string(), rec("b.jpg", 300, 200));

    let sources = vec![
        SourceInfo { name: "a.jpg".to_string(), times: times(500, 50), thumb_times: None },
        SourceInfo {
            name: "b.jpg".to_string(),
            times: times(100, 10),
            thumb_times: Some(times(200, 20)),
        },
    ];
    let existing = vec!["b.jpg".to_string()];
    let plan = plan_scan("Album", &sources, &existing, false, &cache);

    // Only a.jpg is regenerated; b.jpg's thumbnail is not touched.
    let work: Vec<_> = plan.items.iter().filter(|w| w.need_thumb).collect();
    assert_eq!(work.len(), 1);
    assert_eq!(work[0].orig, "Album/a.jpg");
    assert!(plan.evict.is_empty());

    // The generation pass succeeds and probes 300x200; the worker upserts.
    let generated = work[0].rec.with_size(300, 200);
    cache.upsert(work[0].orig.clone(), generated);
    evict_records(&mut cache, &plan.items);

    let snap = cache.snapshot();
    assert_eq!(snap.len(), 2);
    assert!(snap.iter().all(|t| t.width.is_some() && t.height.is_some()));
}

#[test]
fn listing_sorts_newest_first() {
    let mut cache = ThumbCache::new();
    cache.upsert("Bilder/old.jpg".to_string(), rec("old.jpg", 10, 10));
    cache.upsert("Bilder/new.jpg".to_string(), rec("new.jpg", 20, 20));

    let files = vec![
        ListedFile { path: "Bilder/old.jpg".to_string(), name: "old.jpg".to_string(), created: 100 },
        ListedFile { path: "Bilder/.gitignore".to_string(), name: ".gitignore".to_string(), created: 999 },
        ListedFile { path: "Bilder/new.jpg".to_string(), name: "new.jpg".to_string(), created: 300 },
        ListedFile { path: "Bilder/unknown.jpg".to_string(), name: "unknown.jpg".to_string(), created: 200 },
    ];
    let listing = build_listing(&files, &cache);
    assert_eq!(listing.len(), 3);
    assert_eq!(listing[0].name, "new.jpg");
    assert_eq!(listing[1].name, "unknown.jpg");
    // A cache miss degrades to a record with unknown dimensions.
    assert_eq!(listing[1].thumb, None);
    assert_eq!(listing[1].width, None);
    assert_eq!(listing[2].name, "old.jpg");
    assert_eq!(listing[2].width, Some(10));
}
