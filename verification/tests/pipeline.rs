//! The thumbnail pipeline: classification, staleness, probing, commands,
//! scan planning and the watch loop, on concrete values.

use zeltlager_website::commands::{generation_plan, probe_command};
use zeltlager_website::media::{classify, split_image_name, thumb_file_name, MediaKind};
use zeltlager_website::probe::parse_dimensions;
use zeltlager_website::scan::{make_work_item, plan_scan, SourceInfo};
use zeltlager_website::staleness::{needs_regeneration, FileTimes, Freshness};
use zeltlager_website::cache::ThumbCache;
use zeltlager_website::watcher::{
    any_relevant, watcher_step, EventKind, WatchOutcome, WatcherAction, WatcherState,
};

fn times(modified: u64, change: i64) -> FileTimes {
    FileTimes { modified, change: Some(change) }
}

#[test]
fn classify_by_extension() {
    assert_eq!(classify("photo.jpg"), MediaKind::Image);
    assert_eq!(classify("photo.JPG"), MediaKind::Image);
    assert_eq!(classify("photo.JpEg"), MediaKind::Image);
    assert_eq!(classify("scan.png"), MediaKind::Image);
    assert_eq!(classify("clip.mp4"), MediaKind::Video);
    assert_eq!(classify("clip.MP4"), MediaKind::Video);
    assert_eq!(classify("notes.txt"), MediaKind::Unsupported);
    assert_eq!(classify("jpg"), MediaKind::Unsupported);
    // A hidden file whose whole name is the extension has no extension.
    assert_eq!(classify(".mp4"), MediaKind::Unsupported);
}

#[test]
fn video_thumb_gets_image_extension() {
    assert_eq!(thumb_file_name("clip.mp4"), "clip.jpg");
    assert_eq!(thumb_file_name("a.b.MP4"), "a.b.jpg");
    assert_eq!(thumb_file_name("photo.jpg"), "photo.jpg");
    assert_eq!(thumb_file_name("photo.PNG"), "photo.PNG");
}

#[test]
fn image_names_get_spaces() {
    assert_eq!(split_image_name("Zeltlager2019"), "Zeltlager 2019");
    assert_eq!(split_image_name("2019Zeltlager2"), "2019 Zeltlager 2");
    assert_eq!(split_image_name(""), "");
    assert_eq!(split_image_name("abc"), "abc");
}

#[test]
fn staleness_oracle() {
    // No thumbnail at all: regenerate.
    assert_eq!(needs_regeneration(&times(100, 10), &None), Freshness::NeedsGeneration);
    // Strictly newer thumbnail in both times: up to date.
    assert_eq!(
        needs_regeneration(&times(100, 10), &Some(times(200, 20))),
        Freshness::UpToDate
    );
    // Equal times count as fresh.
    assert_eq!(
        needs_regeneration(&times(100, 10), &Some(times(100, 10))),
        Freshness::UpToDate
    );
    // Older modification time: stale.
    assert_eq!(
        needs_regeneration(&times(100, 10), &Some(times(99, 20))),
        Freshness::NeedsGeneration
    );
    // A copy that kept the modification time but changed the inode later
    // than the source is still fresh; an older change time is stale.
    assert_eq!(
        needs_regeneration(&times(100, 10), &Some(times(100, 9))),
        Freshness::NeedsGeneration
    );
    // Where the platform has no change time, modification decides.
    assert_eq!(
        needs_regeneration(
            &FileTimes { modified: 100, change: None },
            &Some(FileTimes { modified: 150, change: None })
        ),
        Freshness::UpToDate
    );
}

#[test]
fn probe_output_shapes() {
    assert_eq!(parse_dimensions("300 200"), Some((300, 200)));
    assert_eq!(parse_dimensions("1 1"), Some((1, 1)));
    assert_eq!(parse_dimensions("300"), None);
    assert_eq!(parse_dimensions("300 "), None);
    assert_eq!(parse_dimensions(" 200"), None);
    assert_eq!(parse_dimensions("300  200"), None);
    assert_eq!(parse_dimensions("300 200 100"), None);
    assert_eq!(parse_dimensions("a b"), None);
    assert_eq!(parse_dimensions(""), None);
    assert_eq!(parse_dimensions("4294967295 1"), Some((4294967295, 1)));
    assert_eq!(parse_dimensions("4294967296 1"), None);
}

#[test]
fn generation_commands() {
    let plan = generation_plan("Bilder/a.jpg", "Bilder/thumbs/a.jpg");
    assert_eq!(plan.len(), 2);
    assert_eq!(plan[0].program, "magick");
    assert_eq!(
        plan[0].args,
        vec![
            "Bilder/a.jpg".to_string(),
            "-auto-orient".to_string(),
            "-resize".to_string(),
            "300x300".to_string(),
            "Bilder/thumbs/a.jpg".to_string(),
        ]
    );
    // The optimizer pass carries the byte budget of 20 kilobytes.
    assert_eq!(plan[1].program, "jpegoptim");
    assert_eq!(
        plan[1].args,
        vec!["-s".to_string(), "--size=20".to_string(), "Bilder/thumbs/a.jpg".to_string()]
    );

    // A video source reads frame 0; a PNG thumbnail gets no optimizer pass.
    let plan = generation_plan("Bilder/clip.mp4", "Bilder/thumbs/clip.jpg");
    assert_eq!(plan.len(), 2);
    assert_eq!(plan[0].args[0], "Bilder/clip.mp4[0]");
    let plan = generation_plan("Bilder/scan.png", "Bilder/thumbs/scan.png");
    assert_eq!(plan.len(), 1);

    let probe = probe_command("Bilder/thumbs/a.jpg");
    assert_eq!(probe.program, "identify");
    assert_eq!(
        probe.args,
        vec![
            "-ping".to_string(),
            "-format".to_string(),
            "%w %h".to_string(),
            "Bilder/thumbs/a.jpg".to_string(),
        ]
    );
}

#[test]
fn scan_plan_partitions_work() {
    let cache = ThumbCache::new();
    let sources = vec![
        // Fresh thumbnail: probing candidate on the first run.
        SourceInfo { name: "a.jpg".to_string(), times: times(100, 10), thumb_times: Some(times(200, 20)) },
        // Stale thumbnail: regenerate.
        SourceInfo { name: "b.png".to_string(), times: times(300, 30), thumb_times: Some(times(250, 20)) },
        // No thumbnail: regenerate.
        SourceInfo { name: "c.mp4".to_string(), times: times(100, 10), thumb_times: None },
        // Not a media file: ignored.
        SourceInfo { name: "notes.txt".to_string(), times: times(1, 1), thumb_times: None },
    ];
    let existing = vec!["a.jpg".to_string(), "c.jpg".to_string(), "old.jpg".to_string()];
    let plan = plan_scan("Bilder", &sources, &existing, true, &cache);

    assert_eq!(plan.items.len(), 3);
    assert_eq!(plan.items[0].orig, "Bilder/a.jpg");
    assert!(!plan.items[0].need_thumb);
    assert!(plan.items[0].probe);
    assert_eq!(plan.items[1].rec.name, "b.png");
    assert!(plan.items[1].need_thumb);
    assert!(!plan.items[1].probe);
    assert_eq!(plan.items[2].rec.thumb.as_deref(), Some("c.jpg"));
    assert!(plan.items[2].need_thumb);
    // Only the thumbnail no candidate claims is evicted.
    assert_eq!(plan.evict, vec!["old.jpg".to_string()]);

    // Not the first run: nothing is probed, only regenerated.
    let plan = plan_scan("Bilder", &sources, &existing, false, &cache);
    assert!(plan.items.iter().all(|w| !w.probe));
    assert_eq!(plan.items.iter().filter(|w| w.need_thumb).count(), 2);
}

#[test]
fn scan_plan_is_idempotent() {
    // Simulate one scan: everything stale gets a thumbnail that is then
    // newer than its source; the next scan regenerates nothing.
    let cache = ThumbCache::new();
    let before = vec![
        SourceInfo { name: "a.jpg".to_string(), times: times(100, 10), thumb_times: None },
        SourceInfo { name: "b.mp4".to_string(), times: times(300, 30), thumb_times: Some(times(50, 5)) },
    ];
    let plan = plan_scan("Bilder", &before, &Vec::new(), false, &cache);
    assert_eq!(plan.items.iter().filter(|w| w.need_thumb).count(), 2);

    // The generation pass wrote both thumbnails at time 1000.
    let after = vec![
        SourceInfo { name: "a.jpg".to_string(), times: times(100, 10), thumb_times: Some(times(1000, 1000)) },
        SourceInfo { name: "b.mp4".to_string(), times: times(300, 30), thumb_times: Some(times(1000, 1000)) },
    ];
    let second = plan_scan("Bilder", &after, &Vec::new(), false, &cache);
    assert_eq!(second.items.iter().filter(|w| w.need_thumb).count(), 0);
}

#[test]
fn work_item_for_video() {
    let cache = ThumbCache::new();
    let src = SourceInfo { name: "clip.mp4".to_string(), times: times(10, 1), thumb_times: None };
    let w = make_work_item("Bilder", &src, true, &cache);
    assert_eq!(w.orig, "Bilder/clip.mp4");
    assert_eq!(w.rec.name, "clip.mp4");
    assert_eq!(w.rec.thumb.as_deref(), Some("clip.jpg"));
    assert_eq!(w.rec.width, None);
    assert_eq!(w.rec.height, None);
    assert!(w.need_thumb);
    assert!(!w.probe);
}

#[test]
fn watch_loop_transitions() {
    assert_eq!(
        watcher_step(WatcherState::Init, None),
        (WatcherState::FirstScan, WatcherAction::InstallWatch)
    );
    assert_eq!(
        watcher_step(WatcherState::FirstScan, None),
        (WatcherState::Watching, WatcherAction::RunScan { first_run: true })
    );
    // A relevant batch triggers exactly one rescan.
    let batch = vec![EventKind::Other, EventKind::Modify];
    assert!(any_relevant(&batch));
    assert_eq!(
        watcher_step(WatcherState::Watching, Some(WatchOutcome::Batch(batch))),
        (WatcherState::Rescanning, WatcherAction::RunScan { first_run: false })
    );
    assert_eq!(
        watcher_step(WatcherState::Rescanning, None),
        (WatcherState::Watching, WatcherAction::Block)
    );
    // A batch of only irrelevant events does not.
    assert_eq!(
        watcher_step(WatcherState::Watching, Some(WatchOutcome::Batch(vec![EventKind::Other]))),
        (WatcherState::Watching, WatcherAction::Block)
    );
    // Only a failure terminates, and termination is final.
    assert_eq!(
        watcher_step(WatcherState::Watching, Some(WatchOutcome::Failure)),
        (WatcherState::Terminated, WatcherAction::Stop)
    );
    assert_eq!(
        watcher_step(WatcherState::Terminated, Some(WatchOutcome::Batch(vec![EventKind::Any]))),
        (WatcherState::Terminated, WatcherAction::Stop)
    );
}
