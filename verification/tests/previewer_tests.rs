use television::channel::PreviewCommand;
use television::entry::Entry;
use television::previewer::{
    file_too_large, loading, not_supported, try_preview, Preview, PreviewCache, PreviewContent,
    Previewer, RenderedPreviewCache, ShellOutput, FILE_TOO_LARGE_MSG, PREVIEW_NOT_SUPPORTED_MSG,
};

fn entry(name: &str) -> Entry {
    Entry::new(String::from(name))
}

fn cmd() -> PreviewCommand {
    PreviewCommand::new("cat {}", " ")
}

fn ansi_preview(title: &str, text: &str) -> Preview {
    Preview::new(String::from(title), PreviewContent::AnsiText(String::from(text)), None, false)
}

#[test]
fn preview_spawns_once_per_entry() {
    // two back-to-back polls for the same uncached entry start one job only
    let mut p = Previewer::new();
    let e = entry("some:entry");
    let c = cmd();
    let (shown, spawn_first) = p.preview(&e, &c);
    assert!(spawn_first);
    assert!(shown.stale);
    assert!(matches!(shown.content, PreviewContent::Empty));
    let (shown_again, spawn_second) = p.preview(&e, &c);
    assert!(!spawn_second);
    assert!(shown_again.stale);
}

#[test]
fn preview_respects_concurrency_budget() {
    // with the budget exhausted, an extra distinct entry gets the
    // placeholder and no job
    let mut p = Previewer::new();
    let c = cmd();
    assert!(p.preview(&entry("one"), &c).1);
    assert!(p.preview(&entry("two"), &c).1);
    assert!(p.preview(&entry("three"), &c).1);
    let (shown, spawned) = p.preview(&entry("four"), &c);
    assert!(!spawned);
    assert!(matches!(shown.content, PreviewContent::Empty));

    // a finished job frees its slot
    let out = ShellOutput { status_success: true, stdout: b"done".to_vec(), stderr: Vec::new() };
    try_preview(&mut p, &c, &entry("one"), Some(&out));
    assert!(p.preview(&entry("four"), &c).1);
}

#[test]
fn successful_job_fills_cache_and_placeholder() {
    let mut p = Previewer::new();
    let e = entry("file.txt");
    let c = cmd();
    assert!(p.preview(&e, &c).1);
    let out = ShellOutput {
        status_success: true,
        stdout: b"line one\nline two".to_vec(),
        stderr: Vec::new(),
    };
    try_preview(&mut p, &c, &e, Some(&out));

    let (cached, spawned) = p.preview(&e, &c);
    assert!(!spawned);
    assert_eq!(cached.title, "file.txt");
    assert!(!cached.stale);
    match &cached.content {
        PreviewContent::AnsiText(text) => assert_eq!(text, "line one\nline two"),
        other => panic!("expected text, got {:?}", other),
    }
    assert_eq!(cached.total_lines(), 2);

    // the last known preview is a stale copy of the fresh one
    let (placeholder, spawned2) = p.preview(&entry("elsewhere"), &c);
    assert!(spawned2);
    assert!(placeholder.stale);
    match &placeholder.content {
        PreviewContent::AnsiText(text) => assert_eq!(text, "line one\nline two"),
        other => panic!("expected text, got {:?}", other),
    }
}

#[test]
fn failed_job_caches_inline_error() {
    let mut p = Previewer::new();
    let e = entry("broken");
    let c = cmd();
    assert!(p.preview(&e, &c).1);
    let out = ShellOutput {
        status_success: false,
        stdout: Vec::new(),
        stderr: b"boom".to_vec(),
    };
    try_preview(&mut p, &c, &e, Some(&out));

    let (cached, spawned) = p.preview(&e, &c);
    assert!(!spawned);
    match &cached.content {
        PreviewContent::AnsiText(text) => {
            assert_eq!(text, "error running command: cat broken\nboom");
        },
        other => panic!("expected text, got {:?}", other),
    }
    // the failure does not replace the last known preview
    let (placeholder, _) = p.preview(&entry("elsewhere"), &c);
    assert!(matches!(placeholder.content, PreviewContent::Empty));
}

#[test]
fn blank_entry_skips_the_shell() {
    let mut p = Previewer::new();
    let e = entry("   ");
    let c = cmd();
    assert!(p.preview(&e, &c).1);
    try_preview(&mut p, &c, &e, None);
    // nothing was cached; the next poll spawns again
    assert!(p.preview(&e, &c).1);
}

#[test]
fn cache_keeps_capacity_and_evicts_the_oldest() {
    // capacity + 1 distinct keys leave exactly capacity retrievable, the
    // first-inserted key gone
    let mut cache = PreviewCache::new(3);
    cache.insert(String::from("k0"), &ansi_preview("t0", "a"));
    cache.insert(String::from("k1"), &ansi_preview("t1", "b"));
    cache.insert(String::from("k2"), &ansi_preview("t2", "c"));
    cache.insert(String::from("k3"), &ansi_preview("t3", "d"));
    assert!(cache.get(&String::from("k0")).is_none());
    assert!(cache.get(&String::from("k1")).is_some());
    assert!(cache.get(&String::from("k2")).is_some());
    assert!(cache.get(&String::from("k3")).is_some());
}

#[test]
fn cache_overwrites_in_place() {
    let mut cache = PreviewCache::new(2);
    cache.insert(String::from("k"), &ansi_preview("old", "a"));
    cache.insert(String::from("k"), &ansi_preview("new", "b"));
    let got = cache.get(&String::from("k")).unwrap();
    assert_eq!(got.title, "new");
    // the overwrite spent no capacity
    cache.insert(String::from("k2"), &ansi_preview("t2", "c"));
    assert!(cache.get(&String::from("k")).is_some());
    assert!(cache.get(&String::from("k2")).is_some());
}

#[test]
fn rendered_cache_behaves_like_the_raw_one() {
    let mut cache: RenderedPreviewCache<u64> = RenderedPreviewCache::new(2);
    cache.insert(String::from("a"), 1);
    cache.insert(String::from("b"), 2);
    cache.insert(String::from("c"), 3);
    assert!(cache.get(&String::from("a")).is_none());
    assert_eq!(cache.get(&String::from("b")), Some(&2));
    assert_eq!(cache.get(&String::from("c")), Some(&3));
}

#[test]
fn stock_previews() {
    let ns = not_supported("title");
    assert!(matches!(ns.content, PreviewContent::NotSupported));
    assert_eq!(ns.title, "title");
    assert!(!ns.stale);
    let ftl = file_too_large("big");
    assert!(matches!(ftl.content, PreviewContent::FileTooLarge));
    let ld = loading("soon");
    assert!(matches!(ld.content, PreviewContent::Loading));
    assert_eq!(ns.total_lines(), 0);
    assert_eq!(PREVIEW_NOT_SUPPORTED_MSG, "Preview for this file type is not supported");
    assert_eq!(FILE_TOO_LARGE_MSG, "File too large");
}

#[test]
fn total_lines_counts_like_the_renderer() {
    assert_eq!(ansi_preview("t", "").total_lines(), 0);
    assert_eq!(ansi_preview("t", "one").total_lines(), 1);
    assert_eq!(ansi_preview("t", "one\n").total_lines(), 1);
    assert_eq!(ansi_preview("t", "one\ntwo").total_lines(), 2);
    assert_eq!(ansi_preview("t", "\n\n").total_lines(), 2);
    let stale = ansi_preview("t", "x").stale();
    assert!(stale.stale);
    assert_eq!(stale.title, "t");
}

#[test]
fn default_preview_is_empty() {
    let d = Preview::default();
    assert_eq!(d.title, "");
    assert!(matches!(d.content, PreviewContent::Empty));
    assert!(!d.stale);
}
