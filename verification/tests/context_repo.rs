//! The snapshot cache's at-most-once guarantee and the literal upward
//! repository walk with its memoization.

use promptline::context::WorkingContext;
use promptline::render::{render_in_context, TruncationConfig};
use promptline::repo::locate;
use promptline::scan::DirEntry;

fn file(name: &str) -> DirEntry {
    DirEntry { name: name.to_string(), is_dir: false }
}

fn folder(name: &str) -> DirEntry {
    DirEntry { name: name.to_string(), is_dir: true }
}

#[test]
fn cache_keeps_first_listing() {
    let mut ctx = WorkingContext::new("/a".to_string(), None);
    ctx.record_listing("/a".to_string(), vec![file("one")]);
    ctx.record_listing("/a".to_string(), vec![file("two")]);
    let entries = ctx.entries_of("/a").expect("listing recorded");
    assert_eq!(entries.len(), 1);
    assert_eq!(entries[0].name, "one");
}

#[test]
fn cache_misses_unrecorded_paths() {
    let mut ctx = WorkingContext::new("/a".to_string(), None);
    ctx.record_listing("/a".to_string(), vec![file("one")]);
    assert!(ctx.entries_of("/b").is_none());
    assert!(ctx.entries_of("/a/one").is_none());
}

#[test]
fn locate_finds_marker_at_start() {
    let mut ctx = WorkingContext::new("/w/repo".to_string(), None);
    ctx.record_listing("/w/repo".to_string(), vec![folder(".git")]);
    let info = locate(&ctx, "/w/repo");
    assert!(info.found);
    assert_eq!(info.root, "/w/repo");
}

#[test]
fn locate_walks_upward() {
    let mut ctx = WorkingContext::new("/w/repo/src/deep".to_string(), None);
    ctx.record_listing("/w/repo".to_string(), vec![folder(".git")]);
    let info = locate(&ctx, "/w/repo/src/deep");
    assert!(info.found);
    assert_eq!(info.root, "/w/repo");
}

#[test]
fn nearest_marker_wins() {
    let mut ctx = WorkingContext::new("/w/outer/inner/src".to_string(), None);
    ctx.record_listing("/w/outer".to_string(), vec![folder(".git")]);
    ctx.record_listing("/w/outer/inner".to_string(), vec![folder(".git")]);
    let info = locate(&ctx, "/w/outer/inner/src");
    assert!(info.found);
    assert_eq!(info.root, "/w/outer/inner");
}

#[test]
fn marker_file_counts_too() {
    // a worktree's repository marker is a file, not a directory
    let mut ctx = WorkingContext::new("/w/tree".to_string(), None);
    ctx.record_listing("/w/tree".to_string(), vec![file(".git")]);
    let info = locate(&ctx, "/w/tree");
    assert!(info.found);
}

#[test]
fn locate_reaches_filesystem_root() {
    let mut ctx = WorkingContext::new("/a/b".to_string(), None);
    ctx.record_listing("/".to_string(), vec![folder(".git")]);
    let info = locate(&ctx, "/a/b");
    assert!(info.found);
    assert_eq!(info.root, "/");
}

#[test]
fn locate_not_found() {
    let mut ctx = WorkingContext::new("/a/b/c".to_string(), None);
    ctx.record_listing("/a/b/c".to_string(), vec![file("README")]);
    let info = locate(&ctx, "/a/b/c");
    assert!(!info.found);
}

#[test]
fn render_in_context_uses_the_memoized_repo() {
    let config = TruncationConfig {
        truncation_length: 3,
        truncate_to_repo: true,
        fish_style_length: None,
        prefix: "in ".to_string(),
    };
    let mut ctx = WorkingContext::new("/w/repo/src/a/b".to_string(), None);
    // no lookup performed yet: anchoring behaves as "not found"
    let before = render_in_context(&ctx, "/w/repo/src/a/b", &Vec::new(), &config);
    assert_eq!(before, "in src/a/b ");
    ctx.record_listing("/w/repo".to_string(), vec![folder(".git")]);
    ctx.repo_info();
    let after = render_in_context(&ctx, "/w/repo/src/a/b", &Vec::new(), &config);
    assert_eq!(after, "in src/a/b ");
    let shallow = render_in_context(&ctx, "/w/repo/src", &Vec::new(), &config);
    assert_eq!(shallow, "in repo/src ");
}

#[test]
fn repo_info_is_memoized_for_the_context_lifetime() {
    let mut ctx = WorkingContext::new("/w/repo/src".to_string(), None);
    let first = ctx.repo_info();
    assert!(!first.found);
    // a listing recorded after the first lookup does not change the answer
    ctx.record_listing("/w/repo".to_string(), vec![folder(".git")]);
    let second = ctx.repo_info();
    assert!(!second.found);
    // a fresh context sees the marker
    let mut fresh = WorkingContext::new("/w/repo/src".to_string(), None);
    fresh.record_listing("/w/repo".to_string(), vec![folder(".git")]);
    let third = fresh.repo_info();
    assert!(third.found);
    assert_eq!(third.root, "/w/repo");
}
