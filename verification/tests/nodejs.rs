//! Node.js module activation and rendering, over cached directory
//! listings.

use promptline::context::WorkingContext;
use promptline::nodejs::module;
use promptline::scan::DirEntry;

const DIR: &str = "/home/astronaut/projects/demo";

fn file(name: &str) -> DirEntry {
    DirEntry { name: name.to_string(), is_dir: false }
}

fn folder(name: &str) -> DirEntry {
    DirEntry { name: name.to_string(), is_dir: true }
}

fn context_with(entries: Vec<DirEntry>) -> WorkingContext {
    let mut ctx = WorkingContext::new(DIR.to_string(), Some("/home/astronaut".to_string()));
    ctx.record_listing(DIR.to_string(), entries);
    ctx
}

fn version() -> Option<String> {
    Some("v12.0.0\n".to_string())
}

#[test]
fn folder_without_node_files() {
    let ctx = context_with(Vec::new());
    let actual = module(&ctx, version());
    assert!(actual.is_none());
}

#[test]
fn folder_with_package_json() {
    let ctx = context_with(vec![file("package.json")]);
    let actual = module(&ctx, version()).expect("module should be active");
    assert_eq!(actual.text(), "via \u{2b22} v12.0.0 ");
}

#[test]
fn folder_with_package_json_and_esy_lock() {
    let ctx = context_with(vec![file("package.json"), folder("esy.lock")]);
    let actual = module(&ctx, version());
    assert!(actual.is_none());
}

#[test]
fn folder_with_node_version() {
    let ctx = context_with(vec![file(".node-version")]);
    let actual = module(&ctx, version()).expect("module should be active");
    assert_eq!(actual.text(), "via \u{2b22} v12.0.0 ");
}

#[test]
fn folder_with_js_file() {
    let ctx = context_with(vec![file("index.js")]);
    let actual = module(&ctx, version()).expect("module should be active");
    assert_eq!(actual.text(), "via \u{2b22} v12.0.0 ");
}

#[test]
fn folder_with_mjs_file() {
    let ctx = context_with(vec![file("index.mjs")]);
    let actual = module(&ctx, version()).expect("module should be active");
    assert_eq!(actual.text(), "via \u{2b22} v12.0.0 ");
}

#[test]
fn folder_with_cjs_file() {
    let ctx = context_with(vec![file("index.cjs")]);
    let actual = module(&ctx, version()).expect("module should be active");
    assert_eq!(actual.text(), "via \u{2b22} v12.0.0 ");
}

#[test]
fn folder_with_ts_file() {
    let ctx = context_with(vec![file("index.ts")]);
    let actual = module(&ctx, version()).expect("module should be active");
    assert_eq!(actual.text(), "via \u{2b22} v12.0.0 ");
}

#[test]
fn folder_with_node_modules() {
    let ctx = context_with(vec![folder("node_modules")]);
    let actual = module(&ctx, version()).expect("module should be active");
    assert_eq!(actual.text(), "via \u{2b22} v12.0.0 ");
}

#[test]
fn folder_with_unlisted_directory() {
    // a directory never recorded in the cache scans as empty
    let ctx = WorkingContext::new(DIR.to_string(), None);
    let actual = module(&ctx, version());
    assert!(actual.is_none());
}

#[test]
fn no_version_no_module() {
    let ctx = context_with(vec![file("package.json")]);
    let actual = module(&ctx, None);
    assert!(actual.is_none());
}

#[test]
fn js_file_as_folder_does_not_activate() {
    // extension criteria match files only, and a directory named like a
    // required file name is not a file match
    let ctx = context_with(vec![folder("index.js"), folder("package.json")]);
    let actual = module(&ctx, version());
    assert!(actual.is_none());
}

#[test]
fn node_modules_file_does_not_activate() {
    // folder criteria require a directory, not a file of that name
    let ctx = context_with(vec![file("node_modules")]);
    let actual = module(&ctx, version());
    assert!(actual.is_none());
}
