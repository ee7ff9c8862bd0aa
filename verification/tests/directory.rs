//! Directory renderer behaviour: home abbreviation, substitutions,
//! truncation, repository anchoring and fish-style contraction.

use promptline::context::WorkingContext;
use promptline::render::{render, TruncationConfig};
use promptline::repo::{locate, RepoInfo};
use promptline::scan::DirEntry;
use promptline::subst::SubstitutionRule;

const HOME: &str = "/home/astronaut";

fn config(len: usize, to_repo: bool, fish: Option<usize>, prefix: &str) -> TruncationConfig {
    TruncationConfig {
        truncation_length: len,
        truncate_to_repo: to_repo,
        fish_style_length: fish,
        prefix: prefix.to_string(),
    }
}

fn default_config() -> TruncationConfig {
    config(3, true, None, "in ")
}

fn home() -> Option<String> {
    Some(HOME.to_string())
}

fn no_repo() -> RepoInfo {
    RepoInfo { found: false, root: String::new() }
}

fn repo_at(root: &str) -> RepoInfo {
    RepoInfo { found: true, root: root.to_string() }
}

fn sub(pattern: &str, replacement: &str) -> SubstitutionRule {
    SubstitutionRule { pattern: pattern.to_string(), replacement: replacement.to_string() }
}

fn no_subs() -> Vec<SubstitutionRule> {
    Vec::new()
}

/// A context whose cache marks `repo_dir` as holding a repository marker,
/// with empty listings for the levels of `path` above it.
fn context_with_repo(path: &str, repo_dir: &str) -> WorkingContext {
    let mut ctx = WorkingContext::new(path.to_string(), home());
    ctx.record_listing(
        repo_dir.to_string(),
        vec![DirEntry { name: ".git".to_string(), is_dir: true }],
    );
    ctx
}

#[test]
fn home_directory() {
    let actual = render("~", &home(), &no_repo(), &no_subs(), &config(3, false, None, "in "));
    assert_eq!(actual, "in ~ ");
}

#[test]
fn substituted_truncated_path() {
    let subs = vec![sub("/some/long/network/path", "/some/net"), sub("a/b/c", "d")];
    let actual = render(
        "/some/long/network/path/workspace/a/b/c/dev",
        &home(),
        &no_repo(),
        &subs,
        &config(4, true, None, "in "),
    );
    assert_eq!(actual, "in net/workspace/d/dev ");
}

#[test]
fn strange_substitution() {
    let strange_sub = "/\\/;,!";
    let subs = vec![sub("regular", strange_sub)];
    let actual = render(
        "/foo/bar/regular/path",
        &home(),
        &no_repo(),
        &subs,
        // the fish setting is overridden by the unlimited truncation length
        &config(0, true, Some(2), "in "),
    );
    assert_eq!(actual, format!("in /foo/bar/{}/path ", strange_sub));
}

#[test]
fn directory_in_home() {
    let dir = format!("{}/starship/engine", HOME);
    let actual = render(&dir, &home(), &no_repo(), &no_subs(), &default_config());
    assert_eq!(actual, "in ~/starship/engine ");
}

#[test]
fn truncated_directory_in_home() {
    let dir = format!("{}/starship/engine/schematics", HOME);
    let actual = render(&dir, &home(), &no_repo(), &no_subs(), &default_config());
    assert_eq!(actual, "in starship/engine/schematics ");
}

#[test]
fn fish_directory_in_home() {
    let dir = format!("{}/starship/engine/schematics", HOME);
    let actual = render(&dir, &home(), &no_repo(), &no_subs(), &config(1, true, Some(2), "in "));
    assert_eq!(actual, "in ~/st/en/schematics ");
}

#[test]
fn root_directory() {
    let actual = render("/", &home(), &no_repo(), &no_subs(), &default_config());
    assert_eq!(actual, "in / ");
}

#[test]
fn test_prefix() {
    let actual = render("/", &home(), &no_repo(), &no_subs(), &config(3, true, None, "sample "));
    assert_eq!(actual, "sample / ");
}

#[test]
fn directory_in_root() {
    let actual = render("/etc", &home(), &no_repo(), &no_subs(), &default_config());
    assert_eq!(actual, "in /etc ");
}

#[test]
fn truncated_directory_in_root() {
    let actual = render(
        "/tmp/starship/thrusters/rocket",
        &home(),
        &no_repo(),
        &no_subs(),
        &default_config(),
    );
    assert_eq!(actual, "in starship/thrusters/rocket ");
}

#[test]
fn truncated_directory_config_large() {
    let actual = render(
        "/tmp/starship/thrusters/rocket",
        &home(),
        &no_repo(),
        &no_subs(),
        &config(100, true, None, "in "),
    );
    assert_eq!(actual, "in /tmp/starship/thrusters/rocket ");
}

#[test]
fn fish_style_directory_config_large() {
    let actual = render(
        "/tmp/starship/thrusters/rocket",
        &home(),
        &no_repo(),
        &no_subs(),
        &config(1, true, Some(100), "in "),
    );
    assert_eq!(actual, "in /tmp/starship/thrusters/rocket ");
}

#[test]
fn truncated_directory_config_small() {
    let actual = render(
        "/tmp/starship/thrusters/rocket",
        &home(),
        &no_repo(),
        &no_subs(),
        &config(2, true, None, "in "),
    );
    assert_eq!(actual, "in thrusters/rocket ");
}

#[test]
fn fish_directory_config_small() {
    let actual = render(
        "/tmp/starship/thrusters/rocket",
        &home(),
        &no_repo(),
        &no_subs(),
        &config(2, true, Some(1), "in "),
    );
    assert_eq!(actual, "in /t/s/thrusters/rocket ");
}

#[test]
fn git_repo_root() {
    let repo_dir = format!("{}/.tmp1234/rocket-controls", HOME);
    let ctx = context_with_repo(&repo_dir, &repo_dir);
    let repo = locate(&ctx, &repo_dir);
    assert!(repo.found);
    let actual = render(&repo_dir, &home(), &repo, &no_subs(), &default_config());
    assert_eq!(actual, "in rocket-controls ");
}

#[test]
fn directory_in_git_repo() {
    let repo_dir = format!("{}/.tmp1234/rocket-controls", HOME);
    let dir = format!("{}/src", repo_dir);
    let ctx = context_with_repo(&dir, &repo_dir);
    let repo = locate(&ctx, &dir);
    assert!(repo.found);
    assert_eq!(repo.root, repo_dir);
    let actual = render(&dir, &home(), &repo, &no_subs(), &default_config());
    assert_eq!(actual, "in rocket-controls/src ");
}

#[test]
fn truncated_directory_in_git_repo() {
    let repo_dir = format!("{}/.tmp1234/rocket-controls", HOME);
    let dir = format!("{}/src/meters/fuel-gauge", repo_dir);
    let ctx = context_with_repo(&dir, &repo_dir);
    let repo = locate(&ctx, &dir);
    let actual = render(&dir, &home(), &repo, &no_subs(), &default_config());
    assert_eq!(actual, "in src/meters/fuel-gauge ");
}

#[test]
fn directory_in_git_repo_truncate_to_repo_false() {
    let repo_dir = format!("{}/.tmp1234/above-repo/rocket-controls", HOME);
    let dir = format!("{}/src/meters/fuel-gauge", repo_dir);
    let ctx = context_with_repo(&dir, &repo_dir);
    let repo = locate(&ctx, &dir);
    let actual = render(&dir, &home(), &repo, &no_subs(), &config(5, false, None, "in "));
    assert_eq!(actual, "in above-repo/rocket-controls/src/meters/fuel-gauge ");
}

#[test]
fn fish_path_directory_in_git_repo_truncate_to_repo_false() {
    let repo_dir = format!("{}/.tmp1234/above-repo/rocket-controls", HOME);
    let dir = format!("{}/src/meters/fuel-gauge", repo_dir);
    let ctx = context_with_repo(&dir, &repo_dir);
    let repo = locate(&ctx, &dir);
    let actual = render(&dir, &home(), &repo, &no_subs(), &config(5, false, Some(1), "in "));
    assert_eq!(actual, "in ~/.t/above-repo/rocket-controls/src/meters/fuel-gauge ");
}

#[test]
fn fish_path_directory_in_git_repo_truncate_to_repo_true() {
    let repo_dir = format!("{}/.tmp1234/above-repo/rocket-controls", HOME);
    let dir = format!("{}/src/meters/fuel-gauge", repo_dir);
    let ctx = context_with_repo(&dir, &repo_dir);
    let repo = locate(&ctx, &dir);
    let actual = render(&dir, &home(), &repo, &no_subs(), &config(5, true, Some(1), "in "));
    assert_eq!(actual, "in ~/.t/a/rocket-controls/src/meters/fuel-gauge ");
}

#[test]
fn directory_in_git_repo_truncate_to_repo_true() {
    let repo_dir = format!("{}/.tmp1234/above-repo/rocket-controls", HOME);
    let dir = format!("{}/src/meters/fuel-gauge", repo_dir);
    let ctx = context_with_repo(&dir, &repo_dir);
    let repo = locate(&ctx, &dir);
    let actual = render(&dir, &home(), &repo, &no_subs(), &config(5, true, None, "in "));
    assert_eq!(actual, "in rocket-controls/src/meters/fuel-gauge ");
}

#[test]
fn git_repo_in_home_directory_truncate_to_repo_true() {
    // the home directory itself is the repository root
    let dir = format!("{}/src/meters/fuel-gauge", HOME);
    let ctx = context_with_repo(&dir, HOME);
    let repo = locate(&ctx, &dir);
    assert_eq!(repo.root, HOME);
    let actual = render(&dir, &home(), &repo, &no_subs(), &config(5, true, None, "in "));
    assert_eq!(actual, "in ~/src/meters/fuel-gauge ");
}

#[test]
fn symlinked_git_repo_root() {
    // the listing of a symlinked repository root shows the marker too, and
    // the literal walk never resolves the link
    let symlink_dir = format!("{}/.tmp1234/rocket-controls-symlink", HOME);
    let ctx = context_with_repo(&symlink_dir, &symlink_dir);
    let repo = locate(&ctx, &symlink_dir);
    assert!(repo.found);
    let actual = render(&symlink_dir, &home(), &repo, &no_subs(), &default_config());
    assert_eq!(actual, "in rocket-controls-symlink ");
}

#[test]
fn directory_in_symlinked_git_repo() {
    let symlink_dir = format!("{}/.tmp1234/rocket-controls-symlink", HOME);
    let dir = format!("{}/src", symlink_dir);
    let ctx = context_with_repo(&dir, &symlink_dir);
    let repo = locate(&ctx, &dir);
    let actual = render(&dir, &home(), &repo, &no_subs(), &default_config());
    assert_eq!(actual, "in rocket-controls-symlink/src ");
}

#[test]
fn truncated_directory_in_symlinked_git_repo() {
    let symlink_dir = format!("{}/.tmp1234/rocket-controls-symlink", HOME);
    let dir = format!("{}/src/meters/fuel-gauge", symlink_dir);
    let ctx = context_with_repo(&dir, &symlink_dir);
    let repo = locate(&ctx, &dir);
    let actual = render(&dir, &home(), &repo, &no_subs(), &default_config());
    assert_eq!(actual, "in src/meters/fuel-gauge ");
}

#[test]
fn directory_in_symlinked_git_repo_truncate_to_repo_false() {
    let symlink_dir = format!("{}/.tmp1234/above-repo/rocket-controls-symlink", HOME);
    let dir = format!("{}/src/meters/fuel-gauge", symlink_dir);
    let ctx = context_with_repo(&dir, &symlink_dir);
    let repo = locate(&ctx, &dir);
    let actual = render(&dir, &home(), &repo, &no_subs(), &config(5, false, None, "in "));
    assert_eq!(actual, "in above-repo/rocket-controls-symlink/src/meters/fuel-gauge ");
}

#[test]
fn fish_path_directory_in_symlinked_git_repo_truncate_to_repo_false() {
    let symlink_dir = format!("{}/.tmp1234/above-repo/rocket-controls-symlink", HOME);
    let dir = format!("{}/src/meters/fuel-gauge", symlink_dir);
    let ctx = context_with_repo(&dir, &symlink_dir);
    let repo = locate(&ctx, &dir);
    let actual = render(&dir, &home(), &repo, &no_subs(), &config(5, false, Some(1), "in "));
    assert_eq!(actual, "in ~/.t/above-repo/rocket-controls-symlink/src/meters/fuel-gauge ");
}

#[test]
fn fish_path_directory_in_symlinked_git_repo_truncate_to_repo_true() {
    let symlink_dir = format!("{}/.tmp1234/above-repo/rocket-controls-symlink", HOME);
    let dir = format!("{}/src/meters/fuel-gauge", symlink_dir);
    let ctx = context_with_repo(&dir, &symlink_dir);
    let repo = locate(&ctx, &dir);
    let actual = render(&dir, &home(), &repo, &no_subs(), &config(5, true, Some(1), "in "));
    assert_eq!(actual, "in ~/.t/a/rocket-controls-symlink/src/meters/fuel-gauge ");
}

#[test]
fn directory_in_symlinked_git_repo_truncate_to_repo_true() {
    let symlink_dir = format!("{}/.tmp1234/above-repo/rocket-controls-symlink", HOME);
    let dir = format!("{}/src/meters/fuel-gauge", symlink_dir);
    let ctx = context_with_repo(&dir, &symlink_dir);
    let repo = locate(&ctx, &dir);
    let actual = render(&dir, &home(), &repo, &no_subs(), &config(5, true, None, "in "));
    assert_eq!(actual, "in rocket-controls-symlink/src/meters/fuel-gauge ");
}

#[test]
fn symlinked_directory_in_git_repo() {
    // a symlink inside the repository that points back into it
    let repo_dir = format!("{}/.tmp1234/rocket-controls", HOME);
    let dir = format!("{}/src/loop/loop", repo_dir);
    let ctx = context_with_repo(&dir, &repo_dir);
    let repo = locate(&ctx, &dir);
    let actual = render(&dir, &home(), &repo, &no_subs(), &config(5, true, None, "in "));
    assert_eq!(actual, "in rocket-controls/src/loop/loop ");
}

#[test]
fn symlinked_subdirectory_git_repo_out_of_tree() {
    // a symlink from outside the repository into a subdirectory of it: no
    // level of the literal path holds a marker, so no repository is found
    let dir = format!("{}/fuel-gauge", HOME);
    let ctx = WorkingContext::new(dir.clone(), home());
    let repo = locate(&ctx, &dir);
    assert!(!repo.found);
    let actual = render(&dir, &home(), &repo, &no_subs(), &default_config());
    assert_eq!(actual, "in ~/fuel-gauge ");
}
