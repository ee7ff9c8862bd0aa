//! The directory path renderer: substitution, home abbreviation, repository
//! anchoring, truncation, fish-style contraction and reassembly, in that
//! order, each stage feeding the next.

use vstd::prelude::*;
use crate::repo::RepoInfo;
use crate::segments::{
    spec_split, spec_join, spec_contract_segment, split_chars, join_chars, contract_segment,
};
use crate::subst::{SubstitutionRule, spec_substitute, substitute_chars};
use crate::text::{chars_of, chars_eq, subrange_chars, append_chars, string_of};
use vstd::string::StringExecFns;

verus! {

/// Path-shaping configuration: a truncation length of 0 means unlimited —
/// it disables truncation and fish contraction alike.
pub struct TruncationConfig {
    pub truncation_length: usize,
    pub truncate_to_repo: bool,
    pub fish_style_length: Option<usize>,
    pub prefix: String,
}

/// The home path as a character sequence, if one is resolvable.
pub open spec fn spec_home_view(home: Option<String>) -> Option<Seq<char>> {
    match home {
        Some(h) => Some(h@),
        None => None,
    }
}

/// Whether `s` lies at or below the home directory `home`.
pub open spec fn spec_under_home(s: Seq<char>, home: Seq<char>) -> bool {
    home.len() > 0 && (s == home || (s.len() > home.len() && s.take(home.len() as int) == home
        && s[home.len() as int] == '/'))
}

/// `s` with a leading home-directory portion abbreviated to the marker.
pub open spec fn spec_contract_home(s: Seq<char>, home: Option<Seq<char>>) -> Seq<char> {
    match home {
        Some(h) => if spec_under_home(s, h) {
            seq!['~'] + s.skip(h.len() as int)
        } else {
            s
        },
        None => s,
    }
}

/// Segment count of the repository-anchored tail of `raw`: the repository
/// root's own name plus the components of `raw` below the root; nothing
/// when no repository was found or `raw` does not lie under its root.
pub open spec fn spec_anchor_len(raw: Seq<char>, repo: RepoInfo) -> Option<nat> {
    if !repo.found {
        None
    } else if raw == repo.root@ {
        Some(1 as nat)
    } else if raw.len() > repo.root@.len() && raw.take(repo.root@.len() as int) == repo.root@
        && raw[repo.root@.len() as int] == '/' {
        Some((spec_split(raw.skip(repo.root@.len() as int + 1), '/').len() + 1) as nat)
    } else {
        None
    }
}

/// How many trailing segments are kept: all of them when truncation is
/// off; otherwise at most the truncation length, counted from the
/// repository anchor when one applies.
pub open spec fn spec_tail_count(total: nat, anchor: Option<nat>, config: TruncationConfig) -> nat {
    if config.truncation_length == 0 {
        total
    } else {
        let base = match anchor {
            Some(k) => if config.truncate_to_repo {
                if k < total {
                    k
                } else {
                    total
                }
            } else {
                total
            },
            None => total,
        };
        if base < config.truncation_length as nat {
            base
        } else {
            config.truncation_length as nat
        }
    }
}

/// Every prefix segment contracted for fish-style display.
pub open spec fn spec_contract_prefix(parts: Seq<Seq<char>>, n: nat) -> Seq<Seq<char>> {
    parts.map_values(|p: Seq<char>| spec_contract_segment(p, n))
}

/// The displayed form of the substituted, home-abbreviated path `s`: an
/// empty path shows as the filesystem root; otherwise the retained tail
/// segments, preceded by the contracted prefix segments when fish-style
/// contraction is configured and a prefix was discarded.
pub open spec fn spec_display_path(
    s: Seq<char>,
    anchor: Option<nat>,
    config: TruncationConfig,
) -> Seq<char> {
    if s.len() == 0 {
        seq!['/']
    } else {
        let parts = spec_split(s, '/');
        let t = spec_tail_count(parts.len(), anchor, config);
        let tail = parts.skip(parts.len() - t);
        let pre = parts.take(parts.len() - t);
        match config.fish_style_length {
            Some(n) => if pre.len() > 0 {
                spec_join(spec_contract_prefix(pre, n as nat) + tail, '/')
            } else {
                spec_join(tail, '/')
            },
            None => spec_join(tail, '/'),
        }
    }
}

/// The full rendered text: the configured prefix, the displayed path, and
/// a trailing space.
pub open spec fn spec_render(
    raw: Seq<char>,
    home: Option<Seq<char>>,
    repo: RepoInfo,
    rules: Seq<SubstitutionRule>,
    config: TruncationConfig,
) -> Seq<char> {
    let s = spec_contract_home(spec_substitute(raw, rules), home);
    config.prefix@ + spec_display_path(s, spec_anchor_len(raw, repo), config) + seq![' ']
}

/// Renders the working-directory path for display: substitutions first, on
/// the full string; then home abbreviation; then truncation, anchored at
/// the repository root when configured and located; then fish-style
/// contraction of the discarded prefix; joined and framed by the
/// configured prefix and a trailing space.
#[verifier::rlimit(60)]
pub fn render(
    raw_path: &str,
    home: &Option<String>,
    repo: &RepoInfo,
    substitutions: &Vec<SubstitutionRule>,
    config: &TruncationConfig,
) -> (r: String)
    ensures
        r@ == spec_render(raw_path@, spec_home_view(*home), *repo, substitutions@, *config),
{
    let raw = chars_of(raw_path);
    let substituted = substitute_chars(&raw, substitutions);
    // home abbreviation, on the substituted string
    let contracted: Vec<char> = match home {
        Some(h) => {
            let hc = chars_of(h.as_str());
            let mut under: bool = false;
            if hc.len() > 0 {
                if substituted.len() == hc.len() {
                    under = chars_eq(&substituted, &hc);
                } else if substituted.len() > hc.len() {
                    let pref = subrange_chars(&substituted, 0, hc.len());
                    if chars_eq(&pref, &hc) {
                        under = substituted[hc.len()] == '/';
                    }
                    proof {
                        assert(substituted@.subrange(0, hc@.len() as int) =~= substituted@.take(
                            hc@.len() as int,
                        ));
                    }
                }
            }
            proof {
                assert(under == spec_under_home(substituted@, hc@));
            }
            if under {
                let mut v: Vec<char> = Vec::new();
                v.push('~');
                let rest = subrange_chars(&substituted, hc.len(), substituted.len());
                append_chars(&mut v, &rest);
                proof {
                    assert(substituted@.subrange(hc@.len() as int, substituted@.len() as int)
                        =~= substituted@.skip(hc@.len() as int));
                    assert(v@ =~= seq!['~'] + substituted@.skip(hc@.len() as int));
                }
                v
            } else {
                substituted
            }
        },
        None => substituted,
    };
    let ghost s = spec_substitute(raw_path@, substitutions@);
    let ghost shown = spec_contract_home(s, spec_home_view(*home));
    proof {
        assert(contracted@ == shown);
    }
    // repository anchoring, measured on the raw path
    let mut has_anchor: bool = false;
    let mut rel_count: usize = 0;
    if repo.found {
        let root = chars_of(repo.root.as_str());
        if chars_eq(&raw, &root) {
            has_anchor = true;
        } else if raw.len() > root.len() {
            let pref = subrange_chars(&raw, 0, root.len());
            proof {
                assert(raw@.subrange(0, root@.len() as int) =~= raw@.take(root@.len() as int));
            }
            if chars_eq(&pref, &root) {
                if raw[root.len()] == '/' {
                    let rel = subrange_chars(&raw, root.len() + 1, raw.len());
                    proof {
                        assert(rel@ =~= raw@.skip(root@.len() as int + 1));
                    }
                    let rel_parts = split_chars(&rel, '/');
                    has_anchor = true;
                    rel_count = rel_parts.len();
                }
            }
        }
    }
    let ghost anchor = spec_anchor_len(raw_path@, *repo);
    proof {
        if has_anchor {
            assert(anchor == Some((rel_count + 1) as nat));
        } else {
            assert(anchor is None);
        }
    }
    let mut result: String = config.prefix.clone();
    if contracted.len() == 0 {
        result.append("/");
        proof {
            reveal_strlit("/");
            assert("/"@ =~= seq!['/']);
        }
    } else {
        let parts = split_chars(&contracted, '/');
        let total = parts.len();
        let ghost pv = parts.deep_view();
        proof {
            assert(pv.len() == total);
        }
        let t: usize = if config.truncation_length == 0 {
            total
        } else {
            let base: usize = if config.truncate_to_repo && has_anchor {
                if rel_count < total {
                    rel_count + 1
                } else {
                    total
                }
            } else {
                total
            };
            if base < config.truncation_length {
                base
            } else {
                config.truncation_length
            }
        };
        proof {
            assert(t as nat == spec_tail_count(pv.len() as nat, anchor, *config));
            assert(t <= total);
        }
        let start = total - t;
        let mut out: Vec<Vec<char>> = Vec::new();
        let mut fish_prefix: bool = false;
        match config.fish_style_length {
            Some(n) => {
                if start > 0 {
                    fish_prefix = true;
                    let mut i: usize = 0;
                    while i < start
                        invariant
                            i <= start <= total,
                            total == parts@.len(),
                            out.deep_view().len() == i,
                            forall|k: int|
                                0 <= k < i ==> out.deep_view()[k] == spec_contract_segment(
                                    parts.deep_view()[k],
                                    n as nat,
                                ),
                        decreases start - i,
                    {
                        let seg = contract_segment(&parts[i], n);
                        let ghost prev_dv = out.deep_view();
                        let ghost prev_vec = out@;
                        let ghost segv = seg@;
                        out.push(seg);
                        i = i + 1;
                        proof {
                            assert(out@ == prev_vec.push(out@[i - 1]));
                            assert forall|k: int|
                                0 <= k < i implies out.deep_view()[k] == spec_contract_segment(
                                parts.deep_view()[k],
                                n as nat,
                            ) by {
                                assert(parts.deep_view()[k] =~= parts@[k]@);
                                if k < i - 1 {
                                    assert(out@[k] == prev_vec[k]);
                                    assert(out.deep_view()[k] == prev_dv[k]);
                                } else {
                                    assert(out@[k]@ == segv);
                                    assert(out.deep_view()[k] =~= out@[k]@);
                                }
                            }
                        }
                    }
                }
            },
            None => {},
        }
        let ghost base_len = out.deep_view().len();
        let ghost out0 = out.deep_view();
        let mut i: usize = start;
        while i < total
            invariant
                start <= i <= total,
                total == parts@.len(),
                base_len == out0.len(),
                base_len + i - start == out.deep_view().len(),
                out.deep_view().take(base_len as int) =~~= out0,
                forall|k: int|
                    base_len <= k < out.deep_view().len() ==> out.deep_view()[k]
                        == parts.deep_view()[start + k - base_len],
            decreases total - i,
        {
            let seg = crate::text::copy_chars(&parts[i]);
            let ghost prev_dv = out.deep_view();
            let ghost prev_vec = out@;
            let ghost segv = seg@;
            out.push(seg);
            i = i + 1;
            proof {
                let m = out.deep_view().len();
                assert(out@ == prev_vec.push(out@[m - 1]));
                assert(parts.deep_view()[i - 1] =~= parts@[i - 1]@);
                assert forall|k: int|
                    base_len <= k < m implies out.deep_view()[k] == parts.deep_view()[start + k
                    - base_len] by {
                    if k < m - 1 {
                        assert(out@[k] == prev_vec[k]);
                        assert(out.deep_view()[k] == prev_dv[k]);
                        assert(prev_dv[k] == parts.deep_view()[start + k - base_len]);
                    } else {
                        assert(out@[k]@ == segv);
                        assert(out.deep_view()[k] =~= out@[k]@);
                        assert(start + k - base_len == i - 1);
                        assert(segv == parts@[i - 1]@);
                    }
                }
                assert(out.deep_view().take(base_len as int) =~~= out0);
            }
        }
        let joined = join_chars(&out, '/');
        proof {
            let tail = pv.skip(pv.len() - t);
            let pre = pv.take(pv.len() - t);
            assert(pre.len() == start);
            assert(tail.len() == t);
            if fish_prefix {
                let n = config.fish_style_length.unwrap();
                let cp = spec_contract_prefix(pre, n as nat);
                assert(base_len == start);
                assert(out.deep_view().len() == cp.len() + tail.len());
                assert forall|k: int| 0 <= k < out.deep_view().len() implies out.deep_view()[k]
                    == (cp + tail)[k] by {
                    if k < base_len {
                        assert(out.deep_view().take(base_len as int)[k] == out.deep_view()[k]);
                        assert(out0[k] == spec_contract_segment(pv[k], n as nat));
                        assert(pre[k] == pv[k]);
                        assert(cp[k] == spec_contract_segment(pre[k], n as nat));
                    } else {
                        assert(out.deep_view()[k] == pv[start + k - base_len]);
                        assert(tail[k - start] == pv[k]);
                    }
                }
                assert(out.deep_view() =~~= cp + tail);
            } else {
                assert(base_len == 0);
                assert(out.deep_view().len() == tail.len());
                assert forall|k: int| 0 <= k < out.deep_view().len() implies out.deep_view()[k]
                    == tail[k] by {
                    assert(out.deep_view()[k] == pv[start + k]);
                    assert(tail[k] == pv[k + start]);
                }
                assert(out.deep_view() =~~= tail);
                match config.fish_style_length {
                    Some(_) => {
                        assert(start == 0);
                        assert(pre.len() == 0);
                    },
                    None => {},
                }
            }
            assert(joined@ == spec_display_path(shown, anchor, *config));
        }
        let body = string_of(&joined);
        result.append(body.as_str());
    }
    result.append(" ");
    proof {
        reveal_strlit(" ");
        assert(" "@ =~= seq![' ']);
        assert(result@ =~= spec_render(
            raw_path@,
            spec_home_view(*home),
            *repo,
            substitutions@,
            *config,
        ));
    }
    result
}

/// Renders with the context's home directory and its memoized repository
/// lookup; a lookup never performed behaves as "not found".
pub fn render_in_context(
    context: &crate::context::WorkingContext,
    raw_path: &str,
    substitutions: &Vec<SubstitutionRule>,
    config: &TruncationConfig,
) -> (r: String)
    ensures
        match context.repo_memo {
            Some(m) => r@ == spec_render(
                raw_path@,
                spec_home_view(context.home),
                m,
                substitutions@,
                *config,
            ),
            None => r@ == config.prefix@ + spec_display_path(
                spec_contract_home(
                    spec_substitute(raw_path@, substitutions@),
                    spec_home_view(context.home),
                ),
                None,
                *config,
            ) + seq![' '],
        },
{
    let not_found = RepoInfo { found: false, root: String::new() };
    let repo = match &context.repo_memo {
        Some(m) => m,
        None => &not_found,
    };
    let r = render(raw_path, &context.home, repo, substitutions, config);
    proof {
        match context.repo_memo {
            Some(_) => {},
            None => {
                assert(spec_anchor_len(raw_path@, not_found) is None);
            },
        }
    }
    r
}

/// The retained tail never exceeds the segment count.
pub proof fn lemma_tail_count_le(total: nat, anchor: Option<nat>, config: TruncationConfig)
    ensures
        spec_tail_count(total, anchor, config) <= total,
{
}

/// A path that does not lie under the home directory renders without a
/// home marker, provided neither the substituted path itself nor the
/// configured prefix contains one.
pub proof fn lemma_no_home_marker(
    raw: Seq<char>,
    home: Option<Seq<char>>,
    repo: RepoInfo,
    rules: Seq<SubstitutionRule>,
    config: TruncationConfig,
)
    requires
        match home {
            Some(h) => !spec_under_home(spec_substitute(raw, rules), h),
            None => true,
        },
        !crate::text::spec_contains_char(spec_substitute(raw, rules), '~'),
        !crate::text::spec_contains_char(config.prefix@, '~'),
    ensures
        !crate::text::spec_contains_char(
            spec_render(raw, home, repo, rules, config),
            '~',
        ),
{
    let s = spec_substitute(raw, rules);
    let shown = spec_contract_home(s, home);
    assert(shown == s);
    let anchor = spec_anchor_len(raw, repo);
    let disp = spec_display_path(s, anchor, config);
    assert(!crate::text::spec_contains_char(disp, '~')) by {
        if s.len() == 0 {
            if crate::text::spec_contains_char(seq!['/'], '~') {
                let w = choose|w: int| 0 <= w < 1 && seq!['/'][w] == '~';
            }
        } else {
            let parts = spec_split(s, '/');
            let t = spec_tail_count(parts.len(), anchor, config);
            lemma_tail_count_le(parts.len() as nat, anchor, config);
            let tail = parts.skip(parts.len() - t);
            let pre = parts.take(parts.len() - t);
            crate::segments::lemma_split_no_char(s, '/', '~');
            assert(forall|k: int|
                0 <= k < tail.len() ==> !crate::text::spec_contains_char(#[trigger] tail[k], '~'));
            assert(forall|k: int|
                0 <= k < pre.len() ==> !crate::text::spec_contains_char(#[trigger] pre[k], '~'));
            match config.fish_style_length {
                Some(n) => {
                    if pre.len() > 0 {
                        let cp = spec_contract_prefix(pre, n as nat);
                        assert(forall|k: int|
                            0 <= k < cp.len() ==> !crate::text::spec_contains_char(
                                #[trigger] cp[k],
                                '~',
                            )) by {
                            assert forall|k: int|
                                0 <= k < cp.len() implies !crate::text::spec_contains_char(
                                cp[k],
                                '~',
                            ) by {
                                assert(cp[k] == spec_contract_segment(pre[k], n as nat));
                                crate::segments::lemma_contract_segment_no_char(
                                    pre[k],
                                    n as nat,
                                    '~',
                                );
                            }
                        }
                        assert(forall|k: int|
                            0 <= k < (cp + tail).len() ==> !crate::text::spec_contains_char(
                                #[trigger] (cp + tail)[k],
                                '~',
                            ));
                        crate::segments::lemma_join_no_char(cp + tail, '/', '~');
                    } else {
                        crate::segments::lemma_join_no_char(tail, '/', '~');
                    }
                },
                None => {
                    crate::segments::lemma_join_no_char(tail, '/', '~');
                },
            }
        }
    }
    crate::text::lemma_contains_concat(config.prefix@, disp, '~');
    crate::text::lemma_contains_concat(config.prefix@ + disp, seq![' '], '~');
    assert(!crate::text::spec_contains_char(seq![' '], '~')) by {
        if crate::text::spec_contains_char(seq![' '], '~') {
            let w = choose|w: int| 0 <= w < 1 && seq![' '][w] == '~';
        }
    }
}

/// With truncation off, rendering shows the complete substituted,
/// home-abbreviated path, whatever the fish-style setting and whatever
/// repository was found.
pub proof fn lemma_unlimited_shows_all(
    raw: Seq<char>,
    home: Option<Seq<char>>,
    repo: RepoInfo,
    rules: Seq<SubstitutionRule>,
    config: TruncationConfig,
)
    requires
        config.truncation_length == 0,
        spec_contract_home(spec_substitute(raw, rules), home).len() > 0,
    ensures
        spec_render(raw, home, repo, rules, config) == config.prefix@ + spec_contract_home(
            spec_substitute(raw, rules),
            home,
        ) + seq![' '],
{
    let shown = spec_contract_home(spec_substitute(raw, rules), home);
    let anchor = spec_anchor_len(raw, repo);
    let parts = spec_split(shown, '/');
    let t = spec_tail_count(parts.len(), anchor, config);
    assert(t == parts.len());
    assert(parts.skip(0) =~= parts);
    assert(parts.take(0) =~= Seq::<Seq<char>>::empty());
    crate::segments::lemma_join_split(shown, '/');
    assert(spec_display_path(shown, anchor, config) == shown);
}

/// With truncation on, exactly `min(segment_count, truncation_length)`
/// trailing segments are retained, where the segment count is that of the
/// repository-anchored list when anchoring applies and of the full list
/// otherwise.
pub proof fn lemma_truncation_keeps_min(
    total: nat,
    anchor: Option<nat>,
    config: TruncationConfig,
)
    requires
        config.truncation_length > 0,
    ensures
        ({
            let segment_count = match anchor {
                Some(k) => if config.truncate_to_repo {
                    if k < total {
                        k
                    } else {
                        total
                    }
                } else {
                    total
                },
                None => total,
            };
            spec_tail_count(total, anchor, config) == if segment_count
                < config.truncation_length as nat {
                segment_count
            } else {
                config.truncation_length as nat
            }
        }),
{
}

/// Under repository anchoring, the anchored segment list — the trailing
/// segments counted from the repository root — begins with the repository
/// root's own name, however deep the root sits in the full path.
pub proof fn lemma_repo_anchor_first_segment(raw: Seq<char>, repo: RepoInfo)
    requires
        repo.found,
        raw.len() > repo.root@.len(),
        raw.take(repo.root@.len() as int) == repo.root@,
        raw[repo.root@.len() as int] == '/',
    ensures
        spec_anchor_len(raw, repo) is Some,
        ({
            let parts = spec_split(raw, '/');
            let k = spec_anchor_len(raw, repo).unwrap();
            let rel = raw.skip(repo.root@.len() as int + 1);
            k <= parts.len() && parts.skip(parts.len() - k) == seq![
                spec_split(repo.root@, '/').last(),
            ] + spec_split(rel, '/')
        }),
{
    let root = repo.root@;
    let rel = raw.skip(root.len() as int + 1);
    assert(raw =~= root + seq!['/'] + rel);
    crate::segments::lemma_split_concat(root, rel, '/');
    let parts = spec_split(raw, '/');
    let rp = spec_split(root, '/');
    let sp = spec_split(rel, '/');
    crate::segments::lemma_split_len(root, '/');
    crate::segments::lemma_split_len(rel, '/');
    let k = (sp.len() + 1) as int;
    assert(spec_anchor_len(raw, repo) == Some(k as nat));
    assert(parts.len() == rp.len() + sp.len());
    assert(parts.skip(parts.len() - k) =~~= seq![rp.last()] + sp) by {
        assert(parts.len() - k == rp.len() - 1);
        assert(forall|i: int| 0 <= i < rp.len() ==> parts[i] == rp[i]);
        assert(forall|i: int| 0 <= i < sp.len() ==> parts[rp.len() + i] == sp[i]);
    }
}

/// Fish-style contraction rewrites only the discarded prefix segments:
/// every retained tail segment appears verbatim in the displayed list,
/// each contracted segment is a prefix of its original, and a contracted
/// hidden-directory segment keeps its leading dot.
pub proof fn lemma_fish_preserves_tail(s: Seq<char>, anchor: Option<nat>, config: TruncationConfig)
    requires
        s.len() > 0,
        config.fish_style_length is Some,
    ensures
        ({
            let parts = spec_split(s, '/');
            let t = spec_tail_count(parts.len(), anchor, config);
            let tail = parts.skip(parts.len() - t);
            let pre = parts.take(parts.len() - t);
            let n = config.fish_style_length.unwrap() as nat;
            let cp = spec_contract_prefix(pre, n);
            pre.len() > 0 ==> {
                &&& spec_display_path(s, anchor, config) == spec_join(cp + tail, '/')
                &&& forall|k: int|
                    pre.len() <= k < pre.len() + tail.len() ==> (cp + tail)[k] == parts[k]
                &&& forall|k: int|
                    0 <= k < pre.len() ==> (#[trigger] cp[k]).len() <= pre[k].len() && (forall|
                        j: int,
                    |
                        0 <= j < cp[k].len() ==> cp[k][j] == pre[k][j]) && (pre[k].len() > 0
                        && pre[k][0] == '.' ==> cp[k].len() > 0 && cp[k][0] == '.')
            }
        }),
{
    let parts = spec_split(s, '/');
    let t = spec_tail_count(parts.len(), anchor, config);
    lemma_tail_count_le(parts.len() as nat, anchor, config);
    let tail = parts.skip(parts.len() - t);
    let pre = parts.take(parts.len() - t);
    let n = config.fish_style_length.unwrap() as nat;
    let cp = spec_contract_prefix(pre, n);
    if pre.len() > 0 {
        assert(forall|k: int|
            pre.len() <= k < pre.len() + tail.len() ==> (cp + tail)[k] == tail[k - pre.len()]);
        assert(forall|k: int|
            pre.len() <= k < pre.len() + tail.len() ==> tail[k - pre.len()] == parts[k]);
        assert forall|k: int| 0 <= k < pre.len() implies (#[trigger] cp[k]).len() <= pre[k].len()
            && (forall|j: int| 0 <= j < cp[k].len() ==> cp[k][j] == pre[k][j]) && (pre[k].len() > 0
            && pre[k][0] == '.' ==> cp[k].len() > 0 && cp[k][0] == '.') by {
            assert(cp[k] == spec_contract_segment(pre[k], n));
            crate::segments::lemma_contract_segment_prefix(pre[k], n);
        }
    }
}

} // verus!
