//! Literal substring substitution, applied to the full path string before
//! any segmentation: each rule rewrites every occurrence of its pattern in
//! a single left-to-right pass, and rules apply in declaration order.

use vstd::prelude::*;
use crate::text::chars_of;

verus! {

/// An ordered rewrite of one literal substring to another.
pub struct SubstitutionRule {
    pub pattern: String,
    pub replacement: String,
}

/// One left-to-right pass replacing every non-overlapping occurrence of
/// `pat` in `s` by `rep`; replacement text is never scanned again.
/// An empty pattern rewrites nothing.
pub open spec fn spec_replace(s: Seq<char>, pat: Seq<char>, rep: Seq<char>) -> Seq<char>
    decreases s.len(),
{
    if pat.len() == 0 || s.len() < pat.len() {
        s
    } else if s.subrange(0, pat.len() as int) == pat {
        rep + spec_replace(s.skip(pat.len() as int), pat, rep)
    } else {
        seq![s[0]] + spec_replace(s.drop_first(), pat, rep)
    }
}

/// All rules applied to `s`, first rule first; each later rule sees the
/// output of the one before it.
pub open spec fn spec_substitute(s: Seq<char>, rules: Seq<SubstitutionRule>) -> Seq<char>
    decreases rules.len(),
{
    if rules.len() == 0 {
        s
    } else {
        spec_substitute(spec_replace(s, rules[0].pattern@, rules[0].replacement@), rules.drop_first())
    }
}

/// Whether `pat` occurs in `s` as a contiguous substring.
pub open spec fn spec_occurs(s: Seq<char>, pat: Seq<char>) -> bool {
    exists|i: int| 0 <= i <= s.len() - pat.len() && #[trigger] s.subrange(i, i + pat.len()) == pat
}

/// A string free of the pattern passes through a substitution unchanged.
pub proof fn lemma_replace_absent(s: Seq<char>, pat: Seq<char>, rep: Seq<char>)
    requires
        !spec_occurs(s, pat),
    ensures
        spec_replace(s, pat, rep) == s,
    decreases s.len(),
{
    if pat.len() == 0 || s.len() < pat.len() {
    } else {
        assert(s.subrange(0, pat.len() as int) != pat) by {
            if s.subrange(0, pat.len() as int) == pat {
                assert(s.subrange(0, 0 + pat.len() as int) == pat);
            }
        }
        let d = s.drop_first();
        assert(!spec_occurs(d, pat)) by {
            if spec_occurs(d, pat) {
                let i = choose|i: int|
                    0 <= i <= d.len() - pat.len() && #[trigger] d.subrange(i, i + pat.len())
                        == pat;
                assert(s.subrange(i + 1, i + 1 + pat.len()) =~= d.subrange(i, i + pat.len()));
            }
        }
        lemma_replace_absent(d, pat, rep);
        assert(seq![s[0]] + d =~= s);
    }
}

/// An occurrence at the head is rewritten once, and scanning resumes after
/// the inserted replacement: no rule is re-applied to its own output.
pub proof fn lemma_replace_head(y: Seq<char>, pat: Seq<char>, rep: Seq<char>)
    requires
        pat.len() > 0,
    ensures
        spec_replace(pat + y, pat, rep) == rep + spec_replace(y, pat, rep),
{
    let s = pat + y;
    assert(s.subrange(0, pat.len() as int) =~= pat);
    assert(s.skip(pat.len() as int) =~= y);
}

/// Replaces every occurrence of `pat` in `s` by `rep`, left to right.
pub fn replace_chars(s: &Vec<char>, pat: &Vec<char>, rep: &Vec<char>) -> (r: Vec<char>)
    ensures
        r@ == spec_replace(s@, pat@, rep@),
{
    if pat.len() == 0 {
        return crate::text::copy_chars(s);
    }
    let mut r: Vec<char> = Vec::new();
    let mut i: usize = 0;
    proof {
        assert(s@.skip(0) =~= s@);
    }
    while i < s.len()
        invariant
            i <= s.len(),
            pat@.len() > 0,
            spec_replace(s@, pat@, rep@) == r@ + spec_replace(s@.skip(i as int), pat@, rep@),
        decreases s.len() - i,
    {
        let ghost rest = s@.skip(i as int);
        let mut here: bool = false;
        if pat.len() <= s.len() - i {
            // compare s[i .. i + pat.len()] with pat
            let mut k: usize = 0;
            let mut same: bool = true;
            while k < pat.len()
                invariant
                    k <= pat.len(),
                    i + pat@.len() <= s@.len() <= usize::MAX,
                    same == (s@.subrange(i as int, i + k) =~= pat@.subrange(0, k as int)),
                decreases pat.len() - k,
            {
                if s[i + k] != pat[k] {
                    same = false;
                    proof {
                        assert(s@.subrange(i as int, i + k + 1)[k as int] != pat@.subrange(
                            0,
                            k as int + 1,
                        )[k as int]);
                    }
                } else {
                    proof {
                        if same {
                            assert(s@.subrange(i as int, i + k + 1) =~= pat@.subrange(
                                0,
                                k as int + 1,
                            ));
                        } else {
                            let w = choose|w: int|
                                0 <= w < k && s@.subrange(i as int, i + k)[w] != pat@.subrange(
                                    0,
                                    k as int,
                                )[w];
                            assert(s@.subrange(i as int, i + k + 1)[w] != pat@.subrange(
                                0,
                                k as int + 1,
                            )[w]);
                        }
                    }
                }
                k = k + 1;
            }
            here = same;
            proof {
                assert(pat@.subrange(0, pat@.len() as int) =~= pat@);
                assert(rest.subrange(0, pat@.len() as int) =~= s@.subrange(
                    i as int,
                    i + pat@.len(),
                ));
            }
        } else {
            proof {
                assert(rest.len() < pat@.len());
            }
        }
        if here {
            let ghost r0 = r@;
            let mut j: usize = 0;
            while j < rep.len()
                invariant
                    j <= rep.len(),
                    r@ == r0 + rep@.subrange(0, j as int),
                decreases rep.len() - j,
            {
                r.push(rep[j]);
                j = j + 1;
                proof {
                    assert(r@ =~= r0 + rep@.subrange(0, j as int));
                }
            }
            proof {
                assert(rep@.subrange(0, rep@.len() as int) =~= rep@);
                assert(rest.skip(pat@.len() as int) =~= s@.skip(i + pat@.len()));
                assert(spec_replace(rest, pat@, rep@) == rep@ + spec_replace(
                    s@.skip(i + pat@.len()),
                    pat@,
                    rep@,
                ));
                assert(r0 + (rep@ + spec_replace(s@.skip(i + pat@.len()), pat@, rep@)) =~= (r0
                    + rep@) + spec_replace(s@.skip(i + pat@.len()), pat@, rep@));
            }
            i = i + pat.len();
        } else {
            proof {
                assert(rest[0] == s@[i as int]);
                if rest.len() >= pat@.len() {
                    assert(rest.subrange(0, pat@.len() as int) != pat@);
                }
                assert(rest.drop_first() =~= s@.skip(i as int + 1));
                assert(spec_replace(rest, pat@, rep@) == seq![s@[i as int]] + spec_replace(
                    s@.skip(i as int + 1),
                    pat@,
                    rep@,
                ));
                assert(r@ + (seq![s@[i as int]] + spec_replace(s@.skip(i as int + 1), pat@, rep@))
                    =~= r@.push(s@[i as int]) + spec_replace(s@.skip(i as int + 1), pat@, rep@));
            }
            r.push(s[i]);
            i = i + 1;
        }
    }
    proof {
        let rest = s@.skip(i as int);
        assert(rest =~= Seq::<char>::empty());
        assert(spec_replace(rest, pat@, rep@) == rest);
        assert(r@ + rest =~= r@);
    }
    r
}

/// Applies every substitution rule to `s`, in declaration order.
pub fn substitute_chars(s: &Vec<char>, rules: &Vec<SubstitutionRule>) -> (r: Vec<char>)
    ensures
        r@ == spec_substitute(s@, rules@),
{
    let mut cur = crate::text::copy_chars(s);
    let mut k: usize = 0;
    proof {
        assert(rules@.skip(0) =~= rules@);
    }
    while k < rules.len()
        invariant
            k <= rules.len(),
            spec_substitute(s@, rules@) == spec_substitute(cur@, rules@.skip(k as int)),
        decreases rules.len() - k,
    {
        let pat = chars_of(rules[k].pattern.as_str());
        let rep = chars_of(rules[k].replacement.as_str());
        let next = replace_chars(&cur, &pat, &rep);
        proof {
            let tail = rules@.skip(k as int);
            assert(tail[0] == rules@[k as int]);
            assert(tail.drop_first() =~= rules@.skip(k as int + 1));
        }
        cur = next;
        k = k + 1;
    }
    proof {
        assert(rules@.skip(k as int) =~= Seq::<SubstitutionRule>::empty());
    }
    cur
}

} // verus!
