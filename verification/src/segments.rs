//! Path segmentation: splitting a path on the separator, joining segments
//! back, and fish-style contraction of a single segment.

use vstd::prelude::*;
use crate::text::copy_chars;

verus! {

/// Index of the first occurrence of `c` in `s`, or -1 if absent.
pub open spec fn spec_find(s: Seq<char>, c: char) -> int
    decreases s.len(),
{
    if s.len() == 0 {
        -1
    } else if s[0] == c {
        0
    } else if spec_find(s.drop_first(), c) == -1 {
        -1
    } else {
        spec_find(s.drop_first(), c) + 1
    }
}

pub proof fn lemma_find_props(s: Seq<char>, c: char)
    ensures
        spec_find(s, c) == -1 ==> (forall|k: int| 0 <= k < s.len() ==> s[k] != c),
        spec_find(s, c) != -1 ==> 0 <= spec_find(s, c) < s.len() && s[spec_find(s, c)] == c && (
        forall|k: int| 0 <= k < spec_find(s, c) ==> s[k] != c),
    decreases s.len(),
{
    if s.len() > 0 && s[0] != c {
        lemma_find_props(s.drop_first(), c);
        let d = s.drop_first();
        assert(forall|k: int| 1 <= k < s.len() ==> s[k] == d[k - 1]);
    }
}

/// The segments of `s` delimited by `sep`; splitting never drops empty
/// segments, so joining the result with `sep` restores `s` exactly.
pub open spec fn spec_split(s: Seq<char>, sep: char) -> Seq<Seq<char>>
    decreases s.len(),
{
    let i = spec_find(s, sep);
    if 0 <= i < s.len() {
        seq![s.subrange(0, i)] + spec_split(s.skip(i + 1), sep)
    } else {
        seq![s]
    }
}

/// The segments interleaved with the separator, in order.
pub open spec fn spec_join(parts: Seq<Seq<char>>, sep: char) -> Seq<char>
    decreases parts.len(),
{
    if parts.len() == 0 {
        Seq::empty()
    } else if parts.len() == 1 {
        parts[0]
    } else {
        parts[0] + seq![sep] + spec_join(parts.drop_first(), sep)
    }
}

pub proof fn lemma_split_len(s: Seq<char>, sep: char)
    ensures
        1 <= spec_split(s, sep).len() <= s.len() + 1,
    decreases s.len(),
{
    let i = spec_find(s, sep);
    if 0 <= i < s.len() {
        lemma_split_len(s.skip(i + 1), sep);
    }
}

/// Joining the segments of `s` restores `s`: segmentation loses nothing.
pub proof fn lemma_join_split(s: Seq<char>, sep: char)
    ensures
        spec_join(spec_split(s, sep), sep) == s,
    decreases s.len(),
{
    let i = spec_find(s, sep);
    lemma_find_props(s, sep);
    if 0 <= i < s.len() {
        let rest = s.skip(i + 1);
        lemma_join_split(rest, sep);
        lemma_split_len(rest, sep);
        let parts = seq![s.subrange(0, i)] + spec_split(rest, sep);
        assert(parts.drop_first() =~= spec_split(rest, sep));
        assert(parts[0] + seq![sep] + spec_join(spec_split(rest, sep), sep) =~= s);
    }
}

/// Splitting at a leading separator yields a leading empty segment.
pub proof fn lemma_split_head_sep(s: Seq<char>, sep: char)
    requires
        s.len() > 0,
        s[0] == sep,
    ensures
        spec_split(s, sep) == seq![Seq::<char>::empty()] + spec_split(s.drop_first(), sep),
{
    assert(spec_find(s, sep) == 0);
    assert(s.subrange(0, 0) =~= Seq::<char>::empty());
    assert(s.skip(1) =~= s.drop_first());
}

/// A leading non-separator character lands in the first segment.
pub proof fn lemma_split_head_cons(s: Seq<char>, sep: char)
    requires
        s.len() > 0,
        s[0] != sep,
    ensures
        spec_split(s.drop_first(), sep).len() >= 1,
        spec_split(s, sep) == seq![seq![s[0]] + spec_split(s.drop_first(), sep)[0]]
            + spec_split(s.drop_first(), sep).drop_first(),
{
    let d = s.drop_first();
    lemma_split_len(d, sep);
    lemma_find_props(s, sep);
    lemma_find_props(d, sep);
    let i = spec_find(s, sep);
    let j = spec_find(d, sep);
    if j == -1 {
        assert(i == -1);
        assert(spec_split(s, sep) =~~= seq![seq![s[0]] + spec_split(d, sep)[0]] + spec_split(
            d,
            sep,
        ).drop_first()) by {
            assert(spec_split(s, sep) == seq![s]);
            assert(spec_split(d, sep) == seq![d]);
            assert(seq![s[0]] + d =~= s);
        }
    } else {
        assert(i == j + 1);
        assert(0 <= i < s.len());
        let sp_s = seq![s.subrange(0, i)] + spec_split(s.skip(i + 1), sep);
        let sp_d = seq![d.subrange(0, j)] + spec_split(d.skip(j + 1), sep);
        assert(spec_split(s, sep) == sp_s);
        assert(spec_split(d, sep) == sp_d);
        assert(s.skip(i + 1) =~= d.skip(j + 1));
        assert(s.subrange(0, i) =~= seq![s[0]] + d.subrange(0, j));
        assert(sp_d[0] == d.subrange(0, j));
        assert(sp_s =~~= seq![seq![s[0]] + sp_d[0]] + sp_d.drop_first());
    }
}

/// Appending one more segment extends the join by a separator and it.
pub proof fn lemma_join_snoc(parts: Seq<Seq<char>>, p: Seq<char>, sep: char)
    requires
        parts.len() >= 1,
    ensures
        spec_join(parts.push(p), sep) == spec_join(parts, sep) + seq![sep] + p,
    decreases parts.len(),
{
    if parts.len() == 1 {
        let both = parts.push(p);
        assert(both.drop_first() =~~= seq![p]);
        assert(spec_join(both.drop_first(), sep) == p);
        assert(both.len() == 2);
        assert(spec_join(both, sep) == both[0] + seq![sep] + p);
        assert(both[0] == parts[0]);
        assert(spec_join(parts, sep) == parts[0]);
    } else {
        lemma_join_snoc(parts.drop_first(), p, sep);
        let both = parts.push(p);
        assert(both.drop_first() =~~= parts.drop_first().push(p));
        assert(spec_join(both, sep) == both[0] + seq![sep] + spec_join(
            both.drop_first(),
            sep,
        ));
        assert(spec_join(parts, sep) + seq![sep] + p =~= parts[0] + seq![sep] + (spec_join(
            parts.drop_first(),
            sep,
        ) + seq![sep] + p));
    }
}

/// If `c` sits at position `i` in `s` and nowhere earlier, the first
/// occurrence of `c` is at `i`.
pub proof fn lemma_find_is(s: Seq<char>, c: char, i: int)
    requires
        0 <= i < s.len(),
        s[i] == c,
        forall|k: int| 0 <= k < i ==> s[k] != c,
    ensures
        spec_find(s, c) == i,
    decreases i,
{
    if i > 0 {
        let d = s.drop_first();
        assert(forall|k: int| 0 <= k < i - 1 ==> d[k] == s[k + 1]);
        lemma_find_is(d, c, i - 1);
    }
}

/// Splitting distributes over a separator between two halves.
pub proof fn lemma_split_concat(x: Seq<char>, y: Seq<char>, sep: char)
    ensures
        spec_split(x + seq![sep] + y, sep) == spec_split(x, sep) + spec_split(y, sep),
    decreases x.len(),
{
    let s = x + seq![sep] + y;
    let j = spec_find(x, sep);
    lemma_find_props(x, sep);
    if j == -1 {
        assert(s[x.len() as int] == sep);
        assert(forall|k: int| 0 <= k < x.len() ==> s[k] == x[k]);
        lemma_find_is(s, sep, x.len() as int);
        assert(spec_split(s, sep) == seq![s.subrange(0, x.len() as int)] + spec_split(
            s.skip(x.len() as int + 1),
            sep,
        ));
        assert(s.subrange(0, x.len() as int) =~= x);
        assert(s.skip(x.len() as int + 1) =~= y);
        assert(spec_split(x, sep) == seq![x]);
        assert(spec_split(s, sep) =~~= spec_split(x, sep) + spec_split(y, sep));
    } else {
        assert(0 <= j < x.len());
        assert(s[j] == x[j]);
        assert(forall|k: int| 0 <= k < j ==> s[k] == x[k]);
        lemma_find_is(s, sep, j);
        let x2 = x.skip(j + 1);
        assert(s.skip(j + 1) =~= x2 + seq![sep] + y);
        lemma_split_concat(x2, y, sep);
        assert(spec_split(s, sep) == seq![s.subrange(0, j)] + spec_split(s.skip(j + 1), sep));
        assert(s.subrange(0, j) =~= x.subrange(0, j));
        assert(spec_split(x, sep) == seq![x.subrange(0, j)] + spec_split(x2, sep));
        assert(spec_split(s, sep) =~~= spec_split(x, sep) + spec_split(y, sep));
    }
}

/// A character absent from `s` is absent from every segment of `s`.
pub proof fn lemma_split_no_char(s: Seq<char>, sep: char, c: char)
    requires
        !crate::text::spec_contains_char(s, c),
    ensures
        forall|k: int|
            0 <= k < spec_split(s, sep).len() ==> !crate::text::spec_contains_char(
                #[trigger] spec_split(s, sep)[k],
                c,
            ),
    decreases s.len(),
{
    let i = spec_find(s, sep);
    if 0 <= i < s.len() {
        let rest = s.skip(i + 1);
        assert(!crate::text::spec_contains_char(rest, c)) by {
            if crate::text::spec_contains_char(rest, c) {
                let w = choose|w: int| 0 <= w < rest.len() && rest[w] == c;
                assert(s[w + i + 1] == c);
            }
        }
        lemma_split_no_char(rest, sep, c);
        assert(!crate::text::spec_contains_char(s.subrange(0, i), c)) by {
            if crate::text::spec_contains_char(s.subrange(0, i), c) {
                let w = choose|w: int| 0 <= w < i && s.subrange(0, i)[w] == c;
                assert(s[w] == c);
            }
        }
        assert(forall|k: int|
            1 <= k < spec_split(s, sep).len() ==> spec_split(s, sep)[k] == spec_split(rest, sep)[k
                - 1]);
    }
}

/// A character other than the separator, absent from every segment, is
/// absent from their join.
pub proof fn lemma_join_no_char(parts: Seq<Seq<char>>, sep: char, c: char)
    requires
        c != sep,
        forall|k: int|
            0 <= k < parts.len() ==> !crate::text::spec_contains_char(#[trigger] parts[k], c),
    ensures
        !crate::text::spec_contains_char(spec_join(parts, sep), c),
    decreases parts.len(),
{
    if parts.len() >= 2 {
        let d = parts.drop_first();
        assert(forall|k: int| 0 <= k < d.len() ==> d[k] == parts[k + 1]);
        lemma_join_no_char(d, sep, c);
        crate::text::lemma_contains_concat(parts[0], seq![sep], c);
        crate::text::lemma_contains_concat(parts[0] + seq![sep], spec_join(d, sep), c);
        assert(!crate::text::spec_contains_char(seq![sep], c)) by {
            if crate::text::spec_contains_char(seq![sep], c) {
                let w = choose|w: int| 0 <= w < 1 && seq![sep][w] == c;
            }
        }
    }
}

/// The contracted form of a segment holds no character its original lacks.
pub proof fn lemma_contract_segment_no_char(s: Seq<char>, n: nat, c: char)
    requires
        !crate::text::spec_contains_char(s, c),
    ensures
        !crate::text::spec_contains_char(spec_contract_segment(s, n), c),
{
    lemma_contract_segment_prefix(s, n);
    if crate::text::spec_contains_char(spec_contract_segment(s, n), c) {
        let w = choose|w: int|
            0 <= w < spec_contract_segment(s, n).len() && spec_contract_segment(s, n)[w] == c;
        assert(s[w] == c);
    }
}

/// Used by `split_chars` to relate the scanned prefix to the remainder.
pub open spec fn spec_cons_head(c: Seq<char>, t: Seq<Seq<char>>) -> Seq<Seq<char>> {
    seq![c + t[0]] + t.drop_first()
}

/// Splits a character vector on `sep`, keeping empty segments.
pub fn split_chars(s: &Vec<char>, sep: char) -> (r: Vec<Vec<char>>)
    ensures
        r.deep_view() == spec_split(s@, sep),
        r@.len() >= 1,
{
    let mut done: Vec<Vec<char>> = Vec::new();
    let mut cur: Vec<char> = Vec::new();
    let mut i: usize = 0;
    proof {
        assert(s@.skip(0) =~= s@);
        lemma_split_len(s@, sep);
        let t = spec_split(s@, sep);
        assert(Seq::<char>::empty() + t[0] =~= t[0]);
        assert(spec_cons_head(Seq::<char>::empty(), t) =~~= t);
        assert(done.deep_view() =~~= Seq::<Seq<char>>::empty());
    }
    while i < s.len()
        invariant
            i <= s.len(),
            spec_split(s@, sep) == done.deep_view() + spec_cons_head(
                cur@,
                spec_split(s@.skip(i as int), sep),
            ),
        decreases s.len() - i,
    {
        let ghost rest = s@.skip(i as int);
        let ghost rest2 = s@.skip(i + 1);
        proof {
            assert(rest.len() > 0);
            assert(rest[0] == s@[i as int]);
            assert(rest.drop_first() =~= rest2);
            lemma_split_len(rest2, sep);
        }
        if s[i] == sep {
            proof {
                lemma_split_head_sep(rest, sep);
                let t2 = spec_split(rest2, sep);
                assert(spec_cons_head(cur@, spec_split(rest, sep)) =~~= seq![cur@] + t2) by {
                    assert(spec_split(rest, sep)[0] == Seq::<char>::empty());
                    assert(cur@ + Seq::<char>::empty() =~= cur@);
                    assert((seq![Seq::<char>::empty()] + t2).drop_first() =~~= t2);
                    assert(Seq::<char>::empty() + t2[0] =~= t2[0]);
                    assert(spec_cons_head(Seq::<char>::empty(), t2) =~~= t2);
                }
            }
            let finished = cur;
            cur = Vec::new();
            done.push(finished);
            proof {
                let t2 = spec_split(rest2, sep);
                assert(done.deep_view() =~~= done.deep_view().subrange(
                    0,
                    done.deep_view().len() - 1,
                ).push(finished@));
                assert(spec_cons_head(Seq::<char>::empty(), t2) =~~= t2);
                assert(spec_split(s@, sep) =~~= done.deep_view() + spec_cons_head(cur@, t2));
            }
        } else {
            proof {
                lemma_split_head_cons(rest, sep);
                let t2 = spec_split(rest2, sep);
                assert(cur@.push(s@[i as int]) + t2[0] =~= cur@ + (seq![s@[i as int]] + t2[0]));
                assert(spec_cons_head(cur@, spec_split(rest, sep)) =~~= spec_cons_head(
                    cur@.push(s@[i as int]),
                    t2,
                ));
            }
            cur.push(s[i]);
        }
        i = i + 1;
    }
    proof {
        let rest = s@.skip(i as int);
        assert(rest =~= Seq::<char>::empty());
        assert(spec_find(rest, sep) == -1);
        assert(spec_split(rest, sep) == seq![rest]);
        assert(cur@ + rest =~= cur@);
        assert(spec_cons_head(cur@, spec_split(rest, sep)) =~~= seq![cur@]);
    }
    done.push(cur);
    proof {
        assert(done.deep_view() =~~= done.deep_view().subrange(
            0,
            done.deep_view().len() - 1,
        ) + seq![done@[done@.len() - 1].deep_view()]);
        assert(done.deep_view() =~~= spec_split(s@, sep));
        lemma_split_len(s@, sep);
    }
    done
}

/// Joins segments with `sep`, the inverse of `split_chars`.
pub fn join_chars(parts: &Vec<Vec<char>>, sep: char) -> (r: Vec<char>)
    ensures
        r@ == spec_join(parts.deep_view(), sep),
{
    if parts.len() == 0 {
        let r: Vec<char> = Vec::new();
        proof {
            assert(parts.deep_view().len() == 0);
        }
        return r;
    }
    let mut r = copy_chars(&parts[0]);
    proof {
        assert(parts.deep_view()[0] == parts@[0].deep_view());
        assert(parts@[0].deep_view() =~= parts@[0]@);
        assert(parts.deep_view().take(1) =~~= seq![parts.deep_view()[0]]);
    }
    let mut k: usize = 1;
    while k < parts.len()
        invariant
            1 <= k <= parts.len(),
            parts.deep_view().len() == parts@.len(),
            r@ == spec_join(parts.deep_view().take(k as int), sep),
        decreases parts.len() - k,
    {
        r.push(sep);
        let ghost base = r@;
        let part = &parts[k];
        let mut j: usize = 0;
        while j < part.len()
            invariant
                j <= part.len(),
                r@ == base + part@.subrange(0, j as int),
            decreases part.len() - j,
        {
            r.push(part[j]);
            j = j + 1;
            proof {
                assert(r@ =~= base + part@.subrange(0, j as int));
            }
        }
        proof {
            let dv = parts.deep_view();
            lemma_join_snoc(dv.take(k as int), dv[k as int], sep);
            assert(dv.take(k + 1) =~~= dv.take(k as int).push(dv[k as int]));
            assert(dv[k as int] == parts@[k as int].deep_view());
            assert(parts@[k as int].deep_view() =~= parts@[k as int]@);
            assert(part@.subrange(0, part@.len() as int) =~= part@);
            assert(r@ =~= spec_join(dv.take(k as int), sep) + seq![sep] + dv[k as int]);
        }
        k = k + 1;
    }
    proof {
        assert(parts.deep_view().take(k as int) =~~= parts.deep_view());
    }
    r
}

/// A segment contracted to its first `n` characters; a hidden-directory
/// segment keeps its leading dot in addition.
pub open spec fn spec_contract_segment(s: Seq<char>, n: nat) -> Seq<char> {
    if s.len() <= n {
        s
    } else if s[0] == '.' {
        s.subrange(0, n as int + 1)
    } else {
        s.subrange(0, n as int)
    }
}

/// Contracts one path segment for fish-style display.
pub fn contract_segment(v: &Vec<char>, n: usize) -> (r: Vec<char>)
    ensures
        r@ == spec_contract_segment(v@, n as nat),
{
    if v.len() <= n {
        return copy_chars(v);
    }
    let lim: usize = if v[0] == '.' {
        n + 1
    } else {
        n
    };
    let mut r: Vec<char> = Vec::new();
    let mut i: usize = 0;
    while i < lim
        invariant
            lim <= v.len(),
            i <= lim,
            r@ == v@.subrange(0, i as int),
        decreases lim - i,
    {
        r.push(v[i]);
        i = i + 1;
        proof {
            assert(r@ =~= v@.subrange(0, i as int));
        }
    }
    r
}

/// The contracted segment is a prefix of the original: contraction never
/// reorders or invents characters, and a leading dot survives it.
pub proof fn lemma_contract_segment_prefix(s: Seq<char>, n: nat)
    ensures
        spec_contract_segment(s, n).len() <= s.len(),
        forall|i: int|
            0 <= i < spec_contract_segment(s, n).len() ==> spec_contract_segment(s, n)[i] == s[i],
        s.len() > 0 && s[0] == '.' ==> spec_contract_segment(s, n).len() > 0
            && spec_contract_segment(s, n)[0] == '.',
{
}

} // verus!
