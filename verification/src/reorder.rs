use vstd::prelude::*;
use vstd::seq_lib::lemma_multiset_commutative;
use crate::text::subvec;

verus! {

/// One past the end of the maximal run of characters at or above level `l`
/// that starts at `i`.
pub open spec fn run_end(levels: Seq<u8>, l: u8, i: int) -> int
    decreases levels.len() - i,
{
    if i < 0 {
        0
    } else if i >= levels.len() {
        levels.len() as int
    } else if levels[i] < l {
        i
    } else {
        run_end(levels, l, i + 1)
    }
}

pub proof fn lemma_run_end(levels: Seq<u8>, l: u8, i: int)
    requires
        0 <= i <= levels.len(),
    ensures
        i <= run_end(levels, l, i) <= levels.len(),
        i < levels.len() && levels[i] >= l ==> run_end(levels, l, i) >= i + 1,
        forall|j: int| i <= j < run_end(levels, l, i) ==> levels[j] >= l,
    decreases levels.len() - i,
{
    if i < levels.len() && levels[i] >= l {
        lemma_run_end(levels, l, i + 1);
    }
}

/// One reversal pass of rule L2 over the characters from position `i` on:
/// each maximal run of characters whose level is `l` or higher is reversed.
pub open spec fn rev_pass(s: Seq<char>, levels: Seq<u8>, l: u8, i: int) -> Seq<char>
    decreases levels.len() - i,
    via rev_pass_dec
{
    if i < 0 || i >= levels.len() {
        Seq::empty()
    } else if levels[i] >= l {
        s.subrange(i, run_end(levels, l, i)).reverse() + rev_pass(
            s,
            levels,
            l,
            run_end(levels, l, i),
        )
    } else {
        seq![s[i]] + rev_pass(s, levels, l, i + 1)
    }
}

#[via_fn]
proof fn rev_pass_dec(s: Seq<char>, levels: Seq<u8>, l: u8, i: int) {
    if 0 <= i < levels.len() && levels[i] >= l {
        lemma_run_end(levels, l, i);
    }
}

/// The highest level in a level array.
pub open spec fn max_level(levels: Seq<u8>) -> u8
    decreases levels.len(),
{
    if levels.len() == 0 {
        0
    } else if levels.last() >= max_level(levels.drop_last()) {
        levels.last()
    } else {
        max_level(levels.drop_last())
    }
}

/// The reversal passes of rule L2 from the highest level down to `l`, applied
/// to `s` in that order.
pub open spec fn vo_down(s: Seq<char>, levels: Seq<u8>, l: int) -> Seq<char>
    decreases max_level(levels) + 1 - l,
{
    if l <= 0 || l > max_level(levels) {
        s
    } else {
        rev_pass(vo_down(s, levels, l + 1), levels, l as u8, 0)
    }
}

/// The visual order of a line: rule L2's reversal passes from the highest
/// level down to level 1.
pub open spec fn reorder_spec(s: Seq<char>, levels: Seq<u8>) -> Seq<char> {
    vo_down(s, levels, 1)
}

pub proof fn lemma_rev_pass_multiset(s: Seq<char>, levels: Seq<u8>, l: u8, i: int)
    requires
        s.len() == levels.len(),
        0 <= i <= levels.len(),
    ensures
        rev_pass(s, levels, l, i).len() == levels.len() - i,
        rev_pass(s, levels, l, i).to_multiset() == s.subrange(i, s.len() as int).to_multiset(),
    decreases levels.len() - i,
{
    let n = levels.len() as int;
    if i >= n {
        assert(s.subrange(i, n) =~= Seq::<char>::empty());
        assert(rev_pass(s, levels, l, i) =~= Seq::<char>::empty());
    } else if levels[i] >= l {
        lemma_run_end(levels, l, i);
        let e = run_end(levels, l, i);
        lemma_rev_pass_multiset(s, levels, l, e);
        let seg = s.subrange(i, e);
        let rest = rev_pass(s, levels, l, e);
        lemma_multiset_commutative(seg.reverse(), rest);
        seg.lemma_reverse_to_multiset();
        assert(s.subrange(i, n) =~= seg + s.subrange(e, n));
        lemma_multiset_commutative(seg, s.subrange(e, n));
    } else {
        lemma_rev_pass_multiset(s, levels, l, i + 1);
        let rest = rev_pass(s, levels, l, i + 1);
        lemma_multiset_commutative(seq![s[i]], rest);
        assert(s.subrange(i, n) =~= seq![s[i]] + s.subrange(i + 1, n));
        lemma_multiset_commutative(seq![s[i]], s.subrange(i + 1, n));
    }
}

pub proof fn lemma_vo_down_multiset(s: Seq<char>, levels: Seq<u8>, l: int)
    requires
        s.len() == levels.len(),
    ensures
        vo_down(s, levels, l).len() == s.len(),
        vo_down(s, levels, l).to_multiset() == s.to_multiset(),
    decreases max_level(levels) + 1 - l,
{
    if l <= 0 || l > max_level(levels) {
    } else {
        lemma_vo_down_multiset(s, levels, l + 1);
        let prev = vo_down(s, levels, l + 1);
        lemma_rev_pass_multiset(prev, levels, l as u8, 0);
        assert(prev.subrange(0, prev.len() as int) =~= prev);
        assert(vo_down(s, levels, l) == rev_pass(prev, levels, l as u8, 0));
    }
}

/// Reordering a line permutes its characters: the multiset and the count of
/// characters are preserved.
pub proof fn lemma_reorder_multiset(s: Seq<char>, levels: Seq<u8>)
    requires
        s.len() == levels.len(),
    ensures
        reorder_spec(s, levels).len() == s.len(),
        reorder_spec(s, levels).to_multiset() == s.to_multiset(),
{
    lemma_vo_down_multiset(s, levels, 1);
}

/// With all levels zero there is no run to reverse: the line is unchanged.
pub proof fn lemma_reorder_identity(s: Seq<char>, levels: Seq<u8>)
    requires
        s.len() == levels.len(),
        forall|j: int| 0 <= j < levels.len() ==> levels[j] == 0,
    ensures
        reorder_spec(s, levels) == s,
{
    lemma_max_level_zero(levels);
}

proof fn lemma_max_level_zero(levels: Seq<u8>)
    requires
        forall|j: int| 0 <= j < levels.len() ==> levels[j] == 0,
    ensures
        max_level(levels) == 0,
    decreases levels.len(),
{
    if levels.len() > 0 {
        assert(forall|j: int|
            0 <= j < levels.drop_last().len() ==> levels.drop_last()[j] == 0);
        lemma_max_level_zero(levels.drop_last());
    }
}

fn max_level_exec(levels: &Vec<u8>) -> (r: u8)
    ensures
        r == max_level(levels@),
{
    let n = levels.len();
    let mut m: u8 = 0;
    let mut i: usize = 0;
    proof {
        assert(levels@.subrange(0, 0) =~= Seq::<u8>::empty());
    }
    while i < n
        invariant
            i <= n,
            n == levels@.len(),
            m == max_level(levels@.subrange(0, i as int)),
        decreases n - i,
    {
        proof {
            assert(levels@.subrange(0, i + 1).drop_last() =~= levels@.subrange(0, i as int));
            assert(levels@.subrange(0, i + 1).last() == levels@[i as int]);
        }
        if levels[i] >= m {
            m = levels[i];
        }
        i += 1;
    }
    proof {
        assert(levels@.subrange(0, n as int) =~= levels@);
    }
    m
}

fn run_end_exec(levels: &Vec<u8>, l: u8, i: usize) -> (r: usize)
    requires
        i <= levels@.len(),
    ensures
        r == run_end(levels@, l, i as int),
        i <= r <= levels@.len(),
{
    let n = levels.len();
    let mut j: usize = i;
    while j < n
        invariant
            i <= j <= n,
            n == levels@.len(),
            run_end(levels@, l, i as int) == run_end(levels@, l, j as int),
        decreases n - j,
    {
        if levels[j] < l {
            proof {
                lemma_run_end(levels@, l, i as int);
            }
            return j;
        }
        j += 1;
    }
    proof {
        lemma_run_end(levels@, l, i as int);
    }
    n
}

/// One executable reversal pass of rule L2 at level `l`.
fn rev_pass_exec(s: &Vec<char>, levels: &Vec<u8>, l: u8) -> (r: Vec<char>)
    requires
        s@.len() == levels@.len(),
    ensures
        r@ == rev_pass(s@, levels@, l, 0),
{
    let n = s.len();
    let mut r: Vec<char> = Vec::new();
    let mut i: usize = 0;
    proof {
        assert(Seq::<char>::empty() + rev_pass(s@, levels@, l, 0) =~= rev_pass(
            s@,
            levels@,
            l,
            0,
        ));
    }
    while i < n
        invariant
            i <= n,
            n == s@.len(),
            n == levels@.len(),
            rev_pass(s@, levels@, l, 0) == r@ + rev_pass(s@, levels@, l, i as int),
        decreases n - i,
    {
        if levels[i] >= l {
            let e = run_end_exec(levels, l, i);
            proof {
                lemma_run_end(levels@, l, i as int);
            }
            let ghost r0 = r@;
            let ghost seg_rev = s@.subrange(i as int, e as int).reverse();
            let mut k: usize = e;
            while k > i
                invariant
                    i <= k <= e <= n,
                    n == s@.len(),
                    e == run_end(levels@, l, i as int),
                    seg_rev == s@.subrange(i as int, e as int).reverse(),
                    r@ == r0 + seg_rev.subrange(0, e - k),
                decreases k,
            {
                k -= 1;
                r.push(s[k]);
                proof {
                    assert(seg_rev[e - k - 1] == s@.subrange(i as int, e as int)[(e - i) - 1 - (e
                        - k - 1)]);
                    assert(r@ =~= r0 + seg_rev.subrange(0, e - k));
                }
            }
            proof {
                assert(seg_rev.subrange(0, e - i) =~= seg_rev);
                assert(rev_pass(s@, levels@, l, i as int) == seg_rev + rev_pass(
                    s@,
                    levels@,
                    l,
                    e as int,
                ));
                assert(r0 + (seg_rev + rev_pass(s@, levels@, l, e as int)) =~= (r0 + seg_rev)
                    + rev_pass(s@, levels@, l, e as int));
            }
            i = e;
        } else {
            let ghost r0 = r@;
            r.push(s[i]);
            proof {
                assert(rev_pass(s@, levels@, l, i as int) == seq![s@[i as int]] + rev_pass(
                    s@,
                    levels@,
                    l,
                    i + 1,
                ));
                assert(r0 + (seq![s@[i as int]] + rev_pass(s@, levels@, l, i + 1)) =~= (r0
                    + seq![s@[i as int]]) + rev_pass(s@, levels@, l, i + 1));
                assert(r@ =~= r0 + seq![s@[i as int]]);
            }
            i += 1;
        }
    }
    proof {
        assert(rev_pass(s@, levels@, l, n as int) =~= Seq::<char>::empty());
        assert(r@ + Seq::<char>::empty() =~= r@);
    }
    r
}

/// Reorders one line into visual order: rule L2's reversal passes from the
/// highest level down to 1. The result is a permutation of the input.
pub fn reorder_line(chars: &Vec<char>, levels: &Vec<u8>) -> (r: Vec<char>)
    requires
        chars@.len() == levels@.len(),
    ensures
        r@ == reorder_spec(chars@, levels@),
        r@.len() == chars@.len(),
        r@.to_multiset() == chars@.to_multiset(),
{
    let maxl = max_level_exec(levels);
    let mut work = subvec(chars, 0, chars.len());
    proof {
        assert(chars@.subrange(0, chars@.len() as int) =~= chars@);
        assert(vo_down(chars@, levels@, maxl + 1) == chars@);
    }
    let mut l: u8 = maxl;
    while l >= 1
        invariant
            l <= maxl,
            maxl == max_level(levels@),
            chars@.len() == levels@.len(),
            work@ == vo_down(chars@, levels@, l + 1),
            work@.len() == chars@.len(),
        decreases l,
    {
        work = rev_pass_exec(&work, levels, l);
        proof {
            assert(work@ == vo_down(chars@, levels@, l as int));
            lemma_vo_down_multiset(chars@, levels@, l as int);
        }
        l -= 1;
    }
    proof {
        assert(work@ == vo_down(chars@, levels@, 1));
        lemma_reorder_multiset(chars@, levels@);
    }
    work
}

} // verus!
