use vstd::prelude::*;
use crate::class::BidiClass;
use crate::class::is_strong;

verus! {

/// Rule W1: a nonspacing mark takes the class of the character before it, or
/// the start-of-sequence class at the start.
pub open spec fn w1_at(s: Seq<BidiClass>, sos: BidiClass, i: int) -> BidiClass
    decreases i,
{
    if i < 0 || i >= s.len() {
        BidiClass::ON
    } else if s[i] != BidiClass::NSM {
        s[i]
    } else if i == 0 {
        sos
    } else {
        w1_at(s, sos, i - 1)
    }
}

pub open spec fn w1_seq(s: Seq<BidiClass>, sos: BidiClass) -> Seq<BidiClass> {
    Seq::new(s.len(), |i: int| w1_at(s, sos, i))
}

/// The last strong class strictly before position `i`, or the
/// start-of-sequence class when there is none.
pub open spec fn strong_before(s: Seq<BidiClass>, sos: BidiClass, i: int) -> BidiClass
    decreases i,
{
    if i <= 0 || i > s.len() {
        sos
    } else if is_strong(s[i - 1]) {
        s[i - 1]
    } else {
        strong_before(s, sos, i - 1)
    }
}

/// Rule W2: a European number becomes an Arabic number after an Arabic letter.
pub open spec fn w2_at(s: Seq<BidiClass>, sos: BidiClass, i: int) -> BidiClass {
    if 0 <= i < s.len() && s[i] == BidiClass::EN && strong_before(s, sos, i) == BidiClass::AL {
        BidiClass::AN
    } else if 0 <= i < s.len() {
        s[i]
    } else {
        BidiClass::ON
    }
}

pub open spec fn w2_seq(s: Seq<BidiClass>, sos: BidiClass) -> Seq<BidiClass> {
    Seq::new(s.len(), |i: int| w2_at(s, sos, i))
}

/// Rule W3: Arabic letters become R.
pub open spec fn w3_at(s: Seq<BidiClass>, i: int) -> BidiClass {
    if 0 <= i < s.len() && s[i] == BidiClass::AL {
        BidiClass::R
    } else if 0 <= i < s.len() {
        s[i]
    } else {
        BidiClass::ON
    }
}

pub open spec fn w3_seq(s: Seq<BidiClass>) -> Seq<BidiClass> {
    Seq::new(s.len(), |i: int| w3_at(s, i))
}

/// Rule W4: a single separator between two numbers of the same kind becomes
/// that kind.
pub open spec fn w4_at(s: Seq<BidiClass>, i: int) -> BidiClass {
    if !(0 <= i < s.len()) {
        BidiClass::ON
    } else if s[i] == BidiClass::ES && 0 < i && i + 1 < s.len() && s[i - 1] == BidiClass::EN && s[i
        + 1] == BidiClass::EN {
        BidiClass::EN
    } else if s[i] == BidiClass::CS && 0 < i && i + 1 < s.len() && s[i - 1] == BidiClass::EN && s[i
        + 1] == BidiClass::EN {
        BidiClass::EN
    } else if s[i] == BidiClass::CS && 0 < i && i + 1 < s.len() && s[i - 1] == BidiClass::AN && s[i
        + 1] == BidiClass::AN {
        BidiClass::AN
    } else {
        s[i]
    }
}

pub open spec fn w4_seq(s: Seq<BidiClass>) -> Seq<BidiClass> {
    Seq::new(s.len(), |i: int| w4_at(s, i))
}

/// Nearest class other than ET strictly before `i`, ON at the boundary.
pub open spec fn prev_non_et(s: Seq<BidiClass>, i: int) -> BidiClass
    decreases i,
{
    if i <= 0 || i > s.len() {
        BidiClass::ON
    } else if s[i - 1] != BidiClass::ET {
        s[i - 1]
    } else {
        prev_non_et(s, i - 1)
    }
}

/// Nearest class other than ET strictly after `i`, ON at the boundary.
pub open spec fn next_non_et(s: Seq<BidiClass>, i: int) -> BidiClass
    decreases s.len() - i,
{
    if i < 0 || i + 1 >= s.len() {
        BidiClass::ON
    } else if s[i + 1] != BidiClass::ET {
        s[i + 1]
    } else {
        next_non_et(s, i + 1)
    }
}

/// Rule W5: a run of European terminators adjacent to a European number
/// becomes European numbers.
pub open spec fn w5_at(s: Seq<BidiClass>, i: int) -> BidiClass {
    if 0 <= i < s.len() && s[i] == BidiClass::ET && (prev_non_et(s, i) == BidiClass::EN
        || next_non_et(s, i) == BidiClass::EN) {
        BidiClass::EN
    } else if 0 <= i < s.len() {
        s[i]
    } else {
        BidiClass::ON
    }
}

pub open spec fn w5_seq(s: Seq<BidiClass>) -> Seq<BidiClass> {
    Seq::new(s.len(), |i: int| w5_at(s, i))
}

/// Rule W6: remaining separators and terminators become neutral.
pub open spec fn w6_at(s: Seq<BidiClass>, i: int) -> BidiClass {
    if 0 <= i < s.len() && (s[i] == BidiClass::ET || s[i] == BidiClass::ES || s[i]
        == BidiClass::CS) {
        BidiClass::ON
    } else if 0 <= i < s.len() {
        s[i]
    } else {
        BidiClass::ON
    }
}

pub open spec fn w6_seq(s: Seq<BidiClass>) -> Seq<BidiClass> {
    Seq::new(s.len(), |i: int| w6_at(s, i))
}

/// Rule W7: a European number after a strong L becomes L.
pub open spec fn w7_at(s: Seq<BidiClass>, sos: BidiClass, i: int) -> BidiClass {
    if 0 <= i < s.len() && s[i] == BidiClass::EN && strong_before(s, sos, i) == BidiClass::L {
        BidiClass::L
    } else if 0 <= i < s.len() {
        s[i]
    } else {
        BidiClass::ON
    }
}

pub open spec fn w7_seq(s: Seq<BidiClass>, sos: BidiClass) -> Seq<BidiClass> {
    Seq::new(s.len(), |i: int| w7_at(s, sos, i))
}

/// The weak-type rules W1 through W7 applied in order.
pub open spec fn weak_seq(s: Seq<BidiClass>, sos: BidiClass) -> Seq<BidiClass> {
    w7_seq(w6_seq(w5_seq(w4_seq(w3_seq(w2_seq(w1_seq(s, sos), sos))))), sos)
}

fn weak_w1(s: &Vec<BidiClass>, sos: BidiClass) -> (r: Vec<BidiClass>)
    ensures
        r@ == w1_seq(s@, sos),
{
    let n = s.len();
    let mut r: Vec<BidiClass> = Vec::new();
    let mut prev: BidiClass = sos;
    let mut i: usize = 0;
    while i < n
        invariant
            i <= n,
            n == s@.len(),
            r@.len() == i,
            forall|j: int| 0 <= j < i ==> r@[j] == w1_at(s@, sos, j),
            i == 0 ==> prev == sos,
            i > 0 ==> prev == w1_at(s@, sos, i - 1),
        decreases n - i,
    {
        let v = if s[i] == BidiClass::NSM {
            prev
        } else {
            s[i]
        };
        r.push(v);
        prev = v;
        i += 1;
    }
    proof {
        assert(r@ =~= w1_seq(s@, sos));
    }
    r
}

fn weak_w2(s: &Vec<BidiClass>, sos: BidiClass) -> (r: Vec<BidiClass>)
    ensures
        r@ == w2_seq(s@, sos),
{
    let n = s.len();
    let mut r: Vec<BidiClass> = Vec::new();
    let mut last: BidiClass = sos;
    let mut i: usize = 0;
    while i < n
        invariant
            i <= n,
            n == s@.len(),
            r@.len() == i,
            forall|j: int| 0 <= j < i ==> r@[j] == w2_at(s@, sos, j),
            last == strong_before(s@, sos, i as int),
        decreases n - i,
    {
        let v = if s[i] == BidiClass::EN && last == BidiClass::AL {
            BidiClass::AN
        } else {
            s[i]
        };
        r.push(v);
        if s[i] == BidiClass::L || s[i] == BidiClass::R || s[i] == BidiClass::AL {
            last = s[i];
        }
        i += 1;
    }
    proof {
        assert(r@ =~= w2_seq(s@, sos));
    }
    r
}

fn weak_w3(s: &Vec<BidiClass>) -> (r: Vec<BidiClass>)
    ensures
        r@ == w3_seq(s@),
{
    let n = s.len();
    let mut r: Vec<BidiClass> = Vec::new();
    let mut i: usize = 0;
    while i < n
        invariant
            i <= n,
            n == s@.len(),
            r@.len() == i,
            forall|j: int| 0 <= j < i ==> r@[j] == w3_at(s@, j),
        decreases n - i,
    {
        let v = if s[i] == BidiClass::AL {
            BidiClass::R
        } else {
            s[i]
        };
        r.push(v);
        i += 1;
    }
    proof {
        assert(r@ =~= w3_seq(s@));
    }
    r
}

fn weak_w4(s: &Vec<BidiClass>) -> (r: Vec<BidiClass>)
    ensures
        r@ == w4_seq(s@),
{
    let n = s.len();
    let mut r: Vec<BidiClass> = Vec::new();
    let mut i: usize = 0;
    while i < n
        invariant
            i <= n,
            n == s@.len(),
            r@.len() == i,
            forall|j: int| 0 <= j < i ==> r@[j] == w4_at(s@, j),
        decreases n - i,
    {
        let mut v = s[i];
        if i > 0 && i + 1 < n {
            let a = s[i - 1];
            let b = s[i + 1];
            if s[i] == BidiClass::ES && a == BidiClass::EN && b == BidiClass::EN {
                v = BidiClass::EN;
            } else if s[i] == BidiClass::CS && a == BidiClass::EN && b == BidiClass::EN {
                v = BidiClass::EN;
            } else if s[i] == BidiClass::CS && a == BidiClass::AN && b == BidiClass::AN {
                v = BidiClass::AN;
            }
        }
        r.push(v);
        i += 1;
    }
    proof {
        assert(r@ =~= w4_seq(s@));
    }
    r
}

/// The classes other than ET that follow each position, nearest first: entry
/// `k` of the result holds `next_non_et` of position `n - 1 - k`.
fn next_non_et_all(s: &Vec<BidiClass>) -> (r: Vec<BidiClass>)
    ensures
        r@.len() == s@.len(),
        forall|k: int| 0 <= k < s@.len() ==> r@[k] == next_non_et(s@, s@.len() - 1 - k),
{
    let n = s.len();
    let mut r: Vec<BidiClass> = Vec::new();
    let mut cur: BidiClass = BidiClass::ON;
    let mut i: usize = n;
    while i > 0
        invariant
            i <= n,
            n == s@.len(),
            r@.len() == n - i,
            forall|k: int| 0 <= k < n - i ==> r@[k] == next_non_et(s@, n - 1 - k),
            i > 0 ==> cur == next_non_et(s@, i as int - 1),
        decreases i,
    {
        r.push(cur);
        if s[i - 1] != BidiClass::ET {
            cur = s[i - 1];
        }
        i -= 1;
    }
    r
}

fn weak_w5(s: &Vec<BidiClass>) -> (r: Vec<BidiClass>)
    ensures
        r@ == w5_seq(s@),
{
    let n = s.len();
    let nexts = next_non_et_all(s);
    let mut r: Vec<BidiClass> = Vec::new();
    let mut prev: BidiClass = BidiClass::ON;
    let mut i: usize = 0;
    while i < n
        invariant
            i <= n,
            n == s@.len(),
            nexts@.len() == n,
            forall|k: int| 0 <= k < n ==> nexts@[k] == next_non_et(s@, n - 1 - k),
            r@.len() == i,
            forall|j: int| 0 <= j < i ==> r@[j] == w5_at(s@, j),
            prev == prev_non_et(s@, i as int),
        decreases n - i,
    {
        let nx = nexts[n - 1 - i];
        proof {
            assert(nexts@[n - 1 - i] == next_non_et(s@, i as int));
        }
        let v = if s[i] == BidiClass::ET && (prev == BidiClass::EN || nx == BidiClass::EN) {
            BidiClass::EN
        } else {
            s[i]
        };
        r.push(v);
        if s[i] != BidiClass::ET {
            prev = s[i];
        }
        i += 1;
    }
    proof {
        assert(r@ =~= w5_seq(s@));
    }
    r
}

fn weak_w6(s: &Vec<BidiClass>) -> (r: Vec<BidiClass>)
    ensures
        r@ == w6_seq(s@),
{
    let n = s.len();
    let mut r: Vec<BidiClass> = Vec::new();
    let mut i: usize = 0;
    while i < n
        invariant
            i <= n,
            n == s@.len(),
            r@.len() == i,
            forall|j: int| 0 <= j < i ==> r@[j] == w6_at(s@, j),
        decreases n - i,
    {
        let v = if s[i] == BidiClass::ET || s[i] == BidiClass::ES || s[i] == BidiClass::CS {
            BidiClass::ON
        } else {
            s[i]
        };
        r.push(v);
        i += 1;
    }
    proof {
        assert(r@ =~= w6_seq(s@));
    }
    r
}

fn weak_w7(s: &Vec<BidiClass>, sos: BidiClass) -> (r: Vec<BidiClass>)
    ensures
        r@ == w7_seq(s@, sos),
{
    let n = s.len();
    let mut r: Vec<BidiClass> = Vec::new();
    let mut last: BidiClass = sos;
    let mut i: usize = 0;
    while i < n
        invariant
            i <= n,
            n == s@.len(),
            r@.len() == i,
            forall|j: int| 0 <= j < i ==> r@[j] == w7_at(s@, sos, j),
            last == strong_before(s@, sos, i as int),
        decreases n - i,
    {
        let v = if s[i] == BidiClass::EN && last == BidiClass::L {
            BidiClass::L
        } else {
            s[i]
        };
        r.push(v);
        if s[i] == BidiClass::L || s[i] == BidiClass::R || s[i] == BidiClass::AL {
            last = s[i];
        }
        i += 1;
    }
    proof {
        assert(r@ =~= w7_seq(s@, sos));
    }
    r
}

/// Applies the weak-type rules W1 through W7 to one paragraph's working
/// classes, resolving numbers, separators and terminators relative to the
/// surrounding strong types.
pub fn resolve_weak(s: &Vec<BidiClass>, sos: BidiClass) -> (r: Vec<BidiClass>)
    ensures
        r@ == weak_seq(s@, sos),
        r@.len() == s@.len(),
{
    let s1 = weak_w1(s, sos);
    let s2 = weak_w2(&s1, sos);
    let s3 = weak_w3(&s2);
    let s4 = weak_w4(&s3);
    let s5 = weak_w5(&s4);
    let s6 = weak_w6(&s5);
    weak_w7(&s6, sos)
}

} // verus!
