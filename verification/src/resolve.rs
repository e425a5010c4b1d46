use vstd::prelude::*;
use crate::class::BidiClass;
use crate::class::is_neutral_class;
use crate::class::is_reset_class;
use crate::para::auto_level;
use crate::explicit::MAX_DEPTH;
use crate::explicit::expl_out;
use crate::explicit::resolve_explicit;
use crate::weak::weak_seq;
use crate::weak::resolve_weak;
use crate::BaseDirection;

verus! {

/// Direction a resolved class contributes to a neutral run (rule N1):
/// numbers count as R.
pub open spec fn ndir(c: BidiClass) -> BidiClass {
    if c == BidiClass::R || c == BidiClass::EN || c == BidiClass::AN {
        BidiClass::R
    } else {
        c
    }
}

/// Direction of the nearest non-neutral character strictly before `i`, or the
/// start-of-sequence direction.
pub open spec fn prev_dir(s: Seq<BidiClass>, sos: BidiClass, i: int) -> BidiClass
    decreases i,
{
    if i <= 0 || i > s.len() {
        sos
    } else if !is_neutral_class(s[i - 1]) {
        ndir(s[i - 1])
    } else {
        prev_dir(s, sos, i - 1)
    }
}

/// Direction of the nearest non-neutral character strictly after `i`, or the
/// end-of-sequence direction.
pub open spec fn next_dir(s: Seq<BidiClass>, eos: BidiClass, i: int) -> BidiClass
    decreases s.len() - i,
{
    if i < 0 || i + 1 >= s.len() {
        eos
    } else if !is_neutral_class(s[i + 1]) {
        ndir(s[i + 1])
    } else {
        next_dir(s, eos, i + 1)
    }
}

/// Rules N1 and N2: a neutral takes the direction of the enclosing strong
/// types when they agree, and the embedding direction otherwise.
pub open spec fn n_at(
    s: Seq<BidiClass>,
    levels: Seq<u8>,
    sos: BidiClass,
    eos: BidiClass,
    i: int,
) -> BidiClass {
    if 0 <= i < s.len() && is_neutral_class(s[i]) {
        let p = prev_dir(s, sos, i);
        let q = next_dir(s, eos, i);
        if p == q {
            p
        } else if levels[i] % 2 == 1 {
            BidiClass::R
        } else {
            BidiClass::L
        }
    } else if 0 <= i < s.len() {
        s[i]
    } else {
        BidiClass::ON
    }
}

pub open spec fn neutral_seq(
    s: Seq<BidiClass>,
    levels: Seq<u8>,
    sos: BidiClass,
    eos: BidiClass,
) -> Seq<BidiClass> {
    Seq::new(s.len(), |i: int| n_at(s, levels, sos, eos, i))
}

/// Rules I1 and I2: raise each character's level according to its resolved
/// class and the parity of its embedding level.
pub open spec fn i12_at(c: BidiClass, l: u8) -> u8 {
    if l % 2 == 0 {
        if c == BidiClass::R {
            (l + 1) as u8
        } else if c == BidiClass::EN || c == BidiClass::AN {
            (l + 2) as u8
        } else {
            l
        }
    } else {
        if c == BidiClass::L || c == BidiClass::EN || c == BidiClass::AN {
            (l + 1) as u8
        } else {
            l
        }
    }
}

/// Whether every character from `i` up to the next segment or paragraph
/// separator (or the end of the paragraph) is whitespace, an isolate
/// formatting character, or a character the explicit phase removed (rule L1).
pub open spec fn run_to_sep(orig: Seq<BidiClass>, i: int) -> bool
    decreases orig.len() - i,
{
    if i < 0 || i >= orig.len() {
        true
    } else if orig[i] == BidiClass::B || orig[i] == BidiClass::S {
        true
    } else if is_reset_class(orig[i]) {
        run_to_sep(orig, i + 1)
    } else {
        false
    }
}

/// Rule L1: separators, and trailing whitespace runs, reset to the paragraph
/// level. `orig` holds the original classes of the paragraph.
pub open spec fn l1_at(orig: Seq<BidiClass>, base: u8, levels: Seq<u8>, i: int) -> u8 {
    if !(0 <= i < levels.len() && 0 <= i < orig.len()) {
        base
    } else if orig[i] == BidiClass::B || orig[i] == BidiClass::S {
        base
    } else if is_reset_class(orig[i]) && run_to_sep(orig, i + 1) {
        base
    } else {
        levels[i]
    }
}

pub open spec fn l1_seq(orig: Seq<BidiClass>, base: u8, levels: Seq<u8>) -> Seq<u8> {
    Seq::new(levels.len(), |i: int| l1_at(orig, base, levels, i))
}

/// The start- and end-of-sequence class of a paragraph with base level
/// `base`.
pub open spec fn sos_of(base: u8) -> BidiClass {
    if base % 2 == 1 {
        BidiClass::R
    } else {
        BidiClass::L
    }
}

/// The base level a direction request gives one paragraph's classes: forced,
/// or auto-detected from the first strong character.
pub open spec fn para_base(cs: Seq<BidiClass>, dir: BaseDirection) -> u8 {
    match dir {
        BaseDirection::ForceLtr => 0,
        BaseDirection::ForceRtl => 1,
        BaseDirection::Auto => auto_level(cs),
    }
}

/// The resolved embedding level of every character of one paragraph whose
/// original classes are `cs` and whose base level is `base`: the explicit
/// phase, the weak rules, the neutral rules, the implicit level rules, and
/// the L1 reset, in order.
pub open spec fn resolved_levels_spec(cs: Seq<BidiClass>, base: u8) -> Seq<u8> {
    let eo = expl_out(cs, base);
    let w = weak_seq(eo.classes, sos_of(base));
    let nn = neutral_seq(w, eo.levels, sos_of(base), sos_of(base));
    let il = Seq::new(cs.len(), |i: int| i12_at(nn[i], eo.levels[i]));
    l1_seq(cs, base, il)
}

/// The directions of the nearest non-neutral characters after each position,
/// nearest first: entry `k` of the result is `next_dir` of position
/// `n - 1 - k`.
fn next_dir_all(s: &Vec<BidiClass>, eos: BidiClass) -> (r: Vec<BidiClass>)
    ensures
        r@.len() == s@.len(),
        forall|k: int| 0 <= k < s@.len() ==> r@[k] == next_dir(s@, eos, s@.len() - 1 - k),
{
    let n = s.len();
    let mut r: Vec<BidiClass> = Vec::new();
    let mut cur: BidiClass = eos;
    let mut i: usize = n;
    while i > 0
        invariant
            i <= n,
            n == s@.len(),
            r@.len() == n - i,
            forall|k: int| 0 <= k < n - i ==> r@[k] == next_dir(s@, eos, n - 1 - k),
            i > 0 ==> cur == next_dir(s@, eos, i as int - 1),
        decreases i,
    {
        r.push(cur);
        let c = s[i - 1];
        if !(c == BidiClass::B || c == BidiClass::S || c == BidiClass::WS || c == BidiClass::ON || c
            == BidiClass::BN) {
            cur = if c == BidiClass::R || c == BidiClass::EN || c == BidiClass::AN {
                BidiClass::R
            } else {
                c
            };
        }
        i -= 1;
    }
    r
}

/// Applies the neutral rules N1 and N2 to one paragraph's weak-resolved
/// classes, with the given embedding levels and boundary direction.
pub fn resolve_neutral(s: &Vec<BidiClass>, levels: &Vec<u8>, sos: BidiClass, eos: BidiClass) -> (r:
    Vec<BidiClass>)
    requires
        levels@.len() == s@.len(),
    ensures
        r@ == neutral_seq(s@, levels@, sos, eos),
        r@.len() == s@.len(),
{
    let n = s.len();
    let nexts = next_dir_all(s, eos);
    let mut r: Vec<BidiClass> = Vec::new();
    let mut prev: BidiClass = sos;
    let mut i: usize = 0;
    while i < n
        invariant
            i <= n,
            n == s@.len(),
            levels@.len() == n,
            nexts@.len() == n,
            forall|k: int| 0 <= k < n ==> nexts@[k] == next_dir(s@, eos, n - 1 - k),
            r@.len() == i,
            forall|j: int| 0 <= j < i ==> r@[j] == n_at(s@, levels@, sos, eos, j),
            prev == prev_dir(s@, sos, i as int),
        decreases n - i,
    {
        let c = s[i];
        let neutral = c == BidiClass::B || c == BidiClass::S || c == BidiClass::WS || c
            == BidiClass::ON || c == BidiClass::BN;
        let v: BidiClass;
        if neutral {
            let nx = nexts[n - 1 - i];
            proof {
                assert(nexts@[n - 1 - i] == next_dir(s@, eos, i as int));
            }
            if prev == nx {
                v = prev;
            } else if levels[i] % 2 == 1 {
                v = BidiClass::R;
            } else {
                v = BidiClass::L;
            }
        } else {
            v = c;
        }
        r.push(v);
        if !neutral {
            prev = if c == BidiClass::R || c == BidiClass::EN || c == BidiClass::AN {
                BidiClass::R
            } else {
                c
            };
        }
        i += 1;
    }
    proof {
        assert(r@ =~= neutral_seq(s@, levels@, sos, eos));
    }
    r
}

/// Applies the implicit level rules I1 and I2.
fn apply_implicit(s: &Vec<BidiClass>, levels: &Vec<u8>) -> (r: Vec<u8>)
    requires
        levels@.len() == s@.len(),
        forall|j: int| 0 <= j < levels@.len() ==> levels@[j] <= MAX_DEPTH,
    ensures
        r@.len() == s@.len(),
        forall|j: int| 0 <= j < s@.len() ==> r@[j] == i12_at(s@[j], levels@[j]),
        forall|j: int| 0 <= j < s@.len() ==> r@[j] <= MAX_DEPTH + 2,
{
    let n = s.len();
    let mut r: Vec<u8> = Vec::new();
    let mut i: usize = 0;
    while i < n
        invariant
            i <= n,
            n == s@.len(),
            levels@.len() == n,
            forall|j: int| 0 <= j < n ==> levels@[j] <= MAX_DEPTH,
            r@.len() == i,
            forall|j: int| 0 <= j < i ==> r@[j] == i12_at(s@[j], levels@[j]),
            forall|j: int| 0 <= j < i ==> r@[j] <= MAX_DEPTH + 2,
        decreases n - i,
    {
        let l = levels[i];
        let c = s[i];
        let v: u8 = if l % 2 == 0 {
            if c == BidiClass::R {
                l + 1
            } else if c == BidiClass::EN || c == BidiClass::AN {
                l + 2
            } else {
                l
            }
        } else {
            if c == BidiClass::L || c == BidiClass::EN || c == BidiClass::AN {
                l + 1
            } else {
                l
            }
        };
        r.push(v);
        i += 1;
    }
    r
}

/// Applies the L1 reset: separators and trailing whitespace runs return to
/// the paragraph's base level. `orig` holds the paragraph's original classes.
fn apply_l1(orig: &Vec<BidiClass>, base: u8, levels: &Vec<u8>) -> (r: Vec<u8>)
    requires
        levels@.len() == orig@.len(),
    ensures
        r@ == l1_seq(orig@, base, levels@),
        r@.len() == levels@.len(),
{
    let n = levels.len();
    let mut flags: Vec<bool> = Vec::new();
    let mut cur: bool = true;
    let mut i: usize = n;
    while i > 0
        invariant
            i <= n,
            n == orig@.len(),
            flags@.len() == n - i,
            forall|k: int| 0 <= k < n - i ==> flags@[k] == run_to_sep(orig@, n - k),
            cur == run_to_sep(orig@, i as int),
        decreases i,
    {
        // entry k of flags holds run_to_sep of position n - k, so this entry,
        // pushed at index n - i, is run_to_sep of position i.
        flags.push(cur);
        let c = orig[i - 1];
        if c == BidiClass::B || c == BidiClass::S {
            cur = true;
        } else if c == BidiClass::WS || c == BidiClass::LRI || c == BidiClass::RLI || c
            == BidiClass::FSI || c == BidiClass::PDI || c == BidiClass::LRE || c == BidiClass::RLE
            || c == BidiClass::LRO || c == BidiClass::RLO || c == BidiClass::PDF || c
            == BidiClass::BN {
        } else {
            cur = false;
        }
        i -= 1;
    }
    let mut r: Vec<u8> = Vec::new();
    let mut j: usize = 0;
    while j < n
        invariant
            j <= n,
            n == orig@.len(),
            n == levels@.len(),
            flags@.len() == n,
            forall|k: int| 0 <= k < n ==> flags@[k] == run_to_sep(orig@, n - k),
            r@.len() == j,
            forall|k: int| 0 <= k < j ==> r@[k] == l1_at(orig@, base, levels@, k),
        decreases n - j,
    {
        let c = orig[j];
        let reset_class = c == BidiClass::WS || c == BidiClass::LRI || c == BidiClass::RLI || c
            == BidiClass::FSI || c == BidiClass::PDI || c == BidiClass::LRE || c == BidiClass::RLE
            || c == BidiClass::LRO || c == BidiClass::RLO || c == BidiClass::PDF || c
            == BidiClass::BN;
        let v: u8;
        if c == BidiClass::B || c == BidiClass::S {
            v = base;
        } else if reset_class {
            let f = flags[n - 1 - j];
            proof {
                assert(flags@[n - 1 - j] == run_to_sep(orig@, j + 1));
            }
            v = if f {
                base
            } else {
                levels[j]
            };
        } else {
            v = levels[j];
        }
        r.push(v);
        j += 1;
    }
    proof {
        assert(r@ =~= l1_seq(orig@, base, levels@));
    }
    r
}

/// Resolves one paragraph: given its original classes and its base level,
/// returns the resolved embedding level of every character.
pub fn resolve_para(cs: &Vec<BidiClass>, base: u8) -> (r: Vec<u8>)
    requires
        base <= 1,
    ensures
        r@ == resolved_levels_spec(cs@, base),
        r@.len() == cs@.len(),
        forall|j: int| 0 <= j < r@.len() ==> r@[j] <= MAX_DEPTH + 2,
{
    let sos = if base % 2 == 1 {
        BidiClass::R
    } else {
        BidiClass::L
    };
    let (elevels, eclasses) = resolve_explicit(cs, base);
    let w = resolve_weak(&eclasses, sos);
    let nn = resolve_neutral(&w, &elevels, sos, sos);
    let il = apply_implicit(&nn, &elevels);
    proof {
        assert(il@ =~= Seq::new(
            cs@.len(),
            |i: int|
                i12_at(
                    neutral_seq(
                        weak_seq(expl_out(cs@, base).classes, sos_of(base)),
                        expl_out(cs@, base).levels,
                        sos_of(base),
                        sos_of(base),
                    )[i],
                    expl_out(cs@, base).levels[i],
                ),
        ));
    }
    let r = apply_l1(cs, base, &il);
    proof {
        assert(r@ =~= resolved_levels_spec(cs@, base));
        assert(forall|j: int| 0 <= j < r@.len() ==> r@[j] <= MAX_DEPTH + 2);
    }
    r
}

} // verus!
