use vstd::prelude::*;
use crate::class::BidiClass;
use crate::class::class_of;
use crate::class::classes_of;
use crate::explicit::expl_prefix;
use crate::explicit::expl_out;
use crate::explicit::init_state;
use crate::para::auto_rtl_from;
use crate::para::para_end;
use crate::para::para_ranges;
use crate::para::para_ranges_from;
use crate::para::lemma_para_end;
use crate::reorder::lemma_reorder_identity;
use crate::resolve::i12_at;
use crate::resolve::l1_seq;
use crate::resolve::neutral_seq;
use crate::resolve::para_base;
use crate::resolve::resolved_levels_spec;
use crate::resolve::sos_of;
use crate::weak::weak_seq;
use crate::weak::w1_seq;
use crate::weak::w2_seq;
use crate::weak::w3_seq;
use crate::weak::w4_seq;
use crate::weak::w5_seq;
use crate::weak::w6_seq;
use crate::weak::w7_seq;
use crate::BaseDirection;
use crate::display_order_spec;
use crate::paras_display;
use crate::para_display;
use crate::debugfmt::debug_spec;

verus! {

/// The display order of a text is a function of the text and the requested
/// direction alone: two runs on the same input give the same output.
pub proof fn lemma_display_deterministic(
    t: Seq<char>,
    dir: BaseDirection,
    r1: Seq<char>,
    r2: Seq<char>,
)
    requires
        r1 == display_order_spec(t, dir),
        r2 == display_order_spec(t, dir),
    ensures
        r1 == r2,
{
}

/// The diagnostic dump is deterministic in the text and the requested
/// direction: two runs on the same input give the same dump.
pub proof fn lemma_debug_deterministic(
    t: Seq<char>,
    dir: BaseDirection,
    r1: Seq<char>,
    r2: Seq<char>,
)
    requires
        r1 == debug_spec(t, dir),
        r2 == debug_spec(t, dir),
    ensures
        r1 == r2,
{
}

proof fn lemma_expl_all_l(cs: Seq<BidiClass>, i: int)
    requires
        forall|j: int| 0 <= j < cs.len() ==> cs[j] == BidiClass::L,
        0 <= i <= cs.len(),
    ensures
        expl_prefix(cs, 0, i).st == init_state(0),
        expl_prefix(cs, 0, i).levels.len() == i,
        expl_prefix(cs, 0, i).classes.len() == i,
        forall|j: int| 0 <= j < i ==> expl_prefix(cs, 0, i).levels[j] == 0,
        forall|j: int| 0 <= j < i ==> expl_prefix(cs, 0, i).classes[j] == BidiClass::L,
    decreases i,
{
    if i > 0 {
        lemma_expl_all_l(cs, i - 1);
        let p = expl_prefix(cs, 0, i - 1);
        assert(p.st.stack.last() == init_state(0).stack[0]);
        assert(cs[i - 1] == BidiClass::L);
    }
}

proof fn lemma_weak_all_l(s: Seq<BidiClass>, sos: BidiClass)
    requires
        forall|j: int| 0 <= j < s.len() ==> s[j] == BidiClass::L,
    ensures
        weak_seq(s, sos) == s,
{
    assert(w1_seq(s, sos) =~= s);
    assert(w2_seq(s, sos) =~= s);
    assert(w3_seq(s) =~= s);
    assert(w4_seq(s) =~= s);
    assert(w5_seq(s) =~= s);
    assert(w6_seq(s) =~= s);
    assert(w7_seq(s, sos) =~= s);
}

proof fn lemma_levels_all_l(cs: Seq<BidiClass>)
    requires
        forall|j: int| 0 <= j < cs.len() ==> cs[j] == BidiClass::L,
    ensures
        resolved_levels_spec(cs, 0) =~= Seq::new(cs.len(), |j: int| 0u8),
{
    let n = cs.len() as int;
    lemma_expl_all_l(cs, n);
    let eo = expl_out(cs, 0);
    assert(eo.classes =~= cs);
    lemma_weak_all_l(eo.classes, sos_of(0));
    let w = weak_seq(eo.classes, sos_of(0));
    assert(w == cs);
    let nn = neutral_seq(w, eo.levels, sos_of(0), sos_of(0));
    assert(nn =~= cs);
    let il = Seq::new(cs.len(), |i: int| i12_at(nn[i], eo.levels[i]));
    assert(forall|j: int| 0 <= j < n ==> il[j] == 0);
    assert(l1_seq(cs, 0, il) =~= Seq::new(cs.len(), |j: int| 0u8));
}

/// A text consisting solely of strong left-to-right characters is displayed
/// unchanged when its base direction is auto-detected or forced
/// left-to-right.
pub proof fn lemma_display_all_ltr(t: Seq<char>, dir: BaseDirection)
    requires
        forall|i: int| 0 <= i < t.len() ==> class_of(t[i]) == BidiClass::L,
        dir == BaseDirection::Auto || dir == BaseDirection::ForceLtr,
    ensures
        display_order_spec(t, dir) == t,
{
    let cs = classes_of(t);
    let n = t.len() as int;
    assert(forall|j: int| 0 <= j < n ==> cs[j] == BidiClass::L);
    if n == 0 {
        assert(para_ranges(cs).len() == 0);
        assert(display_order_spec(t, dir) =~= t);
    } else {
        lemma_para_end(cs, 0);
        let e = para_end(cs, 0);
        assert(e == n || cs[e - 1] == BidiClass::B);
        assert(e == n);
        let rs = para_ranges(cs);
        assert(rs == seq![(0int, n)] + para_ranges_from(cs, n));
        assert(para_ranges_from(cs, n) =~= Seq::<(int, int)>::empty());
        let pc = cs.subrange(0, n);
        assert(pc =~= cs);
        assert(auto_rtl_from(cs, 0, 0) == false);
        assert(para_base(pc, dir) == 0);
        lemma_levels_all_l(cs);
        let lv = resolved_levels_spec(cs, 0);
        assert(t.subrange(0, n) =~= t);
        lemma_reorder_identity(t, lv);
        assert(para_display(t, cs, 0, n, dir) == t);
        assert(rs[0] == (0int, n));
        assert(rs.drop_first() =~= Seq::<(int, int)>::empty());
        assert(paras_display(t, cs, rs.drop_first(), dir) =~= Seq::<char>::empty());
        assert(display_order_spec(t, dir) =~= t);
    }
}

} // verus!
