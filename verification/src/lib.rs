//! Computes the visual display order of mixed-direction Unicode text and the
//! base (paragraph) direction of a text span, following the Unicode
//! Bidirectional Algorithm: paragraph segmentation, per-character
//! classification, embedding-level resolution and line reordering.

pub mod class;
pub mod debugfmt;
pub mod explicit;
pub mod laws;
pub mod para;
pub mod reorder;
pub mod resolve;
pub mod text;
pub mod weak;

use vstd::prelude::*;
use vstd::seq_lib::lemma_multiset_commutative;
use crate::class::BidiClass;
use crate::class::classes_of;
use crate::class::classify_all;
use crate::para::para_end;
use crate::para::para_ranges;
use crate::para::para_ranges_from;
use crate::para::para_end_exec;
use crate::para::ranges_of;
use crate::para::auto_level;
use crate::para::lemma_para_end;
use crate::para::segment;
use crate::para::detect_rtl;
use crate::resolve::para_base;
use crate::resolve::resolved_levels_spec;
use crate::resolve::resolve_para;
use crate::reorder::reorder_spec;
use crate::reorder::reorder_line;
use crate::reorder::lemma_reorder_multiset;
use crate::text::chars_of;
use crate::text::string_of;
use crate::text::subvec;

verus! {

/// Direction request for resolving a paragraph's base level.
#[derive(Clone, Copy, PartialEq, Eq, Structural, Debug)]
pub enum BaseDirection {
    /// Detect the base direction from the first strong character.
    Auto,
    /// Force a left-to-right base (level 0).
    ForceLtr,
    /// Force a right-to-left base (level 1).
    ForceRtl,
}

/// Failure conditions of the engine's two operations.
#[derive(Clone, Copy, PartialEq, Eq, Structural, Debug)]
pub enum BidiError {
    /// The base-direction override is not one of the recognized values.
    InvalidArgument,
    /// The base-level query was made on text with zero paragraphs.
    EmptyInput,
}

impl BidiError {
    /// A human-readable description of the failure.
    pub fn message(&self) -> (r: &'static str)
        ensures
            r@ == self.message_spec(),
    {
        match self {
            BidiError::InvalidArgument => "base_dir can be 'L', 'R' or None",
            BidiError::EmptyInput => "Text contains no paragraphs",
        }
    }

    /// The description `message` returns.
    pub open spec fn message_spec(&self) -> Seq<char> {
        match self {
            BidiError::InvalidArgument => "base_dir can be 'L', 'R' or None"@,
            BidiError::EmptyInput => "Text contains no paragraphs"@,
        }
    }
}

/// The base direction a host-supplied override character requests: 'L' and
/// 'R' force a direction, no character means auto-detection, and anything
/// else is invalid.
pub open spec fn dir_of_override(base_dir: Option<char>) -> Option<BaseDirection> {
    match base_dir {
        Option::None => Option::Some(BaseDirection::Auto),
        Option::Some(c) => if c == 'L' {
            Option::Some(BaseDirection::ForceLtr)
        } else if c == 'R' {
            Option::Some(BaseDirection::ForceRtl)
        } else {
            Option::None
        },
    }
}

/// The visual display order of one paragraph: its characters reordered by the
/// resolved levels of its classes under the requested direction.
pub open spec fn para_display(
    t: Seq<char>,
    cs: Seq<BidiClass>,
    a: int,
    b: int,
    dir: BaseDirection,
) -> Seq<char> {
    let pc = cs.subrange(a, b);
    reorder_spec(t.subrange(a, b), resolved_levels_spec(pc, para_base(pc, dir)))
}

/// The concatenated display order of a sequence of paragraph ranges.
pub open spec fn paras_display(
    t: Seq<char>,
    cs: Seq<BidiClass>,
    rs: Seq<(int, int)>,
    dir: BaseDirection,
) -> Seq<char>
    decreases rs.len(),
{
    if rs.len() == 0 {
        Seq::empty()
    } else {
        para_display(t, cs, rs[0].0, rs[0].1, dir) + paras_display(t, cs, rs.drop_first(), dir)
    }
}

/// The visual display order of a whole text under the requested direction:
/// every paragraph resolved and reordered, in buffer order.
pub open spec fn display_order_spec(t: Seq<char>, dir: BaseDirection) -> Seq<char> {
    paras_display(t, classes_of(t), para_ranges(classes_of(t)), dir)
}

/// The base level of the first paragraph of a non-empty text, auto-detected
/// from its first strong character.
pub open spec fn base_level_spec(t: Seq<char>) -> u8 {
    let cs = classes_of(t);
    auto_level(cs.subrange(0, para_end(cs, 0)))
}

/// Every paragraph range lies within the buffer, in order, and is non-empty.
pub proof fn lemma_para_ranges_bounds(cs: Seq<BidiClass>, i: int)
    requires
        0 <= i <= cs.len(),
    ensures
        forall|k: int|
            0 <= k < para_ranges_from(cs, i).len() ==> i <= (
            #[trigger] para_ranges_from(cs, i)[k]).0 < para_ranges_from(cs, i)[k].1 <= cs.len(),
    decreases cs.len() - i,
{
    if i < cs.len() {
        lemma_para_end(cs, i);
        lemma_para_ranges_bounds(cs, para_end(cs, i));
        let rs = para_ranges_from(cs, i);
        let e = para_end(cs, i);
        let rest = para_ranges_from(cs, e);
        assert(rs == seq![(i, e)] + rest);
        assert forall|k: int| 0 <= k < rs.len() implies i <= (#[trigger] rs[k]).0 < rs[k].1
            <= cs.len() by {
            if k == 0 {
                assert(rs[k] == (i, e));
            } else {
                assert(rs[k] == rest[k - 1]);
            }
        }
    }
}

/// Runs the engine on one text: segments it into paragraphs, resolves each
/// paragraph's levels under the requested direction, reorders each paragraph,
/// and concatenates the results. The output is a permutation of the input.
pub fn get_display_order(text: &str, dir: BaseDirection, debug: bool) -> (r: String)
    ensures
        !debug ==> r@ == display_order_spec(text@, dir),
        !debug ==> r@.to_multiset() == text@.to_multiset(),
        !debug ==> r@.len() == text@.len(),
        debug ==> r@ == crate::debugfmt::debug_spec(text@, dir),
{
    if debug {
        return crate::debugfmt::debug_format(text, dir);
    }
    let chars = chars_of(text);
    let cls = classify_all(&chars);
    let paras = segment(&cls);
    let ghost t = chars@;
    let ghost cs = cls@;
    let ghost rs = para_ranges(cs);
    proof {
        lemma_para_ranges_bounds(cs, 0);
    }
    let mut out: Vec<char> = Vec::new();
    let mut k: usize = 0;
    proof {
        assert(rs.subrange(0, rs.len() as int) =~= rs);
        assert(Seq::<char>::empty() + paras_display(t, cs, rs, dir) =~= paras_display(
            t,
            cs,
            rs,
            dir,
        ));
        assert(rs.subrange(0, rs.len() as int).len() == paras@.len());
    }
    while k < paras.len()
        invariant
            k <= paras@.len(),
            paras@.len() == rs.len(),
            ranges_of(paras@) == rs,
            cs == classes_of(t),
            cs.len() == t.len(),
            chars@ == t,
            cls@ == cs,
            rs == para_ranges(cs),
            forall|j: int| 0 <= j < rs.len() ==> 0 <= (#[trigger] rs[j]).0 < rs[j].1 <= cs.len(),
            paras_display(t, cs, rs, dir) == out@ + paras_display(
                t,
                cs,
                rs.subrange(k as int, rs.len() as int),
                dir,
            ),
        decreases paras@.len() - k,
    {
        let p = paras[k];
        proof {
            assert(ranges_of(paras@)[k as int] == (p.start as int, p.end as int));
            assert(rs[k as int].0 == p.start as int && rs[k as int].1 == p.end as int);
        }
        let a = p.start;
        let b = p.end;
        let pc = subvec(&cls, a, b);
        let base: u8 = match dir {
            BaseDirection::ForceLtr => 0,
            BaseDirection::ForceRtl => 1,
            BaseDirection::Auto => if detect_rtl(&pc) {
                1
            } else {
                0
            },
        };
        proof {
            assert(base == para_base(pc@, dir));
        }
        let lv = resolve_para(&pc, base);
        let pch = subvec(&chars, a, b);
        let mut ord = reorder_line(&pch, &lv);
        let ghost out0 = out@;
        let ghost ordg = ord@;
        out.append(&mut ord);
        proof {
            assert(ordg == para_display(t, cs, a as int, b as int, dir));
            let tail = rs.subrange(k as int, rs.len() as int);
            assert(tail[0] == rs[k as int]);
            assert(tail.drop_first() =~= rs.subrange(k + 1, rs.len() as int));
            assert(paras_display(t, cs, tail, dir) == ordg + paras_display(
                t,
                cs,
                rs.subrange(k + 1, rs.len() as int),
                dir,
            ));
            assert(out0 + (ordg + paras_display(t, cs, rs.subrange(k + 1, rs.len() as int), dir))
                =~= (out0 + ordg) + paras_display(t, cs, rs.subrange(k + 1, rs.len() as int), dir));
        }
        k += 1;
    }
    proof {
        assert(rs.subrange(rs.len() as int, rs.len() as int) =~= Seq::<(int, int)>::empty());
        assert(out@ + Seq::<char>::empty() =~= out@);
        assert(out@ == display_order_spec(t, dir));
        lemma_display_multiset(t, dir);
    }
    string_of(&out)
}

/// Reordering a whole text preserves the multiset (and so the count) of its
/// characters: the display order is a permutation of the text.
pub proof fn lemma_display_multiset(t: Seq<char>, dir: BaseDirection)
    ensures
        display_order_spec(t, dir).to_multiset() == t.to_multiset(),
        display_order_spec(t, dir).len() == t.len(),
{
    lemma_paras_display_multiset(t, classes_of(t), 0, dir);
    assert(t.subrange(0, t.len() as int) =~= t);
}

proof fn lemma_paras_display_multiset(t: Seq<char>, cs: Seq<BidiClass>, i: int, dir: BaseDirection)
    requires
        cs.len() == t.len(),
        0 <= i <= cs.len(),
    ensures
        paras_display(t, cs, para_ranges_from(cs, i), dir).to_multiset() == t.subrange(
            i,
            t.len() as int,
        ).to_multiset(),
        paras_display(t, cs, para_ranges_from(cs, i), dir).len() == t.len() - i,
    decreases cs.len() - i,
{
    let n = t.len() as int;
    if i >= cs.len() {
        assert(t.subrange(i, n) =~= Seq::<char>::empty());
    } else {
        lemma_para_end(cs, i);
        let e = para_end(cs, i);
        lemma_paras_display_multiset(t, cs, e, dir);
        let rs = para_ranges_from(cs, i);
        assert(rs[0] == (i, e));
        assert(rs.drop_first() =~= para_ranges_from(cs, e));
        let pc = cs.subrange(i, e);
        let pd = para_display(t, cs, i, e, dir);
        assert(resolved_levels_spec(pc, para_base(pc, dir)).len() == pc.len());
        lemma_reorder_multiset(t.subrange(i, e), resolved_levels_spec(pc, para_base(pc, dir)));
        let rest = paras_display(t, cs, para_ranges_from(cs, e), dir);
        lemma_multiset_commutative(pd, rest);
        assert(t.subrange(i, n) =~= t.subrange(i, e) + t.subrange(e, n));
        lemma_multiset_commutative(t.subrange(i, e), t.subrange(e, n));
    }
}

/// Validates a host-supplied base-direction override and runs the engine:
/// 'L' forces LTR, 'R' forces RTL, no character requests auto-detection, and
/// any other character is rejected before any computation.
pub fn get_display_inner(text: &str, base_dir: Option<char>, debug: bool) -> (r: Result<
    String,
    BidiError,
>)
    ensures
        dir_of_override(base_dir) is None <==> (r == Err::<String, BidiError>(
            BidiError::InvalidArgument,
        )),
        (match r {
            Result::Ok(s) => {
                &&& dir_of_override(base_dir) matches Some(dir)
                &&& (!debug ==> s@ == display_order_spec(text@, dir))
                &&& (!debug ==> s@.to_multiset() == text@.to_multiset())
                &&& (debug ==> s@ == crate::debugfmt::debug_spec(text@, dir))
            },
            Result::Err(e) => e == BidiError::InvalidArgument,
        }),
{
    let dir: BaseDirection = match base_dir {
        Option::None => BaseDirection::Auto,
        Option::Some(c) => {
            if c == 'L' {
                BaseDirection::ForceLtr
            } else if c == 'R' {
                BaseDirection::ForceRtl
            } else {
                return Err(BidiError::InvalidArgument);
            }
        },
    };
    Ok(get_display_order(text, dir, debug))
}

/// Reports the base (paragraph) level of the first paragraph of the text,
/// auto-detected from its first strong character: 0 for left-to-right, 1 for
/// right-to-left. Fails when the text contains no paragraphs, which happens
/// exactly on empty text.
pub fn get_base_level(text: &str) -> (r: Result<u8, BidiError>)
    ensures
        (match r {
            Result::Ok(l) => text@.len() > 0 && l == base_level_spec(text@) && l <= 1,
            Result::Err(e) => text@.len() == 0 && e == BidiError::EmptyInput,
        }),
{
    let chars = chars_of(text);
    if chars.len() == 0 {
        return Err(BidiError::EmptyInput);
    }
    let cls = classify_all(&chars);
    let e = para_end_exec(&cls, 0);
    let pc = subvec(&cls, 0, e);
    if detect_rtl(&pc) {
        Ok(1)
    } else {
        Ok(0)
    }
}

/// The host-facing base-level query; same behaviour as `get_base_level`.
pub fn get_base_level_inner(text: &str) -> (r: Result<u8, BidiError>)
    ensures
        (match r {
            Result::Ok(l) => text@.len() > 0 && l == base_level_spec(text@) && l <= 1,
            Result::Err(e) => text@.len() == 0 && e == BidiError::EmptyInput,
        }),
{
    get_base_level(text)
}

} // verus!
