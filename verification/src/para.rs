use vstd::prelude::*;
use crate::class::BidiClass;
use crate::class::is_isolate_init;

verus! {

/// One paragraph of a text buffer: a contiguous character range and the
/// paragraph's base embedding level.
#[derive(Clone, Copy, PartialEq, Eq, Structural, Debug)]
pub struct Paragraph {
    /// First character position of the paragraph.
    pub start: usize,
    /// One past the last character position of the paragraph.
    pub end: usize,
    /// Base embedding level of the paragraph (0 = LTR, 1 = RTL).
    pub level: u8,
}

/// Position one past the end of the paragraph that starts at `i`: the first
/// paragraph separator at or after `i` terminates the paragraph and belongs to
/// it; a paragraph with no separator runs to the end of the buffer.
pub open spec fn para_end(cs: Seq<BidiClass>, i: int) -> int
    decreases cs.len() - i,
{
    if i < 0 || i >= cs.len() {
        cs.len() as int
    } else if cs[i] == BidiClass::B {
        i + 1
    } else {
        para_end(cs, i + 1)
    }
}

pub proof fn lemma_para_end(cs: Seq<BidiClass>, i: int)
    requires
        0 <= i <= cs.len(),
    ensures
        i <= para_end(cs, i) <= cs.len(),
        i < cs.len() ==> i + 1 <= para_end(cs, i),
        forall|j: int| i <= j < para_end(cs, i) - 1 ==> cs[j] != BidiClass::B,
        para_end(cs, i) == cs.len() || cs[para_end(cs, i) - 1] == BidiClass::B,
    decreases cs.len() - i,
{
    if i < cs.len() && cs[i] != BidiClass::B {
        lemma_para_end(cs, i + 1);
    }
}

/// The ordered paragraph ranges of the classified buffer `cs`, starting at
/// position `i`. The ranges partition `[i, cs.len())`.
pub open spec fn para_ranges_from(cs: Seq<BidiClass>, i: int) -> Seq<(int, int)>
    decreases cs.len() - i,
    via para_ranges_dec
{
    if i < 0 || i >= cs.len() {
        Seq::empty()
    } else {
        seq![(i, para_end(cs, i))] + para_ranges_from(cs, para_end(cs, i))
    }
}

#[via_fn]
proof fn para_ranges_dec(cs: Seq<BidiClass>, i: int) {
    if 0 <= i < cs.len() {
        lemma_para_end(cs, i);
    }
}

/// The paragraph ranges of a whole classified buffer. An empty buffer has no
/// paragraphs.
pub open spec fn para_ranges(cs: Seq<BidiClass>) -> Seq<(int, int)> {
    para_ranges_from(cs, 0)
}

/// The ranges of a sequence of paragraph records.
pub open spec fn ranges_of(ps: Seq<Paragraph>) -> Seq<(int, int)> {
    Seq::new(ps.len(), |k: int| (ps[k].start as int, ps[k].end as int))
}

/// Finds the end of the paragraph that starts at `i`.
pub fn para_end_exec(cs: &Vec<BidiClass>, i: usize) -> (r: usize)
    requires
        i <= cs@.len(),
    ensures
        r == para_end(cs@, i as int),
        i <= r <= cs@.len(),
{
    let n = cs.len();
    let mut j: usize = i;
    while j < n
        invariant
            i <= j <= n,
            n == cs@.len(),
            para_end(cs@, i as int) == para_end(cs@, j as int),
        decreases n - j,
    {
        if cs[j] == BidiClass::B {
            proof {
                lemma_para_end(cs@, i as int);
            }
            return j + 1;
        }
        j += 1;
    }
    proof {
        lemma_para_end(cs@, i as int);
    }
    n
}

/// Splits a classified buffer into its ordered sequence of paragraphs, each
/// with base level 0 pending resolution. The ranges partition the buffer.
pub fn segment(cs: &Vec<BidiClass>) -> (r: Vec<Paragraph>)
    ensures
        ranges_of(r@) == para_ranges(cs@),
        forall|k: int| 0 <= k < r@.len() ==> r@[k].level == 0,
        r@.len() == 0 <==> cs@.len() == 0,
{
    let n = cs.len();
    let mut r: Vec<Paragraph> = Vec::new();
    let mut i: usize = 0;
    while i < n
        invariant
            i <= n,
            n == cs@.len(),
            i < n ==> ranges_of(r@) + para_ranges_from(cs@, i as int) =~= para_ranges(cs@),
            i >= n ==> ranges_of(r@) =~= para_ranges(cs@),
            forall|k: int| 0 <= k < r@.len() ==> r@[k].level == 0,
            n > 0 ==> (r@.len() > 0 || i < n),
        decreases n - i,
    {
        let e = para_end_exec(cs, i);
        proof {
            lemma_para_end(cs@, i as int);
        }
        let ghost old_r = r@;
        r.push(Paragraph { start: i, end: e, level: 0 });
        proof {
            assert(ranges_of(r@) =~= ranges_of(old_r) + seq![(i as int, e as int)]);
            assert(para_ranges_from(cs@, i as int) == seq![(i as int, e as int)]
                + para_ranges_from(cs@, e as int));
            assert(ranges_of(r@) + para_ranges_from(cs@, e as int) =~= ranges_of(old_r)
                + para_ranges_from(cs@, i as int));
        }
        i = e;
    }
    proof {
        if n == 0 {
            assert(ranges_of(r@) =~= para_ranges(cs@));
        }
        assert(r@.len() == para_ranges(cs@).len());
        if n > 0 {
            assert(para_ranges(cs@).len() > 0);
        }
    }
    r
}

/// First-strong base-direction detection (rules P2 and P3): scan for the
/// first strong character, skipping the contents of isolates; right-to-left
/// if it is R or AL, left-to-right if it is L or if none is found.
pub open spec fn auto_rtl_from(cs: Seq<BidiClass>, i: int, depth: int) -> bool
    decreases cs.len() - i,
{
    if i < 0 || i >= cs.len() {
        false
    } else if depth > 0 {
        auto_rtl_from(
            cs,
            i + 1,
            if is_isolate_init(cs[i]) {
                depth + 1
            } else if cs[i] == BidiClass::PDI {
                depth - 1
            } else {
                depth
            },
        )
    } else if is_isolate_init(cs[i]) {
        auto_rtl_from(cs, i + 1, 1)
    } else if cs[i] == BidiClass::L {
        false
    } else if cs[i] == BidiClass::R || cs[i] == BidiClass::AL {
        true
    } else {
        auto_rtl_from(cs, i + 1, 0)
    }
}

/// The auto-detected base level of one paragraph's classified characters.
pub open spec fn auto_level(cs: Seq<BidiClass>) -> u8 {
    if auto_rtl_from(cs, 0, 0) {
        1
    } else {
        0
    }
}

/// Detects whether the paragraph's base direction is right-to-left.
pub fn detect_rtl(cs: &Vec<BidiClass>) -> (r: bool)
    ensures
        r == auto_rtl_from(cs@, 0, 0),
{
    let n = cs.len();
    let mut i: usize = 0;
    let mut depth: usize = 0;
    while i < n
        invariant
            i <= n,
            n == cs@.len(),
            depth <= i,
            auto_rtl_from(cs@, 0, 0) == auto_rtl_from(cs@, i as int, depth as int),
        decreases n - i,
    {
        let c = cs[i];
        if depth > 0 {
            if c == BidiClass::LRI || c == BidiClass::RLI || c == BidiClass::FSI {
                depth += 1;
            } else if c == BidiClass::PDI {
                depth -= 1;
            }
        } else {
            if c == BidiClass::LRI || c == BidiClass::RLI || c == BidiClass::FSI {
                depth = 1;
            } else if c == BidiClass::L {
                return false;
            } else if c == BidiClass::R || c == BidiClass::AL {
                return true;
            }
        }
        i += 1;
    }
    false
}

/// First-strong scan for a first-strong isolate (FSI): scan from `i`, which
/// is the position just after the FSI, up to its matching PDI, skipping the
/// contents of nested isolates; right-to-left only if the first strong
/// character found there is R or AL.
pub open spec fn fsi_rtl_from(cs: Seq<BidiClass>, i: int, depth: int) -> bool
    decreases cs.len() - i,
{
    if i < 0 || i >= cs.len() {
        false
    } else if depth > 0 {
        fsi_rtl_from(
            cs,
            i + 1,
            if is_isolate_init(cs[i]) {
                depth + 1
            } else if cs[i] == BidiClass::PDI {
                depth - 1
            } else {
                depth
            },
        )
    } else if cs[i] == BidiClass::PDI {
        false
    } else if is_isolate_init(cs[i]) {
        fsi_rtl_from(cs, i + 1, 1)
    } else if cs[i] == BidiClass::L {
        false
    } else if cs[i] == BidiClass::R || cs[i] == BidiClass::AL {
        true
    } else {
        fsi_rtl_from(cs, i + 1, 0)
    }
}

/// Detects the direction of a first-strong isolate whose contents begin at
/// `from`.
pub fn fsi_scan(cs: &Vec<BidiClass>, from: usize) -> (r: bool)
    requires
        from <= cs@.len(),
    ensures
        r == fsi_rtl_from(cs@, from as int, 0),
{
    let n = cs.len();
    let mut i: usize = from;
    let mut depth: usize = 0;
    while i < n
        invariant
            from <= i <= n,
            n == cs@.len(),
            depth <= i,
            fsi_rtl_from(cs@, from as int, 0) == fsi_rtl_from(cs@, i as int, depth as int),
        decreases n - i,
    {
        let c = cs[i];
        if depth > 0 {
            if c == BidiClass::LRI || c == BidiClass::RLI || c == BidiClass::FSI {
                depth += 1;
            } else if c == BidiClass::PDI {
                depth -= 1;
            }
        } else {
            if c == BidiClass::PDI {
                return false;
            } else if c == BidiClass::LRI || c == BidiClass::RLI || c == BidiClass::FSI {
                depth = 1;
            } else if c == BidiClass::L {
                return false;
            } else if c == BidiClass::R || c == BidiClass::AL {
                return true;
            }
        }
        i += 1;
    }
    false
}

} // verus!
