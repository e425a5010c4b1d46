use vstd::prelude::*;
use crate::class::BidiClass;
use crate::class::is_isolate_init;
use crate::class::is_explicit_embed;
use crate::para::fsi_rtl_from;
use crate::para::fsi_scan;

verus! {

/// Maximum explicit embedding depth: pushes that would exceed it are ignored.
pub const MAX_DEPTH: u8 = 125;

/// Directional override status of a stack entry.
#[derive(Clone, Copy, PartialEq, Eq, Structural, Debug)]
pub enum OverrideStatus {
    /// No override in effect.
    Neutral,
    /// Characters are forced to class L.
    ForceL,
    /// Characters are forced to class R.
    ForceR,
}

/// One entry of the directional status stack.
#[derive(Clone, Copy, PartialEq, Eq, Structural, Debug)]
pub struct StackEntry {
    /// Embedding level in effect.
    pub level: u8,
    /// Override status in effect.
    pub override_status: OverrideStatus,
    /// Whether this entry was pushed by an isolate initiator.
    pub isolate: bool,
}

/// State of the explicit phase: the directional status stack and the
/// overflow bookkeeping counters. Used in specifications.
pub struct ExplState {
    /// The directional status stack, bottom first; never empty.
    pub stack: Seq<StackEntry>,
    /// Isolate initiators ignored for exceeding the depth limit.
    pub overflow_isolate: int,
    /// Embedding initiators ignored for exceeding the depth limit.
    pub overflow_embedding: int,
    /// Isolate entries currently on the stack.
    pub valid_isolate: int,
}

/// The result of the explicit phase over a prefix of a paragraph: the final
/// state, and per character the embedding level in effect and the class left
/// for the implicit phase.
pub struct ExplOut {
    /// State after processing the prefix.
    pub st: ExplState,
    /// Embedding level tagged to each character.
    pub levels: Seq<u8>,
    /// Working class of each character after this phase.
    pub classes: Seq<BidiClass>,
}

/// Initial state: one entry carrying the paragraph's base level.
pub open spec fn init_state(base: u8) -> ExplState {
    ExplState {
        stack: seq![
            StackEntry { level: base, override_status: OverrideStatus::Neutral, isolate: false },
        ],
        overflow_isolate: 0,
        overflow_embedding: 0,
        valid_isolate: 0,
    }
}

/// Least odd level strictly greater than `l`.
pub open spec fn next_odd(l: u8) -> u8 {
    if l % 2 == 1 {
        (l + 2) as u8
    } else {
        (l + 1) as u8
    }
}

/// Least even level strictly greater than `l`.
pub open spec fn next_even(l: u8) -> u8 {
    if l % 2 == 0 {
        (l + 2) as u8
    } else {
        (l + 1) as u8
    }
}

/// Pops entries until an isolate entry has been popped.
pub open spec fn pop_to_isolate(stack: Seq<StackEntry>) -> Seq<StackEntry>
    decreases stack.len(),
{
    if stack.len() == 0 {
        stack
    } else if stack.last().isolate {
        stack.drop_last()
    } else {
        pop_to_isolate(stack.drop_last())
    }
}

/// Number of isolate entries on the stack.
pub open spec fn num_isolates(stack: Seq<StackEntry>) -> int
    decreases stack.len(),
{
    if stack.len() == 0 {
        0
    } else {
        num_isolates(stack.drop_last()) + if stack.last().isolate {
            1int
        } else {
            0int
        }
    }
}

/// Applies the override status in effect to a character's class.
pub open spec fn with_override(c: BidiClass, os: OverrideStatus) -> BidiClass {
    match os {
        OverrideStatus::Neutral => c,
        OverrideStatus::ForceL => BidiClass::L,
        OverrideStatus::ForceR => BidiClass::R,
    }
}

/// One step of the explicit phase on class `c`; `fsi_rtl` is the detected
/// direction of the isolate's contents when `c` is FSI. Returns the next
/// state, the level tagged to the character, and its working class.
pub open spec fn expl_step(st: ExplState, c: BidiClass, fsi_rtl: bool) -> (ExplState, u8, BidiClass) {
    let t = st.stack.last();
    if is_explicit_embed(c) {
        let rtl = c == BidiClass::RLE || c == BidiClass::RLO;
        let newl = if rtl {
            next_odd(t.level)
        } else {
            next_even(t.level)
        };
        let os = if c == BidiClass::RLO {
            OverrideStatus::ForceR
        } else if c == BidiClass::LRO {
            OverrideStatus::ForceL
        } else {
            OverrideStatus::Neutral
        };
        let st2 = if newl <= MAX_DEPTH && st.overflow_isolate == 0 && st.overflow_embedding == 0 {
            ExplState {
                stack: st.stack.push(
                    StackEntry { level: newl, override_status: os, isolate: false },
                ),
                overflow_isolate: st.overflow_isolate,
                overflow_embedding: st.overflow_embedding,
                valid_isolate: st.valid_isolate,
            }
        } else if st.overflow_isolate == 0 {
            ExplState {
                stack: st.stack,
                overflow_isolate: st.overflow_isolate,
                overflow_embedding: st.overflow_embedding + 1,
                valid_isolate: st.valid_isolate,
            }
        } else {
            st
        };
        (st2, t.level, BidiClass::BN)
    } else if is_isolate_init(c) {
        let rtl = c == BidiClass::RLI || (c == BidiClass::FSI && fsi_rtl);
        let newl = if rtl {
            next_odd(t.level)
        } else {
            next_even(t.level)
        };
        let st2 = if newl <= MAX_DEPTH && st.overflow_isolate == 0 && st.overflow_embedding == 0 {
            ExplState {
                stack: st.stack.push(
                    StackEntry {
                        level: newl,
                        override_status: OverrideStatus::Neutral,
                        isolate: true,
                    },
                ),
                overflow_isolate: st.overflow_isolate,
                overflow_embedding: st.overflow_embedding,
                valid_isolate: st.valid_isolate + 1,
            }
        } else {
            ExplState {
                stack: st.stack,
                overflow_isolate: st.overflow_isolate + 1,
                overflow_embedding: st.overflow_embedding,
                valid_isolate: st.valid_isolate,
            }
        };
        (st2, t.level, with_override(BidiClass::ON, t.override_status))
    } else if c == BidiClass::PDI {
        let st2 = if st.overflow_isolate > 0 {
            ExplState {
                stack: st.stack,
                overflow_isolate: st.overflow_isolate - 1,
                overflow_embedding: st.overflow_embedding,
                valid_isolate: st.valid_isolate,
            }
        } else if st.valid_isolate > 0 {
            ExplState {
                stack: pop_to_isolate(st.stack),
                overflow_isolate: st.overflow_isolate,
                overflow_embedding: 0,
                valid_isolate: st.valid_isolate - 1,
            }
        } else {
            st
        };
        let t2 = st2.stack.last();
        (st2, t2.level, with_override(BidiClass::ON, t2.override_status))
    } else if c == BidiClass::PDF {
        let st2 = if st.overflow_isolate > 0 {
            st
        } else if st.overflow_embedding > 0 {
            ExplState {
                stack: st.stack,
                overflow_isolate: st.overflow_isolate,
                overflow_embedding: st.overflow_embedding - 1,
                valid_isolate: st.valid_isolate,
            }
        } else if !t.isolate && st.stack.len() >= 2 {
            ExplState {
                stack: st.stack.drop_last(),
                overflow_isolate: st.overflow_isolate,
                overflow_embedding: st.overflow_embedding,
                valid_isolate: st.valid_isolate,
            }
        } else {
            st
        };
        (st2, t.level, BidiClass::BN)
    } else if c == BidiClass::B {
        (st, st.stack[0].level, BidiClass::B)
    } else if c == BidiClass::BN {
        (st, t.level, BidiClass::BN)
    } else {
        (st, t.level, with_override(c, t.override_status))
    }
}

/// Explicit phase over the first `i` characters of a paragraph's classes.
pub open spec fn expl_prefix(cs: Seq<BidiClass>, base: u8, i: int) -> ExplOut
    decreases i,
{
    if i <= 0 {
        ExplOut { st: init_state(base), levels: Seq::empty(), classes: Seq::empty() }
    } else {
        let p = expl_prefix(cs, base, i - 1);
        let stp = expl_step(p.st, cs[i - 1], fsi_rtl_from(cs, i, 0));
        ExplOut { st: stp.0, levels: p.levels.push(stp.1), classes: p.classes.push(stp.2) }
    }
}

/// Explicit phase over a whole paragraph.
pub open spec fn expl_out(cs: Seq<BidiClass>, base: u8) -> ExplOut {
    expl_prefix(cs, base, cs.len() as int)
}

/// Well-formedness of the explicit-phase state.
pub open spec fn wf_state(st: ExplState, base: u8) -> bool {
    &&& st.stack.len() >= 1
    &&& st.stack[0] == (StackEntry {
        level: base,
        override_status: OverrideStatus::Neutral,
        isolate: false,
    })
    &&& forall|k: int| 0 <= k < st.stack.len() ==> (#[trigger] st.stack[k]).level <= MAX_DEPTH
    &&& st.valid_isolate == num_isolates(st.stack)
    &&& st.overflow_isolate >= 0
    &&& st.overflow_embedding >= 0
}

proof fn lemma_pop_to_isolate(stack: Seq<StackEntry>)
    requires
        num_isolates(stack) > 0,
        stack.len() >= 1,
        !stack[0].isolate,
    ensures
        1 <= pop_to_isolate(stack).len() < stack.len(),
        num_isolates(pop_to_isolate(stack)) == num_isolates(stack) - 1,
        forall|k: int|
            0 <= k < pop_to_isolate(stack).len() ==> pop_to_isolate(stack)[k] == stack[k],
    decreases stack.len(),
{
    assert(forall|k: int|
        0 <= k < stack.len() - 1 ==> #[trigger] stack.drop_last()[k] == stack[k]);
    if stack.last().isolate {
        assert(stack.len() >= 2);
        assert(pop_to_isolate(stack) == stack.drop_last());
    } else {
        assert(num_isolates(stack.drop_last()) == num_isolates(stack));
        assert(stack.drop_last()[0] == stack[0]);
        lemma_pop_to_isolate(stack.drop_last());
        assert(pop_to_isolate(stack) == pop_to_isolate(stack.drop_last()));
        assert forall|k: int|
            0 <= k < pop_to_isolate(stack).len() implies pop_to_isolate(stack)[k] == stack[k] by {
            assert(pop_to_isolate(stack.drop_last())[k] == stack.drop_last()[k]);
            assert(stack.drop_last()[k] == stack[k]);
        }
    }
}

proof fn lemma_push_num_isolates(stack: Seq<StackEntry>, e: StackEntry)
    ensures
        num_isolates(stack.push(e)) == num_isolates(stack) + if e.isolate {
            1int
        } else {
            0int
        },
{
    assert(stack.push(e).drop_last() =~= stack);
    assert(stack.push(e).last() == e);
}

proof fn lemma_step_wf(st: ExplState, c: BidiClass, f: bool, base: u8)
    requires
        wf_state(st, base),
        base <= MAX_DEPTH,
    ensures
        wf_state(expl_step(st, c, f).0, base),
        expl_step(st, c, f).1 <= MAX_DEPTH,
{
    let t = st.stack.last();
    assert(t == st.stack[st.stack.len() - 1]);
    assert(t.level <= MAX_DEPTH);
    if is_explicit_embed(c) {
        let rtl = c == BidiClass::RLE || c == BidiClass::RLO;
        let newl = if rtl {
            next_odd(t.level)
        } else {
            next_even(t.level)
        };
        if newl <= MAX_DEPTH && st.overflow_isolate == 0 && st.overflow_embedding == 0 {
            let os = if c == BidiClass::RLO {
                OverrideStatus::ForceR
            } else if c == BidiClass::LRO {
                OverrideStatus::ForceL
            } else {
                OverrideStatus::Neutral
            };
            lemma_push_num_isolates(
                st.stack,
                StackEntry { level: newl, override_status: os, isolate: false },
            );
        }
    } else if is_isolate_init(c) {
        let rtl = c == BidiClass::RLI || (c == BidiClass::FSI && f);
        let newl = if rtl {
            next_odd(t.level)
        } else {
            next_even(t.level)
        };
        if newl <= MAX_DEPTH && st.overflow_isolate == 0 && st.overflow_embedding == 0 {
            lemma_push_num_isolates(
                st.stack,
                StackEntry { level: newl, override_status: OverrideStatus::Neutral, isolate: true },
            );
        }
    } else if c == BidiClass::PDI {
        if st.overflow_isolate > 0 {
        } else if st.valid_isolate > 0 {
            lemma_pop_to_isolate(st.stack);
            let popped = pop_to_isolate(st.stack);
            assert(popped.last() == popped[popped.len() - 1]);
            assert(popped[popped.len() - 1] == st.stack[popped.len() - 1]);
            assert(popped.last().level <= MAX_DEPTH);
        }
    } else if c == BidiClass::PDF {
        if st.overflow_isolate == 0 && st.overflow_embedding == 0 && !t.isolate && st.stack.len()
            >= 2 {
            assert(num_isolates(st.stack.drop_last()) == num_isolates(st.stack));
            assert(st.stack.drop_last()[0] == st.stack[0]);
        }
    }
}

/// The explicit phase keeps a well-formed state and tags every character with
/// a level no greater than the maximum depth.
pub proof fn lemma_expl_prefix_wf(cs: Seq<BidiClass>, base: u8, i: int)
    requires
        base <= MAX_DEPTH,
        0 <= i <= cs.len(),
    ensures
        wf_state(expl_prefix(cs, base, i).st, base),
        expl_prefix(cs, base, i).levels.len() == i,
        expl_prefix(cs, base, i).classes.len() == i,
        forall|j: int| 0 <= j < i ==> expl_prefix(cs, base, i).levels[j] <= MAX_DEPTH,
    decreases i,
{
    if i <= 0 {
        assert(num_isolates(init_state(base).stack) == 0) by {
            let s = init_state(base).stack;
            assert(s.len() == 1);
            assert(s.last() == s[0]);
            assert(!s[0].isolate);
            assert(s.drop_last() =~= Seq::<StackEntry>::empty());
            assert(num_isolates(Seq::<StackEntry>::empty()) == 0);
        }
    } else {
        lemma_expl_prefix_wf(cs, base, i - 1);
        lemma_step_wf(expl_prefix(cs, base, i - 1).st, cs[i - 1], fsi_rtl_from(cs, i, 0), base);
    }
}

/// Runs the explicit phase over one paragraph's classes: a stack machine that
/// processes the explicit formatting characters left to right and tags every
/// character with the embedding level and override status in effect. Returns
/// the per-character levels and the working classes for the implicit phase.
pub fn resolve_explicit(cs: &Vec<BidiClass>, base: u8) -> (r: (Vec<u8>, Vec<BidiClass>))
    requires
        base <= 1,
    ensures
        r.0@ == expl_out(cs@, base).levels,
        r.1@ == expl_out(cs@, base).classes,
        r.0@.len() == cs@.len(),
        r.1@.len() == cs@.len(),
        forall|j: int| 0 <= j < cs@.len() ==> r.0@[j] <= MAX_DEPTH,
{
    let n = cs.len();
    let mut levels: Vec<u8> = Vec::new();
    let mut out: Vec<BidiClass> = Vec::new();
    let mut stack: Vec<StackEntry> = Vec::new();
    stack.push(StackEntry { level: base, override_status: OverrideStatus::Neutral, isolate: false });
    let mut oi: usize = 0;
    let mut oe: usize = 0;
    let mut vi: usize = 0;
    let mut i: usize = 0;
    while i < n
        invariant
            i <= n,
            n == cs@.len(),
            base <= 1,
            stack@ == expl_prefix(cs@, base, i as int).st.stack,
            oi == expl_prefix(cs@, base, i as int).st.overflow_isolate,
            oe == expl_prefix(cs@, base, i as int).st.overflow_embedding,
            vi == expl_prefix(cs@, base, i as int).st.valid_isolate,
            levels@ == expl_prefix(cs@, base, i as int).levels,
            out@ == expl_prefix(cs@, base, i as int).classes,
            oi + oe + vi <= i,
        decreases n - i,
    {
        proof {
            lemma_expl_prefix_wf(cs@, base, i as int);
            lemma_expl_prefix_wf(cs@, base, i + 1);
        }
        let ghost stg = expl_prefix(cs@, base, i as int).st;
        let ghost frtl_spec = fsi_rtl_from(cs@, i + 1, 0);
        let t = stack[stack.len() - 1];
        proof {
            assert(t == stg.stack.last());
        }
        let c = cs[i];
        let lv: u8;
        let oc: BidiClass;
        if c == BidiClass::LRE || c == BidiClass::RLE || c == BidiClass::LRO || c == BidiClass::RLO {
            lv = t.level;
            oc = BidiClass::BN;
            let rtl = c == BidiClass::RLE || c == BidiClass::RLO;
            let newl: u8 = if rtl {
                if t.level % 2 == 1 {
                    t.level + 2
                } else {
                    t.level + 1
                }
            } else {
                if t.level % 2 == 0 {
                    t.level + 2
                } else {
                    t.level + 1
                }
            };
            if newl <= MAX_DEPTH && oi == 0 && oe == 0 {
                let os = if c == BidiClass::RLO {
                    OverrideStatus::ForceR
                } else if c == BidiClass::LRO {
                    OverrideStatus::ForceL
                } else {
                    OverrideStatus::Neutral
                };
                stack.push(StackEntry { level: newl, override_status: os, isolate: false });
            } else if oi == 0 {
                oe += 1;
            }
        } else if c == BidiClass::LRI || c == BidiClass::RLI || c == BidiClass::FSI {
            lv = t.level;
            oc = if t.override_status == OverrideStatus::ForceL {
                BidiClass::L
            } else if t.override_status == OverrideStatus::ForceR {
                BidiClass::R
            } else {
                BidiClass::ON
            };
            let frtl = if c == BidiClass::FSI {
                fsi_scan(cs, i + 1)
            } else {
                false
            };
            let rtl = c == BidiClass::RLI || (c == BidiClass::FSI && frtl);
            let newl: u8 = if rtl {
                if t.level % 2 == 1 {
                    t.level + 2
                } else {
                    t.level + 1
                }
            } else {
                if t.level % 2 == 0 {
                    t.level + 2
                } else {
                    t.level + 1
                }
            };
            if newl <= MAX_DEPTH && oi == 0 && oe == 0 {
                vi += 1;
                stack.push(
                    StackEntry {
                        level: newl,
                        override_status: OverrideStatus::Neutral,
                        isolate: true,
                    },
                );
            } else {
                oi += 1;
            }
        } else if c == BidiClass::PDI {
            if oi > 0 {
                oi -= 1;
            } else if vi > 0 {
                oe = 0;
                vi -= 1;
                proof {
                    lemma_pop_to_isolate(stg.stack);
                }
                while !stack[stack.len() - 1].isolate
                    invariant
                        stack@.len() >= 1,
                        num_isolates(stack@) >= 1,
                        !stack@[0].isolate,
                        pop_to_isolate(stack@) == pop_to_isolate(stg.stack),
                    decreases stack@.len(),
                {
                    proof {
                        if stack@.len() == 1 {
                            assert(num_isolates(stack@.drop_last()) == 0);
                            assert(stack@.drop_last() =~= Seq::<StackEntry>::empty());
                            assert(false);
                        }
                        assert(num_isolates(stack@.drop_last()) == num_isolates(stack@));
                        assert(stack@.drop_last()[0] == stack@[0]);
                    }
                    let ghost pre = stack@;
                    stack.pop();
                    proof {
                        assert(stack@ =~= pre.drop_last());
                    }
                }
                let ghost pre2 = stack@;
                stack.pop();
                proof {
                    assert(stack@ =~= pre2.drop_last());
                    assert(stack@ == pop_to_isolate(stg.stack));
                }
            }
            proof {
                if stg.overflow_isolate == 0 && stg.valid_isolate > 0 {
                    lemma_pop_to_isolate(stg.stack);
                }
            }
            let t2 = stack[stack.len() - 1];
            lv = t2.level;
            oc = if t2.override_status == OverrideStatus::ForceL {
                BidiClass::L
            } else if t2.override_status == OverrideStatus::ForceR {
                BidiClass::R
            } else {
                BidiClass::ON
            };
        } else if c == BidiClass::PDF {
            lv = t.level;
            oc = BidiClass::BN;
            if oi > 0 {
            } else if oe > 0 {
                oe -= 1;
            } else if !t.isolate && stack.len() >= 2 {
                let ghost pre = stack@;
                stack.pop();
                proof {
                    assert(stack@ =~= pre.drop_last());
                }
            }
        } else if c == BidiClass::B {
            lv = stack[0].level;
            oc = BidiClass::B;
        } else if c == BidiClass::BN {
            lv = t.level;
            oc = BidiClass::BN;
        } else {
            lv = t.level;
            oc = if t.override_status == OverrideStatus::ForceL {
                BidiClass::L
            } else if t.override_status == OverrideStatus::ForceR {
                BidiClass::R
            } else {
                c
            };
        }
        levels.push(lv);
        out.push(oc);
        proof {
            let stp = expl_step(stg, cs@[i as int], frtl_spec);
            assert(expl_prefix(cs@, base, i + 1).st == stp.0);
            assert(expl_prefix(cs@, base, i + 1).levels == expl_prefix(
                cs@,
                base,
                i as int,
            ).levels.push(stp.1));
            assert(stack@ == stp.0.stack);
            assert(lv == stp.1);
            assert(oc == stp.2);
        }
        i += 1;
    }
    proof {
        lemma_expl_prefix_wf(cs@, base, n as int);
    }
    (levels, out)
}

} // verus!
