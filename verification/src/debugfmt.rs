use vstd::prelude::*;
use vstd::string::StringExecFns;
use crate::class::BidiClass;
use crate::class::classes_of;
use crate::class::classify_all;
use crate::para::para_ranges;
use crate::para::ranges_of;
use crate::para::segment;
use crate::para::detect_rtl;
use crate::resolve::para_base;
use crate::resolve::resolved_levels_spec;
use crate::resolve::resolve_para;
use crate::text::chars_of;
use crate::text::subvec;
use crate::BaseDirection;

verus! {

/// The decimal digit character for a value below ten.
pub open spec fn digit_char(d: nat) -> char {
    if d == 0 {
        '0'
    } else if d == 1 {
        '1'
    } else if d == 2 {
        '2'
    } else if d == 3 {
        '3'
    } else if d == 4 {
        '4'
    } else if d == 5 {
        '5'
    } else if d == 6 {
        '6'
    } else if d == 7 {
        '7'
    } else if d == 8 {
        '8'
    } else {
        '9'
    }
}

/// The decimal representation of a number, most significant digit first.
pub open spec fn dec_spec(n: nat) -> Seq<char>
    decreases n,
{
    if n < 10 {
        seq![digit_char(n)]
    } else {
        dec_spec(n / 10).push(digit_char(n % 10))
    }
}

/// The name of a bidirectional category.
pub open spec fn class_name_spec(c: BidiClass) -> Seq<char> {
    match c {
        BidiClass::L => "L"@,
        BidiClass::R => "R"@,
        BidiClass::AL => "AL"@,
        BidiClass::EN => "EN"@,
        BidiClass::ES => "ES"@,
        BidiClass::ET => "ET"@,
        BidiClass::AN => "AN"@,
        BidiClass::CS => "CS"@,
        BidiClass::NSM => "NSM"@,
        BidiClass::BN => "BN"@,
        BidiClass::B => "B"@,
        BidiClass::S => "S"@,
        BidiClass::WS => "WS"@,
        BidiClass::ON => "ON"@,
        BidiClass::LRE => "LRE"@,
        BidiClass::RLE => "RLE"@,
        BidiClass::LRO => "LRO"@,
        BidiClass::RLO => "RLO"@,
        BidiClass::PDF => "PDF"@,
        BidiClass::LRI => "LRI"@,
        BidiClass::RLI => "RLI"@,
        BidiClass::FSI => "FSI"@,
        BidiClass::PDI => "PDI"@,
    }
}

/// Names a bidirectional category.
pub fn class_name(c: BidiClass) -> (r: &'static str)
    ensures
        r@ == class_name_spec(c),
{
    match c {
        BidiClass::L => "L",
        BidiClass::R => "R",
        BidiClass::AL => "AL",
        BidiClass::EN => "EN",
        BidiClass::ES => "ES",
        BidiClass::ET => "ET",
        BidiClass::AN => "AN",
        BidiClass::CS => "CS",
        BidiClass::NSM => "NSM",
        BidiClass::BN => "BN",
        BidiClass::B => "B",
        BidiClass::S => "S",
        BidiClass::WS => "WS",
        BidiClass::ON => "ON",
        BidiClass::LRE => "LRE",
        BidiClass::RLE => "RLE",
        BidiClass::LRO => "LRO",
        BidiClass::RLO => "RLO",
        BidiClass::PDF => "PDF",
        BidiClass::LRI => "LRI",
        BidiClass::RLI => "RLI",
        BidiClass::FSI => "FSI",
        BidiClass::PDI => "PDI",
    }
}

/// One line of the dump describing a paragraph: its index, range and base
/// level.
pub open spec fn para_line_spec(idx: nat, a: int, b: int, l: u8) -> Seq<char> {
    "para "@ + dec_spec(idx) + ": range "@ + dec_spec(a as nat) + ".."@ + dec_spec(b as nat)
        + " level "@ + dec_spec(l as nat) + "\n"@
}

/// The paragraph lines of the dump, one per paragraph range, numbered from
/// `idx`.
pub open spec fn para_lines_spec(
    cs: Seq<BidiClass>,
    dir: BaseDirection,
    rs: Seq<(int, int)>,
    idx: nat,
) -> Seq<char>
    decreases rs.len(),
{
    if rs.len() == 0 {
        Seq::empty()
    } else {
        para_line_spec(idx, rs[0].0, rs[0].1, para_base(cs.subrange(rs[0].0, rs[0].1), dir))
            + para_lines_spec(cs, dir, rs.drop_first(), idx + 1)
    }
}

/// The resolved levels of every character of the text, paragraph by
/// paragraph in buffer order.
pub open spec fn paras_levels(cs: Seq<BidiClass>, rs: Seq<(int, int)>, dir: BaseDirection) -> Seq<
    u8,
>
    decreases rs.len(),
{
    if rs.len() == 0 {
        Seq::empty()
    } else {
        resolved_levels_spec(
            cs.subrange(rs[0].0, rs[0].1),
            para_base(cs.subrange(rs[0].0, rs[0].1), dir),
        ) + paras_levels(cs, rs.drop_first(), dir)
    }
}

/// The level list of the dump from position `i` on: one decimal per
/// character, space separated, closed by a line break.
pub open spec fn levels_join_spec(lv: Seq<u8>, i: int) -> Seq<char>
    decreases lv.len() - i,
{
    if i < 0 || i >= lv.len() {
        "\n"@
    } else {
        " "@ + dec_spec(lv[i] as nat) + levels_join_spec(lv, i + 1)
    }
}

/// The class list of the dump from position `i` on: one category name per
/// character, space separated, closed by a line break.
pub open spec fn classes_join_spec(cs: Seq<BidiClass>, i: int) -> Seq<char>
    decreases cs.len() - i,
{
    if i < 0 || i >= cs.len() {
        "\n"@
    } else {
        " "@ + class_name_spec(cs[i]) + classes_join_spec(cs, i + 1)
    }
}

/// The diagnostic dump of one whole computation: the paragraph count, each
/// paragraph's range and base level, every character's resolved level, and
/// every character's original classification. Deterministic in the text and
/// the requested direction.
pub open spec fn debug_spec(t: Seq<char>, dir: BaseDirection) -> Seq<char> {
    let cs = classes_of(t);
    let rs = para_ranges(cs);
    "paragraphs: "@ + dec_spec(rs.len()) + "\n"@ + para_lines_spec(cs, dir, rs, 0) + "levels:"@
        + levels_join_spec(paras_levels(cs, rs, dir), 0) + "classes:"@ + classes_join_spec(cs, 0)
}

/// Appends the decimal representation of `n`.
fn append_dec(out: &mut String, n: usize)
    ensures
        final(out)@ == old(out)@ + dec_spec(n as nat),
    decreases n,
{
    if n >= 10 {
        append_dec(out, n / 10);
    }
    let ghost mid = out@;
    let m = n % 10;
    let c: char = if m == 0 {
        '0'
    } else if m == 1 {
        '1'
    } else if m == 2 {
        '2'
    } else if m == 3 {
        '3'
    } else if m == 4 {
        '4'
    } else if m == 5 {
        '5'
    } else if m == 6 {
        '6'
    } else if m == 7 {
        '7'
    } else if m == 8 {
        '8'
    } else {
        '9'
    };
    proof {
        assert(c == digit_char((n % 10) as nat));
    }
    out.push(c);
    proof {
        if n < 10 {
            assert(dec_spec(n as nat) == seq![digit_char(n as nat)]);
            assert(out@ =~= old(out)@ + dec_spec(n as nat));
        } else {
            assert(mid == old(out)@ + dec_spec((n / 10) as nat));
            assert(dec_spec(n as nat) == dec_spec((n / 10) as nat).push(
                digit_char((n % 10) as nat),
            ));
            assert(out@ =~= old(out)@ + dec_spec(n as nat));
        }
    }
}

/// Renders the diagnostic dump for one text under the requested direction.
pub fn debug_format(text: &str, dir: BaseDirection) -> (r: String)
    ensures
        r@ == debug_spec(text@, dir),
{
    let chars = chars_of(text);
    let cls = classify_all(&chars);
    let paras = segment(&cls);
    let ghost t = chars@;
    let ghost cs = cls@;
    let ghost rs = para_ranges(cs);
    proof {
        crate::lemma_para_ranges_bounds(cs, 0);
    }
    let mut s = String::new();
    s.append("paragraphs: ");
    append_dec(&mut s, paras.len());
    s.append("\n");
    let ghost head = "paragraphs: "@ + dec_spec(rs.len() as nat) + "\n"@;
    proof {
        assert(s@ =~= head);
        assert(rs.subrange(0, rs.len() as int) =~= rs);
    }
    let mut all_lv: Vec<u8> = Vec::new();
    let mut k: usize = 0;
    while k < paras.len()
        invariant
            k <= paras@.len(),
            paras@.len() == rs.len(),
            ranges_of(paras@) == rs,
            cs == classes_of(t),
            cs.len() == t.len(),
            chars@ == t,
            cls@ == cs,
            rs == para_ranges(cs),
            forall|j: int| 0 <= j < rs.len() ==> 0 <= (#[trigger] rs[j]).0 < rs[j].1 <= cs.len(),
            s@ + para_lines_spec(cs, dir, rs.subrange(k as int, rs.len() as int), k as nat) == head
                + para_lines_spec(cs, dir, rs, 0),
            all_lv@ + paras_levels(cs, rs.subrange(k as int, rs.len() as int), dir)
                == paras_levels(cs, rs, dir),
        decreases paras@.len() - k,
    {
        let p = paras[k];
        proof {
            assert(ranges_of(paras@)[k as int] == (p.start as int, p.end as int));
            assert(rs[k as int].0 == p.start as int && rs[k as int].1 == p.end as int);
        }
        let a = p.start;
        let b = p.end;
        let pc = subvec(&cls, a, b);
        let base: u8 = match dir {
            BaseDirection::ForceLtr => 0,
            BaseDirection::ForceRtl => 1,
            BaseDirection::Auto => if detect_rtl(&pc) {
                1
            } else {
                0
            },
        };
        proof {
            assert(base == para_base(pc@, dir));
        }
        let ghost s0 = s@;
        s.append("para ");
        append_dec(&mut s, k);
        s.append(": range ");
        append_dec(&mut s, a);
        s.append("..");
        append_dec(&mut s, b);
        s.append(" level ");
        append_dec(&mut s, base as usize);
        s.append("\n");
        let mut lv = resolve_para(&pc, base);
        let ghost lvg = lv@;
        let ghost lv0 = all_lv@;
        all_lv.append(&mut lv);
        proof {
            assert(s@ =~= s0 + para_line_spec(k as nat, a as int, b as int, base));
            let tail = rs.subrange(k as int, rs.len() as int);
            assert(tail[0] == rs[k as int]);
            assert(tail.drop_first() =~= rs.subrange(k + 1, rs.len() as int));
            assert(para_lines_spec(cs, dir, tail, k as nat) == para_line_spec(
                k as nat,
                a as int,
                b as int,
                base,
            ) + para_lines_spec(cs, dir, rs.subrange(k + 1, rs.len() as int), (k + 1) as nat));
            assert(s0 + (para_line_spec(k as nat, a as int, b as int, base) + para_lines_spec(
                cs,
                dir,
                rs.subrange(k + 1, rs.len() as int),
                (k + 1) as nat,
            )) =~= (s0 + para_line_spec(k as nat, a as int, b as int, base)) + para_lines_spec(
                cs,
                dir,
                rs.subrange(k + 1, rs.len() as int),
                (k + 1) as nat,
            ));
            assert(paras_levels(cs, tail, dir) == lvg + paras_levels(
                cs,
                rs.subrange(k + 1, rs.len() as int),
                dir,
            ));
            assert(lv0 + (lvg + paras_levels(cs, rs.subrange(k + 1, rs.len() as int), dir)) =~= (lv0
                + lvg) + paras_levels(cs, rs.subrange(k + 1, rs.len() as int), dir));
        }
        k += 1;
    }
    proof {
        assert(rs.subrange(rs.len() as int, rs.len() as int) =~= Seq::<(int, int)>::empty());
        assert(s@ + Seq::<char>::empty() =~= s@);
        assert(all_lv@ + Seq::<u8>::empty() =~= all_lv@);
        assert(s@ == head + para_lines_spec(cs, dir, rs, 0));
        assert(all_lv@ == paras_levels(cs, rs, dir));
    }
    let ghost head2 = head + para_lines_spec(cs, dir, rs, 0) + "levels:"@;
    s.append("levels:");
    proof {
        assert(s@ =~= head2);
    }
    let ghost alv = all_lv@;
    let n_lv = all_lv.len();
    let mut i: usize = 0;
    while i < n_lv
        invariant
            i <= n_lv,
            n_lv == alv.len(),
            all_lv@ == alv,
            s@ + levels_join_spec(alv, i as int) == head2 + levels_join_spec(alv, 0),
        decreases n_lv - i,
    {
        let ghost s1 = s@;
        s.append(" ");
        append_dec(&mut s, all_lv[i] as usize);
        proof {
            assert(levels_join_spec(alv, i as int) == " "@ + dec_spec(alv[i as int] as nat)
                + levels_join_spec(alv, i + 1));
            assert(s@ =~= s1 + (" "@ + dec_spec(alv[i as int] as nat)));
            assert(s1 + (" "@ + dec_spec(alv[i as int] as nat) + levels_join_spec(alv, i + 1)) =~= (
            s1 + (" "@ + dec_spec(alv[i as int] as nat))) + levels_join_spec(alv, i + 1));
            assert(s1 + ((" "@ + dec_spec(alv[i as int] as nat)) + levels_join_spec(alv, i + 1))
                =~= s1 + (" "@ + dec_spec(alv[i as int] as nat) + levels_join_spec(alv, i + 1)));
        }
        i += 1;
    }
    s.append("\n");
    let ghost head3 = head2 + levels_join_spec(alv, 0) + "classes:"@;
    s.append("classes:");
    proof {
        assert(levels_join_spec(alv, n_lv as int) == "\n"@);
        assert(s@ =~= head3);
    }
    let n_cs = cls.len();
    let mut j: usize = 0;
    while j < n_cs
        invariant
            j <= n_cs,
            n_cs == cs.len(),
            cls@ == cs,
            s@ + classes_join_spec(cs, j as int) == head3 + classes_join_spec(cs, 0),
        decreases n_cs - j,
    {
        let ghost s1 = s@;
        s.append(" ");
        s.append(class_name(cls[j]));
        proof {
            assert(classes_join_spec(cs, j as int) == " "@ + class_name_spec(cs[j as int])
                + classes_join_spec(cs, j + 1));
            assert(s@ =~= s1 + (" "@ + class_name_spec(cs[j as int])));
            assert(s1 + (" "@ + class_name_spec(cs[j as int]) + classes_join_spec(cs, j + 1)) =~= (
            s1 + (" "@ + class_name_spec(cs[j as int]))) + classes_join_spec(cs, j + 1));
            assert(s1 + ((" "@ + class_name_spec(cs[j as int])) + classes_join_spec(cs, j + 1)) =~=
            s1 + (" "@ + class_name_spec(cs[j as int]) + classes_join_spec(cs, j + 1)));
        }
        j += 1;
    }
    s.append("\n");
    proof {
        assert(classes_join_spec(cs, n_cs as int) == "\n"@);
        assert(s@ =~= debug_spec(t, dir));
    }
    s
}

} // verus!
