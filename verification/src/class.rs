use vstd::prelude::*;

verus! {

/// Bidirectional character category: the Unicode `Bidi_Class` property of a
/// code point, including the explicit formatting categories.
#[derive(Clone, Copy, PartialEq, Eq, Structural, Debug)]
pub enum BidiClass {
    /// Strong left-to-right letter.
    L,
    /// Strong right-to-left letter.
    R,
    /// Strong right-to-left Arabic letter.
    AL,
    /// European number.
    EN,
    /// European number separator.
    ES,
    /// European number terminator.
    ET,
    /// Arabic number.
    AN,
    /// Common number separator.
    CS,
    /// Nonspacing mark.
    NSM,
    /// Boundary neutral.
    BN,
    /// Paragraph separator.
    B,
    /// Segment separator.
    S,
    /// Whitespace.
    WS,
    /// Other neutral.
    ON,
    /// Left-to-right embedding.
    LRE,
    /// Right-to-left embedding.
    RLE,
    /// Left-to-right override.
    LRO,
    /// Right-to-left override.
    RLO,
    /// Pop directional format.
    PDF,
    /// Left-to-right isolate.
    LRI,
    /// Right-to-left isolate.
    RLI,
    /// First-strong isolate.
    FSI,
    /// Pop directional isolate.
    PDI,
}

/// The position, in declaration order, of the `Bidi_Class` of code point `c`
/// within `unicode_bidi`'s own `BidiClass` enumeration. The class of a code
/// point is a pure function of the code point, drawn from the Unicode
/// character database.
pub uninterp spec fn class_code_of(c: char) -> u8;

/// Relies on `unicode_bidi::bidi_class`: it returns the `Bidi_Class` of the
/// code point, a pure function of the code point alone, backed by the Unicode
/// character database tables compiled into that crate. The cast yields the
/// position of the variant in that crate's 23-variant `BidiClass` declaration
/// (AL, AN, B, BN, CS, EN, ES, ET, FSI, L, LRE, LRI, LRO, NSM, ON, PDF, PDI,
/// R, RLE, RLI, RLO, S, WS), so the result is always at most 22.
#[verifier::external_body]
fn bidi_class_code(c: char) -> (r: u8)
    ensures
        r == class_code_of(c),
        r <= 22,
{
    unicode_bidi::bidi_class(c) as u8
}

/// Maps the numeric code produced by `bidi_class_code` back to a category,
/// following the declaration order of `unicode_bidi`'s `BidiClass`.
pub open spec fn class_from_code(n: u8) -> BidiClass {
    if n == 0 {
        BidiClass::AL
    } else if n == 1 {
        BidiClass::AN
    } else if n == 2 {
        BidiClass::B
    } else if n == 3 {
        BidiClass::BN
    } else if n == 4 {
        BidiClass::CS
    } else if n == 5 {
        BidiClass::EN
    } else if n == 6 {
        BidiClass::ES
    } else if n == 7 {
        BidiClass::ET
    } else if n == 8 {
        BidiClass::FSI
    } else if n == 9 {
        BidiClass::L
    } else if n == 10 {
        BidiClass::LRE
    } else if n == 11 {
        BidiClass::LRI
    } else if n == 12 {
        BidiClass::LRO
    } else if n == 13 {
        BidiClass::NSM
    } else if n == 14 {
        BidiClass::ON
    } else if n == 15 {
        BidiClass::PDF
    } else if n == 16 {
        BidiClass::PDI
    } else if n == 17 {
        BidiClass::R
    } else if n == 18 {
        BidiClass::RLE
    } else if n == 19 {
        BidiClass::RLI
    } else if n == 20 {
        BidiClass::RLO
    } else if n == 21 {
        BidiClass::S
    } else {
        BidiClass::WS
    }
}

/// The bidirectional category of a code point.
pub open spec fn class_of(c: char) -> BidiClass {
    class_from_code(class_code_of(c))
}

/// The categories of a whole text, one per character position.
pub open spec fn classes_of(t: Seq<char>) -> Seq<BidiClass> {
    Seq::new(t.len(), |i: int| class_of(t[i]))
}

/// Classifies one code point.
pub fn classify(c: char) -> (r: BidiClass)
    ensures
        r == class_of(c),
{
    let code = bidi_class_code(c);
    if code == 0 {
        BidiClass::AL
    } else if code == 1 {
        BidiClass::AN
    } else if code == 2 {
        BidiClass::B
    } else if code == 3 {
        BidiClass::BN
    } else if code == 4 {
        BidiClass::CS
    } else if code == 5 {
        BidiClass::EN
    } else if code == 6 {
        BidiClass::ES
    } else if code == 7 {
        BidiClass::ET
    } else if code == 8 {
        BidiClass::FSI
    } else if code == 9 {
        BidiClass::L
    } else if code == 10 {
        BidiClass::LRE
    } else if code == 11 {
        BidiClass::LRI
    } else if code == 12 {
        BidiClass::LRO
    } else if code == 13 {
        BidiClass::NSM
    } else if code == 14 {
        BidiClass::ON
    } else if code == 15 {
        BidiClass::PDF
    } else if code == 16 {
        BidiClass::PDI
    } else if code == 17 {
        BidiClass::R
    } else if code == 18 {
        BidiClass::RLE
    } else if code == 19 {
        BidiClass::RLI
    } else if code == 20 {
        BidiClass::RLO
    } else if code == 21 {
        BidiClass::S
    } else {
        BidiClass::WS
    }
}

/// Classifies every character of a buffer.
pub fn classify_all(chars: &Vec<char>) -> (r: Vec<BidiClass>)
    ensures
        r@ == classes_of(chars@),
{
    let mut v: Vec<BidiClass> = Vec::new();
    let mut i: usize = 0;
    while i < chars.len()
        invariant
            i <= chars@.len(),
            v@.len() == i,
            forall|j: int| 0 <= j < i ==> v@[j] == class_of(chars@[j]),
        decreases chars@.len() - i,
    {
        v.push(classify(chars[i]));
        i += 1;
    }
    proof {
        assert(v@ =~= classes_of(chars@));
    }
    v
}

/// Strong directional category (rules P2, W-group).
pub open spec fn is_strong(c: BidiClass) -> bool {
    c == BidiClass::L || c == BidiClass::R || c == BidiClass::AL
}

/// Isolate initiator (LRI, RLI or FSI).
pub open spec fn is_isolate_init(c: BidiClass) -> bool {
    c == BidiClass::LRI || c == BidiClass::RLI || c == BidiClass::FSI
}

/// Embedding or override initiator (LRE, RLE, LRO or RLO).
pub open spec fn is_explicit_embed(c: BidiClass) -> bool {
    c == BidiClass::LRE || c == BidiClass::RLE || c == BidiClass::LRO || c == BidiClass::RLO
}

/// Category that the explicit phase leaves behind as a boundary neutral.
pub open spec fn is_removed_class(c: BidiClass) -> bool {
    is_explicit_embed(c) || c == BidiClass::PDF || c == BidiClass::BN
}

/// Neutral category for the neutral-resolution rules.
pub open spec fn is_neutral_class(c: BidiClass) -> bool {
    c == BidiClass::B || c == BidiClass::S || c == BidiClass::WS || c == BidiClass::ON || c
        == BidiClass::BN
}

/// Category whose member characters are reset to the paragraph level when they
/// trail a line or run up to a separator (rule L1).
pub open spec fn is_reset_class(c: BidiClass) -> bool {
    c == BidiClass::WS || is_isolate_init(c) || c == BidiClass::PDI || is_removed_class(c)
}

} // verus!
