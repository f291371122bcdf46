//! The classification values of the `Bidi_Class` character property.

use vstd::prelude::*;

verus! {

/// One value of the `Bidi_Class` character property: the categorical class
/// that the bidirectional algorithm assigns to a single character.
///
/// The set of values is the fixed schema of the property; it carries no
/// behaviour of its own beyond the membership test [`is_rtl`].
#[derive(Clone, Copy, PartialEq, Eq, Structural, Debug)]
pub enum BidiClass {
    /// Arabic letter (strong right-to-left).
    AL,
    /// Arabic number.
    AN,
    /// Paragraph separator.
    B,
    /// Boundary neutral.
    BN,
    /// Common number separator.
    CS,
    /// European number.
    EN,
    /// European number separator.
    ES,
    /// European number terminator.
    ET,
    /// First strong isolate.
    FSI,
    /// Left-to-right letter (strong).
    L,
    /// Left-to-right embedding.
    LRE,
    /// Left-to-right isolate.
    LRI,
    /// Left-to-right override.
    LRO,
    /// Nonspacing mark.
    NSM,
    /// Other neutral.
    ON,
    /// Pop directional formatting.
    PDF,
    /// Pop directional isolate.
    PDI,
    /// Right-to-left letter (strong).
    R,
    /// Right-to-left embedding.
    RLE,
    /// Right-to-left isolate.
    RLI,
    /// Right-to-left override.
    RLO,
    /// Segment separator.
    S,
    /// Whitespace.
    WS,
}

/// The fixed right-to-left-affiliated subset of the `Bidi_Class` values:
/// the strong right-to-left letter class `R` and the right-to-left
/// embedding, override and isolate controls `RLE`, `RLO` and `RLI`.
pub open spec fn is_rtl_class(class: BidiClass) -> bool {
    ||| class == BidiClass::R
    ||| class == BidiClass::RLE
    ||| class == BidiClass::RLO
    ||| class == BidiClass::RLI
}

/// Whether `class` belongs to the fixed right-to-left-affiliated subset of
/// the `Bidi_Class` schema; `false` for every class outside that subset.
pub fn is_rtl(class: BidiClass) -> (rtl: bool)
    ensures
        rtl == is_rtl_class(class),
{
    match class {
        BidiClass::R | BidiClass::RLE | BidiClass::RLO | BidiClass::RLI => true,
        _ => false,
    }
}

} // verus!
