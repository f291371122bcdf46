//! Classification of single characters through a compiled table, probed at
//! codepoints whose `Bidi_Class` the Unicode Character Database fixes.

use bidi_table::bidi_class;
use bidi_table::compile;
use bidi_table::BidiClass;
use bidi_table::CodepointRange;
use bidi_table::CompiledTable;
use bidi_table::RangeTable;

fn range(start: u32, end: u32, class: BidiClass) -> CodepointRange {
    CodepointRange { start, end, class }
}

/// A range list matching the Unicode `Bidi_Class` data on every codepoint
/// probed below; codepoints outside all ranges carry the default `L`.
fn sample_ranges() -> Vec<CodepointRange> {
    vec![
        range(0x0000, 0x0008, BidiClass::BN),
        range(0x0040, 0x0040, BidiClass::ON),
        range(0x0041, 0x005A, BidiClass::L),
        range(0x0061, 0x007A, BidiClass::L),
        range(0x007F, 0x0084, BidiClass::BN),
        range(0x0590, 0x05FF, BidiClass::R),
        range(0x0600, 0x0605, BidiClass::AN),
        range(0x0608, 0x07BF, BidiClass::AL),
        range(0x07C0, 0x085F, BidiClass::R),
        range(0x0860, 0x086A, BidiClass::AL),
        range(0x0870, 0x089F, BidiClass::R),
        range(0x08A0, 0x08E1, BidiClass::AL),
        range(0x08E3, 0x08FF, BidiClass::NSM),
        range(0x20A0, 0x20CF, BidiClass::ET),
        range(0xFB1D, 0xFB4F, BidiClass::R),
        range(0xFB50, 0xFDCF, BidiClass::AL),
        range(0xFDF0, 0xFDFF, BidiClass::AL),
        range(0xFE70, 0xFEFE, BidiClass::AL),
        range(0xFEFF, 0xFEFF, BidiClass::BN),
        range(0x10800, 0x10FFF, BidiClass::R),
        range(0x1E800, 0x1EDFF, BidiClass::R),
        range(0x1EE00, 0x1EEFF, BidiClass::AL),
        range(0x1EF00, 0x1EFFF, BidiClass::R),
    ]
}

fn sample_table() -> CompiledTable {
    let table = RangeTable::new(sample_ranges(), BidiClass::L).unwrap();
    compile(&table).unwrap()
}

#[test]
fn test_ascii() {
    let t = sample_table();
    assert_eq!(bidi_class('\u{0000}', &t), BidiClass::BN);
    assert_eq!(bidi_class('\u{0040}', &t), BidiClass::ON);
    assert_eq!(bidi_class('\u{0041}', &t), BidiClass::L);
    assert_eq!(bidi_class('\u{0062}', &t), BidiClass::L);
    assert_eq!(bidi_class('\u{007F}', &t), BidiClass::BN);
}

#[test]
fn test_bmp() {
    let t = sample_table();

    // Hebrew
    assert_eq!(bidi_class('\u{0590}', &t), BidiClass::R);
    assert_eq!(bidi_class('\u{05D0}', &t), BidiClass::R);
    assert_eq!(bidi_class('\u{05D1}', &t), BidiClass::R);
    assert_eq!(bidi_class('\u{05FF}', &t), BidiClass::R);

    // Arabic
    assert_eq!(bidi_class('\u{0600}', &t), BidiClass::AN);
    assert_eq!(bidi_class('\u{0627}', &t), BidiClass::AL);
    assert_eq!(bidi_class('\u{07BF}', &t), BidiClass::AL);

    // Default R + Arabic Extras
    assert_eq!(bidi_class('\u{07C0}', &t), BidiClass::R);
    assert_eq!(bidi_class('\u{085F}', &t), BidiClass::R);
    assert_eq!(bidi_class('\u{0860}', &t), BidiClass::AL);
    assert_eq!(bidi_class('\u{0870}', &t), BidiClass::R);
    assert_eq!(bidi_class('\u{089F}', &t), BidiClass::R);
    assert_eq!(bidi_class('\u{08A0}', &t), BidiClass::AL);
    assert_eq!(bidi_class('\u{089F}', &t), BidiClass::R);
    assert_eq!(bidi_class('\u{08FF}', &t), BidiClass::NSM);

    // Default ET
    assert_eq!(bidi_class('\u{20A0}', &t), BidiClass::ET);
    assert_eq!(bidi_class('\u{20CF}', &t), BidiClass::ET);

    // Arabic Presentation Forms
    assert_eq!(bidi_class('\u{FB1D}', &t), BidiClass::R);
    assert_eq!(bidi_class('\u{FB4F}', &t), BidiClass::R);
    assert_eq!(bidi_class('\u{FB50}', &t), BidiClass::AL);
    assert_eq!(bidi_class('\u{FDCF}', &t), BidiClass::AL);
    assert_eq!(bidi_class('\u{FDF0}', &t), BidiClass::AL);
    assert_eq!(bidi_class('\u{FDFF}', &t), BidiClass::AL);
    assert_eq!(bidi_class('\u{FE70}', &t), BidiClass::AL);
    assert_eq!(bidi_class('\u{FEFE}', &t), BidiClass::AL);
    assert_eq!(bidi_class('\u{FEFF}', &t), BidiClass::BN);

    // noncharacters
    assert_eq!(bidi_class('\u{FDD0}', &t), BidiClass::L);
    assert_eq!(bidi_class('\u{FDD1}', &t), BidiClass::L);
    assert_eq!(bidi_class('\u{FDEE}', &t), BidiClass::L);
    assert_eq!(bidi_class('\u{FDEF}', &t), BidiClass::L);
    assert_eq!(bidi_class('\u{FFFE}', &t), BidiClass::L);
    assert_eq!(bidi_class('\u{FFFF}', &t), BidiClass::L);
}

#[test]
fn test_smp() {
    let t = sample_table();

    // Default AL + R
    assert_eq!(bidi_class('\u{10800}', &t), BidiClass::R);
    assert_eq!(bidi_class('\u{10FFF}', &t), BidiClass::R);
    assert_eq!(bidi_class('\u{1E800}', &t), BidiClass::R);
    assert_eq!(bidi_class('\u{1EDFF}', &t), BidiClass::R);
    assert_eq!(bidi_class('\u{1EE00}', &t), BidiClass::AL);
    assert_eq!(bidi_class('\u{1EEFF}', &t), BidiClass::AL);
    assert_eq!(bidi_class('\u{1EF00}', &t), BidiClass::R);
    assert_eq!(bidi_class('\u{1EFFF}', &t), BidiClass::R);
}

#[test]
fn test_unassigned_planes() {
    let t = sample_table();
    assert_eq!(bidi_class('\u{30000}', &t), BidiClass::L);
    assert_eq!(bidi_class('\u{40000}', &t), BidiClass::L);
    assert_eq!(bidi_class('\u{50000}', &t), BidiClass::L);
    assert_eq!(bidi_class('\u{60000}', &t), BidiClass::L);
    assert_eq!(bidi_class('\u{70000}', &t), BidiClass::L);
    assert_eq!(bidi_class('\u{80000}', &t), BidiClass::L);
    assert_eq!(bidi_class('\u{90000}', &t), BidiClass::L);
    assert_eq!(bidi_class('\u{a0000}', &t), BidiClass::L);
}
