use oscamp::sv39::{Sv39PageTable, TranslateResult, PTE_R, PTE_V, PTE_W, PTE_X};

#[test]
fn test_extract_vpn() {
    let va: u64 = 0x7FFFFFF000;
    assert_eq!(Sv39PageTable::extract_vpn(va, 2), 0x1FF);
    assert_eq!(Sv39PageTable::extract_vpn(va, 1), 0x1FF);
    assert_eq!(Sv39PageTable::extract_vpn(va, 0), 0x1FF);
}

#[test]
fn test_extract_vpn_simple() {
    let va: u64 = 0x1000;
    assert_eq!(Sv39PageTable::extract_vpn(va, 2), 0);
    assert_eq!(Sv39PageTable::extract_vpn(va, 1), 0);
    assert_eq!(Sv39PageTable::extract_vpn(va, 0), 1);
}

#[test]
fn test_extract_vpn_level2() {
    let va: u64 = 0x40000000;
    assert_eq!(Sv39PageTable::extract_vpn(va, 2), 1);
    assert_eq!(Sv39PageTable::extract_vpn(va, 1), 0);
    assert_eq!(Sv39PageTable::extract_vpn(va, 0), 0);
}

#[test]
fn test_map_and_translate_single() {
    let mut pt = Sv39PageTable::new();
    pt.map_page(0x1000, 0x80001000, PTE_V | PTE_R);
    let result = pt.translate(0x1000);
    assert_eq!(result, TranslateResult::Mapped(0x80001000));
}

#[test]
fn test_translate_with_offset() {
    let mut pt = Sv39PageTable::new();
    pt.map_page(0x2000, 0x90000000, PTE_V | PTE_R | PTE_W);
    let result = pt.translate(0x2ABC);
    assert_eq!(result, TranslateResult::Mapped(0x90000ABC));
}

#[test]
fn test_translate_page_fault() {
    let pt = Sv39PageTable::new();
    assert_eq!(pt.translate(0x1000), TranslateResult::PageFault);
}

#[test]
fn test_multiple_mappings() {
    let mut pt = Sv39PageTable::new();
    pt.map_page(0x0000_1000, 0x8000_1000, PTE_V | PTE_R);
    pt.map_page(0x0000_2000, 0x8000_5000, PTE_V | PTE_R | PTE_W);
    pt.map_page(0x0040_0000, 0x9000_0000, PTE_V | PTE_R);
    assert_eq!(pt.translate(0x1234), TranslateResult::Mapped(0x80001234));
    assert_eq!(pt.translate(0x2000), TranslateResult::Mapped(0x80005000));
    assert_eq!(pt.translate(0x400100), TranslateResult::Mapped(0x90000100));
}

#[test]
fn test_map_overwrite() {
    let mut pt = Sv39PageTable::new();
    pt.map_page(0x1000, 0x80001000, PTE_V | PTE_R);
    assert_eq!(pt.translate(0x1000), TranslateResult::Mapped(0x80001000));
    pt.map_page(0x1000, 0x90002000, PTE_V | PTE_R);
    assert_eq!(pt.translate(0x1000), TranslateResult::Mapped(0x90002000));
}

#[test]
fn test_superpage_mapping() {
    let mut pt = Sv39PageTable::new();
    pt.map_superpage(0x200000, 0x80200000, PTE_V | PTE_R | PTE_W);
    assert_eq!(pt.translate(0x200000), TranslateResult::Mapped(0x80200000));
    assert_eq!(pt.translate(0x200ABC), TranslateResult::Mapped(0x80200ABC));
    assert_eq!(pt.translate(0x2FF000), TranslateResult::Mapped(0x802FF000));
}

#[test]
fn test_superpage_and_normal_coexist() {
    let mut pt = Sv39PageTable::new();
    pt.map_superpage(0x0, 0x80000000, PTE_V | PTE_R);
    pt.map_page(0x40000000, 0x90001000, PTE_V | PTE_R);
    assert_eq!(pt.translate(0x100), TranslateResult::Mapped(0x80000100));
    assert_eq!(pt.translate(0x40000000), TranslateResult::Mapped(0x90001000));
}

#[test]
fn map_page_leaves_neighbouring_pages_unmapped() {
    let mut pt = Sv39PageTable::new();
    pt.map_page(0x5000, 0x8800_0000, PTE_V | PTE_X);
    assert_eq!(pt.translate(0x5FFF), TranslateResult::Mapped(0x8800_0FFF));
    assert_eq!(pt.translate(0x4FFF), TranslateResult::PageFault);
    assert_eq!(pt.translate(0x6000), TranslateResult::PageFault);
    assert_eq!(pt.translate(0x4000_5000), TranslateResult::PageFault);
}

#[test]
fn map_page_without_leaf_flags_faults() {
    let mut pt = Sv39PageTable::new();
    pt.map_page(0x3000, 0x8000_3000, PTE_V);
    assert_eq!(pt.translate(0x3000), TranslateResult::PageFault);
}

#[test]
fn superpage_keeps_21_offset_bits() {
    let mut pt = Sv39PageTable::new();
    pt.map_superpage(0x4000_0000, 0x8040_0000, PTE_V | PTE_R);
    assert_eq!(pt.translate(0x401F_FFFF), TranslateResult::Mapped(0x805F_FFFF));
    assert_eq!(pt.translate(0x4020_0000), TranslateResult::PageFault);
}

#[test]
fn default_table_faults_everywhere() {
    let pt = Sv39PageTable::default();
    assert_eq!(pt.root_ppn, 0x80000);
    assert_eq!(pt.translate(0), TranslateResult::PageFault);
    assert_eq!(pt.translate(0x7F_FFFF_F000), TranslateResult::PageFault);
}

#[test]
fn map_page_creates_only_missing_table_pages() {
    let mut pt = Sv39PageTable::new();
    let first = pt.next_ppn;
    pt.map_page(0x1000, 0x80001000, PTE_V | PTE_R);
    assert_eq!(pt.next_ppn, first + 2);
    pt.map_page(0x2000, 0x80002000, PTE_V | PTE_R);
    assert_eq!(pt.next_ppn, first + 2);
    pt.map_page(0x20_0000, 0x80003000, PTE_V | PTE_R);
    assert_eq!(pt.next_ppn, first + 3);
    assert_eq!(pt.root_ppn, 0x80000);
    assert_eq!(pt.translate(0x1000), TranslateResult::Mapped(0x80001000));
    assert_eq!(pt.translate(0x3000), TranslateResult::PageFault);
}
