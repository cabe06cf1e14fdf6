use oscamp::pte::{
    check_permission, extract_flags, extract_ppn, is_leaf, is_valid, make_pte, PTE_A, PTE_D, PTE_G,
    PTE_R, PTE_U, PTE_V, PTE_W, PTE_X,
};

#[test]
fn test_make_pte_basic() {
    let pte = make_pte(0x12345, PTE_V | PTE_R | PTE_W);
    assert_eq!(extract_ppn(pte), 0x12345);
    assert_eq!(extract_flags(pte), PTE_V | PTE_R | PTE_W);
}

#[test]
fn test_make_pte_zero() {
    let pte = make_pte(0, 0);
    assert_eq!(pte, 0);
    assert_eq!(extract_ppn(pte), 0);
    assert_eq!(extract_flags(pte), 0);
}

#[test]
fn test_make_pte_all_flags() {
    let all = PTE_V | PTE_R | PTE_W | PTE_X | PTE_U | PTE_G | PTE_A | PTE_D;
    let pte = make_pte(0xABC, all);
    assert_eq!(extract_ppn(pte), 0xABC);
    assert_eq!(extract_flags(pte), all);
}

#[test]
fn test_make_pte_large_ppn() {
    let ppn = (1u64 << 44) - 1;
    let pte = make_pte(ppn, PTE_V);
    assert_eq!(extract_ppn(pte), ppn);
}

#[test]
fn test_is_valid() {
    assert!(is_valid(make_pte(1, PTE_V)));
    assert!(!is_valid(make_pte(1, PTE_R)));
    assert!(!is_valid(0));
}

#[test]
fn test_is_leaf() {
    assert!(is_leaf(make_pte(1, PTE_V | PTE_R)));
    assert!(is_leaf(make_pte(1, PTE_V | PTE_X)));
    assert!(is_leaf(make_pte(1, PTE_V | PTE_R | PTE_W | PTE_X)));
    assert!(!is_leaf(make_pte(1, PTE_V)));
    assert!(!is_leaf(make_pte(1, PTE_V | PTE_A | PTE_D)));
}

#[test]
fn test_check_permission_read() {
    let pte = make_pte(1, PTE_V | PTE_R);
    assert!(check_permission(pte, true, false, false));
    assert!(!check_permission(pte, false, true, false));
    assert!(!check_permission(pte, false, false, true));
}

#[test]
fn test_check_permission_rw() {
    let pte = make_pte(1, PTE_V | PTE_R | PTE_W);
    assert!(check_permission(pte, true, true, false));
    assert!(!check_permission(pte, true, true, true));
}

#[test]
fn test_check_permission_all() {
    let pte = make_pte(1, PTE_V | PTE_R | PTE_W | PTE_X);
    assert!(check_permission(pte, true, true, true));
    assert!(check_permission(pte, true, false, false));
    assert!(check_permission(pte, false, false, false));
}

#[test]
fn test_check_permission_invalid() {
    let pte = make_pte(1, PTE_R | PTE_W | PTE_X);
    assert!(!check_permission(pte, true, false, false));
}

#[test]
fn make_pte_example_value() {
    assert_eq!(make_pte(0x12345, PTE_V | PTE_R | PTE_W), 0x48D_1407);
}

#[test]
fn make_pte_flag_bits_follow_flags() {
    for flag in [PTE_V, PTE_R, PTE_W, PTE_X, PTE_U, PTE_G, PTE_A, PTE_D] {
        let with = make_pte(0xFFF_FFFF_FFFF, flag);
        let without = make_pte(0xFFF_FFFF_FFFF, 0);
        assert_eq!(extract_flags(with), flag);
        assert_eq!(extract_flags(without), 0);
    }
}

#[test]
fn extract_ppn_ignores_reserved_high_bits() {
    let pte = (0x3FFu64 << 54) | make_pte(0x42, PTE_V);
    assert_eq!(extract_ppn(pte), 0x42);
    assert_eq!(extract_flags(pte), PTE_V);
}

#[test]
fn valid_entry_without_requests_is_permitted() {
    assert!(check_permission(make_pte(7, PTE_V), false, false, false));
    assert!(!check_permission(make_pte(7, 0), false, false, false));
}
