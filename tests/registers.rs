use asm_frontend::registers::{lookup, RegisterTable};

#[test]
fn lookup_special_and_banked_registers() {
    assert_eq!(lookup(RegisterTable::All, "BSP"), Some(19));
    assert_eq!(lookup(RegisterTable::All, "ZERO"), Some(0));
    assert_eq!(lookup(RegisterTable::All, "PC"), Some(41));
    assert_eq!(lookup(RegisterTable::General, "PC"), None);
}

#[test]
fn bank_codes_follow_fixed_order() {
    assert_eq!(lookup(RegisterTable::General, "A1"), Some(1));
    assert_eq!(lookup(RegisterTable::General, "A4"), Some(4));
    assert_eq!(lookup(RegisterTable::General, "AR1"), Some(5));
    assert_eq!(lookup(RegisterTable::General, "AR3"), Some(7));
    assert_eq!(lookup(RegisterTable::General, "ASS"), Some(8));
    assert_eq!(lookup(RegisterTable::General, "ASP"), Some(9));
    assert_eq!(lookup(RegisterTable::General, "ADS"), Some(10));
    assert_eq!(lookup(RegisterTable::General, "B1"), Some(11));
    assert_eq!(lookup(RegisterTable::General, "CR2"), Some(26));
    assert_eq!(lookup(RegisterTable::General, "DDS"), Some(40));
}

#[test]
fn tables_exclude_their_special_registers() {
    assert_eq!(lookup(RegisterTable::NonZero, "ZERO"), None);
    assert_eq!(lookup(RegisterTable::NonZero, "PC"), Some(41));
    assert_eq!(lookup(RegisterTable::NonPc, "PC"), None);
    assert_eq!(lookup(RegisterTable::NonPc, "ZERO"), Some(0));
    assert_eq!(lookup(RegisterTable::General, "ZERO"), None);
}

#[test]
fn unknown_names_are_not_found() {
    assert_eq!(lookup(RegisterTable::All, "A9"), None);
    assert_eq!(lookup(RegisterTable::All, "AR4"), None);
    assert_eq!(lookup(RegisterTable::All, "E1"), None);
    assert_eq!(lookup(RegisterTable::All, "a1"), None);
    assert_eq!(lookup(RegisterTable::All, ""), None);
    assert_eq!(lookup(RegisterTable::All, "A"), None);
    assert_eq!(lookup(RegisterTable::All, "A1 "), None);
}
