use sinowealth_isp::platform_spec::{InitOperand, PlatformSpec};

#[test]
fn available_platforms_are_sorted_names() {
    assert_eq!(
        PlatformSpec::available_platforms(),
        vec!["sh68f83", "sh68f881", "sh68f89", "sh68f90", "sh68f902"]
    );
}

#[test]
fn every_listed_platform_resolves() {
    for name in PlatformSpec::available_platforms() {
        assert!(PlatformSpec::get(name).is_some(), "{name}");
    }
}

#[test]
fn unknown_platform_is_none() {
    assert_eq!(PlatformSpec::get("sh68f91"), None);
    assert_eq!(PlatformSpec::get(""), None);
    assert_eq!(PlatformSpec::get("SH68F90"), None);
}

#[test]
fn platform_layouts() {
    let f90 = PlatformSpec::get("sh68f90").unwrap();
    assert_eq!(f90.firmware_size, 61440);
    assert_eq!(f90.bootloader_size, 4096);
    assert_eq!(f90.page_size, 2048);
    assert_eq!(f90.init_operand, InitOperand::Address);

    let f89 = PlatformSpec::get("sh68f89").unwrap();
    assert_eq!(f89, f90);

    let f881 = PlatformSpec::get("sh68f881").unwrap();
    assert_eq!(f881.firmware_size, 28672);
    assert_eq!(f881.bootloader_size, 4096);
    assert_eq!(f881.page_size, 2048);

    let f902 = PlatformSpec::get("sh68f902").unwrap();
    assert_eq!(f902.firmware_size, 13312);
    assert_eq!(f902.bootloader_size, 3072);
    assert_eq!(f902.page_size, 1024);
    assert_eq!(f902.init_operand, InitOperand::Address);

    let f83 = PlatformSpec::get("sh68f83").unwrap();
    assert_eq!(f83.firmware_size, 14336);
    assert_eq!(f83.bootloader_size, 2048);
    assert_eq!(f83.page_size, 2048);
    assert_eq!(f83.init_operand, InitOperand::Length);
}

#[test]
fn platform_table_matches_constructors() {
    let table = PlatformSpec::platforms();
    assert_eq!(table.len(), 5);
    assert_eq!(table[0], ("sh68f83", PlatformSpec::sh68f83()));
    assert_eq!(table[1], ("sh68f89", PlatformSpec::sh68f89()));
    assert_eq!(table[2], ("sh68f881", PlatformSpec::sh68f881()));
    assert_eq!(table[3], ("sh68f90", PlatformSpec::sh68f90()));
    assert_eq!(table[4], ("sh68f902", PlatformSpec::sh68f902()));
}
