use sinowealth_isp::read_section::ReadSection;
use sinowealth_isp::text::{str_eq, str_lt};

#[test]
fn section_names() {
    assert_eq!(ReadSection::Firmware.to_str(), "firmware");
    assert_eq!(ReadSection::Bootloader.to_str(), "bootloader");
    assert_eq!(ReadSection::Full.to_str(), "full");
}

#[test]
fn available_sections_in_order() {
    assert_eq!(
        ReadSection::available_sections(),
        vec!["firmware", "bootloader", "full"]
    );
}

#[test]
fn from_str_parses_each_name() {
    assert_eq!(ReadSection::from_str("firmware"), Ok(ReadSection::Firmware));
    assert_eq!(ReadSection::from_str("bootloader"), Ok(ReadSection::Bootloader));
    assert_eq!(ReadSection::from_str("full"), Ok(ReadSection::Full));
}

#[test]
fn from_str_of_to_str_roundtrips() {
    for section in [ReadSection::Firmware, ReadSection::Bootloader, ReadSection::Full] {
        assert_eq!(ReadSection::from_str(section.to_str()), Ok(section));
    }
}

#[test]
fn string_order_and_equality() {
    assert!(str_lt("sh68f83", "sh68f881"));
    assert!(str_lt("sh68f90", "sh68f902"));
    assert!(!str_lt("sh68f902", "sh68f90"));
    assert!(!str_lt("full", "full"));
    assert!(str_lt("", "a"));
    assert!(str_eq("full", "full"));
    assert!(!str_eq("full", "ful"));
    assert!(!str_eq("full", "fall"));
}
