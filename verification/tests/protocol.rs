use sinowealth_isp::firmware::{clear_reset_vector_copy, patch_reset_vector};
use sinowealth_isp::platform_spec::PlatformSpec;
use sinowealth_isp::protocol::{
    append_page_payload, enable_firmware_command, erase_command, init_read_command,
    init_write_command, page_write_report, read_range, read_request, reboot_command,
    write_report,
};
use sinowealth_isp::read_section::ReadSection;
use sinowealth_isp::verify::{verify, VerificationError};

#[test]
fn command_reports() {
    assert_eq!(enable_firmware_command(), vec![0x05, 0x55, 0, 0, 0, 0]);
    assert_eq!(erase_command(), vec![0x05, 0x45, 0, 0, 0, 0]);
    assert_eq!(reboot_command(), vec![0x05, 0x5a, 0, 0, 0, 0]);
    assert_eq!(init_read_command(0), vec![0x05, 0x52, 0, 0, 0, 0]);
    assert_eq!(init_read_command(0xf000), vec![0x05, 0x52, 0x00, 0xf0, 0, 0]);
    assert_eq!(init_write_command(0x1234), vec![0x05, 0x57, 0x34, 0x12, 0, 0]);
    // only the low 16 bits of the address go out
    assert_eq!(init_read_command(0x12345), vec![0x05, 0x52, 0x45, 0x23, 0, 0]);
}

#[test]
fn transfer_reports() {
    assert_eq!(read_request(4), vec![0x06, 0, 0, 0, 0, 0]);
    assert_eq!(read_request(0), vec![0x06, 0]);
    assert_eq!(write_report(&[1, 2, 3]), vec![0x06, 0x77, 1, 2, 3]);
    let image = vec![10, 11, 12, 13, 14, 15];
    assert_eq!(page_write_report(&image, 2, 3), vec![0x06, 0x77, 12, 13, 14]);
    let mut data = vec![9];
    append_page_payload(&mut data, &vec![0x06, 0x72, 1, 2, 3], 3);
    assert_eq!(data, vec![9, 1, 2, 3]);
}

#[test]
fn read_ranges() {
    let p = PlatformSpec::sh68f90();
    assert_eq!(read_range(&p, ReadSection::Firmware), (0, 61440));
    assert_eq!(read_range(&p, ReadSection::Bootloader), (61440, 4096));
    assert_eq!(read_range(&p, ReadSection::Full), (0, 65536));
}

#[test]
fn verify_images() {
    assert_eq!(verify(&[1, 2, 3], &[1, 2, 3]), Ok(()));
    assert_eq!(verify(&[], &[]), Ok(()));
    assert_eq!(
        verify(&[1, 2, 3], &[1, 2]),
        Err(VerificationError::LengthMismatch { expected: 3, actual: 2 })
    );
    assert_eq!(
        verify(&[1, 2, 3, 4], &[1, 9, 3, 8]),
        Err(VerificationError::ByteMismatch { offset: 1, expected: 2, actual: 9 })
    );
}

#[test]
fn reset_vector_patch_and_clear() {
    let caller_image: Vec<u8> = vec![0x02, 0x12, 0x34, 7, 8, 9, 10, 11];
    let mut image = caller_image.clone();
    patch_reset_vector(&mut image, 8);
    assert_eq!(image, vec![0x02, 0x12, 0x34, 7, 0x12, 0x34, 10, 11]);
    clear_reset_vector_copy(&mut image, 8);
    assert_eq!(image, vec![0x02, 0x12, 0x34, 7, 0, 0, 10, 11]);
}

#[test]
fn reset_vector_patch_overlapping() {
    // firmware_size 4: the copy lands on bytes 0 and 1, from the image's bytes 1 and 2 before the copy
    let mut image: Vec<u8> = vec![0xa0, 0xa1, 0xa2, 0xa3];
    patch_reset_vector(&mut image, 4);
    assert_eq!(image, vec![0xa1, 0xa2, 0xa2, 0xa3]);
}
