//! Report layouts of the bootloader protocol.
use vstd::prelude::*;

use crate::platform_spec::PlatformSpec;
use crate::read_section::ReadSection;

verus! {

/// Length of a command feature report.
pub const COMMAND_LENGTH: usize = 6;

/// Report ID of command reports.
pub const REPORT_ID_CMD: u8 = 0x05;

/// Report ID of page transfer reports.
pub const REPORT_ID_XFER: u8 = 0x06;

/// Command: let the bootloader jump to the main firmware on reset.
pub const CMD_ENABLE_FIRMWARE: u8 = 0x55;

/// Command: set the address that page reads start from.
pub const CMD_INIT_READ: u8 = 0x52;

/// Command: set the address that page writes start from.
pub const CMD_INIT_WRITE: u8 = 0x57;

/// Command: erase the flash outside the bootloader.
pub const CMD_ERASE: u8 = 0x45;

/// Command: start the main firmware.
pub const CMD_REBOOT: u8 = 0x5a;

/// Transfer kind of a page read from the device.
pub const XFER_READ_PAGE: u8 = 0x72;

/// Transfer kind of a page written to the device.
pub const XFER_WRITE_PAGE: u8 = 0x77;

/// Time, in milliseconds, the device needs to settle after an erase or a
/// reboot.
pub const SETTLE_DELAY_MILLIS: u64 = 2000;

/// A command report: report ID, command code, the operand's low and high
/// byte, two zero bytes.
pub open spec fn spec_command(code: u8, operand: usize) -> Seq<u8> {
    seq![REPORT_ID_CMD, code, (operand % 256) as u8, ((operand / 256) % 256) as u8, 0u8, 0u8]
}

/// The request buffer of a page read: the transfer report ID followed by
/// room for the transfer kind and one page.
pub open spec fn spec_read_request(page_size: nat) -> Seq<u8> {
    seq![REPORT_ID_XFER] + Seq::new(page_size + 1, |i: int| 0u8)
}

/// The report that writes one page.
pub open spec fn spec_write_report(page: Seq<u8>) -> Seq<u8> {
    seq![REPORT_ID_XFER, XFER_WRITE_PAGE] + page
}

/// The page that a read response carries.
pub open spec fn spec_page_payload(response: Seq<u8>, page_size: nat) -> Seq<u8> {
    response.subrange(2, page_size + 2int)
}

/// The command reports, byte by byte: enable firmware, erase and reboot take
/// no operand; init-read and init-write carry the address's low and high byte.
pub proof fn lemma_command_bytes(addr: usize)
    ensures
        spec_command(CMD_ENABLE_FIRMWARE, 0) == seq![0x05u8, 0x55u8, 0u8, 0u8, 0u8, 0u8],
        spec_command(CMD_ERASE, 0) == seq![0x05u8, 0x45u8, 0u8, 0u8, 0u8, 0u8],
        spec_command(CMD_REBOOT, 0) == seq![0x05u8, 0x5au8, 0u8, 0u8, 0u8, 0u8],
        spec_command(CMD_INIT_READ, addr) == seq![
            0x05u8,
            0x52u8,
            (addr % 256) as u8,
            ((addr / 256) % 256) as u8,
            0u8,
            0u8,
        ],
        spec_command(CMD_INIT_WRITE, addr) == seq![
            0x05u8,
            0x57u8,
            (addr % 256) as u8,
            ((addr / 256) % 256) as u8,
            0u8,
            0u8,
        ],
{
    assert(spec_command(CMD_ENABLE_FIRMWARE, 0) =~= seq![0x05u8, 0x55u8, 0u8, 0u8, 0u8, 0u8]);
    assert(spec_command(CMD_ERASE, 0) =~= seq![0x05u8, 0x45u8, 0u8, 0u8, 0u8, 0u8]);
    assert(spec_command(CMD_REBOOT, 0) =~= seq![0x05u8, 0x5au8, 0u8, 0u8, 0u8, 0u8]);
}

/// The buffer of a page read is the transfer report ID followed by zeros,
/// with room for the transfer kind and one page.
pub proof fn lemma_read_request_bytes(page_size: nat)
    ensures
        spec_read_request(page_size).len() == page_size + 2,
        spec_read_request(page_size)[0] == 0x06,
        forall|i: int| 1 <= i < page_size + 2 ==> #[trigger] spec_read_request(page_size)[i] == 0,
{
}

/// A read response of a whole page carries `page_size` bytes: those after its
/// report ID and transfer kind.
pub proof fn lemma_page_payload_bytes(response: Seq<u8>, page_size: nat)
    requires
        response.len() == page_size + 2,
    ensures
        spec_page_payload(response, page_size).len() == page_size,
        forall|i: int| 0 <= i < page_size ==> #[trigger] spec_page_payload(response, page_size)[i] == response[i + 2],
{
}

/// Where a read of `section` starts, and how many bytes it covers.
pub open spec fn spec_read_range(platform: PlatformSpec, section: ReadSection) -> (int, int) {
    match section {
        ReadSection::Firmware => (0, platform.firmware_size as int),
        ReadSection::Bootloader => (platform.firmware_size as int, platform.bootloader_size as int),
        ReadSection::Full => (0, platform.firmware_size + platform.bootloader_size),
    }
}

fn command(code: u8, operand: usize) -> (report: Vec<u8>)
    ensures
        report@ == spec_command(code, operand),
{
    let report = vec![REPORT_ID_CMD, code, (operand % 256) as u8, ((operand / 256) % 256) as u8, 0, 0];
    assert(report@ =~= spec_command(code, operand));
    report
}

/// The command that sets the start address of page reads.
pub fn init_read_command(start_addr: usize) -> (report: Vec<u8>)
    ensures
        report@ == spec_command(CMD_INIT_READ, start_addr),
{
    command(CMD_INIT_READ, start_addr)
}

/// The command that sets the start address of page writes.
pub fn init_write_command(start_addr: usize) -> (report: Vec<u8>)
    ensures
        report@ == spec_command(CMD_INIT_WRITE, start_addr),
{
    command(CMD_INIT_WRITE, start_addr)
}

/// The command that enables the main firmware.
pub fn enable_firmware_command() -> (report: Vec<u8>)
    ensures
        report@ == spec_command(CMD_ENABLE_FIRMWARE, 0),
{
    command(CMD_ENABLE_FIRMWARE, 0)
}

/// The command that erases the flash outside the bootloader.
pub fn erase_command() -> (report: Vec<u8>)
    ensures
        report@ == spec_command(CMD_ERASE, 0),
{
    command(CMD_ERASE, 0)
}

/// The command that starts the main firmware.
pub fn reboot_command() -> (report: Vec<u8>)
    ensures
        report@ == spec_command(CMD_REBOOT, 0),
{
    command(CMD_REBOOT, 0)
}

/// The buffer handed to a feature-report read of one page.
pub fn read_request(page_size: usize) -> (buffer: Vec<u8>)
    requires
        page_size + 2 <= usize::MAX,
    ensures
        buffer@ == spec_read_request(page_size as nat),
{
    let mut buffer: Vec<u8> = Vec::new();
    buffer.push(REPORT_ID_XFER);
    let mut i: usize = 0;
    while i < page_size + 1
        invariant
            page_size + 2 <= usize::MAX,
            i <= page_size + 1,
            buffer@ == seq![REPORT_ID_XFER] + Seq::new(i as nat, |j: int| 0u8),
        decreases page_size + 1 - i,
    {
        buffer.push(0);
        i = i + 1;
        assert(buffer@ =~= seq![REPORT_ID_XFER] + Seq::new(i as nat, |j: int| 0u8));
    }
    buffer
}

/// The report that writes `page`.
pub fn write_report(page: &[u8]) -> (report: Vec<u8>)
    ensures
        report@ == spec_write_report(page@),
{
    let mut report: Vec<u8> = Vec::new();
    report.push(REPORT_ID_XFER);
    report.push(XFER_WRITE_PAGE);
    let mut i: usize = 0;
    while i < page.len()
        invariant
            i <= page@.len(),
            report@ == seq![REPORT_ID_XFER, XFER_WRITE_PAGE] + page@.take(i as int),
        decreases page@.len() - i,
    {
        report.push(page[i]);
        i = i + 1;
        assert(report@ =~= seq![REPORT_ID_XFER, XFER_WRITE_PAGE] + page@.take(i as int));
    }
    assert(page@.take(page@.len() as int) =~= page@);
    report
}

/// The report that writes bytes `start .. start + page_size` of `image`.
pub fn page_write_report(image: &Vec<u8>, start: usize, page_size: usize) -> (report: Vec<u8>)
    requires
        start + page_size <= image@.len(),
    ensures
        report@ == spec_write_report(image@.subrange(start as int, start + page_size)),
{
    let mut report: Vec<u8> = Vec::new();
    report.push(REPORT_ID_XFER);
    report.push(XFER_WRITE_PAGE);
    let len = image.len();
    let mut i: usize = 0;
    while i < page_size
        invariant
            len == image@.len(),
            start + page_size <= image@.len(),
            i <= page_size,
            report@ == seq![REPORT_ID_XFER, XFER_WRITE_PAGE] + image@.subrange(start as int, start + i),
        decreases page_size - i,
    {
        report.push(image[start + i]);
        i = i + 1;
        assert(report@ =~= seq![REPORT_ID_XFER, XFER_WRITE_PAGE] + image@.subrange(start as int, start + i));
    }
    report
}

/// Appends the page that a read response carries to `data`.
pub fn append_page_payload(data: &mut Vec<u8>, response: &Vec<u8>, page_size: usize)
    requires
        page_size + 2 <= usize::MAX,
        response@.len() == page_size + 2,
    ensures
        final(data)@ == old(data)@ + spec_page_payload(response@, page_size as nat),
{
    let mut j: usize = 2;
    while j < page_size + 2
        invariant
            2 <= j <= page_size + 2,
            page_size + 2 <= usize::MAX,
            response@.len() == page_size + 2,
            data@ == old(data)@ + response@.subrange(2, j as int),
        decreases page_size + 2 - j,
    {
        data.push(response[j]);
        j = j + 1;
        assert(data@ =~= old(data)@ + response@.subrange(2, j as int));
    }
}

/// Where a read of `section` starts, and how many bytes it covers.
pub fn read_range(platform: &PlatformSpec, section: ReadSection) -> (range: (usize, usize))
    requires
        section == ReadSection::Full ==> platform.firmware_size + platform.bootloader_size <= usize::MAX,
    ensures
        (range.0 as int, range.1 as int) == spec_read_range(*platform, section),
{
    match section {
        ReadSection::Firmware => (0, platform.firmware_size),
        ReadSection::Bootloader => (platform.firmware_size, platform.bootloader_size),
        ReadSection::Full => (0, platform.firmware_size + platform.bootloader_size),
    }
}

/// The full read is the firmware read followed by the bootloader read.
pub proof fn lemma_full_range_is_firmware_then_bootloader(platform: PlatformSpec)
    ensures
        spec_read_range(platform, ReadSection::Full).0 == spec_read_range(platform, ReadSection::Firmware).0,
        spec_read_range(platform, ReadSection::Firmware).0 + spec_read_range(platform, ReadSection::Firmware).1
            == spec_read_range(platform, ReadSection::Bootloader).0,
        spec_read_range(platform, ReadSection::Full).1
            == spec_read_range(platform, ReadSection::Firmware).1 + spec_read_range(platform, ReadSection::Bootloader).1,
{
}

/// A command's operand bytes give back, little-endian, its operand modulo
/// 65536: the bootloader's address space.
pub proof fn lemma_command_operand_roundtrip(code: u8, operand: usize)
    ensures
        spec_command(code, operand)[2] + 256 * spec_command(code, operand)[3] == operand % 65536,
        spec_command(code, operand).len() == COMMAND_LENGTH,
{
    assert(operand % 65536 == (operand % 256) + 256 * ((operand / 256) % 256)) by (nonlinear_arith);
}

} // verus!
