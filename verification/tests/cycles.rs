use hidra::HidError;
use sinowealth_isp::cycle::{Action, Outcome, Step};
use sinowealth_isp::device::{ISPError, Target};
use sinowealth_isp::device_spec::DeviceSpec;
use sinowealth_isp::platform_spec::{InitOperand, PlatformSpec};
use sinowealth_isp::progress::Progress;
use sinowealth_isp::read_cycle::ReadCycle;
use sinowealth_isp::read_section::ReadSection;
use sinowealth_isp::verify::VerificationError;
use sinowealth_isp::write_cycle::WriteCycle;

fn small(reboot: bool) -> DeviceSpec {
    DeviceSpec {
        platform: PlatformSpec {
            firmware_size: 12,
            bootloader_size: 8,
            page_size: 4,
            init_operand: InitOperand::Address,
        },
        reboot,
    }
}

/// What a transfer did, as seen by a simulated bootloader.
#[derive(Debug, PartialEq)]
enum Seen {
    Send(Target, Vec<u8>),
    Receive(Target, Vec<u8>),
    Pause(u64),
}

/// A simulated bootloader: flash contents and a transfer address.
struct Flash {
    bytes: Vec<u8>,
    addr: usize,
    page_size: usize,
    /// whether a written page has its bytes at `hide..hide + 2` read back as
    /// zero, as the bootloader keeps the reset vector copy there to itself
    hide: Option<usize>,
    fail_at: Option<usize>,
    bad_kind_at: Option<usize>,
    seen: Vec<Seen>,
}

impl Flash {
    fn new(len: usize, page_size: usize) -> Self {
        Flash {
            bytes: (0..len).map(|i| i as u8).collect(),
            addr: 0,
            page_size,
            hide: None,
            fail_at: None,
            bad_kind_at: None,
            seen: vec![],
        }
    }

    fn perform<T>(&mut self, action: Action<T>) -> Result<Outcome, Result<T, ISPError>> {
        let n = self.seen.len();
        let fail = self.fail_at == Some(n);
        match action {
            Action::Send { target, report } => {
                self.seen.push(Seen::Send(target, report.clone()));
                if fail {
                    return Ok(Outcome::Sent(Err(HidError::Disconnected)));
                }
                if report[0] == 0x05 && (report[1] == 0x52 || report[1] == 0x57) {
                    self.addr = report[2] as usize | (report[3] as usize) << 8;
                } else if report[0] == 0x06 {
                    for (i, b) in report[2..].iter().enumerate() {
                        let at = self.addr + i;
                        let hidden = matches!(self.hide, Some(h) if at == h || at == h + 1);
                        self.bytes[at] = if hidden { 0 } else { *b };
                    }
                    self.addr += self.page_size;
                }
                Ok(Outcome::Sent(Ok(())))
            }
            Action::Receive { target, mut buffer } => {
                self.seen.push(Seen::Receive(target, buffer.clone()));
                if fail {
                    return Ok(Outcome::Received(Err(HidError::Disconnected)));
                }
                buffer[1] = if self.bad_kind_at == Some(n) { 0x77 } else { 0x72 };
                for i in 0..self.page_size {
                    buffer[2 + i] = self.bytes[self.addr + i];
                }
                self.addr += self.page_size;
                Ok(Outcome::Received(Ok(buffer)))
            }
            Action::Pause { millis } => {
                self.seen.push(Seen::Pause(millis));
                Ok(Outcome::Paused)
            }
            Action::Finish(result) => Err(result),
        }
    }
}

fn run_read(cycle: &mut ReadCycle, flash: &mut Flash) -> (Vec<Progress>, Result<Vec<u8>, ISPError>) {
    let mut progress = vec![];
    let mut step: Step<Vec<u8>> = cycle.start();
    loop {
        progress.extend(step.progress.iter().copied());
        match flash.perform(step.action) {
            Ok(outcome) => step = cycle.resume(outcome),
            Err(result) => return (progress, result),
        }
    }
}

fn run_write(cycle: &mut WriteCycle, flash: &mut Flash) -> (Vec<Progress>, Result<(), ISPError>) {
    let mut progress = vec![];
    let mut step: Step<()> = cycle.start();
    loop {
        progress.extend(step.progress.iter().copied());
        match flash.perform(step.action) {
            Ok(outcome) => step = cycle.resume(outcome),
            Err(result) => return (progress, result),
        }
    }
}

fn cmd(code: u8, lo: u8, hi: u8) -> Seen {
    Seen::Send(Target::Command, vec![0x05, code, lo, hi, 0, 0])
}

fn page_read() -> Seen {
    Seen::Receive(Target::Transfer, vec![0x06, 0, 0, 0, 0, 0])
}

#[test]
fn read_firmware_with_reboot() {
    let mut flash = Flash::new(20, 4);
    let mut cycle = ReadCycle::new(small(true), ReadSection::Firmware);
    let (progress, result) = run_read(&mut cycle, &mut flash);
    assert_eq!(result.unwrap(), (0..12).collect::<Vec<u8>>());
    assert_eq!(
        flash.seen,
        vec![
            cmd(0x55, 0, 0),
            cmd(0x52, 0, 0),
            page_read(),
            page_read(),
            page_read(),
            cmd(0x5a, 0, 0),
            Seen::Pause(2000),
        ]
    );
    assert_eq!(
        progress,
        vec![
            Progress::Status("Enabling firmware..."),
            Progress::TaskStart { label: "Reading...", total: 3 },
            Progress::TaskAdvance,
            Progress::TaskAdvance,
            Progress::TaskAdvance,
            Progress::TaskFinish,
            Progress::Status("Rebooting..."),
        ]
    );
}

#[test]
fn read_bootloader_and_full() {
    let mut flash = Flash::new(20, 4);
    let mut cycle = ReadCycle::new(small(false), ReadSection::Bootloader);
    let (_, result) = run_read(&mut cycle, &mut flash);
    assert_eq!(result.unwrap(), (12..20).collect::<Vec<u8>>());
    assert_eq!(flash.seen[1], cmd(0x52, 12, 0));
    assert_eq!(flash.seen.len(), 4);

    let mut flash = Flash::new(20, 4);
    let mut cycle = ReadCycle::new(small(false), ReadSection::Full);
    let (progress, result) = run_read(&mut cycle, &mut flash);
    assert_eq!(result.unwrap(), (0..20).collect::<Vec<u8>>());
    assert_eq!(progress[1], Progress::TaskStart { label: "Reading...", total: 5 });
    assert_eq!(progress.last(), Some(&Progress::TaskFinish));
}

#[test]
fn read_partial_page_is_dropped() {
    // 10 bytes of firmware in pages of 4: two whole pages are read
    let spec = DeviceSpec {
        platform: PlatformSpec { firmware_size: 10, bootloader_size: 6, page_size: 4, init_operand: InitOperand::Address },
        reboot: false,
    };
    let mut flash = Flash::new(16, 4);
    let mut cycle = ReadCycle::new(spec, ReadSection::Firmware);
    let (_, result) = run_read(&mut cycle, &mut flash);
    assert_eq!(result.unwrap(), (0..8).collect::<Vec<u8>>());
}

#[test]
fn read_stops_on_transfer_error() {
    let mut flash = Flash::new(20, 4);
    flash.fail_at = Some(3);
    let mut cycle = ReadCycle::new(small(true), ReadSection::Firmware);
    let (progress, result) = run_read(&mut cycle, &mut flash);
    assert!(matches!(result, Err(ISPError::HidError(HidError::Disconnected))));
    assert_eq!(flash.seen.len(), 4);
    // one page was read before the failing one: one advance, and no end of the task
    assert_eq!(
        progress,
        vec![
            Progress::Status("Enabling firmware..."),
            Progress::TaskStart { label: "Reading...", total: 3 },
            Progress::TaskAdvance,
        ]
    );

    let mut flash = Flash::new(20, 4);
    flash.fail_at = Some(0);
    let mut cycle = ReadCycle::new(small(true), ReadSection::Firmware);
    let (progress, result) = run_read(&mut cycle, &mut flash);
    assert!(matches!(result, Err(ISPError::HidError(_))));
    assert_eq!(progress, vec![Progress::Status("Enabling firmware...")]);
}

#[test]
fn read_stops_on_wrong_transfer_kind() {
    let mut flash = Flash::new(20, 4);
    flash.bad_kind_at = Some(3);
    let mut cycle = ReadCycle::new(small(true), ReadSection::Firmware);
    let (progress, result) = run_read(&mut cycle, &mut flash);
    assert!(matches!(result, Err(ISPError::ReadWriteMismatch)));
    assert_eq!(flash.seen.len(), 4);
    assert_eq!(progress.iter().filter(|p| **p == Progress::TaskAdvance).count(), 1);
    assert!(!progress.contains(&Progress::TaskFinish));
}

#[test]
fn reboot_error_is_ignored() {
    let mut flash = Flash::new(20, 4);
    flash.fail_at = Some(5);
    let mut cycle = ReadCycle::new(small(true), ReadSection::Firmware);
    let (_, result) = run_read(&mut cycle, &mut flash);
    assert_eq!(result.unwrap(), (0..12).collect::<Vec<u8>>());
    assert_eq!(flash.seen.last(), Some(&Seen::Pause(2000)));
}

fn image() -> Vec<u8> {
    vec![0x02, 0x12, 0x34, 3, 4, 5, 6, 7, 8, 9, 10, 11]
}

#[test]
fn write_succeeds_when_read_back_matches() {
    let mut flash = Flash::new(20, 4);
    flash.hide = Some(8);
    let mut cycle = WriteCycle::new(small(true), image());
    assert_eq!(cycle.firmware(), &vec![0x02, 0x12, 0x34, 3, 4, 5, 6, 7, 0x12, 0x34, 10, 11]);
    let (progress, result) = run_write(&mut cycle, &mut flash);
    assert!(result.is_ok());
    assert_eq!(
        flash.seen,
        vec![
            cmd(0x45, 0, 0),
            Seen::Pause(2000),
            cmd(0x57, 0, 0),
            Seen::Send(Target::Transfer, vec![0x06, 0x77, 0x02, 0x12, 0x34, 3]),
            Seen::Send(Target::Transfer, vec![0x06, 0x77, 4, 5, 6, 7]),
            Seen::Send(Target::Transfer, vec![0x06, 0x77, 0x12, 0x34, 10, 11]),
            cmd(0x52, 0, 0),
            page_read(),
            page_read(),
            page_read(),
            cmd(0x55, 0, 0),
            cmd(0x5a, 0, 0),
            Seen::Pause(2000),
        ]
    );
    assert_eq!(
        progress,
        vec![
            Progress::Status("Erasing..."),
            Progress::TaskStart { label: "Writing...", total: 3 },
            Progress::TaskAdvance,
            Progress::TaskAdvance,
            Progress::TaskAdvance,
            Progress::TaskFinish,
            Progress::TaskStart { label: "Reading...", total: 3 },
            Progress::TaskAdvance,
            Progress::TaskAdvance,
            Progress::TaskAdvance,
            Progress::TaskFinish,
            Progress::Status("Verifying..."),
            Progress::Status("Enabling firmware..."),
            Progress::Status("Rebooting..."),
        ]
    );
    assert_eq!(cycle.firmware(), &vec![0x02, 0x12, 0x34, 3, 4, 5, 6, 7, 0, 0, 10, 11]);
}

#[test]
fn write_fails_verification_on_mismatch() {
    let mut flash = Flash::new(20, 4);
    let mut cycle = WriteCycle::new(small(false), image());
    let (progress, result) = run_write(&mut cycle, &mut flash);
    assert!(matches!(
        result,
        Err(ISPError::VerificationError(VerificationError::ByteMismatch { offset: 8, expected: 0, actual: 0x12 }))
    ));
    assert_eq!(progress.last(), Some(&Progress::Status("Verifying...")));
    assert!(!flash.seen.contains(&cmd(0x55, 0, 0)));
}

#[test]
fn write_stops_when_erase_fails() {
    let mut flash = Flash::new(20, 4);
    flash.fail_at = Some(0);
    let mut cycle = WriteCycle::new(small(true), image());
    let (_, result) = run_write(&mut cycle, &mut flash);
    assert!(matches!(result, Err(ISPError::HidError(_))));
    assert_eq!(flash.seen.len(), 1);
    // the image keeps its reset-vector copy, as the cycle never got to clear it
    assert_eq!(cycle.firmware(), &vec![0x02, 0x12, 0x34, 3, 4, 5, 6, 7, 0x12, 0x34, 10, 11]);
}

#[test]
fn write_stops_on_read_back_mismatch_kind() {
    let mut flash = Flash::new(20, 4);
    flash.hide = Some(8);
    flash.bad_kind_at = Some(8);
    let mut cycle = WriteCycle::new(small(true), image());
    let (_, result) = run_write(&mut cycle, &mut flash);
    assert!(matches!(result, Err(ISPError::ReadWriteMismatch)));
}

#[test]
fn read_of_less_than_a_page_reads_nothing() {
    let spec = DeviceSpec {
        platform: PlatformSpec { firmware_size: 12, bootloader_size: 2, page_size: 4, init_operand: InitOperand::Address },
        reboot: false,
    };
    let mut flash = Flash::new(16, 4);
    let mut cycle = ReadCycle::new(spec, ReadSection::Bootloader);
    let (progress, result) = run_read(&mut cycle, &mut flash);
    assert_eq!(result.unwrap(), Vec::<u8>::new());
    assert_eq!(flash.seen, vec![cmd(0x55, 0, 0), cmd(0x52, 12, 0)]);
    assert_eq!(
        progress,
        vec![
            Progress::Status("Enabling firmware..."),
            Progress::TaskStart { label: "Reading...", total: 0 },
            Progress::TaskFinish,
        ]
    );
}

#[test]
fn write_with_image_longer_than_pages_fails_on_length() {
    // 13 image bytes, 3 pages of 4: the read-back is one byte short
    let mut image = image();
    image.push(12);
    let mut flash = Flash::new(20, 4);
    flash.hide = Some(8);
    let mut cycle = WriteCycle::new(small(false), image);
    let (_, result) = run_write(&mut cycle, &mut flash);
    assert!(matches!(
        result,
        Err(ISPError::VerificationError(VerificationError::LengthMismatch { expected: 13, actual: 12 }))
    ));
}

#[test]
fn read_failing_at_first_page_reports_no_advance() {
    let mut flash = Flash::new(20, 4);
    flash.fail_at = Some(2);
    let mut cycle = ReadCycle::new(small(false), ReadSection::Firmware);
    let (progress, result) = run_read(&mut cycle, &mut flash);
    assert!(matches!(result, Err(ISPError::HidError(_))));
    assert_eq!(
        progress,
        vec![
            Progress::Status("Enabling firmware..."),
            Progress::TaskStart { label: "Reading...", total: 3 },
        ]
    );
}

#[test]
fn write_failing_at_a_page_reports_the_pages_written() {
    // erase, pause, init-write, page 0, then page 1 fails
    let mut flash = Flash::new(20, 4);
    flash.fail_at = Some(4);
    let mut cycle = WriteCycle::new(small(true), image());
    let (progress, result) = run_write(&mut cycle, &mut flash);
    assert!(matches!(result, Err(ISPError::HidError(HidError::Disconnected))));
    assert_eq!(flash.seen.len(), 5);
    assert_eq!(
        progress,
        vec![
            Progress::Status("Erasing..."),
            Progress::TaskStart { label: "Writing...", total: 3 },
            Progress::TaskAdvance,
        ]
    );

    // the init-write command fails: no page was written
    let mut flash = Flash::new(20, 4);
    flash.fail_at = Some(2);
    let mut cycle = WriteCycle::new(small(true), image());
    let (progress, result) = run_write(&mut cycle, &mut flash);
    assert!(matches!(result, Err(ISPError::HidError(_))));
    assert_eq!(
        progress,
        vec![Progress::Status("Erasing..."), Progress::TaskStart { label: "Writing...", total: 3 }]
    );
}

#[test]
fn write_failing_during_read_back_reports_the_pages_read() {
    // erase, pause, init-write, 3 pages, init-read, page 0, then page 1 fails
    let mut flash = Flash::new(20, 4);
    flash.hide = Some(8);
    flash.fail_at = Some(8);
    let mut cycle = WriteCycle::new(small(false), image());
    let (progress, result) = run_write(&mut cycle, &mut flash);
    assert!(matches!(result, Err(ISPError::HidError(_))));
    assert_eq!(
        progress[progress.len() - 2..].to_vec(),
        vec![Progress::TaskStart { label: "Reading...", total: 3 }, Progress::TaskAdvance]
    );
}
