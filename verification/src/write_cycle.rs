//! Writing a firmware image to the flash.
use vstd::prelude::*;

use hidra::HidError;

use crate::cycle::Action;
use crate::cycle::Outcome;
use crate::cycle::Request;
use crate::cycle::Step;
use crate::cycle::step_is;
use crate::cycle::advanced;
use crate::cycle::with_advance;
use crate::device::ISPError;
use crate::device::Target;
use crate::device_spec::DeviceSpec;
use crate::firmware::clear_reset_vector_copy;
use crate::firmware::patch_reset_vector;
use crate::firmware::patchable;
use crate::firmware::spec_cleaned;
use crate::firmware::spec_patched;
use crate::progress::Progress;
use crate::progress::LABEL_READING;
use crate::progress::LABEL_WRITING;
use crate::progress::STATUS_ENABLING_FIRMWARE;
use crate::progress::STATUS_ERASING;
use crate::progress::STATUS_REBOOTING;
use crate::progress::STATUS_VERIFYING;
use crate::protocol::append_page_payload;
use crate::protocol::enable_firmware_command;
use crate::protocol::erase_command;
use crate::protocol::init_read_command;
use crate::protocol::init_write_command;
use crate::protocol::page_write_report;
use crate::protocol::read_request;
use crate::protocol::reboot_command;
use crate::protocol::spec_command;
use crate::protocol::spec_page_payload;
use crate::protocol::spec_read_request;
use crate::protocol::spec_write_report;
use crate::protocol::CMD_ENABLE_FIRMWARE;
use crate::protocol::CMD_ERASE;
use crate::protocol::CMD_INIT_READ;
use crate::protocol::CMD_INIT_WRITE;
use crate::protocol::CMD_REBOOT;
use crate::protocol::SETTLE_DELAY_MILLIS;
use crate::protocol::XFER_READ_PAGE;
use crate::read_cycle::advances;
use crate::read_cycle::page_payloads;
use crate::read_cycle::page_responses;
use crate::read_cycle::well_formed_pages;
use crate::verify::spec_verify;
use crate::verify::verify;

verus! {

/// Where a write cycle stands.
#[derive(Clone, Copy, PartialEq, Eq, Structural, Debug)]
pub enum WritePhase {
    /// Nothing done yet.
    Ready,
    /// The erase command is out.
    Erasing,
    /// The pause after the erase is running.
    Settling,
    /// The init-write command is out.
    InitWrite,
    /// The write of page `page` is out.
    Writing { page: usize },
    /// The init-read command for the read-back is out.
    InitReadBack,
    /// The read-back of page `page` is out.
    ReadingBack { page: usize },
    /// The enable-firmware command is out.
    Enabling,
    /// The reboot command is out.
    Rebooting,
    /// The pause after the reboot is running.
    Resetting,
    /// The cycle is over.
    Finished,
}

/// The state of a write cycle, with its images as sequences.
pub struct WriteState {
    pub phase: WritePhase,
    pub device: DeviceSpec,
    pub num_pages: usize,
    /// The image: patched while it is written, cleared again afterwards.
    pub firmware: Seq<u8>,
    /// What has been read back so far.
    pub read_back: Seq<u8>,
}

/// Erases the flash, writes the firmware page by page, reads it back,
/// compares, enables the firmware, and reboots where the device spec asks
/// for it.
pub struct WriteCycle {
    device: DeviceSpec,
    num_pages: usize,
    firmware: Vec<u8>,
    read_back: Vec<u8>,
    phase: WritePhase,
}

impl View for WriteCycle {
    type V = WriteState;

    closed spec fn view(&self) -> WriteState {
        WriteState {
            phase: self.phase,
            device: self.device,
            num_pages: self.num_pages,
            firmware: self.firmware@,
            read_back: self.read_back@,
        }
    }
}

/// The image is long enough for everything the cycle does to it: the
/// reset-vector copy and every whole page of the firmware section.
pub open spec fn writable(device: DeviceSpec, image_len: int) -> bool {
    &&& device.platform.page_size > 0
    &&& patchable(image_len, device.platform.firmware_size as int)
    &&& (device.platform.firmware_size / device.platform.page_size) * device.platform.page_size <= image_len
    &&& device.platform.firmware_size / device.platform.page_size > 0 ==> device.platform.page_size + 2
        <= usize::MAX
}

/// The write cycle can run, and it is past the comparison only if the image
/// and the read-back agree.
pub open spec fn write_state_wf(s: WriteState) -> bool {
    &&& writable(s.device, s.firmware.len() as int)
    &&& s.num_pages == s.device.platform.firmware_size / s.device.platform.page_size
    &&& s.phase matches WritePhase::Writing { page } ==> page < s.num_pages
    &&& s.phase matches WritePhase::ReadingBack { page } ==> page < s.num_pages
    &&& (s.phase == WritePhase::Enabling || s.phase == WritePhase::Rebooting || s.phase
        == WritePhase::Resetting) ==> s.firmware == s.read_back
}

/// The outcome that the action last asked for.
pub open spec fn write_awaits(s: WriteState, outcome: Outcome) -> bool {
    match s.phase {
        WritePhase::Erasing | WritePhase::InitWrite | WritePhase::Writing { .. } | WritePhase::InitReadBack
        | WritePhase::Enabling | WritePhase::Rebooting => outcome is Sent,
        WritePhase::ReadingBack { .. } => outcome matches Outcome::Received(r) && (r matches Ok(buf)
            ==> buf@.len() == s.device.platform.page_size + 2),
        WritePhase::Settling | WritePhase::Resetting => outcome is Paused,
        _ => false,
    }
}

/// The cycle ends; the read-back is dropped, the image kept.
pub open spec fn write_finish(s: WriteState, progress: Seq<Progress>, result: Result<(), ISPError>) -> (
    WriteState,
    Seq<Progress>,
    Request<()>,
) {
    (WriteState { phase: WritePhase::Finished, read_back: Seq::empty(), ..s }, progress, Request::Done(result))
}

/// The bytes of page `page` of the image.
pub open spec fn spec_page(s: WriteState, page: int) -> Seq<u8> {
    s.firmware.subrange(page * s.device.platform.page_size, (page + 1) * s.device.platform.page_size)
}

/// Writes page `page`.
pub open spec fn write_page_step(s: WriteState, page: usize) -> (WriteState, Seq<Progress>, Request<()>) {
    (
        WriteState { phase: WritePhase::Writing { page }, ..s },
        seq![],
        Request::Send(Target::Transfer, spec_write_report(spec_page(s, page as int))),
    )
}

/// All pages are written: clear the reset-vector copy and start reading back.
pub open spec fn after_write(s: WriteState) -> (WriteState, Seq<Progress>, Request<()>) {
    (
        WriteState {
            phase: WritePhase::InitReadBack,
            firmware: spec_cleaned(s.firmware, s.device.platform.firmware_size as int),
            ..s
        },
        seq![Progress::TaskFinish, Progress::TaskStart { label: LABEL_READING, total: s.num_pages }],
        Request::Send(Target::Command, spec_command(CMD_INIT_READ, 0)),
    )
}

/// Reads back page `page`.
pub open spec fn read_back_step(s: WriteState, page: usize) -> (WriteState, Seq<Progress>, Request<()>) {
    (
        WriteState { phase: WritePhase::ReadingBack { page }, ..s },
        seq![],
        Request::Receive(Target::Transfer, spec_read_request(s.device.platform.page_size as nat)),
    )
}

/// All pages are read back: compare, then enable the firmware.
pub open spec fn after_read_back(s: WriteState) -> (WriteState, Seq<Progress>, Request<()>) {
    match spec_verify(s.firmware, s.read_back) {
        Err(e) => write_finish(
            s,
            seq![Progress::TaskFinish, Progress::Status(STATUS_VERIFYING)],
            Err(ISPError::VerificationError(e)),
        ),
        Ok(()) => (
            WriteState { phase: WritePhase::Enabling, ..s },
            seq![
                Progress::TaskFinish,
                Progress::Status(STATUS_VERIFYING),
                Progress::Status(STATUS_ENABLING_FIRMWARE),
            ],
            Request::Send(Target::Command, spec_command(CMD_ENABLE_FIRMWARE, 0)),
        ),
    }
}

/// What a write cycle in state `s` does with `outcome`.
pub open spec fn write_transition(s: WriteState, outcome: Outcome) -> (WriteState, Seq<Progress>, Request<()>) {
    match outcome {
        Outcome::Sent(Err(e)) => if s.phase == WritePhase::Rebooting {
            (WriteState { phase: WritePhase::Resetting, ..s }, seq![], Request::Pause(SETTLE_DELAY_MILLIS))
        } else {
            write_finish(s, seq![], Err(ISPError::HidError(e)))
        },
        Outcome::Received(Err(e)) => write_finish(s, seq![], Err(ISPError::HidError(e))),
        _ => match s.phase {
            WritePhase::Erasing => (
                WriteState { phase: WritePhase::Settling, ..s },
                seq![],
                Request::Pause(SETTLE_DELAY_MILLIS),
            ),
            WritePhase::Settling => (
                WriteState { phase: WritePhase::InitWrite, ..s },
                seq![Progress::TaskStart { label: LABEL_WRITING, total: s.num_pages }],
                Request::Send(Target::Command, spec_command(CMD_INIT_WRITE, 0)),
            ),
            WritePhase::InitWrite => if s.num_pages > 0 {
                write_page_step(s, 0)
            } else {
                after_write(s)
            },
            WritePhase::Writing { page } => if page + 1 < s.num_pages {
                with_advance(write_page_step(s, (page + 1) as usize))
            } else {
                with_advance(after_write(s))
            },
            WritePhase::InitReadBack => if s.num_pages > 0 {
                read_back_step(s, 0)
            } else {
                after_read_back(s)
            },
            WritePhase::ReadingBack { page } => match outcome {
                Outcome::Received(Ok(buf)) => {
                    let t = WriteState {
                        read_back: s.read_back + spec_page_payload(buf@, s.device.platform.page_size as nat),
                        ..s
                    };
                    if buf@[1] != XFER_READ_PAGE {
                        write_finish(t, seq![], Err(ISPError::ReadWriteMismatch))
                    } else if page + 1 < s.num_pages {
                        with_advance(read_back_step(t, (page + 1) as usize))
                    } else {
                        with_advance(after_read_back(t))
                    }
                },
                _ => write_finish(s, seq![], Err(ISPError::ReadWriteMismatch)),
            },
            WritePhase::Enabling => if s.device.reboot {
                (
                    WriteState { phase: WritePhase::Rebooting, ..s },
                    seq![Progress::Status(STATUS_REBOOTING)],
                    Request::Send(Target::Command, spec_command(CMD_REBOOT, 0)),
                )
            } else {
                write_finish(s, seq![], Ok(()))
            },
            WritePhase::Rebooting => (
                WriteState { phase: WritePhase::Resetting, ..s },
                seq![],
                Request::Pause(SETTLE_DELAY_MILLIS),
            ),
            _ => write_finish(s, seq![], Ok(())),
        },
    }
}

/// A write cycle reports success only once the image read back from the
/// device equals the image as it was meant to end up: the caller's image
/// with the reset-vector copy cleared.
pub proof fn lemma_write_success_is_verified(s: WriteState, outcome: Outcome)
    requires
        write_state_wf(s),
        write_awaits(s, outcome),
        write_transition(s, outcome).2 == Request::<()>::Done(Ok(())),
    ensures
        s.firmware == s.read_back,
        s.phase == WritePhase::Enabling || s.phase == WritePhase::Resetting,
{
}

/// The state, the progress reported, and the last request of a write cycle
/// that took `outcomes` one after the other, starting in state `s` with `r`
/// as its last request.
pub open spec fn write_run(s: WriteState, r: Request<()>, outcomes: Seq<Outcome>) -> (
    WriteState,
    Seq<Progress>,
    Request<()>,
)
    decreases outcomes.len(),
{
    if outcomes.len() == 0 {
        (s, seq![], r)
    } else {
        let t = write_transition(s, outcomes[0]);
        let rest = write_run(t.0, t.2, outcomes.drop_first());
        (rest.0, t.1 + rest.1, rest.2)
    }
}

/// `count` successful sends.
pub open spec fn sends_ok(count: nat) -> Seq<Outcome> {
    Seq::new(count, |i: int| Outcome::Sent(Ok(())))
}

/// The outcomes of a write cycle in which every transfer succeeds, the
/// device answering the read-back with `pages`; `verified` tells whether the
/// read-back matches, after which the firmware is enabled and the device
/// rebooted where asked.
pub open spec fn successful_write(reboot: bool, num_pages: nat, pages: Seq<Vec<u8>>, verified: bool) -> Seq<Outcome> {
    seq![Outcome::Sent(Ok(())), Outcome::Paused] + sends_ok(num_pages + 1) + sends_ok(1) + page_responses(pages)
        + if !verified {
        seq![]
    } else if reboot {
        seq![Outcome::Sent(Ok(())), Outcome::Sent(Ok(())), Outcome::Paused]
    } else {
        seq![Outcome::Sent(Ok(()))]
    }
}

/// The outcomes of a write cycle in which every transfer succeeds but for the
/// reboot command, which has `reboot_outcome`.
pub open spec fn write_with_reboot(
    reboot: bool,
    num_pages: nat,
    pages: Seq<Vec<u8>>,
    verified: bool,
    reboot_outcome: Outcome,
) -> Seq<Outcome> {
    seq![Outcome::Sent(Ok(())), Outcome::Paused] + sends_ok(num_pages + 1) + sends_ok(1) + page_responses(pages)
        + if !verified {
        seq![]
    } else if reboot {
        seq![Outcome::Sent(Ok(())), reboot_outcome, Outcome::Paused]
    } else {
        seq![Outcome::Sent(Ok(()))]
    }
}

/// The progress that a write cycle in which every transfer succeeds reports
/// after the erase: the write task with one advance per page, the read-back
/// task with one advance per page, the comparison, and, if it matched, the
/// enabling of the firmware and the reboot where asked.
pub open spec fn successful_write_progress(reboot: bool, num_pages: usize, verified: bool) -> Seq<Progress> {
    seq![Progress::TaskStart { label: LABEL_WRITING, total: num_pages }] + advances(num_pages as nat) + seq![
        Progress::TaskFinish,
        Progress::TaskStart { label: LABEL_READING, total: num_pages },
    ] + advances(num_pages as nat) + seq![Progress::TaskFinish, Progress::Status(STATUS_VERIFYING)] + if !verified {
        seq![]
    } else if reboot {
        seq![Progress::Status(STATUS_ENABLING_FIRMWARE), Progress::Status(STATUS_REBOOTING)]
    } else {
        seq![Progress::Status(STATUS_ENABLING_FIRMWARE)]
    }
}

/// Taking `a` and then `b` is taking `a + b`.
pub proof fn lemma_write_run_append(s: WriteState, r: Request<()>, a: Seq<Outcome>, b: Seq<Outcome>)
    ensures
        write_run(s, r, a + b) == ({
            let x = write_run(s, r, a);
            let y = write_run(x.0, x.2, b);
            (y.0, x.1 + y.1, y.2)
        }),
    decreases a.len(),
{
    if a.len() > 0 {
        let t = write_transition(s, a[0]);
        assert((a + b).drop_first() =~= a.drop_first() + b);
        lemma_write_run_append(t.0, t.2, a.drop_first(), b);
        let x1 = write_run(t.0, t.2, a.drop_first());
        let y = write_run(x1.0, x1.2, b);
        assert(t.1 + (x1.1 + y.1) =~= (t.1 + x1.1) + y.1);
    } else {
        assert(a + b =~= b);
        assert(seq![] + write_run(s, r, b).1 =~= write_run(s, r, b).1);
    }
}

proof fn lemma_write_run_one(s: WriteState, r: Request<()>, o: Outcome)
    ensures
        write_run(s, r, seq![o]) == write_transition(s, o),
{
    let t = write_transition(s, o);
    assert(seq![o].drop_first() =~= Seq::<Outcome>::empty());
    assert(write_run(t.0, t.2, seq![o].drop_first()) == (t.0, Seq::<Progress>::empty(), t.2));
    assert(t.1 + Seq::<Progress>::empty() =~= t.1);
}

/// `k` pages confirmed written from page `page` on: either more pages are
/// left, and the next one is sent, or the writing is over.
proof fn lemma_write_pages(s: WriteState, r: Request<()>, k: nat)
    requires
        write_state_wf(s),
        s.phase matches WritePhase::Writing { page } && page + k <= s.num_pages,
        k > 0,
    ensures
        write_run(s, r, sends_ok(k)) == ({
            let page = s.phase->Writing_page;
            if page + k < s.num_pages {
                let u = write_page_step(s, (page + k) as usize);
                (u.0, advances(k), u.2)
            } else {
                (after_write(s).0, advances(k) + after_write(s).1, after_write(s).2)
            }
        }),
    decreases k,
{
    let page = s.phase->Writing_page;
    let o = Outcome::Sent(Ok(()));
    assert(sends_ok(k) =~= seq![o] + sends_ok((k - 1) as nat));
    lemma_write_run_append(s, r, seq![o], sends_ok((k - 1) as nat));
    lemma_write_run_one(s, r, o);
    let step = write_transition(s, o);
    let rest = write_run(step.0, step.2, sends_ok((k - 1) as nat));
    assert(advances(1) =~= seq![Progress::TaskAdvance]);
    if k == 1 {
        assert(sends_ok(0) =~= Seq::<Outcome>::empty());
        assert(rest == (step.0, Seq::<Progress>::empty(), step.2));
        if page + 1 < s.num_pages {
            assert(step == with_advance(write_page_step(s, (page + 1) as usize)));
            assert(step.1 + rest.1 =~= advances(1));
        } else {
            assert(step == with_advance(after_write(s)));
            assert(step.1 + rest.1 =~= advances(1) + after_write(s).1);
        }
    } else {
        let u = write_page_step(s, (page + 1) as usize);
        assert(step == with_advance(u));
        lemma_write_pages(u.0, u.2, (k - 1) as nat);
        assert(after_write(u.0) == after_write(s));
        assert(write_page_step(u.0, (page + k) as usize) == write_page_step(s, (page + k) as usize));
        assert(seq![Progress::TaskAdvance] + advances((k - 1) as nat) =~= advances(k));
        assert(seq![Progress::TaskAdvance] + (advances((k - 1) as nat) + after_write(s).1) =~= advances(k)
            + after_write(s).1);
    }
}

/// Reading back `pages.len()` good pages from page `page` on.
proof fn lemma_read_back_pages(s: WriteState, r: Request<()>, pages: Seq<Vec<u8>>)
    requires
        write_state_wf(s),
        s.phase matches WritePhase::ReadingBack { page } && page + pages.len() <= s.num_pages,
        pages.len() > 0,
        well_formed_pages(pages, s.device.platform.page_size as nat),
    ensures
        write_run(s, r, page_responses(pages)) == ({
            let page = s.phase->ReadingBack_page;
            let t = WriteState {
                read_back: s.read_back + page_payloads(pages, s.device.platform.page_size as nat).flatten(),
                ..s
            };
            if page + pages.len() < s.num_pages {
                let u = read_back_step(t, (page + pages.len()) as usize);
                (u.0, advances(pages.len()), u.2)
            } else {
                (after_read_back(t).0, advances(pages.len()) + after_read_back(t).1, after_read_back(t).2)
            }
        }),
    decreases pages.len(),
{
    let ps = s.device.platform.page_size as nat;
    let page = s.phase->ReadingBack_page;
    let first = pages[0];
    let k = pages.len();
    assert(page_responses(pages)[0] == Outcome::Received(Ok(first)));
    assert(pages[0]@.len() == ps + 2);
    let t1 = WriteState { read_back: s.read_back + spec_page_payload(first@, ps), ..s };
    assert(page_payloads(pages, ps).flatten() == spec_page_payload(first@, ps) + page_payloads(
        pages.drop_first(),
        ps,
    ).flatten()) by {
        assert(page_payloads(pages, ps).drop_first() =~= page_payloads(pages.drop_first(), ps));
    }
    assert(page_responses(pages).drop_first() =~= page_responses(pages.drop_first()));
    let step = write_transition(s, page_responses(pages)[0]);
    let rest = write_run(step.0, step.2, page_responses(pages.drop_first()));
    assert(write_run(s, r, page_responses(pages)) == (rest.0, step.1 + rest.1, rest.2));
    if k == 1 {
        assert(page_responses(pages.drop_first()) =~= Seq::<Outcome>::empty());
        assert(page_payloads(pages.drop_first(), ps) =~= Seq::<Seq<u8>>::empty());
        assert(t1.read_back =~= s.read_back + page_payloads(pages, ps).flatten());
        assert(advances(1) =~= seq![Progress::TaskAdvance]);
        if page + 1 < s.num_pages {
            assert(step == with_advance(read_back_step(t1, (page + 1) as usize)));
            assert(step.1 + rest.1 =~= advances(1));
        } else {
            assert(step == with_advance(after_read_back(t1)));
            assert(step.1 + rest.1 =~= advances(1) + after_read_back(t1).1);
        }
    } else {
        let u = read_back_step(t1, (page + 1) as usize);
        assert(step == with_advance(u));
        assert forall|i: int| 0 <= i < pages.drop_first().len() implies #[trigger] pages.drop_first()[i]@.len()
            == ps + 2 && pages.drop_first()[i]@[1] == XFER_READ_PAGE by {
            assert(pages.drop_first()[i] == pages[i + 1]);
        }
        lemma_read_back_pages(u.0, u.2, pages.drop_first());
        assert(u.0.read_back + page_payloads(pages.drop_first(), ps).flatten() =~= s.read_back + page_payloads(
            pages,
            ps,
        ).flatten());
        assert(seq![Progress::TaskAdvance] + advances((k - 1) as nat) =~= advances(k));
        let t = WriteState { read_back: s.read_back + page_payloads(pages, ps).flatten(), ..s };
        assert(seq![Progress::TaskAdvance] + (advances((k - 1) as nat) + after_read_back(t).1)
            =~= advances(k) + after_read_back(t).1);
    }
}

/// The cycle's state once the erase went through and its pause is over.
proof fn lemma_write_erase(s: WriteState, r: Request<()>)
    requires
        write_state_wf(s),
        s.phase == WritePhase::Erasing,
    ensures
        write_run(s, r, seq![Outcome::Sent(Ok(())), Outcome::Paused]) == (
            WriteState { phase: WritePhase::InitWrite, ..s },
            seq![Progress::TaskStart { label: LABEL_WRITING, total: s.num_pages }],
            Request::<()>::Send(Target::Command, spec_command(CMD_INIT_WRITE, 0)),
        ),
{
    let o = Outcome::Sent(Ok(()));
    assert(seq![o, Outcome::Paused] =~= seq![o] + seq![Outcome::Paused]);
    lemma_write_run_append(s, r, seq![o], seq![Outcome::Paused]);
    lemma_write_run_one(s, r, o);
    let s1 = write_transition(s, o);
    lemma_write_run_one(s1.0, s1.2, Outcome::Paused);
    assert(s1.1 + write_transition(s1.0, Outcome::Paused).1 =~= seq![
        Progress::TaskStart { label: LABEL_WRITING, total: s.num_pages },
    ]);
}

/// A write cycle in which every transfer but possibly the reboot command
/// succeeds.
proof fn lemma_write_with_reboot(s: WriteState, r: Request<()>, pages: Seq<Vec<u8>>, reboot_outcome: Outcome)
    requires
        write_state_wf(s),
        s.phase == WritePhase::Erasing,
        s.read_back == Seq::<u8>::empty(),
        pages.len() == s.num_pages,
        well_formed_pages(pages, s.device.platform.page_size as nat),
        reboot_outcome is Sent,
    ensures
        ({
            let image = spec_cleaned(s.firmware, s.device.platform.firmware_size as int);
            let read = page_payloads(pages, s.device.platform.page_size as nat).flatten();
            let verified = image == read;
            let run = write_run(s, r, write_with_reboot(s.device.reboot, s.num_pages as nat, pages, verified, reboot_outcome));
            &&& run.2 == if verified {
                Request::<()>::Done(Ok(()))
            } else {
                Request::<()>::Done(Err(ISPError::VerificationError(spec_verify(image, read)->Err_0)))
            }
            &&& run.1 == successful_write_progress(s.device.reboot, s.num_pages, verified)
            &&& (verified && s.device.reboot) ==> write_run(
                s,
                r,
                write_with_reboot(s.device.reboot, s.num_pages as nat, pages, verified, reboot_outcome).drop_last(),
            ).2 == Request::<()>::Pause(SETTLE_DELAY_MILLIS)
        }),
{
    let ps = s.device.platform.page_size as nat;
    let n = s.num_pages as nat;
    let image = spec_cleaned(s.firmware, s.device.platform.firmware_size as int);
    let read = page_payloads(pages, ps).flatten();
    let verified = image == read;
    let o = Outcome::Sent(Ok(()));
    let head = seq![o, Outcome::Paused];
    let tail = if !verified {
        seq![]
    } else if s.device.reboot {
        seq![o, reboot_outcome, Outcome::Paused]
    } else {
        seq![o]
    };
    // erase and its pause
    lemma_write_erase(s, r);
    let s2 = write_run(s, r, head);
    let iw = WriteState { phase: WritePhase::InitWrite, ..s };
    // init-write and the pages
    let written = after_write(iw);
    assert(sends_ok(n + 1) =~= seq![o] + sends_ok(n));
    lemma_write_run_append(s2.0, s2.2, seq![o], sends_ok(n));
    lemma_write_run_one(s2.0, s2.2, o);
    let wrote = write_run(s2.0, s2.2, sends_ok(n + 1));
    if n > 0 {
        let w = write_page_step(iw, 0);
        lemma_write_pages(w.0, w.2, n);
        assert(after_write(w.0) == written);
        assert(wrote == (written.0, Seq::<Progress>::empty() + (advances(n) + written.1), written.2));
    } else {
        assert(sends_ok(n) =~= Seq::<Outcome>::empty());
        assert(advances(0) =~= Seq::<Progress>::empty());
        assert(wrote == (written.0, written.1 + Seq::<Progress>::empty(), written.2));
    }
    assert(wrote.1 =~= advances(n) + written.1);
    // init-read and the read-back
    let w1 = written.0;
    assert(w1.firmware == image);
    lemma_write_run_one(w1, written.2, o);
    assert(sends_ok(1) =~= seq![o]);
    let w2 = write_transition(w1, o);
    let t = WriteState { read_back: read, ..w1 };
    let checked = after_read_back(WriteState { phase: WritePhase::InitReadBack, ..t });
    let back = write_run(w2.0, w2.2, page_responses(pages));
    if n > 0 {
        lemma_read_back_pages(read_back_step(w1, 0).0, read_back_step(w1, 0).2, pages);
        assert(Seq::<u8>::empty() + read =~= read);
        assert(back == (checked.0, advances(n) + checked.1, checked.2));
    } else {
        assert(page_responses(pages) =~= Seq::<Outcome>::empty());
        assert(page_payloads(pages, ps) =~= Seq::<Seq<u8>>::empty());
        assert(read =~= Seq::<u8>::empty());
        assert(w1.read_back =~= read);
        assert(back == (w2.0, Seq::<Progress>::empty(), w2.2));
        assert(w2.1 =~= advances(n) + checked.1);
    }
    crate::verify::lemma_spec_verify_ok(image, read);
    // glue the pieces together
    let all = head + sends_ok(n + 1) + sends_ok(1) + page_responses(pages) + tail;
    assert(write_with_reboot(s.device.reboot, n, pages, verified, reboot_outcome) == all);
    lemma_write_run_append(s, r, head + sends_ok(n + 1) + sends_ok(1) + page_responses(pages), tail);
    lemma_write_run_append(s, r, head + sends_ok(n + 1) + sends_ok(1), page_responses(pages));
    lemma_write_run_append(s, r, head + sends_ok(n + 1), sends_ok(1));
    lemma_write_run_append(s, r, head, sends_ok(n + 1));
    let before_tail = s2.1 + wrote.1 + w2.1 + back.1;
    let end = write_run(checked.0, checked.2, tail);
    if verified {
        assert(checked.0.phase == WritePhase::Enabling);
        let e = write_transition(checked.0, o);
        if s.device.reboot {
            let ro = reboot_outcome;
            lemma_write_run_append(checked.0, checked.2, seq![o], seq![ro, Outcome::Paused]);
            assert(tail =~= seq![o] + seq![ro, Outcome::Paused]);
            lemma_write_run_one(checked.0, checked.2, o);
            lemma_write_run_append(e.0, e.2, seq![ro], seq![Outcome::Paused]);
            assert(seq![ro, Outcome::Paused] =~= seq![ro] + seq![Outcome::Paused]);
            lemma_write_run_one(e.0, e.2, ro);
            let f = write_transition(e.0, ro);
            assert(e.0.phase == WritePhase::Rebooting);
            assert(f.2 == Request::<()>::Pause(SETTLE_DELAY_MILLIS));
            lemma_write_run_one(f.0, f.2, Outcome::Paused);
            assert(end.1 =~= seq![Progress::Status(STATUS_REBOOTING)]);
            // the run without its last pause ends asking for that pause
            let prefix = head + sends_ok(n + 1) + sends_ok(1) + page_responses(pages);
            assert(all.drop_last() =~= prefix + seq![o, ro]);
            lemma_write_run_append(s, r, prefix, seq![o, ro]);
            lemma_write_run_append(checked.0, checked.2, seq![o], seq![ro]);
            assert(seq![o, ro] =~= seq![o] + seq![ro]);
        } else {
            lemma_write_run_one(checked.0, checked.2, o);
            assert(end.1 =~= Seq::<Progress>::empty());
        }
    } else {
        assert(tail =~= Seq::<Outcome>::empty());
        assert(end.1 =~= Seq::<Progress>::empty());
    }
    assert(before_tail + end.1 =~= successful_write_progress(s.device.reboot, s.num_pages, verified));
}

/// A write cycle in which every transfer succeeds writes the patched image,
/// reads it back, and ends in success exactly when what was read back equals
/// the image with its reset-vector copy cleared; otherwise it ends with the
/// comparison's error. Each task reports one advance per page done.
pub proof fn lemma_successful_write(s: WriteState, r: Request<()>, pages: Seq<Vec<u8>>)
    requires
        write_state_wf(s),
        s.phase == WritePhase::Erasing,
        s.read_back == Seq::<u8>::empty(),
        pages.len() == s.num_pages,
        well_formed_pages(pages, s.device.platform.page_size as nat),
    ensures
        ({
            let image = spec_cleaned(s.firmware, s.device.platform.firmware_size as int);
            let read = page_payloads(pages, s.device.platform.page_size as nat).flatten();
            let verified = image == read;
            let run = write_run(s, r, successful_write(s.device.reboot, s.num_pages as nat, pages, verified));
            &&& run.2 == if verified {
                Request::<()>::Done(Ok(()))
            } else {
                Request::<()>::Done(Err(ISPError::VerificationError(spec_verify(image, read)->Err_0)))
            }
            &&& run.1 == successful_write_progress(s.device.reboot, s.num_pages, verified)
        }),
{
    let o = Outcome::Sent(Ok(()));
    let image = spec_cleaned(s.firmware, s.device.platform.firmware_size as int);
    let read = page_payloads(pages, s.device.platform.page_size as nat).flatten();
    let verified = image == read;
    assert(successful_write(s.device.reboot, s.num_pages as nat, pages, verified) == write_with_reboot(
        s.device.reboot,
        s.num_pages as nat,
        pages,
        verified,
        o,
    ));
    lemma_write_with_reboot(s, r, pages, o);
}

/// A failed reboot command is ignored: a write cycle whose transfers all
/// succeed and whose read-back matches, but whose reboot command fails (the
/// keyboard drops off the bus as it restarts), still pauses for the device
/// to settle and ends in success, with the same progress as if the reboot
/// had gone through.
pub proof fn lemma_write_reboot_failure_ignored(s: WriteState, r: Request<()>, pages: Seq<Vec<u8>>, e: HidError)
    requires
        write_state_wf(s),
        s.phase == WritePhase::Erasing,
        s.read_back == Seq::<u8>::empty(),
        pages.len() == s.num_pages,
        well_formed_pages(pages, s.device.platform.page_size as nat),
        s.device.reboot,
        spec_cleaned(s.firmware, s.device.platform.firmware_size as int) == page_payloads(
            pages,
            s.device.platform.page_size as nat,
        ).flatten(),
    ensures
        ({
            let failing = write_with_reboot(true, s.num_pages as nat, pages, true, Outcome::Sent(Err(e)));
            &&& write_run(s, r, failing).2 == Request::<()>::Done(Ok(()))
            &&& write_run(s, r, failing).1 == write_run(
                s,
                r,
                successful_write(true, s.num_pages as nat, pages, true),
            ).1
            &&& write_run(s, r, failing.drop_last()).2 == Request::<()>::Pause(SETTLE_DELAY_MILLIS)
        }),
{
    lemma_successful_write(s, r, pages);
    lemma_write_with_reboot(s, r, pages, Outcome::Sent(Err(e)));
}

/// Page `page` of the image goes out as the transfer report ID, the
/// write-page kind, and the image's bytes `page * page_size ..
/// (page + 1) * page_size`: after the init-write command for page 0, after
/// the confirmation of page `page - 1` for every later page.
pub proof fn lemma_page_write_report(s: WriteState, page: int)
    requires
        write_state_wf(s),
        0 <= page < s.num_pages,
        page == 0 ==> s.phase == WritePhase::InitWrite,
        page > 0 ==> s.phase == (WritePhase::Writing { page: (page - 1) as usize }),
    ensures
        ({
            let ps = s.device.platform.page_size as int;
            &&& page * ps + ps <= s.firmware.len()
            &&& write_transition(s, Outcome::Sent(Ok(()))).2 matches Request::Send(target, report) && target
                == Target::Transfer && report.len() == ps + 2 && report[0] == 0x06 && report[1] == 0x77
                && forall|i: int| 0 <= i < ps ==> #[trigger] report[i + 2] == s.firmware[page * ps + i]
        }),
{
    let ps = s.device.platform.page_size as int;
    lemma_page_bounds(page, s.num_pages as int, ps, s.firmware.len() as int);
    let report = spec_write_report(spec_page(s, page));
    assert(spec_page(s, page).len() == ps);
    assert forall|i: int| 0 <= i < ps implies #[trigger] report[i + 2] == s.firmware[page * ps + i] by {
        assert(report[i + 2] == spec_page(s, page)[i]);
    }
}

/// The write starts at address 0: after the erase and its pause, the cycle
/// sends the init-write command for address 0; after the last page, the
/// init-read command for address 0, to read the image back from its start.
pub proof fn lemma_write_addresses(s: WriteState)
    requires
        write_state_wf(s),
    ensures
        s.phase == WritePhase::Settling ==> write_transition(s, Outcome::Paused).2 == Request::<()>::Send(
            Target::Command,
            seq![0x05u8, 0x57u8, 0u8, 0u8, 0u8, 0u8],
        ),
        after_write(s).2 == Request::<()>::Send(Target::Command, seq![0x05u8, 0x52u8, 0u8, 0u8, 0u8, 0u8]),
{
    assert(spec_command(CMD_INIT_WRITE, 0) =~= seq![0x05u8, 0x57u8, 0u8, 0u8, 0u8, 0u8]);
    assert(spec_command(CMD_INIT_READ, 0) =~= seq![0x05u8, 0x52u8, 0u8, 0u8, 0u8, 0u8]);
}

/// A write cycle in which every transfer succeeds ends in success exactly
/// when the device reads back, page by page, the image with its reset-vector
/// copy cleared: as many bytes as the image holds, byte `i` of page `k`
/// (byte `i + 2` of the `k`-th response) equal to the image's byte
/// `k * page_size + i`.
pub proof fn lemma_write_success_iff_pages_match(s: WriteState, r: Request<()>, pages: Seq<Vec<u8>>)
    requires
        write_state_wf(s),
        s.phase == WritePhase::Erasing,
        s.read_back == Seq::<u8>::empty(),
        pages.len() == s.num_pages,
        well_formed_pages(pages, s.device.platform.page_size as nat),
    ensures
        ({
            let ps = s.device.platform.page_size as int;
            let image = spec_cleaned(s.firmware, s.device.platform.firmware_size as int);
            let verified = image == page_payloads(pages, ps as nat).flatten();
            let run = write_run(s, r, successful_write(s.device.reboot, s.num_pages as nat, pages, verified));
            run.2 == Request::<()>::Done(Ok(())) <==> (image.len() == s.num_pages * ps && forall|k: int, i: int|
                0 <= k < s.num_pages && 0 <= i < ps ==> image[k * ps + i] == #[trigger] pages[k]@[i + 2])
        }),
{
    let ps = s.device.platform.page_size as int;
    let n = s.num_pages as int;
    let image = spec_cleaned(s.firmware, s.device.platform.firmware_size as int);
    let read = page_payloads(pages, ps as nat).flatten();
    lemma_successful_write(s, r, pages);
    crate::read_cycle::lemma_page_payloads_bytes(pages, ps as nat);
    if image.len() == n * ps && forall|k: int, i: int|
        0 <= k < n && 0 <= i < ps ==> image[k * ps + i] == #[trigger] pages[k]@[i + 2] {
        assert forall|j: int| 0 <= j < image.len() implies image[j] == read[j] by {
            let k = j / ps;
            let i = j % ps;
            assert(j == k * ps + i && 0 <= i < ps && 0 <= k < n) by (nonlinear_arith)
                requires
                    ps > 0,
                    0 <= j < n * ps,
                    k == j / ps,
                    i == j % ps,
            ;
            assert(read[k * ps + i] == pages[k]@[i + 2]);
        }
        assert(image =~= read);
    }
}

/// A write cycle whose erase goes through and whose next `sent` sends go
/// through (the init-write command, then `sent - 1` pages) but whose next
/// send fails ends with that send's error, having reported the start of the
/// write task and one advance per page written, and no end of the task.
pub proof fn lemma_failed_write(s: WriteState, r: Request<()>, sent: nat, e: HidError)
    requires
        write_state_wf(s),
        s.phase == WritePhase::Erasing,
        sent <= s.num_pages,
    ensures
        ({
            let run = write_run(
                s,
                r,
                seq![Outcome::Sent(Ok(())), Outcome::Paused] + sends_ok(sent) + seq![Outcome::Sent(Err(e))],
            );
            &&& run.2 == Request::<()>::Done(Err(ISPError::HidError(e)))
            &&& run.1 == seq![Progress::TaskStart { label: LABEL_WRITING, total: s.num_pages }] + advances(
                if sent == 0 {
                    0
                } else {
                    (sent - 1) as nat
                },
            )
        }),
{
    let o = Outcome::Sent(Ok(()));
    let f = Outcome::Sent(Err(e));
    let head = seq![o, Outcome::Paused];
    let start = seq![Progress::TaskStart { label: LABEL_WRITING, total: s.num_pages }];
    lemma_write_erase(s, r);
    let h = write_run(s, r, head);
    lemma_write_run_append(s, r, head + sends_ok(sent), seq![f]);
    lemma_write_run_append(s, r, head, sends_ok(sent));
    let mid = write_run(h.0, h.2, sends_ok(sent));
    let done = if sent == 0 {
        0
    } else {
        (sent - 1) as nat
    };
    if sent == 0 {
        assert(sends_ok(sent) =~= Seq::<Outcome>::empty());
        assert(mid == (h.0, Seq::<Progress>::empty(), h.2));
    } else {
        assert(sends_ok(sent) =~= seq![o] + sends_ok(done));
        lemma_write_run_append(h.0, h.2, seq![o], sends_ok(done));
        lemma_write_run_one(h.0, h.2, o);
        let w = write_page_step(h.0, 0);
        if done > 0 {
            lemma_write_pages(w.0, w.2, done);
        } else {
            assert(sends_ok(done) =~= Seq::<Outcome>::empty());
        }
        assert(mid.0.phase matches WritePhase::Writing { .. });
        assert(mid.1 =~= advances(done));
    }
    if sent == 0 {
        assert(advances(0) =~= Seq::<Progress>::empty());
    }
    lemma_write_run_one(mid.0, mid.2, f);
    assert(h.1 + mid.1 + write_transition(mid.0, f).1 =~= start + advances(done));
}

proof fn lemma_page_bounds(page: int, num_pages: int, page_size: int, len: int)
    requires
        0 <= page < num_pages,
        0 < page_size,
        num_pages * page_size <= len,
    ensures
        0 <= page * page_size,
        page * page_size + page_size <= len,
        (page + 1) * page_size == page * page_size + page_size,
{
    assert(page * page_size + page_size <= num_pages * page_size) by (nonlinear_arith)
        requires
            0 <= page < num_pages,
            0 < page_size,
    ;
    assert(0 <= page * page_size) by (nonlinear_arith)
        requires
            0 <= page,
            0 < page_size,
    ;
    assert((page + 1) * page_size == page * page_size + page_size) by (nonlinear_arith);
}

impl WriteCycle {
    /// A cycle that writes `image`, the reset vector's target copied to
    /// `firmware_size - 4` for the time of the write.
    pub fn new(device: DeviceSpec, image: Vec<u8>) -> (cycle: WriteCycle)
        requires
            writable(device, image@.len() as int),
        ensures
            cycle@.phase == WritePhase::Ready,
            cycle@.device == device,
            cycle@.num_pages == device.platform.firmware_size / device.platform.page_size,
            cycle@.firmware == spec_patched(image@, device.platform.firmware_size as int),
            cycle@.read_back == Seq::<u8>::empty(),
            write_state_wf(cycle@),
    {
        let mut firmware = image;
        patch_reset_vector(&mut firmware, device.platform.firmware_size);
        WriteCycle {
            device,
            num_pages: device.num_pages(),
            firmware,
            read_back: Vec::new(),
            phase: WritePhase::Ready,
        }
    }

    /// The image as the cycle holds it: patched until all pages are written,
    /// cleared again from then on.
    pub fn firmware(&self) -> (image: &Vec<u8>)
        ensures
            image@ == self@.firmware,
    {
        &self.firmware
    }

    /// The first step: report the erase, and send the erase command.
    pub fn start(&mut self) -> (step: Step<()>)
        requires
            old(self)@.phase == WritePhase::Ready,
        ensures
            final(self)@ == (WriteState { phase: WritePhase::Erasing, ..old(self)@ }),
            step_is(step, seq![Progress::Status(STATUS_ERASING)], Request::Send(Target::Command, spec_command(CMD_ERASE, 0))),
    {
        self.phase = WritePhase::Erasing;
        let progress = vec![Progress::Status(STATUS_ERASING)];
        assert(progress@ =~= seq![Progress::Status(STATUS_ERASING)]);
        Step { progress, action: Action::Send { target: Target::Command, report: erase_command() } }
    }

    /// The step that follows `outcome`.
    pub fn resume(&mut self, outcome: Outcome) -> (step: Step<()>)
        requires
            write_state_wf(old(self)@),
            write_awaits(old(self)@, outcome),
        ensures
            write_state_wf(final(self)@),
            final(self)@ == write_transition(old(self)@, outcome).0,
            step_is(step, write_transition(old(self)@, outcome).1, write_transition(old(self)@, outcome).2),
    {
        match outcome {
            Outcome::Sent(Err(e)) => {
                if self.phase == WritePhase::Rebooting {
                    self.pause(WritePhase::Resetting)
                } else {
                    self.finish(Vec::new(), Err(ISPError::HidError(e)))
                }
            },
            Outcome::Received(Err(e)) => self.finish(Vec::new(), Err(ISPError::HidError(e))),
            outcome => match self.phase {
                WritePhase::Erasing => self.pause(WritePhase::Settling),
                WritePhase::Settling => {
                    self.phase = WritePhase::InitWrite;
                    let progress = vec![Progress::TaskStart { label: LABEL_WRITING, total: self.num_pages }];
                    assert(progress@ =~= seq![Progress::TaskStart { label: LABEL_WRITING, total: self.num_pages }]);
                    Step { progress, action: Action::Send { target: Target::Command, report: init_write_command(0) } }
                },
                WritePhase::InitWrite => if self.num_pages > 0 {
                    self.write_page(0)
                } else {
                    self.after_write()
                },
                WritePhase::Writing { page } => if page + 1 < self.num_pages {
                    advanced(self.write_page(page + 1))
                } else {
                    advanced(self.after_write())
                },
                WritePhase::InitReadBack => if self.num_pages > 0 {
                    self.read_back_page(0)
                } else {
                    self.after_read_back()
                },
                WritePhase::ReadingBack { page } => match outcome {
                    Outcome::Received(Ok(buf)) => {
                        append_page_payload(&mut self.read_back, &buf, self.device.platform.page_size);
                        if buf[1] != XFER_READ_PAGE {
                            self.finish(Vec::new(), Err(ISPError::ReadWriteMismatch))
                        } else if page + 1 < self.num_pages {
                            advanced(self.read_back_page(page + 1))
                        } else {
                            advanced(self.after_read_back())
                        }
                    },
                    _ => self.finish(Vec::new(), Err(ISPError::ReadWriteMismatch)),
                },
                WritePhase::Enabling => if self.device.reboot {
                    self.phase = WritePhase::Rebooting;
                    let progress = vec![Progress::Status(STATUS_REBOOTING)];
                    assert(progress@ =~= seq![Progress::Status(STATUS_REBOOTING)]);
                    Step { progress, action: Action::Send { target: Target::Command, report: reboot_command() } }
                } else {
                    self.finish(Vec::new(), Ok(()))
                },
                WritePhase::Rebooting => self.pause(WritePhase::Resetting),
                _ => self.finish(Vec::new(), Ok(())),
            },
        }
    }

    fn pause(&mut self, next: WritePhase) -> (step: Step<()>)
        ensures
            final(self)@ == (WriteState { phase: next, ..old(self)@ }),
            step_is(step, seq![], Request::Pause(SETTLE_DELAY_MILLIS)),
    {
        self.phase = next;
        Step { progress: Vec::new(), action: Action::Pause { millis: SETTLE_DELAY_MILLIS } }
    }

    fn finish(&mut self, progress: Vec<Progress>, result: Result<(), ISPError>) -> (step: Step<()>)
        ensures
            final(self)@ == (WriteState { phase: WritePhase::Finished, read_back: Seq::empty(), ..old(self)@ }),
            step.progress@ == progress@,
            step.action == Action::Finish(result),
    {
        self.phase = WritePhase::Finished;
        self.read_back = Vec::new();
        Step { progress, action: Action::Finish(result) }
    }

    fn write_page(&mut self, page: usize) -> (step: Step<()>)
        requires
            write_state_wf(old(self)@),
            page < old(self).num_pages,
        ensures
            final(self)@ == write_page_step(old(self)@, page).0,
            step_is(step, write_page_step(old(self)@, page).1, write_page_step(old(self)@, page).2),
    {
        let page_size = self.device.platform.page_size;
        let len = self.firmware.len();
        proof {
            lemma_page_bounds(page as int, self.num_pages as int, page_size as int, self.firmware@.len() as int);
        }
        let start = page * page_size;
        let report = page_write_report(&self.firmware, start, page_size);
        self.phase = WritePhase::Writing { page };
        Step { progress: Vec::new(), action: Action::Send { target: Target::Transfer, report } }
    }

    fn after_write(&mut self) -> (step: Step<()>)
        requires
            write_state_wf(old(self)@),
        ensures
            final(self)@ == after_write(old(self)@).0,
            step_is(step, after_write(old(self)@).1, after_write(old(self)@).2),
    {
        clear_reset_vector_copy(&mut self.firmware, self.device.platform.firmware_size);
        self.phase = WritePhase::InitReadBack;
        let progress = vec![Progress::TaskFinish, Progress::TaskStart { label: LABEL_READING, total: self.num_pages }];
        assert(progress@ =~= seq![Progress::TaskFinish, Progress::TaskStart { label: LABEL_READING, total: self.num_pages }]);
        Step { progress, action: Action::Send { target: Target::Command, report: init_read_command(0) } }
    }

    fn read_back_page(&mut self, page: usize) -> (step: Step<()>)
        requires
            write_state_wf(old(self)@),
            page < old(self).num_pages,
        ensures
            final(self)@ == read_back_step(old(self)@, page).0,
            step_is(step, read_back_step(old(self)@, page).1, read_back_step(old(self)@, page).2),
    {
        self.phase = WritePhase::ReadingBack { page };
        Step {
            progress: Vec::new(),
            action: Action::Receive { target: Target::Transfer, buffer: read_request(self.device.platform.page_size) },
        }
    }

    fn after_read_back(&mut self) -> (step: Step<()>)
        requires
            write_state_wf(old(self)@),
        ensures
            write_state_wf(final(self)@),
            final(self)@ == after_read_back(old(self)@).0,
            step_is(step, after_read_back(old(self)@).1, after_read_back(old(self)@).2),
    {
        match verify(self.firmware.as_slice(), self.read_back.as_slice()) {
            Err(e) => {
                let progress = vec![Progress::TaskFinish, Progress::Status(STATUS_VERIFYING)];
                assert(progress@ =~= seq![Progress::TaskFinish, Progress::Status(STATUS_VERIFYING)]);
                self.finish(progress, Err(ISPError::VerificationError(e)))
            },
            Ok(()) => {
                self.phase = WritePhase::Enabling;
                let progress = vec![
                    Progress::TaskFinish,
                    Progress::Status(STATUS_VERIFYING),
                    Progress::Status(STATUS_ENABLING_FIRMWARE),
                ];
                assert(progress@ =~= seq![
                    Progress::TaskFinish,
                    Progress::Status(STATUS_VERIFYING),
                    Progress::Status(STATUS_ENABLING_FIRMWARE),
                ]);
                Step {
                    progress,
                    action: Action::Send { target: Target::Command, report: enable_firmware_command() },
                }
            },
        }
    }
}

} // verus!
