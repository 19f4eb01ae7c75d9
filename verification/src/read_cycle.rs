//! Reading a section of the flash.
use vstd::prelude::*;

use hidra::HidError;

use crate::cycle::Action;
use crate::cycle::Outcome;
use crate::cycle::Request;
use crate::cycle::Step;
use crate::cycle::step_is;
use crate::cycle::advanced;
use crate::cycle::with_advance;
use crate::device::ISPError;
use crate::device::Target;
use crate::device_spec::DeviceSpec;
use crate::progress::Progress;
use crate::progress::LABEL_READING;
use crate::progress::STATUS_ENABLING_FIRMWARE;
use crate::progress::STATUS_REBOOTING;
use crate::protocol::append_page_payload;
use crate::protocol::enable_firmware_command;
use crate::protocol::init_read_command;
use crate::protocol::read_range;
use crate::protocol::read_request;
use crate::protocol::reboot_command;
use crate::protocol::spec_command;
use crate::protocol::spec_page_payload;
use crate::protocol::spec_read_range;
use crate::protocol::spec_read_request;
use crate::protocol::CMD_ENABLE_FIRMWARE;
use crate::protocol::CMD_INIT_READ;
use crate::protocol::CMD_REBOOT;
use crate::protocol::SETTLE_DELAY_MILLIS;
use crate::protocol::XFER_READ_PAGE;
use crate::read_section::ReadSection;

verus! {

/// Where a read cycle stands.
#[derive(Clone, Copy, PartialEq, Eq, Structural, Debug)]
pub enum ReadPhase {
    /// Nothing done yet.
    Ready,
    /// The enable-firmware command is out.
    Enabling,
    /// The init-read command is out.
    Initializing,
    /// The read of page `page` is out.
    Reading { page: usize },
    /// The reboot command is out.
    Rebooting,
    /// The pause after the reboot is running.
    Settling,
    /// The cycle is over.
    Finished,
}

/// The state of a read cycle, with the bytes read so far as a sequence.
pub struct ReadState {
    pub phase: ReadPhase,
    pub device: DeviceSpec,
    pub start_addr: usize,
    pub num_pages: usize,
    pub data: Seq<u8>,
}

/// Reads `num_pages` flash pages from `start_addr` on, enabling the firmware
/// first and rebooting afterwards where the device spec asks for it.
pub struct ReadCycle {
    device: DeviceSpec,
    start_addr: usize,
    num_pages: usize,
    data: Vec<u8>,
    phase: ReadPhase,
}

impl View for ReadCycle {
    type V = ReadState;

    closed spec fn view(&self) -> ReadState {
        ReadState {
            phase: self.phase,
            device: self.device,
            start_addr: self.start_addr,
            num_pages: self.num_pages,
            data: self.data@,
        }
    }
}

/// The read cycle can run: pages have a size, and a page's transfer buffer
/// has a length that fits.
pub open spec fn read_state_wf(s: ReadState) -> bool {
    &&& s.device.platform.page_size > 0
    &&& s.num_pages > 0 ==> s.device.platform.page_size + 2 <= usize::MAX
    &&& s.phase matches ReadPhase::Reading { page } ==> page < s.num_pages
}

/// The outcome that the action last asked for: a send result after a send,
/// the handed-back buffer of a page's length after a read, the end of a pause.
pub open spec fn read_awaits(s: ReadState, outcome: Outcome) -> bool {
    match s.phase {
        ReadPhase::Enabling | ReadPhase::Initializing | ReadPhase::Rebooting => outcome is Sent,
        ReadPhase::Reading { .. } => outcome matches Outcome::Received(r) && (r matches Ok(buf)
            ==> buf@.len() == s.device.platform.page_size + 2),
        ReadPhase::Settling => outcome is Paused,
        _ => false,
    }
}

/// The cycle ends: nothing more is kept.
pub open spec fn read_finish(s: ReadState, progress: Seq<Progress>, result: Result<Seq<u8>, ISPError>) -> (
    ReadState,
    Seq<Progress>,
    Request<Seq<u8>>,
) {
    (ReadState { phase: ReadPhase::Finished, data: Seq::empty(), ..s }, progress, Request::Done(result))
}

/// All pages are read: report the end of the task, then reboot or finish.
pub open spec fn read_after_pages(s: ReadState) -> (ReadState, Seq<Progress>, Request<Seq<u8>>) {
    if s.device.reboot {
        (
            ReadState { phase: ReadPhase::Rebooting, ..s },
            seq![Progress::TaskFinish, Progress::Status(STATUS_REBOOTING)],
            Request::Send(Target::Command, spec_command(CMD_REBOOT, 0)),
        )
    } else {
        read_finish(s, seq![Progress::TaskFinish], Ok(s.data))
    }
}

/// Asks for page `page`.
pub open spec fn read_next_page(s: ReadState, page: usize) -> (ReadState, Seq<Progress>, Request<Seq<u8>>) {
    (
        ReadState { phase: ReadPhase::Reading { page }, ..s },
        seq![],
        Request::Receive(Target::Transfer, spec_read_request(s.device.platform.page_size as nat)),
    )
}

/// What a read cycle in state `s` does with `outcome`: its next state, the
/// progress it reports, and what it asks for.
pub open spec fn read_transition(s: ReadState, outcome: Outcome) -> (ReadState, Seq<Progress>, Request<Seq<u8>>) {
    match s.phase {
        ReadPhase::Enabling => match outcome {
            Outcome::Sent(Err(e)) => read_finish(s, seq![], Err(ISPError::HidError(e))),
            _ => (
                ReadState { phase: ReadPhase::Initializing, ..s },
                seq![Progress::TaskStart { label: LABEL_READING, total: s.num_pages }],
                Request::Send(Target::Command, spec_command(CMD_INIT_READ, s.start_addr)),
            ),
        },
        ReadPhase::Initializing => match outcome {
            Outcome::Sent(Err(e)) => read_finish(s, seq![], Err(ISPError::HidError(e))),
            _ => if s.num_pages > 0 {
                read_next_page(s, 0)
            } else {
                read_after_pages(s)
            },
        },
        ReadPhase::Reading { page } => match outcome {
            Outcome::Received(Ok(buf)) => {
                let t = ReadState {
                    data: s.data + spec_page_payload(buf@, s.device.platform.page_size as nat),
                    ..s
                };
                if buf@[1] != XFER_READ_PAGE {
                    read_finish(t, seq![], Err(ISPError::ReadWriteMismatch))
                } else if page + 1 < s.num_pages {
                    with_advance(read_next_page(t, (page + 1) as usize))
                } else {
                    with_advance(read_after_pages(t))
                }
            },
            Outcome::Received(Err(e)) => read_finish(s, seq![], Err(ISPError::HidError(e))),
            _ => read_finish(s, seq![], Err(ISPError::ReadWriteMismatch)),
        },
        ReadPhase::Rebooting => (
            ReadState { phase: ReadPhase::Settling, ..s },
            seq![],
            Request::Pause(SETTLE_DELAY_MILLIS),
        ),
        _ => read_finish(s, seq![], Ok(s.data)),
    }
}

/// The state, the progress reported, and the last request of a read cycle
/// that took `outcomes` one after the other, starting in state `s` with `r`
/// as its last request.
pub open spec fn read_run(s: ReadState, r: Request<Seq<u8>>, outcomes: Seq<Outcome>) -> (
    ReadState,
    Seq<Progress>,
    Request<Seq<u8>>,
)
    decreases outcomes.len(),
{
    if outcomes.len() == 0 {
        (s, seq![], r)
    } else {
        let t = read_transition(s, outcomes[0]);
        let rest = read_run(t.0, t.2, outcomes.drop_first());
        (rest.0, t.1 + rest.1, rest.2)
    }
}

/// `count` reports that a page is done.
pub open spec fn advances(count: nat) -> Seq<Progress> {
    Seq::new(count, |i: int| Progress::TaskAdvance)
}

/// The outcomes of reading the pages `pages`, each read succeeding.
pub open spec fn page_responses(pages: Seq<Vec<u8>>) -> Seq<Outcome> {
    pages.map_values(|b: Vec<u8>| Outcome::Received(Ok(b)))
}

/// The pages that the read responses `pages` carry.
pub open spec fn page_payloads(pages: Seq<Vec<u8>>, page_size: nat) -> Seq<Seq<u8>> {
    pages.map_values(|b: Vec<u8>| spec_page_payload(b@, page_size))
}

/// Each response is a whole page, answered as a page read.
pub open spec fn well_formed_pages(pages: Seq<Vec<u8>>, page_size: nat) -> bool {
    forall|i: int| 0 <= i < pages.len() ==> #[trigger] pages[i]@.len() == page_size + 2 && pages[i]@[1] == XFER_READ_PAGE
}

/// A page read that fails: the transfer fails, or the answer is a whole
/// page of the wrong transfer kind.
pub open spec fn failed_page(outcome: Outcome, page_size: nat) -> bool {
    match outcome {
        Outcome::Received(Err(_)) => true,
        Outcome::Received(Ok(buf)) => buf@.len() == page_size + 2 && buf@[1] != XFER_READ_PAGE,
        _ => false,
    }
}

/// The error that a failed page read ends the cycle with.
pub open spec fn page_failure(outcome: Outcome) -> ISPError {
    match outcome {
        Outcome::Received(Err(e)) => ISPError::HidError(e),
        _ => ISPError::ReadWriteMismatch,
    }
}

/// The outcomes of a read cycle in which every transfer succeeds, with
/// `pages` as the page responses.
pub open spec fn successful_read(reboot: bool, pages: Seq<Vec<u8>>) -> Seq<Outcome> {
    seq![Outcome::Sent(Ok(())), Outcome::Sent(Ok(()))] + page_responses(pages) + if reboot {
        seq![Outcome::Sent(Ok(())), Outcome::Paused]
    } else {
        seq![]
    }
}

/// The outcomes of a read cycle in which every transfer succeeds but for the
/// reboot command, which has `reboot_outcome`.
pub open spec fn read_with_reboot(reboot: bool, pages: Seq<Vec<u8>>, reboot_outcome: Outcome) -> Seq<Outcome> {
    seq![Outcome::Sent(Ok(())), Outcome::Sent(Ok(()))] + page_responses(pages) + if reboot {
        seq![reboot_outcome, Outcome::Paused]
    } else {
        seq![]
    }
}

/// Taking `a` and then `b` is taking `a + b`.
pub proof fn lemma_read_run_append(s: ReadState, r: Request<Seq<u8>>, a: Seq<Outcome>, b: Seq<Outcome>)
    ensures
        read_run(s, r, a + b) == ({
            let x = read_run(s, r, a);
            let y = read_run(x.0, x.2, b);
            (y.0, x.1 + y.1, y.2)
        }),
    decreases a.len(),
{
    if a.len() > 0 {
        let t = read_transition(s, a[0]);
        assert((a + b).drop_first() =~= a.drop_first() + b);
        lemma_read_run_append(t.0, t.2, a.drop_first(), b);
        let x1 = read_run(t.0, t.2, a.drop_first());
        let y = read_run(x1.0, x1.2, b);
        assert(t.1 + (x1.1 + y.1) =~= (t.1 + x1.1) + y.1);
    } else {
        assert(a + b =~= b);
        assert(seq![] + read_run(s, r, b).1 =~= read_run(s, r, b).1);
    }
}

proof fn lemma_read_run_one(s: ReadState, r: Request<Seq<u8>>, o: Outcome)
    ensures
        read_run(s, r, seq![o]) == read_transition(s, o),
{
    let t = read_transition(s, o);
    assert(seq![o].drop_first() =~= Seq::<Outcome>::empty());
    assert(read_run(t.0, t.2, seq![o].drop_first()) == (t.0, Seq::<Progress>::empty(), t.2));
    assert(t.1 + Seq::<Progress>::empty() =~= t.1);
}

/// Reading `pages.len()` good pages from page `page` on: either more pages
/// are left, and the next one is asked for, or the reading is over.
proof fn lemma_read_pages(s: ReadState, r: Request<Seq<u8>>, pages: Seq<Vec<u8>>)
    requires
        read_state_wf(s),
        s.phase matches ReadPhase::Reading { page } && page + pages.len() <= s.num_pages,
        pages.len() > 0,
        well_formed_pages(pages, s.device.platform.page_size as nat),
    ensures
        read_run(s, r, page_responses(pages)) == ({
            let page = s.phase->page;
            let t = ReadState {
                data: s.data + page_payloads(pages, s.device.platform.page_size as nat).flatten(),
                ..s
            };
            if page + pages.len() < s.num_pages {
                let u = read_next_page(t, (page + pages.len()) as usize);
                (u.0, advances(pages.len()), u.2)
            } else {
                (read_after_pages(t).0, advances(pages.len()) + read_after_pages(t).1, read_after_pages(t).2)
            }
        }),
    decreases pages.len(),
{
    let ps = s.device.platform.page_size as nat;
    let page = s.phase->page;
    let first = pages[0];
    let k = pages.len();
    assert(page_responses(pages)[0] == Outcome::Received(Ok(first)));
    assert(pages[0]@.len() == ps + 2);
    let t1 = ReadState { data: s.data + spec_page_payload(first@, ps), ..s };
    assert(page_payloads(pages, ps).flatten() == spec_page_payload(first@, ps) + page_payloads(
        pages.drop_first(),
        ps,
    ).flatten()) by {
        assert(page_payloads(pages, ps).drop_first() =~= page_payloads(pages.drop_first(), ps));
    }
    assert(page_responses(pages).drop_first() =~= page_responses(pages.drop_first()));
    let step = read_transition(s, page_responses(pages)[0]);
    let rest = read_run(step.0, step.2, page_responses(pages.drop_first()));
    assert(read_run(s, r, page_responses(pages)) == (rest.0, step.1 + rest.1, rest.2));
    if k == 1 {
        assert(page_responses(pages.drop_first()) =~= Seq::<Outcome>::empty());
        assert(page_payloads(pages.drop_first(), ps) =~= Seq::<Seq<u8>>::empty());
        assert(t1.data =~= s.data + page_payloads(pages, ps).flatten());
        assert(advances(1) =~= seq![Progress::TaskAdvance]);
        if page + 1 < s.num_pages {
            assert(step == with_advance(read_next_page(t1, (page + 1) as usize)));
            assert(step.1 + rest.1 =~= advances(1));
        } else {
            assert(step == with_advance(read_after_pages(t1)));
            assert(step.1 + rest.1 =~= advances(1) + read_after_pages(t1).1);
        }
    } else {
        let u = read_next_page(t1, (page + 1) as usize);
        assert(step == with_advance(u));
        assert forall|i: int| 0 <= i < pages.drop_first().len() implies #[trigger] pages.drop_first()[i]@.len()
            == ps + 2 && pages.drop_first()[i]@[1] == XFER_READ_PAGE by {
            assert(pages.drop_first()[i] == pages[i + 1]);
        }
        lemma_read_pages(u.0, u.2, pages.drop_first());
        assert(u.0.data + page_payloads(pages.drop_first(), ps).flatten() =~= s.data + page_payloads(
            pages,
            ps,
        ).flatten());
        assert(seq![Progress::TaskAdvance] + advances((k - 1) as nat) =~= advances(k));
        let t = ReadState { data: s.data + page_payloads(pages, ps).flatten(), ..s };
        assert(seq![Progress::TaskAdvance] + (advances((k - 1) as nat) + read_after_pages(t).1)
            =~= advances(k) + read_after_pages(t).1);
    }
}

/// The cycle's state after the enable-firmware and init-read commands both
/// went through.
proof fn lemma_read_head(s: ReadState, r: Request<Seq<u8>>)
    requires
        read_state_wf(s),
        s.phase == ReadPhase::Enabling,
    ensures
        read_run(s, r, seq![Outcome::Sent(Ok(())), Outcome::Sent(Ok(()))]) == ({
            let i = ReadState { phase: ReadPhase::Initializing, ..s };
            let start = seq![Progress::TaskStart { label: LABEL_READING, total: s.num_pages }];
            if s.num_pages > 0 {
                (read_next_page(i, 0).0, start, read_next_page(i, 0).2)
            } else {
                (read_after_pages(i).0, start + read_after_pages(i).1, read_after_pages(i).2)
            }
        }),
{
    let o = Outcome::Sent(Ok(()));
    lemma_read_run_append(s, r, seq![o], seq![o]);
    assert(seq![o, o] =~= seq![o] + seq![o]);
    lemma_read_run_one(s, r, o);
    let s1 = read_transition(s, o);
    lemma_read_run_one(s1.0, s1.2, o);
    let s2 = read_transition(s1.0, o);
    assert(s1.1 + s2.1 =~= s1.1 + s2.1);
    if s.num_pages > 0 {
        assert(s1.1 + s2.1 =~= seq![Progress::TaskStart { label: LABEL_READING, total: s.num_pages }]);
    }
}

/// A read cycle in which every transfer but possibly the reboot command
/// succeeds.
proof fn lemma_read_with_reboot(s: ReadState, r: Request<Seq<u8>>, pages: Seq<Vec<u8>>, reboot_outcome: Outcome)
    requires
        read_state_wf(s),
        s.phase == ReadPhase::Enabling,
        s.data == Seq::<u8>::empty(),
        pages.len() == s.num_pages,
        well_formed_pages(pages, s.device.platform.page_size as nat),
        reboot_outcome is Sent,
    ensures
        read_run(s, r, read_with_reboot(s.device.reboot, pages, reboot_outcome)).2 == Request::<Seq<u8>>::Done(
            Ok(page_payloads(pages, s.device.platform.page_size as nat).flatten()),
        ),
        read_run(s, r, read_with_reboot(s.device.reboot, pages, reboot_outcome)).1 == seq![
            Progress::TaskStart { label: LABEL_READING, total: s.num_pages },
        ] + advances(s.num_pages as nat) + if s.device.reboot {
            seq![Progress::TaskFinish, Progress::Status(STATUS_REBOOTING)]
        } else {
            seq![Progress::TaskFinish]
        },
{
    let ps = s.device.platform.page_size as nat;
    let n = s.num_pages as nat;
    let o = Outcome::Sent(Ok(()));
    let head = seq![o, o];
    let tail = if s.device.reboot {
        seq![reboot_outcome, Outcome::Paused]
    } else {
        seq![]
    };
    let start = seq![Progress::TaskStart { label: LABEL_READING, total: s.num_pages }];
    let finish = if s.device.reboot {
        seq![Progress::TaskFinish, Progress::Status(STATUS_REBOOTING)]
    } else {
        seq![Progress::TaskFinish]
    };
    lemma_read_run_append(s, r, head + page_responses(pages), tail);
    lemma_read_run_append(s, r, head, page_responses(pages));
    lemma_read_head(s, r);
    let h = read_run(s, r, head);
    let mid = read_run(h.0, h.2, page_responses(pages));
    let i = ReadState { phase: ReadPhase::Initializing, ..s };
    let t = ReadState { data: page_payloads(pages, ps).flatten(), ..i };
    if n > 0 {
        lemma_read_pages(h.0, h.2, pages);
        assert(h.0.data + page_payloads(pages, ps).flatten() =~= t.data);
        assert(mid == (read_after_pages(t).0, advances(n) + read_after_pages(t).1, read_after_pages(t).2));
        assert(h.1 + mid.1 =~= start + advances(n) + finish);
    } else {
        assert(page_responses(pages) =~= Seq::<Outcome>::empty());
        assert(page_payloads(pages, ps) =~= Seq::<Seq<u8>>::empty());
        assert(t.data =~= i.data);
        assert(advances(0) =~= Seq::<Progress>::empty());
        assert(h.1 + mid.1 =~= start + advances(n) + finish);
    }
    let hm = (mid.0, h.1 + mid.1, mid.2);
    if s.device.reboot {
        assert(tail =~= seq![reboot_outcome] + seq![Outcome::Paused]);
        lemma_read_run_append(hm.0, hm.2, seq![reboot_outcome], seq![Outcome::Paused]);
        lemma_read_run_one(hm.0, hm.2, reboot_outcome);
        let m1 = read_transition(hm.0, reboot_outcome);
        assert(m1.2 == Request::<Seq<u8>>::Pause(SETTLE_DELAY_MILLIS));
        lemma_read_run_one(m1.0, m1.2, Outcome::Paused);
        assert(hm.1 + (seq![] + seq![]) =~= hm.1);
    } else {
        assert(tail =~= Seq::<Outcome>::empty());
        assert(hm.1 + seq![] =~= hm.1);
    }
}

/// A read cycle in which every transfer succeeds and every page is answered
/// as a page read ends with the pages' contents, in order, as its result,
/// and reports the start of the page task, one advance per page read, and
/// the task's end.
pub proof fn lemma_successful_read(s: ReadState, r: Request<Seq<u8>>, pages: Seq<Vec<u8>>)
    requires
        read_state_wf(s),
        s.phase == ReadPhase::Enabling,
        s.data == Seq::<u8>::empty(),
        pages.len() == s.num_pages,
        well_formed_pages(pages, s.device.platform.page_size as nat),
    ensures
        read_run(s, r, successful_read(s.device.reboot, pages)).2 == Request::<Seq<u8>>::Done(
            Ok(page_payloads(pages, s.device.platform.page_size as nat).flatten()),
        ),
        read_run(s, r, successful_read(s.device.reboot, pages)).1 == seq![
            Progress::TaskStart { label: LABEL_READING, total: s.num_pages },
        ] + advances(s.num_pages as nat) + if s.device.reboot {
            seq![Progress::TaskFinish, Progress::Status(STATUS_REBOOTING)]
        } else {
            seq![Progress::TaskFinish]
        },
{
    let o = Outcome::Sent(Ok(()));
    assert(successful_read(s.device.reboot, pages) == read_with_reboot(s.device.reboot, pages, o));
    lemma_read_with_reboot(s, r, pages, o);
}

/// A failed reboot command is ignored: a read cycle whose transfers all
/// succeed but for the reboot command still pauses for the device to settle
/// and ends with the same result and the same progress as if the reboot had
/// gone through.
pub proof fn lemma_read_reboot_failure_ignored(s: ReadState, r: Request<Seq<u8>>, pages: Seq<Vec<u8>>, e: HidError)
    requires
        read_state_wf(s),
        s.phase == ReadPhase::Enabling,
        s.data == Seq::<u8>::empty(),
        pages.len() == s.num_pages,
        well_formed_pages(pages, s.device.platform.page_size as nat),
        s.device.reboot,
    ensures
        read_run(s, r, read_with_reboot(true, pages, Outcome::Sent(Err(e)))).2 == read_run(
            s,
            r,
            successful_read(true, pages),
        ).2,
        read_run(s, r, read_with_reboot(true, pages, Outcome::Sent(Err(e)))).1 == read_run(
            s,
            r,
            successful_read(true, pages),
        ).1,
        read_run(s, r, read_with_reboot(true, pages, Outcome::Sent(Err(e))).drop_last()).2
            == Request::<Seq<u8>>::Pause(SETTLE_DELAY_MILLIS),
{
    let o = Outcome::Sent(Ok(()));
    let f = Outcome::Sent(Err(e));
    lemma_successful_read(s, r, pages);
    lemma_read_with_reboot(s, r, pages, f);
    let all = read_with_reboot(true, pages, f);
    let head = seq![o, o] + page_responses(pages);
    assert(all.drop_last() =~= head + seq![f]);
    lemma_read_run_append(s, r, head, seq![f]);
    lemma_read_run_append(s, r, seq![o, o], page_responses(pages));
    lemma_read_head(s, r);
    let h = read_run(s, r, seq![o, o]);
    let mid = read_run(s, r, head);
    if s.num_pages > 0 {
        lemma_read_pages(h.0, h.2, pages);
    } else {
        assert(page_responses(pages) =~= Seq::<Outcome>::empty());
    }
    assert(mid.0.phase == ReadPhase::Rebooting);
    lemma_read_run_one(mid.0, mid.2, f);
}

/// The pages that whole read responses carry, one after the other, are
/// `page_size` bytes per response: the bytes that follow each response's
/// report ID and transfer kind.
pub proof fn lemma_page_payloads_bytes(pages: Seq<Vec<u8>>, page_size: nat)
    requires
        forall|i: int| 0 <= i < pages.len() ==> #[trigger] pages[i]@.len() == page_size + 2,
    ensures
        page_payloads(pages, page_size).flatten().len() == pages.len() * page_size,
        forall|k: int, i: int|
            0 <= k < pages.len() && 0 <= i < page_size ==> #[trigger] page_payloads(pages, page_size).flatten()[k
                * page_size + i] == #[trigger] pages[k]@[i + 2],
    decreases pages.len(),
{
    let ps = page_size;
    if pages.len() == 0 {
        assert(page_payloads(pages, ps) =~= Seq::<Seq<u8>>::empty());
    } else {
        let rest = pages.drop_first();
        assert forall|i: int| 0 <= i < rest.len() implies #[trigger] rest[i]@.len() == ps + 2 by {
            assert(rest[i] == pages[i + 1]);
        }
        lemma_page_payloads_bytes(rest, ps);
        crate::protocol::lemma_page_payload_bytes(pages[0]@, ps);
        assert(page_payloads(pages, ps).drop_first() =~= page_payloads(rest, ps));
        let whole = page_payloads(pages, ps).flatten();
        let tail = page_payloads(rest, ps).flatten();
        let first = spec_page_payload(pages[0]@, ps);
        assert(whole == first + tail);
        assert(whole.len() == pages.len() * ps) by (nonlinear_arith)
            requires
                whole.len() == first.len() + tail.len(),
                first.len() == ps,
                tail.len() == rest.len() * ps,
                rest.len() + 1 == pages.len(),
        ;
        assert forall|k: int, i: int| 0 <= k < pages.len() && 0 <= i < ps implies #[trigger] whole[k * ps + i]
            == #[trigger] pages[k]@[i + 2] by {
            if k == 0 {
                assert(whole[i] == first[i]);
            } else {
                assert(k * ps + i == (k - 1) * ps + i + ps) by (nonlinear_arith);
                assert(0 <= (k - 1) * ps) by (nonlinear_arith)
                    requires
                        k >= 1,
                        ps >= 0,
                ;
                assert((k - 1) * ps + i < rest.len() * ps) by (nonlinear_arith)
                    requires
                        1 <= k < pages.len(),
                        rest.len() + 1 == pages.len(),
                        0 <= i < ps,
                ;
                assert(rest[k - 1] == pages[k]);
                assert(tail[(k - 1) * ps + i] == rest[k - 1]@[i + 2]);
                assert(whole[k * ps + i] == tail[(k - 1) * ps + i]);
            }
        }
    }
}

/// A read cycle in which every transfer succeeds and every page is answered
/// as a page read returns `page_size` bytes per page: byte `i` of page `k`
/// is byte `i + 2` of the `k`-th response.
pub proof fn lemma_successful_read_bytes(s: ReadState, r: Request<Seq<u8>>, pages: Seq<Vec<u8>>)
    requires
        read_state_wf(s),
        s.phase == ReadPhase::Enabling,
        s.data == Seq::<u8>::empty(),
        pages.len() == s.num_pages,
        well_formed_pages(pages, s.device.platform.page_size as nat),
    ensures
        ({
            let ps = s.device.platform.page_size as int;
            read_run(s, r, successful_read(s.device.reboot, pages)).2 matches Request::Done(Ok(bytes)) && bytes.len()
                == s.num_pages * ps && forall|k: int, i: int|
                0 <= k < s.num_pages && 0 <= i < ps ==> #[trigger] bytes[k * ps + i] == #[trigger] pages[k]@[i + 2]
        }),
{
    lemma_successful_read(s, r, pages);
    lemma_page_payloads_bytes(pages, s.device.platform.page_size as nat);
}

/// Once the firmware is enabled, a read cycle sends the init-read command
/// for the section's start: report ID, command code, the start address's
/// low and high byte, two zero bytes.
pub proof fn lemma_init_read_addresses_start(s: ReadState)
    requires
        s.phase == ReadPhase::Enabling,
    ensures
        read_transition(s, Outcome::Sent(Ok(()))).2 matches Request::Send(target, report) && target
            == Target::Command && report.len() == 6 && report[0] == 0x05 && report[1] == 0x52 && report[2] + 256
            * report[3] == s.start_addr % 65536 && report[4] == 0 && report[5] == 0,
{
    crate::protocol::lemma_command_operand_roundtrip(CMD_INIT_READ, s.start_addr);
}

/// Once the init-read command went through, the cycle reads the first page
/// through the transfer handle, with a buffer of the transfer report ID and
/// zeros; if the section holds no whole page it ends the task at once, and
/// reboots (sending the reboot command) or finishes.
pub proof fn lemma_first_page_request(s: ReadState)
    requires
        read_state_wf(s),
        s.phase == ReadPhase::Initializing,
    ensures
        ({
            let ps = s.device.platform.page_size as int;
            let t = read_transition(s, Outcome::Sent(Ok(())));
            if s.num_pages > 0 {
                &&& t.1 == Seq::<Progress>::empty()
                &&& t.2 matches Request::Receive(target, buffer) && target == Target::Transfer && buffer.len() == ps
                    + 2 && buffer[0] == 0x06 && forall|i: int| 1 <= i < ps + 2 ==> #[trigger] buffer[i] == 0
            } else if s.device.reboot {
                &&& t.1 == seq![Progress::TaskFinish, Progress::Status(STATUS_REBOOTING)]
                &&& t.2 == Request::<Seq<u8>>::Send(Target::Command, seq![0x05u8, 0x5au8, 0u8, 0u8, 0u8, 0u8])
            } else {
                &&& t.1 == seq![Progress::TaskFinish]
                &&& t.2 == Request::<Seq<u8>>::Done(Ok(s.data))
            }
        }),
{
    crate::protocol::lemma_read_request_bytes(s.device.platform.page_size as nat);
    crate::protocol::lemma_command_bytes(0);
}

/// A read cycle for a section starts at the section's first byte and covers
/// its whole length: the firmware from address 0, the bootloader from the
/// end of the firmware, the full flash from address 0.
pub proof fn lemma_section_start(device: DeviceSpec, section: ReadSection, s: ReadState)
    requires
        device.platform.page_size > 0,
        s.start_addr == spec_read_range(device.platform, section).0,
        s.num_pages == spec_read_range(device.platform, section).1 / (device.platform.page_size as int),
    ensures
        s.start_addr == match section {
            ReadSection::Firmware => 0,
            ReadSection::Bootloader => device.platform.firmware_size as int,
            ReadSection::Full => 0,
        },
        s.num_pages * device.platform.page_size <= match section {
            ReadSection::Firmware => device.platform.firmware_size as int,
            ReadSection::Bootloader => device.platform.bootloader_size as int,
            ReadSection::Full => device.platform.firmware_size + device.platform.bootloader_size,
        },
        s.num_pages == match section {
            ReadSection::Firmware => (device.platform.firmware_size as int) / (device.platform.page_size as int),
            ReadSection::Bootloader => (device.platform.bootloader_size as int) / (device.platform.page_size as int),
            ReadSection::Full => (device.platform.firmware_size + device.platform.bootloader_size)
                / (device.platform.page_size as int),
        },
{
    let len = spec_read_range(device.platform, section).1;
    let ps = device.platform.page_size as int;
    assert((len / ps) * ps <= len) by (nonlinear_arith)
        requires
            ps > 0,
            len >= 0,
    ;
}

/// A read cycle whose first `pages.len()` page reads succeed and whose next
/// page read fails ends with that failure's error, having reported the start
/// of the page task and one advance per page actually read, and no end of
/// the task.
pub proof fn lemma_failed_read(s: ReadState, r: Request<Seq<u8>>, pages: Seq<Vec<u8>>, failure: Outcome)
    requires
        read_state_wf(s),
        s.phase == ReadPhase::Enabling,
        pages.len() < s.num_pages,
        well_formed_pages(pages, s.device.platform.page_size as nat),
        failed_page(failure, s.device.platform.page_size as nat),
    ensures
        read_run(
            s,
            r,
            seq![Outcome::Sent(Ok(())), Outcome::Sent(Ok(()))] + page_responses(pages) + seq![failure],
        ).2 == Request::<Seq<u8>>::Done(Err(page_failure(failure))),
        read_run(
            s,
            r,
            seq![Outcome::Sent(Ok(())), Outcome::Sent(Ok(()))] + page_responses(pages) + seq![failure],
        ).1 == seq![Progress::TaskStart { label: LABEL_READING, total: s.num_pages }] + advances(
            pages.len(),
        ),
{
    let ps = s.device.platform.page_size as nat;
    let o = Outcome::Sent(Ok(()));
    let head = seq![o, o];
    let start = seq![Progress::TaskStart { label: LABEL_READING, total: s.num_pages }];
    lemma_read_run_append(s, r, head + page_responses(pages), seq![failure]);
    lemma_read_run_append(s, r, head, page_responses(pages));
    lemma_read_head(s, r);
    let h = read_run(s, r, head);
    let mid = read_run(h.0, h.2, page_responses(pages));
    if pages.len() > 0 {
        lemma_read_pages(h.0, h.2, pages);
    } else {
        assert(page_responses(pages) =~= Seq::<Outcome>::empty());
        assert(advances(0) =~= Seq::<Progress>::empty());
    }
    assert(mid.0.phase matches ReadPhase::Reading { .. });
    assert(h.1 + mid.1 =~= start + advances(pages.len()));
    lemma_read_run_one(mid.0, mid.2, failure);
    assert(read_transition(mid.0, failure).1 =~= Seq::<Progress>::empty());
    assert(h.1 + mid.1 + seq![] =~= start + advances(pages.len()));
}

impl ReadCycle {
    /// A cycle that reads `section` of the device's flash.
    pub fn new(device: DeviceSpec, section: ReadSection) -> (cycle: ReadCycle)
        requires
            device.platform.page_size > 0,
            section == ReadSection::Full ==> device.platform.firmware_size
                + device.platform.bootloader_size <= usize::MAX,
            spec_read_range(device.platform, section).1 / (device.platform.page_size as int) > 0
                ==> device.platform.page_size + 2 <= usize::MAX,
        ensures
            cycle@.phase == ReadPhase::Ready,
            cycle@.device == device,
            cycle@.start_addr == spec_read_range(device.platform, section).0,
            cycle@.num_pages == spec_read_range(device.platform, section).1 / (device.platform.page_size as int),
            cycle@.data == Seq::<u8>::empty(),
            read_state_wf(cycle@),
    {
        let (start_addr, length) = read_range(&device.platform, section);
        ReadCycle {
            device,
            start_addr,
            num_pages: length / device.platform.page_size,
            data: Vec::new(),
            phase: ReadPhase::Ready,
        }
    }

    /// The first step: report that the firmware is being enabled, and send
    /// the enable-firmware command.
    pub fn start(&mut self) -> (step: Step<Vec<u8>>)
        requires
            old(self)@.phase == ReadPhase::Ready,
        ensures
            final(self)@ == (ReadState { phase: ReadPhase::Enabling, ..old(self)@ }),
            step_is(
                step,
                seq![Progress::Status(STATUS_ENABLING_FIRMWARE)],
                Request::Send(Target::Command, spec_command(CMD_ENABLE_FIRMWARE, 0)),
            ),
    {
        self.phase = ReadPhase::Enabling;
        let progress = vec![Progress::Status(STATUS_ENABLING_FIRMWARE)];
        assert(progress@ =~= seq![Progress::Status(STATUS_ENABLING_FIRMWARE)]);
        Step { progress, action: Action::Send { target: Target::Command, report: enable_firmware_command() } }
    }

    /// The step that follows `outcome`.
    pub fn resume(&mut self, outcome: Outcome) -> (step: Step<Vec<u8>>)
        requires
            read_state_wf(old(self)@),
            read_awaits(old(self)@, outcome),
        ensures
            read_state_wf(final(self)@),
            final(self)@ == read_transition(old(self)@, outcome).0,
            step_is(step, read_transition(old(self)@, outcome).1, read_transition(old(self)@, outcome).2),
    {
        match self.phase {
            ReadPhase::Enabling => match outcome {
                Outcome::Sent(Err(e)) => self.finish(Vec::new(), Err(ISPError::HidError(e))),
                _ => {
                    self.phase = ReadPhase::Initializing;
                    let progress = vec![Progress::TaskStart { label: LABEL_READING, total: self.num_pages }];
                    assert(progress@ =~= seq![Progress::TaskStart { label: LABEL_READING, total: self.num_pages }]);
                    Step {
                        progress,
                        action: Action::Send { target: Target::Command, report: init_read_command(self.start_addr) },
                    }
                },
            },
            ReadPhase::Initializing => match outcome {
                Outcome::Sent(Err(e)) => self.finish(Vec::new(), Err(ISPError::HidError(e))),
                _ => if self.num_pages > 0 {
                    self.next_page(0)
                } else {
                    self.after_pages()
                },
            },
            ReadPhase::Reading { page } => match outcome {
                Outcome::Received(Ok(buf)) => {
                    append_page_payload(&mut self.data, &buf, self.device.platform.page_size);
                    if buf[1] != XFER_READ_PAGE {
                        self.finish(Vec::new(), Err(ISPError::ReadWriteMismatch))
                    } else if page + 1 < self.num_pages {
                        advanced(self.next_page(page + 1))
                    } else {
                        advanced(self.after_pages())
                    }
                },
                Outcome::Received(Err(e)) => self.finish(Vec::new(), Err(ISPError::HidError(e))),
                _ => self.finish(Vec::new(), Err(ISPError::ReadWriteMismatch)),
            },
            ReadPhase::Rebooting => {
                self.phase = ReadPhase::Settling;
                Step { progress: Vec::new(), action: Action::Pause { millis: SETTLE_DELAY_MILLIS } }
            },
            _ => {
                let mut data = Vec::new();
                std::mem::swap(&mut data, &mut self.data);
                self.finish(Vec::new(), Ok(data))
            },
        }
    }

    fn finish(&mut self, progress: Vec<Progress>, result: Result<Vec<u8>, ISPError>) -> (step: Step<Vec<u8>>)
        ensures
            step.progress@ == progress@,
            final(self)@ == (ReadState { phase: ReadPhase::Finished, data: Seq::empty(), ..old(self)@ }),
            step.progress == progress,
            step.action == Action::Finish(result),
    {
        self.phase = ReadPhase::Finished;
        self.data = Vec::new();
        Step { progress, action: Action::Finish(result) }
    }

    fn next_page(&mut self, page: usize) -> (step: Step<Vec<u8>>)
        requires
            page < old(self).num_pages,
            old(self).device.platform.page_size + 2 <= usize::MAX,
        ensures
            final(self)@ == read_next_page(old(self)@, page).0,
            step_is(step, read_next_page(old(self)@, page).1, read_next_page(old(self)@, page).2),
    {
        self.phase = ReadPhase::Reading { page };
        Step {
            progress: Vec::new(),
            action: Action::Receive {
                target: Target::Transfer,
                buffer: read_request(self.device.platform.page_size),
            },
        }
    }

    fn after_pages(&mut self) -> (step: Step<Vec<u8>>)
        ensures
            final(self)@ == read_after_pages(old(self)@).0,
            step_is(step, read_after_pages(old(self)@).1, read_after_pages(old(self)@).2),
    {
        if self.device.reboot {
            self.phase = ReadPhase::Rebooting;
            let progress = vec![Progress::TaskFinish, Progress::Status(STATUS_REBOOTING)];
            assert(progress@ =~= seq![Progress::TaskFinish, Progress::Status(STATUS_REBOOTING)]);
            Step {
                progress,
                action: Action::Send { target: Target::Command, report: reboot_command() },
            }
        } else {
            let mut data = Vec::new();
            std::mem::swap(&mut data, &mut self.data);
            let progress = vec![Progress::TaskFinish];
            assert(progress@ =~= seq![Progress::TaskFinish]);
            self.finish(progress, Ok(data))
        }
    }
}

} // verus!
