//! Progress events of the protocol.
use vstd::prelude::*;

verus! {

/// Progress events emitted while reading or writing.
///
/// The protocol carries no UI of its own: a caller turns these into whatever
/// it needs (a progress bar, log lines, nothing at all).
#[derive(Debug, Clone, Copy, PartialEq, Eq)]
pub enum Progress {
    /// A one-off status message for the step that is about to run.
    Status(&'static str),
    /// A counted task is starting (e.g. reading `total` pages).
    TaskStart { label: &'static str, total: usize },
    /// One unit of the current counted task finished.
    TaskAdvance,
    /// The current counted task finished.
    TaskFinish,
}

/// Status shown before the firmware is enabled.
pub const STATUS_ENABLING_FIRMWARE: &'static str = "Enabling firmware...";

/// Status shown before the flash is erased.
pub const STATUS_ERASING: &'static str = "Erasing...";

/// Status shown before the device is rebooted.
pub const STATUS_REBOOTING: &'static str = "Rebooting...";

/// Status shown before the read-back image is compared.
pub const STATUS_VERIFYING: &'static str = "Verifying...";

/// Label of the page-reading task.
pub const LABEL_READING: &'static str = "Reading...";

/// Label of the page-writing task.
pub const LABEL_WRITING: &'static str = "Writing...";

/// What a terminal shows for one progress event.
#[derive(Debug, Clone, Copy, PartialEq, Eq)]
pub enum Render {
    /// Print a status line.
    Line(&'static str),
    /// Print `label`, then show a new bar counting up to `total`, in place of
    /// any bar shown so far.
    StartBar { label: &'static str, total: usize },
    /// Advance the bar by one.
    AdvanceBar,
    /// Finish the bar and stop showing it.
    FinishBar,
    /// Nothing to show.
    Nothing,
}

/// A bar on show: its total and how far it has advanced.
pub type Bar = (usize, u64);

/// A bar's position after one more advance; it wraps around at the top of
/// its range, as an `indicatif` bar's does.
pub open spec fn next_position(position: u64) -> u64 {
    if position == u64::MAX {
        0
    } else {
        (position + 1) as u64
    }
}

/// The bar on show after `event`, given the bar before it.
pub open spec fn report_bar(bar: Option<Bar>, event: Progress) -> Option<Bar> {
    match event {
        Progress::Status(_) => bar,
        Progress::TaskStart { total, .. } => Some((total, 0u64)),
        Progress::TaskAdvance => match bar {
            Some((total, position)) => Some((total, next_position(position))),
            None => None,
        },
        Progress::TaskFinish => None,
    }
}

/// What to show for `event`, given the bar before it.
pub open spec fn report_render(bar: Option<Bar>, event: Progress) -> Render {
    match event {
        Progress::Status(message) => Render::Line(message),
        Progress::TaskStart { label, total } => Render::StartBar { label, total },
        Progress::TaskAdvance => if bar is Some {
            Render::AdvanceBar
        } else {
            Render::Nothing
        },
        Progress::TaskFinish => if bar is Some {
            Render::FinishBar
        } else {
            Render::Nothing
        },
    }
}

/// The bar on show after `events`, one after the other.
pub open spec fn report_run(bar: Option<Bar>, events: Seq<Progress>) -> Option<Bar>
    decreases events.len(),
{
    if events.len() == 0 {
        bar
    } else {
        report_run(report_bar(bar, events[0]), events.drop_first())
    }
}

/// How many of `events` are advances.
pub open spec fn count_advances(events: Seq<Progress>) -> nat
    decreases events.len(),
{
    if events.len() == 0 {
        0
    } else {
        (if events[0] == Progress::TaskAdvance {
            1nat
        } else {
            0nat
        }) + count_advances(events.drop_first())
    }
}

/// The events are status lines and advances only.
pub open spec fn statuses_and_advances(events: Seq<Progress>) -> bool {
    forall|i: int| 0 <= i < events.len() ==> (#[trigger] events[i] is Status || events[i] == Progress::TaskAdvance)
}

/// After a counted task of `total` units starts, status lines leave the bar
/// alone and each advance moves it one on: after `k` advances the bar shows
/// `k` of `total`.
pub proof fn lemma_bar_counts_advances(bar: Option<Bar>, label: &'static str, total: usize, events: Seq<Progress>)
    requires
        statuses_and_advances(events),
        count_advances(events) <= u64::MAX,
    ensures
        report_run(report_bar(bar, Progress::TaskStart { label, total }), events) == Some(
            (total, count_advances(events) as u64),
        ),
{
    lemma_bar_counts_from(total, 0, events);
}

proof fn lemma_bar_counts_from(total: usize, position: u64, events: Seq<Progress>)
    requires
        statuses_and_advances(events),
        position + count_advances(events) <= u64::MAX,
    ensures
        report_run(Some((total, position)), events) == Some((total, (position + count_advances(events)) as u64)),
    decreases events.len(),
{
    if events.len() > 0 {
        let rest = events.drop_first();
        assert forall|i: int| 0 <= i < rest.len() implies (#[trigger] rest[i] is Status || rest[i]
            == Progress::TaskAdvance) by {
            assert(rest[i] == events[i + 1]);
        }
        assert(events[0] is Status || events[0] == Progress::TaskAdvance);
        if events[0] == Progress::TaskAdvance {
            lemma_bar_counts_from(total, (position + 1) as u64, rest);
        } else {
            lemma_bar_counts_from(total, position, rest);
        }
    }
}

/// Turns progress events into what a terminal shows: status lines, and a
/// bar for each counted task.
pub struct ProgressReporter {
    bar: Option<Bar>,
}

impl ProgressReporter {
    /// The bar on show, if one is.
    pub closed spec fn bar(&self) -> Option<Bar> {
        self.bar
    }

    /// A reporter that shows no bar yet.
    pub fn new() -> (r: ProgressReporter)
        ensures
            r.bar() is None,
    {
        ProgressReporter { bar: None }
    }

    /// What to show for `event`. A counted task's start replaces the bar; its
    /// steps advance the bar and its end removes it, where there is one.
    pub fn report(&mut self, event: Progress) -> (render: Render)
        ensures
            final(self).bar() == report_bar(old(self).bar(), event),
            render == report_render(old(self).bar(), event),
    {
        match event {
            Progress::Status(message) => Render::Line(message),
            Progress::TaskStart { label, total } => {
                self.bar = Some((total, 0));
                Render::StartBar { label, total }
            },
            Progress::TaskAdvance => match self.bar {
                Some((total, position)) => {
                    let next = if position == u64::MAX {
                        0
                    } else {
                        position + 1
                    };
                    self.bar = Some((total, next));
                    Render::AdvanceBar
                },
                None => Render::Nothing,
            },
            Progress::TaskFinish => if self.bar.is_some() {
                self.bar = None;
                Render::FinishBar
            } else {
                Render::Nothing
            },
        }
    }

    /// The bar on show: its total and how far it has advanced.
    pub fn current_bar(&self) -> (bar: Option<Bar>)
        ensures
            bar == self.bar(),
    {
        self.bar
    }
}

} // verus!
