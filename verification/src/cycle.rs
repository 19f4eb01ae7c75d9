//! The steps of a read or write cycle, as seen by whoever moves the bytes.
//!
//! A cycle never touches a device itself. Each step names the progress
//! events to report and one thing to do next: send a report, read a report
//! into a buffer, pause, or finish with a result. The caller does it and
//! hands the outcome back.
use vstd::prelude::*;

use hidra::HidError;

use crate::device::ISPError;
use crate::device::Target;
use crate::progress::Progress;

verus! {

/// What the caller is to do next.
pub enum Action<T> {
    /// Send `report` as a feature report through the `target` handle.
    Send { target: Target, report: Vec<u8> },
    /// Read a feature report into `buffer` through the `target` handle;
    /// `buffer` starts with the report ID and is handed back filled.
    Receive { target: Target, buffer: Vec<u8> },
    /// Wait `millis` milliseconds.
    Pause { millis: u64 },
    /// The cycle is over.
    Finish(Result<T, ISPError>),
}

/// One step of a cycle: progress to report, then an action.
pub struct Step<T> {
    pub progress: Vec<Progress>,
    pub action: Action<T>,
}

/// What came of the last action.
pub enum Outcome {
    /// A report was sent, or sending it failed.
    Sent(Result<(), HidError>),
    /// A report was read into the buffer handed back, or reading failed.
    Received(Result<Vec<u8>, HidError>),
    /// The pause is over.
    Paused,
}

/// An action, with its buffers taken by their contents.
pub enum Request<R> {
    Send(Target, Seq<u8>),
    Receive(Target, Seq<u8>),
    Pause(u64),
    Done(Result<R, ISPError>),
}

/// `action` is the action that `request` describes.
pub open spec fn action_is<T: View>(action: Action<T>, request: Request<T::V>) -> bool {
    match request {
        Request::Send(t, r) => action matches Action::Send { target, report } && target == t && report@ == r,
        Request::Receive(t, b) => action matches Action::Receive { target, buffer } && target == t && buffer@ == b,
        Request::Pause(m) => action matches Action::Pause { millis } && millis == m,
        Request::Done(res) => action matches Action::Finish(x) && match x {
            Ok(v) => res == Ok::<T::V, ISPError>(v@),
            Err(e) => res == Err::<T::V, ISPError>(e),
        },
    }
}

/// `step` reports `progress` and then does what `request` describes.
pub open spec fn step_is<T: View>(step: Step<T>, progress: Seq<Progress>, request: Request<T::V>) -> bool {
    &&& step.progress@ == progress
    &&& action_is(step.action, request)
}

/// A transition that first reports that one unit of the counted task
/// finished.
pub open spec fn with_advance<S, R>(t: (S, Seq<Progress>, Request<R>)) -> (S, Seq<Progress>, Request<R>) {
    (t.0, seq![Progress::TaskAdvance] + t.1, t.2)
}

/// `step`, reporting first that one unit of the counted task finished.
pub fn advanced<T>(step: Step<T>) -> (r: Step<T>)
    ensures
        r.progress@ == seq![Progress::TaskAdvance] + step.progress@,
        r.action == step.action,
{
    let Step { mut progress, action } = step;
    let ghost before = progress@;
    progress.insert(0, Progress::TaskAdvance);
    assert(progress@ =~= seq![Progress::TaskAdvance] + before);
    Step { progress, action }
}

} // verus!
