//! The runner of a sink: it takes the messages of the node's input port one
//! by one, calls the node's `run` on each that carries data, and keeps
//! account of watermarks and control signals.

use crate::error::FlowError;
use crate::message::{Control, DataMessage, Message};
use vstd::prelude::*;

verus! {

/// Where a sink runner stands in its loop.
#[derive(Clone, Copy, Debug, PartialEq, Eq, Structural)]
pub enum SinkPhase {
    /// It waits for a message.
    Wait,
    /// The node's `run` runs.
    Run,
    /// `run` failed; the runner takes no more.
    Faulted,
    /// The runner was stopped and its node finalised.
    Stopped,
    /// The runner was killed; its node was not finalised.
    Killed,
}

/// What the caller reports to a sink runner.
#[derive(Debug)]
pub enum SinkEvent {
    /// A message was received on the link of the input port.
    Arrived { message: Message },
    /// The link of the input port is drained and closed.
    Closed,
    /// `run` returned.
    Ran,
    /// `run` returned an error.
    Failed { error: FlowError },
    /// The runner is asked to stop.
    Cancel,
    /// The runner's task is aborted.
    Kill,
}

/// What a sink runner asks the caller to do next.
#[derive(Debug)]
pub enum SinkCommand {
    /// Wait for a message.
    Wait,
    /// Call the node's `run` on this message.
    Run { message: DataMessage },
    /// Let `run` finish; the stop is noted.
    Continue,
    /// Report the error; the runner is faulted.
    Fault { error: FlowError },
    /// Call the node's `finalize`; the runner has stopped.
    Finalize,
    /// Nothing more: the runner was killed.
    Halt,
    /// The event does not fit the runner's phase and is handed back;
    /// nothing has changed.
    OutOfTurn { event: SinkEvent },
}

/// A sink runner as specifications see it.
pub struct SinkView {
    /// Where the runner stands in its loop.
    pub phase: SinkPhase,
    /// Whether a stop was asked for while `run` ran.
    pub cancel_requested: bool,
    /// The latest watermark seen.
    pub watermark: u64,
    /// The last control signal seen.
    pub control: Option<Control>,
}

impl SinkView {
    /// Whether the runner has come to its end.
    pub open spec fn ended(self) -> bool {
        self.phase is Stopped || self.phase is Killed
    }

    /// Whether `event` fits the phase of the runner.
    pub open spec fn accepts(self, event: SinkEvent) -> bool {
        match event {
            SinkEvent::Arrived { .. } => self.phase is Wait,
            SinkEvent::Closed => self.phase is Wait,
            SinkEvent::Ran => self.phase is Run,
            SinkEvent::Failed { .. } => self.phase is Run,
            SinkEvent::Cancel => !self.ended(),
            SinkEvent::Kill => !self.ended(),
        }
    }

    /// The runner stops: its node is to be finalised.
    pub open spec fn stop(self) -> (SinkView, SinkCommand) {
        (SinkView { phase: SinkPhase::Stopped, ..self }, SinkCommand::Finalize)
    }

    /// The runner and its command after `event`. An event that does not fit
    /// is handed back and changes nothing. `run` is called once for each
    /// message that carries data, on that message. A stop asked for while
    /// `run` ran takes effect when `run` returns.
    pub open spec fn step(self, event: SinkEvent) -> (SinkView, SinkCommand) {
        if !self.accepts(event) {
            (self, SinkCommand::OutOfTurn { event })
        } else {
            match event {
                SinkEvent::Arrived { message } => match message {
                    Message::Data(data) => (
                        SinkView { phase: SinkPhase::Run, ..self },
                        SinkCommand::Run { message: data },
                    ),
                    Message::Watermark(time) => (
                        SinkView {
                            watermark: if time > self.watermark {
                                time
                            } else {
                                self.watermark
                            },
                            ..self
                        },
                        SinkCommand::Wait,
                    ),
                    Message::Control(control) => (
                        SinkView { control: Some(control), ..self },
                        SinkCommand::Wait,
                    ),
                },
                SinkEvent::Closed => self.stop(),
                SinkEvent::Ran => {
                    if self.cancel_requested {
                        self.stop()
                    } else {
                        (SinkView { phase: SinkPhase::Wait, ..self }, SinkCommand::Wait)
                    }
                },
                SinkEvent::Failed { error } => {
                    if self.cancel_requested {
                        self.stop()
                    } else {
                        (SinkView { phase: SinkPhase::Faulted, ..self }, SinkCommand::Fault { error })
                    }
                },
                SinkEvent::Cancel => {
                    if self.phase is Run {
                        (SinkView { cancel_requested: true, ..self }, SinkCommand::Continue)
                    } else {
                        self.stop()
                    }
                },
                SinkEvent::Kill => (SinkView { phase: SinkPhase::Killed, ..self }, SinkCommand::Halt),
            }
        }
    }
}

/// The runner of one sink.
#[derive(Debug)]
pub struct SinkRunner {
    phase: SinkPhase,
    cancel_requested: bool,
    watermark: u64,
    control: Option<Control>,
}

impl View for SinkRunner {
    type V = SinkView;

    closed spec fn view(&self) -> SinkView {
        SinkView {
            phase: self.phase,
            cancel_requested: self.cancel_requested,
            watermark: self.watermark,
            control: self.control,
        }
    }
}

impl SinkRunner {
    /// A runner that waits for its first message.
    pub fn new() -> (r: Self)
        ensures
            r@ == (SinkView {
                phase: SinkPhase::Wait,
                cancel_requested: false,
                watermark: 0,
                control: None,
            }),
    {
        SinkRunner { phase: SinkPhase::Wait, cancel_requested: false, watermark: 0, control: None }
    }

    /// Where the runner stands in its loop.
    pub fn phase(&self) -> (r: SinkPhase)
        ensures
            r == self@.phase,
    {
        self.phase
    }

    /// The latest watermark seen.
    pub fn watermark(&self) -> (r: u64)
        ensures
            r == self@.watermark,
    {
        self.watermark
    }

    /// The last control signal seen.
    pub fn control(&self) -> (r: Option<Control>)
        ensures
            r == self@.control,
    {
        self.control
    }

    /// Whether `event` fits the phase of the runner.
    pub fn accepts(&self, event: &SinkEvent) -> (r: bool)
        ensures
            r == self@.accepts(*event),
    {
        let ended = matches!(self.phase, SinkPhase::Stopped | SinkPhase::Killed);
        match event {
            SinkEvent::Arrived { .. } => matches!(self.phase, SinkPhase::Wait),
            SinkEvent::Closed => matches!(self.phase, SinkPhase::Wait),
            SinkEvent::Ran => matches!(self.phase, SinkPhase::Run),
            SinkEvent::Failed { .. } => matches!(self.phase, SinkPhase::Run),
            SinkEvent::Cancel => !ended,
            SinkEvent::Kill => !ended,
        }
    }

    /// Takes one event and answers with the command to perform next.
    pub fn step(&mut self, event: SinkEvent) -> (r: SinkCommand)
        ensures
            (*final(self))@ == old(self)@.step(event).0,
            r == old(self)@.step(event).1,
    {
        if !self.accepts(&event) {
            return SinkCommand::OutOfTurn { event };
        }
        match event {
            SinkEvent::Arrived { message } => match message {
                Message::Data(data) => {
                    self.phase = SinkPhase::Run;
                    SinkCommand::Run { message: data }
                },
                Message::Watermark(time) => {
                    if time > self.watermark {
                        self.watermark = time;
                    }
                    SinkCommand::Wait
                },
                Message::Control(control) => {
                    self.control = Some(control);
                    SinkCommand::Wait
                },
            },
            SinkEvent::Closed => {
                self.phase = SinkPhase::Stopped;
                SinkCommand::Finalize
            },
            SinkEvent::Ran => {
                if self.cancel_requested {
                    self.phase = SinkPhase::Stopped;
                    SinkCommand::Finalize
                } else {
                    self.phase = SinkPhase::Wait;
                    SinkCommand::Wait
                }
            },
            SinkEvent::Failed { error } => {
                if self.cancel_requested {
                    self.phase = SinkPhase::Stopped;
                    SinkCommand::Finalize
                } else {
                    self.phase = SinkPhase::Faulted;
                    SinkCommand::Fault { error }
                }
            },
            SinkEvent::Cancel => {
                if matches!(self.phase, SinkPhase::Run) {
                    self.cancel_requested = true;
                    SinkCommand::Continue
                } else {
                    self.phase = SinkPhase::Stopped;
                    SinkCommand::Finalize
                }
            },
            SinkEvent::Kill => {
                self.phase = SinkPhase::Killed;
                SinkCommand::Halt
            },
        }
    }
}

/// A sink runner after a sequence of events, with counts of what it asked
/// for on the way.
pub struct SinkCourse {
    /// The runner as it stands.
    pub runner: SinkView,
    /// How many times `run` was called.
    pub started: nat,
    /// How many of those calls have returned.
    pub returned: nat,
    /// How many times `finalize` was called.
    pub finalized: nat,
}

impl SinkCourse {
    /// The course after one more event.
    pub open spec fn after(self, event: SinkEvent) -> SinkCourse {
        let (runner, command) = self.runner.step(event);
        SinkCourse {
            runner,
            started: if command is Run {
                self.started + 1
            } else {
                self.started
            },
            returned: if self.runner.phase is Run && (event is Ran || event is Failed) {
                self.returned + 1
            } else {
                self.returned
            },
            finalized: if command is Finalize {
                self.finalized + 1
            } else {
                self.finalized
            },
        }
    }

    /// The course of a new runner over `events`.
    pub open spec fn of(events: Seq<SinkEvent>) -> SinkCourse
        decreases events.len(),
    {
        if events.len() == 0 {
            SinkCourse {
                runner: SinkView {
                    phase: SinkPhase::Wait,
                    cancel_requested: false,
                    watermark: 0,
                    control: None,
                },
                started: 0,
                returned: 0,
                finalized: 0,
            }
        } else {
            SinkCourse::of(events.drop_last()).after(events.last())
        }
    }
}

/// Serial execution and clean stop of a sink. `run` is called only when
/// the call before has returned, and `finalize` only when `run` does not
/// run. A runner that has stopped has had `finalize` called exactly once;
/// any other has not had it called.
pub proof fn lemma_sink_runs_serially(events: Seq<SinkEvent>)
    ensures
        ({
            let course = SinkCourse::of(events);
            &&& course.returned <= course.started <= course.returned + 1
            &&& course.runner.phase is Run ==> course.started == course.returned + 1
            &&& !(course.runner.phase is Run) && !(course.runner.phase is Killed) ==> course.started
                == course.returned
            &&& course.finalized == if course.runner.phase is Stopped {
                1nat
            } else {
                0nat
            }
        }),
    decreases events.len(),
{
    if events.len() > 0 {
        lemma_sink_runs_serially(events.drop_last());
    }
}

} // verus!
