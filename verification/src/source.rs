//! The runner of a source: it calls the node's `run`, stamps what that
//! produced, sends one copy on each link of the node's output port, and
//! begins again.

use crate::error::FlowError;
use crate::message::{Data, DataMessage, DataMessageView, Message, MessageView};
use crate::operator::{copies, message_views, remaining, without};
use vstd::prelude::*;

verus! {

/// Where a source runner stands in its loop.
#[derive(Clone, Copy, Debug, PartialEq, Eq, Structural)]
pub enum SourcePhase {
    /// The node's `run` runs.
    Run,
    /// What `run` produced is being sent.
    Dispatch,
    /// `run` failed; the runner produces no more.
    Faulted,
    /// The runner was stopped and its node finalised.
    Stopped,
    /// The runner was killed; its node was not finalised.
    Killed,
}

/// What the caller reports to a source runner.
#[derive(Debug)]
pub enum SourceEvent {
    /// `run` returned `data`; `timestamp` is fresh from the clock.
    Produced { data: Data, timestamp: u64 },
    /// The sending has ended; the links named in `disconnected` have lost
    /// their receiver.
    Dispatched { disconnected: Vec<usize> },
    /// `run` returned an error.
    Failed { error: FlowError },
    /// The runner is asked to stop.
    Cancel,
    /// The runner's task is aborted.
    Kill,
}

/// What a source runner asks the caller to do next.
#[derive(Debug)]
pub enum SourceCommand {
    /// Call the node's `run`.
    Run,
    /// Send each message on the link named with it.
    Send { messages: Vec<(usize, Message)> },
    /// Let `run` finish; the stop is noted.
    Continue,
    /// Report the error; the runner is faulted.
    Fault { error: FlowError },
    /// Call the node's `finalize`; the runner has stopped.
    Finalize,
    /// Nothing more: the runner was killed.
    Halt,
    /// The event does not fit the runner's phase and is handed back;
    /// nothing has changed.
    OutOfTurn { event: SourceEvent },
}

/// A command of a source runner as specifications see it.
pub enum SourceCommandView {
    Run,
    Send { messages: Seq<(usize, MessageView)> },
    Continue,
    Fault { error: FlowError },
    Finalize,
    Halt,
    OutOfTurn { event: SourceEvent },
}

impl View for SourceCommand {
    type V = SourceCommandView;

    open spec fn view(&self) -> SourceCommandView {
        match *self {
            SourceCommand::Run => SourceCommandView::Run,
            SourceCommand::Send { messages } => SourceCommandView::Send {
                messages: message_views(messages@),
            },
            SourceCommand::Continue => SourceCommandView::Continue,
            SourceCommand::Fault { error } => SourceCommandView::Fault { error },
            SourceCommand::Finalize => SourceCommandView::Finalize,
            SourceCommand::Halt => SourceCommandView::Halt,
            SourceCommand::OutOfTurn { event } => SourceCommandView::OutOfTurn { event },
        }
    }
}

/// A source runner as specifications see it.
pub struct SourceView {
    /// The links that leave the output port.
    pub links: Seq<usize>,
    /// Where the runner stands in its loop.
    pub phase: SourcePhase,
    /// Whether a stop was asked for while `run` ran.
    pub cancel_requested: bool,
}

impl SourceView {
    /// Whether the runner has come to its end.
    pub open spec fn ended(self) -> bool {
        self.phase is Stopped || self.phase is Killed
    }

    /// Whether `event` fits the phase of the runner.
    pub open spec fn accepts(self, event: SourceEvent) -> bool {
        match event {
            SourceEvent::Produced { .. } => self.phase is Run,
            SourceEvent::Dispatched { .. } => self.phase is Dispatch,
            SourceEvent::Failed { .. } => self.phase is Run,
            SourceEvent::Cancel => !self.ended(),
            SourceEvent::Kill => !self.ended(),
        }
    }

    /// The runner stops: its node is to be finalised.
    pub open spec fn stop(self) -> (SourceView, SourceCommandView) {
        (SourceView { phase: SourcePhase::Stopped, ..self }, SourceCommandView::Finalize)
    }

    /// The runner and its command after `event`. An event that does not fit
    /// is handed back and changes nothing. A stop asked for while `run` ran
    /// takes effect when `run` returns, whatever it returned.
    pub open spec fn step(self, event: SourceEvent) -> (SourceView, SourceCommandView) {
        if !self.accepts(event) {
            (self, SourceCommandView::OutOfTurn { event })
        } else {
            match event {
                SourceEvent::Produced { data, timestamp } => {
                    if self.cancel_requested {
                        self.stop()
                    } else {
                        (
                            SourceView { phase: SourcePhase::Dispatch, ..self },
                            SourceCommandView::Send {
                                messages: copies(
                                    self.links,
                                    MessageView::Data(DataMessageView { data: data@, timestamp }),
                                ),
                            },
                        )
                    }
                },
                SourceEvent::Dispatched { disconnected } => {
                    let left = SourceView { links: without(self.links, disconnected@), ..self };
                    if self.links.len() > 0 && left.links.len() == 0 {
                        left.stop()
                    } else {
                        (SourceView { phase: SourcePhase::Run, ..left }, SourceCommandView::Run)
                    }
                },
                SourceEvent::Failed { error } => {
                    if self.cancel_requested {
                        self.stop()
                    } else {
                        (
                            SourceView { phase: SourcePhase::Faulted, ..self },
                            SourceCommandView::Fault { error },
                        )
                    }
                },
                SourceEvent::Cancel => {
                    if self.phase is Run {
                        (SourceView { cancel_requested: true, ..self }, SourceCommandView::Continue)
                    } else {
                        self.stop()
                    }
                },
                SourceEvent::Kill => (
                    SourceView { phase: SourcePhase::Killed, ..self },
                    SourceCommandView::Halt,
                ),
            }
        }
    }
}

/// The runner of one source.
#[derive(Debug)]
pub struct SourceRunner {
    links: Vec<usize>,
    phase: SourcePhase,
    cancel_requested: bool,
}

impl View for SourceRunner {
    type V = SourceView;

    closed spec fn view(&self) -> SourceView {
        SourceView {
            links: self.links@,
            phase: self.phase,
            cancel_requested: self.cancel_requested,
        }
    }
}

impl SourceRunner {
    /// A runner whose node's `run` is to be called at once. `links` are the
    /// links that leave the output port.
    pub fn new(links: Vec<usize>) -> (r: Self)
        ensures
            r@ == (SourceView { links: links@, phase: SourcePhase::Run, cancel_requested: false }),
    {
        SourceRunner { links, phase: SourcePhase::Run, cancel_requested: false }
    }

    /// Where the runner stands in its loop.
    pub fn phase(&self) -> (r: SourcePhase)
        ensures
            r == self@.phase,
    {
        self.phase
    }

    /// Whether `event` fits the phase of the runner.
    pub fn accepts(&self, event: &SourceEvent) -> (r: bool)
        ensures
            r == self@.accepts(*event),
    {
        let ended = matches!(self.phase, SourcePhase::Stopped | SourcePhase::Killed);
        match event {
            SourceEvent::Produced { .. } => matches!(self.phase, SourcePhase::Run),
            SourceEvent::Dispatched { .. } => matches!(self.phase, SourcePhase::Dispatch),
            SourceEvent::Failed { .. } => matches!(self.phase, SourcePhase::Run),
            SourceEvent::Cancel => !ended,
            SourceEvent::Kill => !ended,
        }
    }

    /// Takes one event and answers with the command to perform next.
    pub fn step(&mut self, event: SourceEvent) -> (r: SourceCommand)
        ensures
            (final(self)@, r@) == old(self)@.step(event),
    {
        if !self.accepts(&event) {
            return SourceCommand::OutOfTurn { event };
        }
        match event {
            SourceEvent::Produced { data, timestamp } => {
                if self.cancel_requested {
                    self.phase = SourcePhase::Stopped;
                    return SourceCommand::Finalize;
                }
                let mut messages: Vec<(usize, Message)> = Vec::new();
                let mut k: usize = 0;
                let ghost message = MessageView::Data(DataMessageView { data: data@, timestamp });
                while k < self.links.len()
                    invariant
                        0 <= k <= self.links.len(),
                        message == MessageView::Data(DataMessageView { data: data@, timestamp }),
                        message_views(messages@) == copies(self.links@.take(k as int), message),
                    decreases self.links.len() - k,
                {
                    let ghost sent = message_views(messages@);
                    messages.push(
                        (self.links[k], Message::Data(DataMessage::new(data.duplicate(), timestamp))),
                    );
                    proof {
                        assert(message_views(messages@) =~= sent.push(
                            (self.links@[k as int], message),
                        ));
                        assert(copies(self.links@.take(k + 1), message) =~= sent.push(
                            (self.links@[k as int], message),
                        ));
                    }
                    k += 1;
                }
                proof {
                    assert(self.links@.take(k as int) =~= self.links@);
                }
                self.phase = SourcePhase::Dispatch;
                SourceCommand::Send { messages }
            },
            SourceEvent::Dispatched { disconnected } => {
                let had_links = self.links.len() > 0;
                let left = remaining(&self.links, &disconnected);
                self.links = left;
                if had_links && self.links.len() == 0 {
                    self.phase = SourcePhase::Stopped;
                    SourceCommand::Finalize
                } else {
                    self.phase = SourcePhase::Run;
                    SourceCommand::Run
                }
            },
            SourceEvent::Failed { error } => {
                if self.cancel_requested {
                    self.phase = SourcePhase::Stopped;
                    SourceCommand::Finalize
                } else {
                    self.phase = SourcePhase::Faulted;
                    SourceCommand::Fault { error }
                }
            },
            SourceEvent::Cancel => {
                if matches!(self.phase, SourcePhase::Run) {
                    self.cancel_requested = true;
                    SourceCommand::Continue
                } else {
                    self.phase = SourcePhase::Stopped;
                    SourceCommand::Finalize
                }
            },
            SourceEvent::Kill => {
                self.phase = SourcePhase::Killed;
                SourceCommand::Halt
            },
        }
    }
}

/// A source runner after a sequence of events, with counts of what it
/// asked for on the way.
pub struct SourceCourse {
    /// The runner as it stands.
    pub runner: SourceView,
    /// How many times `run` was called, the first call included.
    pub started: nat,
    /// How many of those calls have returned.
    pub returned: nat,
    /// How many times `finalize` was called.
    pub finalized: nat,
}

impl SourceCourse {
    /// The course after one more event.
    pub open spec fn after(self, event: SourceEvent) -> SourceCourse {
        let (runner, command) = self.runner.step(event);
        SourceCourse {
            runner,
            started: if command is Run {
                self.started + 1
            } else {
                self.started
            },
            returned: if self.runner.phase is Run && (event is Produced || event is Failed) {
                self.returned + 1
            } else {
                self.returned
            },
            finalized: if command is Finalize {
                self.finalized + 1
            } else {
                self.finalized
            },
        }
    }

    /// The course of a new runner with the links `links` over `events`.
    pub open spec fn of(links: Seq<usize>, events: Seq<SourceEvent>) -> SourceCourse
        decreases events.len(),
    {
        if events.len() == 0 {
            SourceCourse {
                runner: SourceView { links, phase: SourcePhase::Run, cancel_requested: false },
                started: 1,
                returned: 0,
                finalized: 0,
            }
        } else {
            SourceCourse::of(links, events.drop_last()).after(events.last())
        }
    }
}

/// Serial execution and clean stop of a source. `run` is called only when
/// the call before has returned, and `finalize` only when `run` does not
/// run. A runner that has stopped has had `finalize` called exactly once;
/// any other has not had it called.
pub proof fn lemma_source_runs_serially(links: Seq<usize>, events: Seq<SourceEvent>)
    ensures
        ({
            let course = SourceCourse::of(links, events);
            &&& course.returned <= course.started <= course.returned + 1
            &&& course.runner.phase is Run ==> course.started == course.returned + 1
            &&& !(course.runner.phase is Run) && !(course.runner.phase is Killed) ==> course.started
                == course.returned
            &&& course.finalized == if course.runner.phase is Stopped {
                1nat
            } else {
                0nat
            }
        }),
    decreases events.len(),
{
    if events.len() > 0 {
        lemma_source_runs_serially(links, events.drop_last());
    }
}

} // verus!
