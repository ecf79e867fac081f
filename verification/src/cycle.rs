//! What holds of every course that an operator runner can take.

use crate::keyed::Keyed;
use crate::message::Data;
use crate::operator::{
    all_ready, elapsed, with_actions, CommandView, Event, LocalDeadlineMiss, RunnerView,
};
use crate::token::{Action, Token};
use vstd::prelude::*;

verus! {

/// A runner after a sequence of events, with what it asked for on the way.
pub struct Course {
    /// The runner as it stands.
    pub runner: RunnerView,
    /// The command given in answer to each event.
    pub commands: Seq<CommandView>,
    /// How many times the input rule, `run` or the output rule was called.
    pub started: nat,
    /// How many of those calls have returned.
    pub returned: nat,
    /// How many times `finalize` was called.
    pub finalized: nat,
}

impl Course {
    /// The course of a runner that has not seen an event yet.
    pub open spec fn begin(runner: RunnerView) -> Course {
        Course { runner, commands: Seq::empty(), started: 0, returned: 0, finalized: 0 }
    }

    /// The course after one more event.
    pub open spec fn after(self, event: Event) -> Course {
        let (runner, command) = self.runner.step(event);
        Course {
            runner,
            commands: self.commands.push(command),
            started: if command is Evaluate || command is Run || command is OutputRule {
                self.started + 1
            } else {
                self.started
            },
            returned: if self.runner.accepts(event) && self.runner.completes(event) {
                self.returned + 1
            } else {
                self.returned
            },
            finalized: if command is Finalize {
                self.finalized + 1
            } else {
                self.finalized
            },
        }
    }

    /// The course of `start` over `events`, in their order.
    pub open spec fn of(start: RunnerView, events: Seq<Event>) -> Course
        decreases events.len(),
    {
        if events.len() == 0 {
            Course::begin(start)
        } else {
            Course::of(start, events.drop_last()).after(events.last())
        }
    }
}

/// Serial execution. Whatever the events, a callback of the node is called
/// only when the one before has returned: the calls never outnumber the
/// returns by more than one, and they do so exactly while the runner is in
/// a callback, or was killed in one. `finalize` is asked for only when no
/// callback runs, and nothing is called after it.
pub proof fn lemma_callbacks_are_serial(start: RunnerView, events: Seq<Event>)
    requires
        !start.busy(),
    ensures
        ({
            let course = Course::of(start, events);
            &&& course.returned <= course.started <= course.returned + 1
            &&& course.runner.busy() ==> course.started == course.returned + 1
            &&& !course.runner.busy() && !(course.runner.phase is Killed) ==> course.started
                == course.returned
            &&& course.commands.len() == events.len()
            &&& events.len() > 0 && course.commands.last() is Finalize ==> course.started
                == course.returned && course.runner.phase is Stopped
            &&& course.runner.phase is Stopped ==> forall|event: Event|
                course.after(event).started == course.started
        }),
    decreases events.len(),
{
    if events.len() > 0 {
        lemma_callbacks_are_serial(start, events.drop_last());
    }
}

/// Clean stop. A runner that has stopped has had `finalize` called exactly
/// once; one that has not stopped, or was killed, has not had it called.
pub proof fn lemma_finalize_exactly_once(start: RunnerView, events: Seq<Event>)
    requires
        !(start.phase is Stopped),
    ensures
        Course::of(start, events).finalized == if Course::of(start, events).runner.phase
            is Stopped {
            1nat
        } else {
            0nat
        },
    decreases events.len(),
{
    if events.len() > 0 {
        lemma_finalize_exactly_once(start, events.drop_last());
    }
}

/// A stop that is asked for while no callback runs stops the runner at
/// once. One asked for during a callback is noted, and the return of that
/// callback stops the runner, whatever it returned.
pub proof fn lemma_cancel_stops(runner: RunnerView, event: Event)
    requires
        !runner.ended(),
    ensures
        !runner.busy() ==> runner.step(Event::Cancel).0.phase is Stopped && runner.step(
            Event::Cancel,
        ).1 is Finalize,
        runner.busy() ==> runner.step(Event::Cancel).0.cancel_requested && runner.step(
            Event::Cancel,
        ).0.phase == runner.phase,
        runner.busy() && runner.cancel_requested && runner.completes(event) ==> runner.step(
            event,
        ).0.phase is Stopped && runner.step(event).1 is Finalize,
{
}

/// Every token that holds a message is to be consumed.
pub open spec fn consuming(tokens: Map<Seq<char>, Token>) -> bool {
    forall|port: Seq<char>|
        tokens.contains_key(port) && tokens[port] is Ready ==> (#[trigger] tokens[port])->action
            == Action::Consume
}

/// `event`, if it is the return of the input rule, is what the default rule
/// returns on the tokens of `runner`: fire exactly when every port has a
/// message, and no action changed.
pub open spec fn by_default_rule(runner: RunnerView, event: Event) -> bool {
    event matches Event::Evaluated { fire, actions, .. } ==> fire == all_ready(runner.tokens)
        && actions@ == Map::<Seq<char>, Action>::empty()
}

/// The input rule answered as the default rule does, all along the course of
/// `start` over `events`.
pub open spec fn default_ruled(start: RunnerView, events: Seq<Event>) -> bool
    decreases events.len(),
{
    events.len() > 0 ==> default_ruled(start, events.drop_last()) && by_default_rule(
        Course::of(start, events.drop_last()).runner,
        events.last(),
    )
}

/// Default input rule. With the default rule, every firing has exactly one
/// message for each input port: whenever `run` is called, its inputs
/// cover all the ports, and this happens only when each port had a message.
pub proof fn lemma_default_rule_fires_on_all_inputs(start: RunnerView, events: Seq<Event>)
    requires
        consuming(start.tokens),
        default_ruled(start, events),
    ensures
        consuming(Course::of(start, events).runner.tokens),
        Course::of(start, events).runner.tokens.dom() == start.tokens.dom(),
        forall|i: int|
            0 <= i < Course::of(start, events).commands.len() ==> (
            #[trigger] Course::of(start, events).commands[i] matches CommandView::Run { inputs }
                ==> inputs.dom() == start.tokens.dom()),
    decreases events.len(),
{
    if events.len() > 0 {
        let before = Course::of(start, events.drop_last());
        let course = Course::of(start, events);
        let event = events.last();
        lemma_default_rule_fires_on_all_inputs(start, events.drop_last());
        let runner = before.runner;
        assert(course.runner.tokens.dom() =~= runner.tokens.dom());
        if runner.accepts(event) && !runner.unwinds(event) {
            match event {
                Event::Evaluated { fire, actions, now } => {
                    assert(with_actions(runner.tokens, actions@) =~= runner.tokens);
                    if fire {
                        let inputs = course.commands.last()->Run_inputs;
                        assert(inputs.dom() =~= runner.tokens.dom());
                    }
                },
                _ => {},
            }
        }
        assert forall|i: int| 0 <= i < course.commands.len() implies (
        #[trigger] course.commands[i] matches CommandView::Run { inputs } ==> inputs.dom()
            == start.tokens.dom()) by {
            if i < before.commands.len() {
                assert(course.commands[i] == before.commands[i]);
            }
        }
    }
}

/// Drop action. When the input rule leaves the token of `port` marked to be
/// dropped, the message is discarded: the token is pending afterwards, and
/// if `run` is called, the port is not among its inputs. When the rule also
/// declines to fire, `run` is not called.
pub proof fn lemma_dropped_message_is_discarded(
    runner: RunnerView,
    fire: bool,
    actions: Keyed<Action>,
    now: u64,
    port: Seq<char>,
)
    requires
        runner.phase is Evaluate,
        runner.tokens.contains_key(port),
        with_actions(runner.tokens, actions@)[port] matches Token::Ready { action, .. } && action
            == Action::Drop,
    ensures
        ({
            let (next, command) = runner.step(Event::Evaluated { fire, actions, now });
            &&& !runner.cancel_requested ==> next.tokens[port] is Pending
            &&& command matches CommandView::Run { inputs } ==> !inputs.contains_key(port)
            &&& !fire ==> !(command is Run)
        }),
{
}

/// Keep action. When the input rule leaves the token of `port` marked to be
/// kept, the token still holds its message afterwards, marked to be kept,
/// and if `run` is called, the port is not among its inputs.
pub proof fn lemma_kept_message_stays(
    runner: RunnerView,
    fire: bool,
    actions: Keyed<Action>,
    now: u64,
    port: Seq<char>,
)
    requires
        runner.phase is Evaluate,
        !runner.cancel_requested,
        runner.tokens.contains_key(port),
        with_actions(runner.tokens, actions@)[port] matches Token::Ready { action, .. } && action
            == Action::Keep,
    ensures
        ({
            let (next, command) = runner.step(Event::Evaluated { fire, actions, now });
            &&& next.tokens.contains_key(port)
            &&& next.tokens[port] == (Token::Ready {
                message: runner.tokens[port]->message,
                action: Action::Keep,
            })
            &&& command matches CommandView::Run { inputs } ==> !inputs.contains_key(port)
        }),
{
}

/// A token that holds a message keeps it, with its action, until the input
/// rule returns again or the stream ends: no other event touches it.
pub proof fn lemma_ready_token_waits(runner: RunnerView, event: Event, port: Seq<char>)
    requires
        runner.tokens.contains_key(port),
        runner.tokens[port] is Ready,
        !(event is Evaluated),
        !(event is Closed),
    ensures
        runner.step(event).0.tokens.contains_key(port),
        runner.step(event).0.tokens[port] == runner.tokens[port],
{
}

/// Deadline miss reporting. When `run` returns, the output rule is called
/// with what `run` returned, and with a report exactly when the operator
/// has a deadline and the firing took longer. The report gives the times
/// of the firing, the deadline and the time taken.
pub proof fn lemma_deadline_miss_is_reported(runner: RunnerView, outputs: Keyed<Data>, now: u64)
    requires
        runner.phase is Run,
        !runner.cancel_requested,
    ensures
        ({
            let (next, command) = runner.step(Event::Ran { outputs, now });
            let taken = elapsed(runner.firing_start, now);
            &&& next.phase is OutputRule
            &&& command matches CommandView::OutputRule { outputs: handed, deadline_miss }
            &&& handed == outputs
            &&& deadline_miss is Some <==> (runner.local_deadline matches Some(configured) && taken
                > configured)
            &&& deadline_miss matches Some(miss) ==> miss == (LocalDeadlineMiss {
                start: runner.firing_start,
                end: now,
                configured: runner.local_deadline->0,
                observed: taken,
            })
        }),
{
}

} // verus!
