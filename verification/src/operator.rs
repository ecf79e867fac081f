//! The firing engine of an operator.
//!
//! An operator runner goes through its firing cycle one event at a time. The
//! caller performs what cannot be done here (it waits for messages, calls
//! the node's callbacks, sends on links) and reports each outcome as an
//! [`Event`]; [`OperatorRunner::step`] answers with the [`Command`] to
//! perform next.
//!
//! ```text
//! WaitTokens -> Evaluate -> [no fire] -> WaitTokens
//!                        -> [fire] -> Run -> OutputRule -> Dispatch -> WaitTokens
//! ```

use crate::error::FlowError;
use crate::keyed::Keyed;
use crate::message::{
    Control, Data, DataMessage, DataMessageView, Message, MessageView, NodeOutput, NodeOutputView,
};
use crate::token::{Action, Token};
use vstd::prelude::*;

verus! {

/// Where a runner stands in its firing cycle.
#[derive(Clone, Copy, Debug, PartialEq, Eq, Structural)]
pub enum Phase {
    /// It waits for a message on a port whose token is pending.
    WaitTokens,
    /// The input rule runs.
    Evaluate,
    /// The node's `run` runs.
    Run,
    /// The output rule runs.
    OutputRule,
    /// The outputs of the firing are being sent.
    Dispatch,
    /// A callback failed; the runner fires no more.
    Faulted,
    /// The runner was stopped and its node finalised.
    Stopped,
    /// The runner was killed; its node was not finalised.
    Killed,
}

/// The report of a firing that took longer than the operator's deadline.
/// Times and durations are in the unit of the caller's clock.
#[derive(Clone, Copy, Debug, PartialEq, Eq, Structural)]
pub struct LocalDeadlineMiss {
    /// When the firing began.
    pub start: u64,
    /// When `run` returned.
    pub end: u64,
    /// The deadline of the operator.
    pub configured: u64,
    /// How long the firing took.
    pub observed: u64,
}

/// The time from `start` to `end`; nothing where the clock went back.
pub open spec fn elapsed(start: u64, end: u64) -> u64 {
    if end >= start {
        (end - start) as u64
    } else {
        0
    }
}

/// The report owed for a firing from `start` to `end`: one exactly when the
/// operator has a deadline and the firing took longer.
pub open spec fn deadline_miss(local_deadline: Option<u64>, start: u64, end: u64) -> Option<
    LocalDeadlineMiss,
> {
    match local_deadline {
        Some(configured) => if elapsed(start, end) > configured {
            Some(LocalDeadlineMiss { start, end, configured, observed: elapsed(start, end) })
        } else {
            None
        },
        None => None,
    }
}

/// Checks a firing against the operator's deadline.
pub fn check_deadline(local_deadline: Option<u64>, start: u64, end: u64) -> (r: Option<
    LocalDeadlineMiss,
>)
    ensures
        r == deadline_miss(local_deadline, start, end),
{
    let observed = if end >= start {
        end - start
    } else {
        0
    };
    match local_deadline {
        Some(configured) => if observed > configured {
            Some(LocalDeadlineMiss { start, end, configured, observed })
        } else {
            None
        },
        None => None,
    }
}

/// Every port has a message.
pub open spec fn all_ready(tokens: Map<Seq<char>, Token>) -> bool {
    forall|port: Seq<char>| tokens.contains_key(port) ==> #[trigger] tokens[port] is Ready
}

/// Some port waits for a message.
pub open spec fn some_pending(tokens: Map<Seq<char>, Token>) -> bool {
    exists|port: Seq<char>| tokens.contains_key(port) && #[trigger] tokens[port] is Pending
}

/// The tokens after the input rule has set `actions`: each ready token
/// named there takes its action from there.
pub open spec fn with_actions(tokens: Map<Seq<char>, Token>, actions: Map<Seq<char>, Action>) -> Map<
    Seq<char>,
    Token,
> {
    Map::new(
        |port: Seq<char>| tokens.contains_key(port),
        |port: Seq<char>|
            if actions.contains_key(port) {
                tokens[port].with_action(actions[port])
            } else {
                tokens[port]
            },
    )
}

/// The action of each token that holds a message.
pub open spec fn chosen(tokens: Map<Seq<char>, Token>) -> Map<Seq<char>, Action> {
    Map::new(
        |port: Seq<char>| tokens.contains_key(port) && tokens[port] is Ready,
        |port: Seq<char>| tokens[port]->action,
    )
}

/// The inputs of a firing: the message of each token that is ready and to be
/// consumed, under its port.
pub open spec fn gathered(tokens: Map<Seq<char>, Token>) -> Map<Seq<char>, DataMessage> {
    Map::new(
        |port: Seq<char>| tokens.contains_key(port) && tokens[port].consumed(),
        |port: Seq<char>| tokens[port]->message,
    )
}

/// The tokens once a firing has taken its inputs.
pub open spec fn after_fire(tokens: Map<Seq<char>, Token>) -> Map<Seq<char>, Token> {
    Map::new(|port: Seq<char>| tokens.contains_key(port), |port: Seq<char>| tokens[port].after_fire())
}

/// Those of `links` that are not among `gone`, in their order.
pub open spec fn without(links: Seq<usize>, gone: Seq<usize>) -> Seq<usize>
    decreases links.len(),
{
    if links.len() == 0 {
        Seq::empty()
    } else if gone.contains(links.last()) {
        without(links.drop_last(), gone)
    } else {
        without(links.drop_last(), gone).push(links.last())
    }
}

/// The links of each port once the links in `gone` are taken away.
pub open spec fn shrunk(fanout: Map<Seq<char>, Seq<usize>>, gone: Seq<usize>) -> Map<
    Seq<char>,
    Seq<usize>,
> {
    Map::new(
        |port: Seq<char>| fanout.contains_key(port),
        |port: Seq<char>| without(fanout[port], gone),
    )
}

/// Some port has a link.
pub open spec fn connected(fanout: Map<Seq<char>, Seq<usize>>) -> bool {
    exists|port: Seq<char>| fanout.contains_key(port) && (#[trigger] fanout[port]).len() > 0
}

/// The tokens once what they held was thrown away.
pub open spec fn flushed(tokens: Map<Seq<char>, Token>) -> Map<Seq<char>, Token> {
    Map::new(|port: Seq<char>| tokens.contains_key(port), |port: Seq<char>| Token::Pending)
}

/// The tokens once the input rule has declined to fire.
pub open spec fn after_skip(tokens: Map<Seq<char>, Token>) -> Map<Seq<char>, Token> {
    Map::new(|port: Seq<char>| tokens.contains_key(port), |port: Seq<char>| tokens[port].after_skip())
}

/// The message that carries `output`, stamped with `timestamp`.
pub open spec fn stamped(output: NodeOutput, timestamp: u64) -> MessageView {
    match output {
        NodeOutput::Data(data) => MessageView::Data(DataMessageView { data: data@, timestamp }),
        NodeOutput::Control(control) => MessageView::Control(control),
    }
}

/// One copy of `message` for each of `links`, in their order.
pub open spec fn copies(links: Seq<usize>, message: MessageView) -> Seq<(usize, MessageView)> {
    Seq::new(links.len(), |i: int| (links[i], message))
}

/// What is sent for the outputs of a firing: for each port that the output
/// rule emitted on, in the order given, one message per link of that port.
/// A port without links sends nothing.
pub open spec fn dispatched(
    ports: Seq<Seq<char>>,
    outputs: Seq<NodeOutput>,
    fanout: Map<Seq<char>, Seq<usize>>,
    timestamp: u64,
) -> Seq<(usize, MessageView)>
    decreases ports.len(),
{
    if ports.len() == 0 || outputs.len() != ports.len() {
        Seq::empty()
    } else {
        let links = if fanout.contains_key(ports.last()) {
            fanout[ports.last()]
        } else {
            Seq::empty()
        };
        dispatched(ports.drop_last(), outputs.drop_last(), fanout, timestamp) + copies(
            links,
            stamped(outputs.last(), timestamp),
        )
    }
}

/// What the caller reports to the runner.
#[allow(inconsistent_fields)]
#[derive(Debug)]
pub enum Event {
    /// A message was received on the link of an input port.
    Arrived { port: String, message: Message },
    /// The link of an input port is drained and closed.
    Closed { port: String },
    /// The input rule returned at `now`. `fire` is its answer, `actions` the
    /// action it chose for each token that it touched.
    Evaluated { fire: bool, actions: Keyed<Action>, now: u64 },
    /// The node's `run` returned `outputs` at `now`.
    Ran { outputs: Keyed<Data>, now: u64 },
    /// The output rule returned `outputs`; `timestamp` is fresh from the
    /// clock.
    Emitted { outputs: Keyed<NodeOutput>, timestamp: u64 },
    /// The sending of the firing's messages has ended; the links named in
    /// `disconnected` have lost their receiver.
    Dispatched { disconnected: Vec<usize> },
    /// The callback in progress returned an error.
    Failed { error: FlowError },
    /// The runner is asked to stop.
    Cancel,
    /// The runner's task is aborted.
    Kill,
}

/// What the runner asks the caller to do next.
#[derive(Debug)]
pub enum Command {
    /// Wait for a message on any port whose token is pending.
    Wait,
    /// Call the input rule on the tokens.
    Evaluate,
    /// Call the node's `run` on these inputs.
    Run { inputs: Keyed<DataMessage> },
    /// Call the output rule on what `run` returned.
    OutputRule { outputs: Keyed<Data>, deadline_miss: Option<LocalDeadlineMiss> },
    /// Send each message on the link named with it.
    Send { messages: Vec<(usize, Message)> },
    /// Let the callback in progress finish; the stop is noted.
    Continue,
    /// Report the error; the runner is faulted.
    Fault { error: FlowError },
    /// Call the node's `finalize`; the runner has stopped.
    Finalize,
    /// Nothing more: the runner was killed.
    Halt,
    /// The event does not fit the runner's phase and is handed back;
    /// nothing has changed.
    OutOfTurn { event: Event },
}

/// A command as specifications see it.
pub enum CommandView {
    Wait,
    Evaluate,
    Run { inputs: Map<Seq<char>, DataMessage> },
    OutputRule { outputs: Keyed<Data>, deadline_miss: Option<LocalDeadlineMiss> },
    Send { messages: Seq<(usize, MessageView)> },
    Continue,
    Fault { error: FlowError },
    Finalize,
    Halt,
    OutOfTurn { event: Event },
}

impl View for Command {
    type V = CommandView;

    open spec fn view(&self) -> CommandView {
        match *self {
            Command::Wait => CommandView::Wait,
            Command::Evaluate => CommandView::Evaluate,
            Command::Run { inputs } => CommandView::Run { inputs: inputs@ },
            Command::OutputRule { outputs, deadline_miss } => CommandView::OutputRule {
                outputs,
                deadline_miss,
            },
            Command::Send { messages } => CommandView::Send { messages: message_views(messages@) },
            Command::Continue => CommandView::Continue,
            Command::Fault { error } => CommandView::Fault { error },
            Command::Finalize => CommandView::Finalize,
            Command::Halt => CommandView::Halt,
            Command::OutOfTurn { event } => CommandView::OutOfTurn { event },
        }
    }
}

/// A runner as specifications see it.
pub struct RunnerView {
    /// The token of each input port.
    pub tokens: Map<Seq<char>, Token>,
    /// The links that leave each output port.
    pub fanout: Map<Seq<char>, Seq<usize>>,
    /// How long a firing may take, if that is bounded.
    pub local_deadline: Option<u64>,
    /// Where the runner stands in its cycle.
    pub phase: Phase,
    /// Whether a stop was asked for while a callback ran.
    pub cancel_requested: bool,
    /// When the firing in progress began.
    pub firing_start: u64,
    /// The latest watermark seen on an input.
    pub watermark: u64,
    /// The last control signal seen on an input.
    pub control: Option<Control>,
}

impl RunnerView {
    /// Whether a callback of the node is in progress.
    pub open spec fn busy(self) -> bool {
        self.phase is Evaluate || self.phase is Run || self.phase is OutputRule
    }

    /// Whether the runner has come to its end.
    pub open spec fn ended(self) -> bool {
        self.phase is Stopped || self.phase is Killed
    }

    /// Whether `event` reports the end of the callback in progress.
    pub open spec fn completes(self, event: Event) -> bool {
        ||| self.phase is Evaluate && event is Evaluated
        ||| self.phase is Run && event is Ran
        ||| self.phase is OutputRule && event is Emitted
        ||| self.busy() && event is Failed
    }

    /// The runner stops: its node is to be finalised.
    pub open spec fn stop(self) -> (RunnerView, CommandView) {
        (RunnerView { phase: Phase::Stopped, ..self }, CommandView::Finalize)
    }

    /// The runner turns to its inputs: it waits while a token is pending,
    /// and asks the input rule at once when none is.
    pub open spec fn resume(self) -> (RunnerView, CommandView) {
        if some_pending(self.tokens) {
            (RunnerView { phase: Phase::WaitTokens, ..self }, CommandView::Wait)
        } else {
            (RunnerView { phase: Phase::Evaluate, ..self }, CommandView::Evaluate)
        }
    }

    /// Whether `event` fits the phase of the runner: a message or the end
    /// of a stream while it waits, the message on a port that has none yet
    /// if it is data; the return of a
    /// callback while that callback runs; the end of the sending while it
    /// sends; a stop or a kill before the runner has ended.
    pub open spec fn accepts(self, event: Event) -> bool {
        match event {
            Event::Arrived { port, message } => self.phase is WaitTokens && (message is Data
                ==> self.tokens.contains_key(port@) && self.tokens[port@] is Pending),
            Event::Closed { .. } => self.phase is WaitTokens,
            Event::Evaluated { .. } => self.phase is Evaluate,
            Event::Ran { .. } => self.phase is Run,
            Event::Emitted { .. } => self.phase is OutputRule,
            Event::Dispatched { .. } => self.phase is Dispatch,
            Event::Failed { .. } => self.busy(),
            Event::Cancel => !self.ended(),
            Event::Kill => !self.ended(),
        }
    }

    /// Whether the runner gives up its cycle on `event`: a stop was asked
    /// for while a callback ran, and that callback has now returned.
    pub open spec fn unwinds(self, event: Event) -> bool {
        self.busy() && self.cancel_requested && !(event is Cancel) && !(event is Kill)
    }

    /// The runner and its command after an event that fits its phase.
    pub open spec fn react(self, event: Event) -> (RunnerView, CommandView) {
        if self.unwinds(event) {
            self.stop()
        } else {
            match event {
                Event::Arrived { port, message } => match message {
                    Message::Data(data) => (
                        RunnerView {
                            tokens: self.tokens.insert(
                                port@,
                                Token::Ready { message: data, action: Action::Consume },
                            ),
                            phase: Phase::Evaluate,
                            ..self
                        },
                        CommandView::Evaluate,
                    ),
                    Message::Watermark(time) => (
                        RunnerView {
                            watermark: if time > self.watermark {
                                time
                            } else {
                                self.watermark
                            },
                            ..self
                        },
                        CommandView::Wait,
                    ),
                    Message::Control(control) => (
                        RunnerView { control: Some(control), ..self },
                        CommandView::Wait,
                    ),
                },
                Event::Closed { .. } => RunnerView { tokens: flushed(self.tokens), ..self }.stop(),
                Event::Evaluated { fire, actions, now } => {
                    let decided = with_actions(self.tokens, actions@);
                    if fire {
                        (
                            RunnerView {
                                tokens: after_fire(decided),
                                phase: Phase::Run,
                                firing_start: now,
                                ..self
                            },
                            CommandView::Run { inputs: gathered(decided) },
                        )
                    } else {
                        RunnerView { tokens: after_skip(decided), ..self }.resume()
                    }
                },
                Event::Ran { outputs, now } => (
                    RunnerView { phase: Phase::OutputRule, ..self },
                    CommandView::OutputRule {
                        outputs,
                        deadline_miss: deadline_miss(self.local_deadline, self.firing_start, now),
                    },
                ),
                Event::Emitted { outputs, timestamp } => (
                    RunnerView { phase: Phase::Dispatch, ..self },
                    CommandView::Send {
                        messages: dispatched(
                            outputs.keys(),
                            outputs.values(),
                            self.fanout,
                            timestamp,
                        ),
                    },
                ),
                Event::Dispatched { disconnected } => {
                    let left = RunnerView { fanout: shrunk(self.fanout, disconnected@), ..self };
                    if connected(self.fanout) && !connected(left.fanout) {
                        left.stop()
                    } else {
                        left.resume()
                    }
                },
                Event::Failed { error } => {
                    if self.phase is Run && error is MissingInput {
                        self.resume()
                    } else {
                        (RunnerView { phase: Phase::Faulted, ..self }, CommandView::Fault { error })
                    }
                },
                Event::Cancel => {
                    if self.busy() {
                        (RunnerView { cancel_requested: true, ..self }, CommandView::Continue)
                    } else {
                        self.stop()
                    }
                },
                Event::Kill => (RunnerView { phase: Phase::Killed, ..self }, CommandView::Halt),
            }
        }
    }

    /// The runner and its command after `event`. An event that does not fit
    /// is handed back and changes nothing.
    pub open spec fn step(self, event: Event) -> (RunnerView, CommandView) {
        if self.accepts(event) {
            self.react(event)
        } else {
            (self, CommandView::OutOfTurn { event })
        }
    }
}

/// `port` is one of `ports`.
pub open spec fn names(ports: Seq<String>, port: Seq<char>) -> bool {
    exists|k: int| 0 <= k < ports.len() && (#[trigger] ports[k])@ == port
}

/// One of the first `n` keys is `port`, and its token is pending.
pub open spec fn pending_before(
    keys: Seq<Seq<char>>,
    values: Seq<Token>,
    n: int,
    port: Seq<char>,
) -> bool {
    exists|j: int| 0 <= j < n && #[trigger] keys[j] == port && values[j] is Pending
}

/// One of the first `n` keys is `port`, and its token holds a message.
pub open spec fn ready_before(
    keys: Seq<Seq<char>>,
    values: Seq<Token>,
    n: int,
    port: Seq<char>,
) -> bool {
    exists|j: int| 0 <= j < n && #[trigger] keys[j] == port && values[j] is Ready
}

/// The views of messages that are to be sent, each with its link.
pub open spec fn message_views(messages: Seq<(usize, Message)>) -> Seq<(usize, MessageView)> {
    Seq::new(messages.len(), |i: int| (messages[i].0, messages[i].1@))
}

/// The links of each port as sequences.
pub open spec fn link_lists(fanout: Map<Seq<char>, Vec<usize>>) -> Map<Seq<char>, Seq<usize>> {
    Map::new(|port: Seq<char>| fanout.contains_key(port), |port: Seq<char>| fanout[port]@)
}

/// Whether some port waits for a message.
pub fn any_pending(tokens: &Keyed<Token>) -> (r: bool)
    ensures
        r == some_pending(tokens@),
{
    let n = tokens.len();
    let mut i: usize = 0;
    while i < n
        invariant
            0 <= i <= n,
            n == tokens.keys().len(),
            tokens.consistent(),
            forall|j: int| 0 <= j < i ==> tokens.values()[j] is Ready,
        decreases n - i,
    {
        if !tokens.value(i).is_ready() {
            proof {
                let port = tokens.keys()[i as int];
                assert(tokens.keys().contains(port));
                assert(tokens@.contains_key(port) && tokens@[port] is Pending);
            }
            return true;
        }
        i += 1;
    }
    proof {
        assert forall|port: Seq<char>| tokens@.contains_key(port) implies !(
        #[trigger] tokens@[port] is Pending) by {
            assert(tokens.keys().to_set().contains(port));
            let j = tokens.keys().index_of(port);
            assert(tokens@[tokens.keys()[j]] == tokens.values()[j]);
        }
    }
    false
}

/// The default input rule: fire exactly when every port has a message. It
/// changes no action.
pub fn default_input_rule(tokens: &Keyed<Token>) -> (r: bool)
    ensures
        r == all_ready(tokens@),
{
    let pending = any_pending(tokens);
    proof {
        if pending {
            let port = choose|port: Seq<char>|
                tokens@.contains_key(port) && #[trigger] tokens@[port] is Pending;
            assert(!(tokens@[port] is Ready));
        } else {
            assert forall|port: Seq<char>| tokens@.contains_key(port) implies #[trigger] tokens@[port]
                is Ready by {
                assert(!(tokens@[port] is Pending));
            }
        }
    }
    !pending
}

/// The default output rule: what `run` produced on a port is sent on that
/// port, unchanged.
pub fn default_output_rule(outputs: &Keyed<Data>) -> (r: Keyed<NodeOutput>)
    ensures
        r.keys() == outputs.keys(),
        r.values().len() == outputs.values().len(),
        forall|i: int|
            0 <= i < r.values().len() ==> (#[trigger] r.values()[i])@ == NodeOutputView::Data(
                outputs.values()[i]@,
            ),
{
    let mut rule: Keyed<NodeOutput> = Keyed::new();
    let n = outputs.len();
    let mut i: usize = 0;
    while i < n
        invariant
            0 <= i <= n,
            n == outputs.keys().len(),
            outputs.consistent(),
            rule.consistent(),
            rule.keys() == outputs.keys().take(i as int),
            forall|j: int|
                0 <= j < i ==> (#[trigger] rule.values()[j])@ == NodeOutputView::Data(
                    outputs.values()[j]@,
                ),
        decreases n - i,
    {
        proof {
            let port = outputs.keys()[i as int];
            if rule@.contains_key(port) {
                assert(rule.keys().to_set().contains(port));
                let j = rule.keys().index_of(port);
                assert(outputs.keys()[j] == outputs.keys()[i as int]);
            }
        }
        rule.insert(outputs.key(i).clone(), NodeOutput::Data(outputs.value(i).duplicate()));
        proof {
            assert(rule.keys() =~= outputs.keys().take(i + 1));
        }
        i += 1;
    }
    proof {
        assert(outputs.keys().take(n as int) =~= outputs.keys());
    }
    rule
}

/// Takes the input of `port` out of the inputs of a firing. A firing that
/// has no input on that port answers `MissingInput`.
pub fn take_input(inputs: &mut Keyed<DataMessage>, port: &str) -> (r: Result<DataMessage, FlowError>)
    ensures
        match r {
            Ok(message) => {
                &&& old(inputs)@.contains_key(port@)
                &&& message == old(inputs)@[port@]
                &&& final(inputs)@ == old(inputs)@.remove(port@)
            },
            Err(e) => {
                &&& !old(inputs)@.contains_key(port@)
                &&& e is MissingInput
                &&& final(inputs)@ == old(inputs)@
            },
        },
{
    match inputs.remove(port) {
        Some(message) => Ok(message),
        None => {
            proof {
                assert(inputs@ =~= old(inputs)@);
            }
            Err(FlowError::MissingInput)
        },
    }
}

/// The tokens once more, for an input rule to look at and to mark: the same
/// ports in the same order, each token like the one it was made from.
pub fn copy_tokens(tokens: &Keyed<Token>) -> (r: Keyed<Token>)
    ensures
        r.keys() == tokens.keys(),
        r.values().len() == tokens.values().len(),
        forall|i: int| 0 <= i < r.values().len() ==> (#[trigger] r.values()[i]).alike(tokens.values()[i]),
{
    let mut copy: Keyed<Token> = Keyed::new();
    let n = tokens.len();
    let mut i: usize = 0;
    while i < n
        invariant
            0 <= i <= n,
            n == tokens.keys().len(),
            tokens.consistent(),
            copy.consistent(),
            copy.keys() == tokens.keys().take(i as int),
            forall|j: int| 0 <= j < i ==> (#[trigger] copy.values()[j]).alike(tokens.values()[j]),
        decreases n - i,
    {
        proof {
            let port = tokens.keys()[i as int];
            if copy@.contains_key(port) {
                assert(copy.keys().to_set().contains(port));
                let j = copy.keys().index_of(port);
                assert(tokens.keys()[j] == tokens.keys()[i as int]);
            }
        }
        copy.insert(tokens.key(i).clone(), tokens.value(i).duplicate());
        proof {
            assert(copy.keys() =~= tokens.keys().take(i + 1));
        }
        i += 1;
    }
    proof {
        assert(tokens.keys().take(n as int) =~= tokens.keys());
    }
    copy
}

/// The action that each token holding a message is marked with: what an
/// input rule has chosen, read off the tokens it was given.
pub fn chosen_actions(tokens: &Keyed<Token>) -> (r: Keyed<Action>)
    ensures
        r@ == chosen(tokens@),
{
    let mut actions: Keyed<Action> = Keyed::new();
    let n = tokens.len();
    let mut i: usize = 0;
    while i < n
        invariant
            0 <= i <= n,
            n == tokens.keys().len(),
            tokens.consistent(),
            forall|port: Seq<char>|
                actions@.contains_key(port) <==> ready_before(
                    tokens.keys(),
                    tokens.values(),
                    i as int,
                    port,
                ),
            forall|j: int|
                0 <= j < i && tokens.values()[j] is Ready ==> actions@[#[trigger] tokens.keys()[j]]
                    == tokens.values()[j]->action,
        decreases n - i,
    {
        let ghost before = actions@;
        match tokens.value(i).action() {
            Some(action) => {
                actions.insert(tokens.key(i).clone(), action);
            },
            None => {},
        }
        proof {
            let keys = tokens.keys();
            let values = tokens.values();
            let next = i + 1;
            assert forall|port: Seq<char>| actions@.contains_key(port) <==> ready_before(
                keys,
                values,
                next,
                port,
            ) by {
                if actions@.contains_key(port) {
                    if before.contains_key(port) {
                        assert(ready_before(keys, values, i as int, port));
                        let j = choose|j: int|
                            0 <= j < i && #[trigger] keys[j] == port && values[j] is Ready;
                        assert(0 <= j < next && keys[j] == port && values[j] is Ready);
                    } else {
                        assert(keys[i as int] == port && values[i as int] is Ready);
                    }
                }
                if ready_before(keys, values, next, port) {
                    let j = choose|j: int|
                        0 <= j < next && #[trigger] keys[j] == port && values[j] is Ready;
                    if j < i {
                        assert(ready_before(keys, values, i as int, port));
                    }
                }
            }
            assert forall|j: int| 0 <= j < next && values[j] is Ready implies actions@[#[trigger] keys[j]]
                == values[j]->action by {
                if j < i {
                    assert(keys[j] != keys[i as int]);
                }
            }
        }
        i += 1;
    }
    proof {
        let keys = tokens.keys();
        let values = tokens.values();
        let wanted = chosen(tokens@);
        assert forall|port: Seq<char>| actions@.contains_key(port) <==> wanted.contains_key(
            port,
        ) by {
            if actions@.contains_key(port) {
                assert(ready_before(keys, values, n as int, port));
                let j = choose|j: int| 0 <= j < n && #[trigger] keys[j] == port && values[j] is Ready;
                assert(keys.to_set().contains(keys[j]));
                assert(tokens@[keys[j]] == values[j]);
            }
            if wanted.contains_key(port) {
                assert(keys.to_set().contains(port));
                let j = keys.index_of(port);
                assert(tokens@[keys[j]] == values[j]);
                assert(0 <= j < n && keys[j] == port && values[j] is Ready);
                assert(ready_before(keys, values, n as int, port));
            }
        }
        assert forall|port: Seq<char>| actions@.contains_key(port) implies actions@[port]
            == wanted[port] by {
            assert(ready_before(keys, values, n as int, port));
            let j = choose|j: int| 0 <= j < n && #[trigger] keys[j] == port && values[j] is Ready;
            assert(tokens@[keys[j]] == values[j]);
            assert(actions@[keys[j]] == values[j]->action);
        }
        assert(actions@ =~= wanted);
    }
    actions
}

/// Gives each ready token named in `actions` the action chosen for it.
pub fn apply_actions(tokens: &mut Keyed<Token>, actions: &Keyed<Action>)
    ensures
        final(tokens)@ == with_actions(old(tokens)@, actions@),
        final(tokens).keys() == old(tokens).keys(),
{
    let n = tokens.len();
    let mut i: usize = 0;
    while i < n
        invariant
            0 <= i <= n,
            n == tokens.keys().len(),
            old(tokens).consistent(),
            tokens.keys() == old(tokens).keys(),
            tokens.values().len() == n,
            tokens.consistent(),
            forall|j: int|
                0 <= j < i ==> tokens.values()[j] == with_actions(old(tokens)@, actions@)[tokens.keys()[j]],
            forall|j: int| i <= j < n ==> tokens.values()[j] == old(tokens).values()[j],
        decreases n - i,
    {
        proof {
            assert(old(tokens).keys().contains(old(tokens).keys()[i as int]));
        }
        match actions.get(tokens.key(i).as_str()) {
            Some(action) => {
                let mut token = tokens.replace(i, Token::Pending);
                token.set_action(*action);
                tokens.replace(i, token);
            },
            None => {},
        }
        i += 1;
    }
    proof {
        let target = with_actions(old(tokens)@, actions@);
        assert forall|port: Seq<char>| tokens@.contains_key(port) implies tokens@[port]
            == target[port] by {
            assert(tokens.keys().to_set().contains(port));
            let j = tokens.keys().index_of(port);
            assert(tokens@[tokens.keys()[j]] == tokens.values()[j]);
        }
        assert(tokens@ =~= target);
    }
}

/// Takes the inputs of a firing out of the tokens: each message that is to
/// be consumed goes to the inputs, each that is to be dropped is discarded,
/// and both leave their token pending. A kept message stays.
pub fn gather(tokens: &mut Keyed<Token>) -> (inputs: Keyed<DataMessage>)
    ensures
        inputs@ == gathered(old(tokens)@),
        final(tokens)@ == after_fire(old(tokens)@),
        final(tokens).keys() == old(tokens).keys(),
{
    let mut inputs: Keyed<DataMessage> = Keyed::new();
    let n = tokens.len();
    let mut i: usize = 0;
    while i < n
        invariant
            0 <= i <= n,
            n == tokens.keys().len(),
            old(tokens).consistent(),
            tokens.keys() == old(tokens).keys(),
            tokens.values().len() == n,
            tokens.consistent(),
            forall|j: int| 0 <= j < i ==> tokens.values()[j] == old(tokens).values()[j].after_fire(),
            forall|j: int| i <= j < n ==> tokens.values()[j] == old(tokens).values()[j],
            forall|port: Seq<char>|
                inputs@.contains_key(port) <==> exists|j: int|
                    0 <= j < i && #[trigger] old(tokens).keys()[j] == port && old(
                        tokens,
                    ).values()[j].consumed(),
            forall|j: int|
                0 <= j < i && old(tokens).values()[j].consumed() ==> inputs@[#[trigger] old(
                    tokens,
                ).keys()[j]] == old(tokens).values()[j]->message,
        decreases n - i,
    {
        let ghost before = inputs@;
        let token = tokens.replace(i, Token::Pending);
        match token {
            Token::Ready { message, action: Action::Consume } => {
                inputs.insert(tokens.key(i).clone(), message);
            },
            Token::Ready { message, action: Action::Keep } => {
                tokens.replace(i, Token::Ready { message, action: Action::Keep });
            },
            _ => {},
        }
        proof {
            let keys = old(tokens).keys();
            let values = old(tokens).values();
            let next = i + 1;
            assert forall|port: Seq<char>| inputs@.contains_key(port) <==> exists|j: int|
                0 <= j < next && #[trigger] keys[j] == port && values[j].consumed() by {
                if inputs@.contains_key(port) {
                    if before.contains_key(port) {
                        let j = choose|j: int|
                            0 <= j < i && #[trigger] keys[j] == port && values[j].consumed();
                        assert(0 <= j < next && keys[j] == port && values[j].consumed());
                    } else {
                        assert(keys[i as int] == port && values[i as int].consumed());
                    }
                }
                if exists|j: int| 0 <= j < next && #[trigger] keys[j] == port && values[j].consumed() {
                    let j = choose|j: int|
                        0 <= j < next && #[trigger] keys[j] == port && values[j].consumed();
                    if j < i {
                        assert(before.contains_key(port));
                    }
                }
            }
            assert forall|j: int| 0 <= j < next && values[j].consumed() implies inputs@[#[trigger] keys[j]]
                == values[j]->message by {
                if j < i {
                    assert(keys[j] != keys[i as int]);
                }
            }
        }
        i += 1;
    }
    proof {
        let keys = old(tokens).keys();
        let values = old(tokens).values();
        let target = after_fire(old(tokens)@);
        assert forall|port: Seq<char>| tokens@.contains_key(port) implies tokens@[port]
            == target[port] by {
            assert(tokens.keys().to_set().contains(port));
            let j = tokens.keys().index_of(port);
            assert(tokens@[tokens.keys()[j]] == tokens.values()[j]);
            assert(old(tokens)@[keys[j]] == values[j]);
        }
        assert(tokens@ =~= target);
        let wanted = gathered(old(tokens)@);
        assert forall|port: Seq<char>| inputs@.contains_key(port) <==> wanted.contains_key(port) by {
            if inputs@.contains_key(port) {
                let j = choose|j: int|
                    0 <= j < n && #[trigger] keys[j] == port && values[j].consumed();
                assert(keys.contains(port));
                assert(old(tokens)@[keys[j]] == values[j]);
            }
            if wanted.contains_key(port) {
                assert(keys.to_set().contains(port));
                let j = keys.index_of(port);
                assert(old(tokens)@[keys[j]] == values[j]);
                assert(0 <= j < n && keys[j] == port && values[j].consumed());
            }
        }
        assert forall|port: Seq<char>| inputs@.contains_key(port) implies inputs@[port]
            == wanted[port] by {
            let j = choose|j: int| 0 <= j < n && #[trigger] keys[j] == port && values[j].consumed();
            assert(old(tokens)@[keys[j]] == values[j]);
            assert(inputs@[keys[j]] == values[j]->message);
        }
        assert(inputs@ =~= wanted);
    }
    inputs
}

/// Discards each message that is to be dropped and leaves its token
/// pending. The other tokens stay as they are.
pub fn discard_dropped(tokens: &mut Keyed<Token>)
    ensures
        final(tokens)@ == after_skip(old(tokens)@),
        final(tokens).keys() == old(tokens).keys(),
{
    let n = tokens.len();
    let mut i: usize = 0;
    while i < n
        invariant
            0 <= i <= n,
            n == tokens.keys().len(),
            old(tokens).consistent(),
            tokens.keys() == old(tokens).keys(),
            tokens.values().len() == n,
            tokens.consistent(),
            forall|j: int| 0 <= j < i ==> tokens.values()[j] == old(tokens).values()[j].after_skip(),
            forall|j: int| i <= j < n ==> tokens.values()[j] == old(tokens).values()[j],
        decreases n - i,
    {
        let dropped = match tokens.value(i).action() {
            Some(Action::Drop) => true,
            _ => false,
        };
        if dropped {
            tokens.replace(i, Token::Pending);
        }
        i += 1;
    }
    proof {
        let keys = old(tokens).keys();
        let values = old(tokens).values();
        let target = after_skip(old(tokens)@);
        assert forall|port: Seq<char>| tokens@.contains_key(port) implies tokens@[port]
            == target[port] by {
            assert(tokens.keys().to_set().contains(port));
            let j = tokens.keys().index_of(port);
            assert(tokens@[tokens.keys()[j]] == tokens.values()[j]);
            assert(old(tokens)@[keys[j]] == values[j]);
        }
        assert(tokens@ =~= target);
    }
}

/// Those of `links` that are not among `gone`, in their order.
pub fn remaining(links: &Vec<usize>, gone: &Vec<usize>) -> (r: Vec<usize>)
    ensures
        r@ == without(links@, gone@),
{
    let mut kept: Vec<usize> = Vec::new();
    let mut i: usize = 0;
    while i < links.len()
        invariant
            0 <= i <= links.len(),
            kept@ == without(links@.take(i as int), gone@),
        decreases links.len() - i,
    {
        proof {
            assert(links@.take(i + 1).drop_last() =~= links@.take(i as int));
        }
        let mut found = false;
        let mut k: usize = 0;
        while k < gone.len()
            invariant
                0 <= k <= gone.len(),
                i < links.len(),
                found <==> exists|j: int| 0 <= j < k && gone@[j] == links@[i as int],
            decreases gone.len() - k,
        {
            if gone[k] == links[i] {
                found = true;
            }
            k += 1;
        }
        proof {
            if gone@.contains(links@[i as int]) {
                let j = gone@.index_of(links@[i as int]);
                assert(0 <= j < k && gone@[j] == links@[i as int]);
            }
        }
        if !found {
            kept.push(links[i]);
        }
        i += 1;
    }
    proof {
        assert(links@.take(i as int) =~= links@);
    }
    kept
}

/// Takes the links in `gone` away from every port.
pub fn shrink(fanout: &mut Keyed<Vec<usize>>, gone: &Vec<usize>)
    ensures
        link_lists(final(fanout)@) == shrunk(link_lists(old(fanout)@), gone@),
        final(fanout).keys() == old(fanout).keys(),
{
    let n = fanout.len();
    let mut i: usize = 0;
    while i < n
        invariant
            0 <= i <= n,
            n == fanout.keys().len(),
            old(fanout).consistent(),
            fanout.keys() == old(fanout).keys(),
            fanout.values().len() == n,
            fanout.consistent(),
            forall|j: int|
                0 <= j < i ==> (#[trigger] fanout.values()[j])@ == without(
                    old(fanout).values()[j]@,
                    gone@,
                ),
            forall|j: int| i <= j < n ==> fanout.values()[j] == old(fanout).values()[j],
        decreases n - i,
    {
        let kept = remaining(fanout.value(i), gone);
        fanout.replace(i, kept);
        i += 1;
    }
    proof {
        let keys = old(fanout).keys();
        let target = shrunk(link_lists(old(fanout)@), gone@);
        assert forall|port: Seq<char>| link_lists(fanout@).contains_key(port) implies link_lists(
            fanout@,
        )[port] == target[port] by {
            assert(fanout.keys().to_set().contains(port));
            let j = fanout.keys().index_of(port);
            assert(fanout@[fanout.keys()[j]] == fanout.values()[j]);
            assert(old(fanout)@[keys[j]] == old(fanout).values()[j]);
        }
        assert(link_lists(fanout@) =~= target);
    }
}

/// Whether some port has a link.
pub fn is_connected(fanout: &Keyed<Vec<usize>>) -> (r: bool)
    ensures
        r == connected(link_lists(fanout@)),
{
    let n = fanout.len();
    let mut i: usize = 0;
    while i < n
        invariant
            0 <= i <= n,
            n == fanout.keys().len(),
            fanout.consistent(),
            forall|j: int| 0 <= j < i ==> (#[trigger] fanout.values()[j])@.len() == 0,
        decreases n - i,
    {
        if fanout.value(i).len() > 0 {
            proof {
                let port = fanout.keys()[i as int];
                assert(fanout.keys().to_set().contains(port));
                assert(link_lists(fanout@).contains_key(port) && link_lists(fanout@)[port].len()
                    > 0);
            }
            return true;
        }
        i += 1;
    }
    proof {
        assert forall|port: Seq<char>| link_lists(fanout@).contains_key(port) implies !((
        #[trigger] link_lists(fanout@)[port]).len() > 0) by {
            assert(fanout.keys().to_set().contains(port));
            let j = fanout.keys().index_of(port);
            assert(fanout@[fanout.keys()[j]] == fanout.values()[j]);
        }
    }
    false
}

/// Throws away what the tokens hold and leaves them all pending.
pub fn flush(tokens: &mut Keyed<Token>)
    ensures
        final(tokens)@ == flushed(old(tokens)@),
        final(tokens).keys() == old(tokens).keys(),
{
    let n = tokens.len();
    let mut i: usize = 0;
    while i < n
        invariant
            0 <= i <= n,
            n == tokens.keys().len(),
            old(tokens).consistent(),
            tokens.keys() == old(tokens).keys(),
            tokens.values().len() == n,
            tokens.consistent(),
            forall|j: int| 0 <= j < i ==> tokens.values()[j] == Token::Pending,
        decreases n - i,
    {
        tokens.replace(i, Token::Pending);
        i += 1;
    }
    proof {
        let target = flushed(old(tokens)@);
        assert forall|port: Seq<char>| tokens@.contains_key(port) implies tokens@[port]
            == target[port] by {
            assert(tokens.keys().to_set().contains(port));
            let j = tokens.keys().index_of(port);
            assert(tokens@[tokens.keys()[j]] == tokens.values()[j]);
        }
        assert(tokens@ =~= target);
    }
}

/// The message that carries a copy of `output`, stamped with `timestamp`.
pub fn stamp(output: &NodeOutput, timestamp: u64) -> (r: Message)
    ensures
        r@ == stamped(*output, timestamp),
{
    match output {
        NodeOutput::Data(data) => Message::Data(DataMessage::new(data.duplicate(), timestamp)),
        NodeOutput::Control(control) => Message::Control(*control),
    }
}

/// Makes the messages to send for the outputs of a firing: for each port
/// that the output rule emitted on, one message per link of that port, all
/// stamped with `timestamp`.
pub fn dispatch(outputs: &Keyed<NodeOutput>, fanout: &Keyed<Vec<usize>>, timestamp: u64) -> (messages:
    Vec<(usize, Message)>)
    ensures
        message_views(messages@) == dispatched(
            outputs.keys(),
            outputs.values(),
            link_lists(fanout@),
            timestamp,
        ),
{
    let mut messages: Vec<(usize, Message)> = Vec::new();
    let n = outputs.len();
    let ghost ports = outputs.keys();
    let ghost values = outputs.values();
    let ghost lists = link_lists(fanout@);
    let mut i: usize = 0;
    while i < n
        invariant
            0 <= i <= n,
            n == ports.len(),
            ports == outputs.keys(),
            values == outputs.values(),
            outputs.consistent(),
            lists == link_lists(fanout@),
            message_views(messages@) == dispatched(
                ports.take(i as int),
                values.take(i as int),
                lists,
                timestamp,
            ),
        decreases n - i,
    {
        let ghost done = message_views(messages@);
        let ghost message = stamped(values[i as int], timestamp);
        proof {
            assert(ports.take(i + 1).drop_last() =~= ports.take(i as int));
            assert(values.take(i + 1).drop_last() =~= values.take(i as int));
        }
        match fanout.get(outputs.key(i).as_str()) {
            Some(links) => {
                let mut k: usize = 0;
                while k < links.len()
                    invariant
                        0 <= k <= links.len(),
                        i < n,
                        n == ports.len(),
                        values == outputs.values(),
                        ports == outputs.keys(),
                        outputs.consistent(),
                        message == stamped(values[i as int], timestamp),
                        message_views(messages@) == done + copies(links@.take(k as int), message),
                    decreases links.len() - k,
                {
                    let ghost sent = message_views(messages@);
                    messages.push((links[k], stamp(outputs.value(i), timestamp)));
                    proof {
                        assert(message_views(messages@) =~= sent.push((links@[k as int], message)));
                        assert(copies(links@.take(k + 1), message) =~= copies(
                            links@.take(k as int),
                            message,
                        ).push((links@[k as int], message)));
                        assert(message_views(messages@) =~= done + copies(
                            links@.take(k + 1),
                            message,
                        ));
                    }
                    k += 1;
                }
                proof {
                    assert(links@.take(k as int) =~= links@);
                }
            },
            None => {
                proof {
                    assert(done + copies(Seq::<usize>::empty(), message) =~= done);
                }
            },
        }
        i += 1;
    }
    proof {
        assert(ports.take(n as int) =~= ports);
        assert(values.take(n as int) =~= values);
    }
    messages
}

/// The runner of one operator: the tokens of its input ports, the links of
/// its output ports, and where it stands in its firing cycle.
#[derive(Debug)]
pub struct OperatorRunner {
    tokens: Keyed<Token>,
    fanout: Keyed<Vec<usize>>,
    local_deadline: Option<u64>,
    phase: Phase,
    cancel_requested: bool,
    firing_start: u64,
    watermark: u64,
    control: Option<Control>,
}

impl View for OperatorRunner {
    type V = RunnerView;

    closed spec fn view(&self) -> RunnerView {
        RunnerView {
            tokens: self.tokens@,
            fanout: link_lists(self.fanout@),
            local_deadline: self.local_deadline,
            phase: self.phase,
            cancel_requested: self.cancel_requested,
            firing_start: self.firing_start,
            watermark: self.watermark,
            control: self.control,
        }
    }
}

impl OperatorRunner {
    /// A runner that waits for its first message. It has one pending token
    /// for each of `inputs`; `fanout` names the links that leave each output
    /// port, and `local_deadline` bounds the time of a firing.
    pub fn new(inputs: &Vec<String>, fanout: Keyed<Vec<usize>>, local_deadline: Option<u64>) -> (r:
        Self)
        ensures
            r@ == (RunnerView {
                tokens: Map::new(
                    |port: Seq<char>| exists|i: int| 0 <= i < inputs.len() && inputs[i]@ == port,
                    |port: Seq<char>| Token::Pending,
                ),
                fanout: link_lists(fanout@),
                local_deadline,
                phase: Phase::WaitTokens,
                cancel_requested: false,
                firing_start: 0,
                watermark: 0,
                control: None,
            }),
    {
        let mut tokens: Keyed<Token> = Keyed::new();
        let mut i: usize = 0;
        while i < inputs.len()
            invariant
                0 <= i <= inputs.len(),
                forall|port: Seq<char>|
                    tokens@.contains_key(port) <==> exists|j: int|
                        0 <= j < i && inputs[j]@ == port,
                forall|port: Seq<char>| tokens@.contains_key(port) ==> tokens@[port] is Pending,
            decreases inputs.len() - i,
        {
            let ghost before = tokens@;
            tokens.insert(inputs[i].clone(), Token::Pending);
            proof {
                let next = i + 1;
                assert forall|port: Seq<char>| tokens@.contains_key(port) <==> exists|j: int|
                    0 <= j < next && inputs[j]@ == port by {
                    if tokens@.contains_key(port) {
                        if before.contains_key(port) {
                            let j = choose|j: int| 0 <= j < i && inputs[j]@ == port;
                            assert(0 <= j < next && inputs[j]@ == port);
                        } else {
                            assert(inputs[i as int]@ == port);
                        }
                    }
                    if exists|j: int| 0 <= j < next && inputs[j]@ == port {
                        let j = choose|j: int| 0 <= j < next && inputs[j]@ == port;
                        if j < i {
                            assert(before.contains_key(port));
                        }
                    }
                }
            }
            i += 1;
        }
        let r = OperatorRunner {
            tokens,
            fanout,
            local_deadline,
            phase: Phase::WaitTokens,
            cancel_requested: false,
            firing_start: 0,
            watermark: 0,
            control: None,
        };
        proof {
            assert(r@.tokens =~= Map::new(
                |port: Seq<char>| exists|i: int| 0 <= i < inputs.len() && inputs[i]@ == port,
                |port: Seq<char>| Token::Pending,
            ));
        }
        r
    }

    /// Where the runner stands in its cycle.
    pub fn phase(&self) -> (r: Phase)
        ensures
            r == self@.phase,
    {
        self.phase
    }

    /// The tokens of the input ports.
    pub fn tokens(&self) -> (r: &Keyed<Token>)
        ensures
            r@ == self@.tokens,
    {
        &self.tokens
    }

    /// The ports whose token is pending, each once: those on which the
    /// runner waits for a message.
    pub fn pending_ports(&self) -> (r: Vec<String>)
        ensures
            forall|port: Seq<char>|
                #[trigger] names(r@, port) <==> (self@.tokens.contains_key(port)
                    && self@.tokens[port] is Pending),
            forall|a: int, b: int| 0 <= a < b < r.len() ==> (#[trigger] r[a])@ != (#[trigger] r[b])@,
    {
        let mut ports: Vec<String> = Vec::new();
        let n = self.tokens.len();
        let mut i: usize = 0;
        while i < n
            invariant
                0 <= i <= n,
                n == self.tokens.keys().len(),
                self.tokens.consistent(),
                forall|port: Seq<char>|
                    #[trigger] names(ports@, port) <==> pending_before(
                        self.tokens.keys(),
                        self.tokens.values(),
                        i as int,
                        port,
                    ),
                forall|a: int, b: int|
                    0 <= a < b < ports.len() ==> (#[trigger] ports[a])@ != (#[trigger] ports[b])@,
            decreases n - i,
        {
            let ghost before = ports@;
            proof {
                let port = self.tokens.keys()[i as int];
                if names(before, port) {
                    let j = choose|j: int|
                        0 <= j < i && #[trigger] self.tokens.keys()[j] == port
                            && self.tokens.values()[j] is Pending;
                    assert(self.tokens.keys()[j] == self.tokens.keys()[i as int]);
                }
                assert forall|k: int| 0 <= k < before.len() implies (#[trigger] before[k])@
                    != port by {
                    if before[k]@ == port {
                        assert(names(before, port));
                    }
                }
            }
            let pending = !self.tokens.value(i).is_ready();
            if pending {
                ports.push(self.tokens.key(i).clone());
            }
            proof {
                let keys = self.tokens.keys();
                let values = self.tokens.values();
                let next = i + 1;
                assert forall|port: Seq<char>| #[trigger]
                    names(ports@, port) <==> pending_before(keys, values, next, port) by {
                    if names(ports@, port) {
                        let k = choose|k: int| 0 <= k < ports.len() && (#[trigger] ports[k])@ == port;
                        if k < before.len() {
                            assert(before[k]@ == port);
                            assert(names(before, port));
                            assert(pending_before(keys, values, i as int, port));
                            let j = choose|j: int|
                                0 <= j < i && #[trigger] keys[j] == port && values[j] is Pending;
                            assert(0 <= j < next && keys[j] == port && values[j] is Pending);
                        } else {
                            assert(keys[i as int] == port && values[i as int] is Pending);
                        }
                    }
                    if pending_before(keys, values, next, port) {
                        let j = choose|j: int|
                            0 <= j < next && #[trigger] keys[j] == port && values[j] is Pending;
                        if j < i {
                            assert(pending_before(keys, values, i as int, port));
                            assert(names(before, port));
                            let k = choose|k: int|
                                0 <= k < before.len() && (#[trigger] before[k])@ == port;
                            assert(ports[k]@ == port);
                        } else {
                            assert(ports[ports.len() - 1]@ == port);
                        }
                    }
                }
            }
            i += 1;
        }
        proof {
            let keys = self.tokens.keys();
            let values = self.tokens.values();
            assert forall|port: Seq<char>| #[trigger]
                names(ports@, port) <==> (self@.tokens.contains_key(port)
                    && self@.tokens[port] is Pending) by {
                if names(ports@, port) {
                    assert(pending_before(keys, values, n as int, port));
                    let j = choose|j: int|
                        0 <= j < n && #[trigger] keys[j] == port && values[j] is Pending;
                    assert(keys.to_set().contains(keys[j]));
                    assert(self.tokens@[keys[j]] == values[j]);
                }
                if self@.tokens.contains_key(port) && self@.tokens[port] is Pending {
                    assert(keys.to_set().contains(port));
                    let j = keys.index_of(port);
                    assert(self.tokens@[keys[j]] == values[j]);
                    assert(0 <= j < n && keys[j] == port && values[j] is Pending);
                    assert(pending_before(keys, values, n as int, port));
                }
            }
        }
        ports
    }

    /// The latest watermark seen on an input.
    pub fn watermark(&self) -> (r: u64)
        ensures
            r == self@.watermark,
    {
        self.watermark
    }

    /// The last control signal seen on an input.
    pub fn control(&self) -> (r: Option<Control>)
        ensures
            r == self@.control,
    {
        self.control
    }

    /// Whether `event` fits the phase of the runner.
    pub fn accepts(&self, event: &Event) -> (r: bool)
        ensures
            r == self@.accepts(*event),
    {
        match event {
            Event::Arrived { port, message } => {
                if !matches!(self.phase, Phase::WaitTokens) {
                    return false;
                }
                match message {
                    Message::Data(_) => match self.tokens.get(port.as_str()) {
                        Some(token) => !token.is_ready(),
                        None => false,
                    },
                    _ => true,
                }
            },
            Event::Closed { .. } => matches!(self.phase, Phase::WaitTokens),
            Event::Evaluated { .. } => matches!(self.phase, Phase::Evaluate),
            Event::Ran { .. } => matches!(self.phase, Phase::Run),
            Event::Emitted { .. } => matches!(self.phase, Phase::OutputRule),
            Event::Dispatched { .. } => matches!(self.phase, Phase::Dispatch),
            Event::Failed { .. } => self.is_busy(),
            Event::Cancel => !self.has_ended(),
            Event::Kill => !self.has_ended(),
        }
    }

    /// Whether a callback of the node is in progress.
    pub fn is_busy(&self) -> (r: bool)
        ensures
            r == self@.busy(),
    {
        matches!(self.phase, Phase::Evaluate | Phase::Run | Phase::OutputRule)
    }

    /// Whether the runner has come to its end.
    pub fn has_ended(&self) -> (r: bool)
        ensures
            r == self@.ended(),
    {
        matches!(self.phase, Phase::Stopped | Phase::Killed)
    }

    fn stop(&mut self) -> (r: Command)
        ensures
            (final(self)@, r@) == old(self)@.stop(),
    {
        self.phase = Phase::Stopped;
        Command::Finalize
    }

    fn resume(&mut self) -> (r: Command)
        ensures
            (final(self)@, r@) == old(self)@.resume(),
    {
        if any_pending(&self.tokens) {
            self.phase = Phase::WaitTokens;
            Command::Wait
        } else {
            self.phase = Phase::Evaluate;
            Command::Evaluate
        }
    }

    /// Takes one event and answers with the command to perform next.
    pub fn step(&mut self, event: Event) -> (r: Command)
        ensures
            (final(self)@, r@) == old(self)@.step(event),
    {
        if !self.accepts(&event) {
            return Command::OutOfTurn { event };
        }
        let unwinds = self.is_busy() && self.cancel_requested && match &event {
            Event::Cancel => false,
            Event::Kill => false,
            _ => true,
        };
        if unwinds {
            return self.stop();
        }
        match event {
            Event::Arrived { port, message } => match message {
                Message::Data(data) => {
                    match self.tokens.position(port.as_str()) {
                        Some(i) => {
                            self.tokens.replace(i, Token::ready(data));
                        },
                        None => {
                            proof {
                                assert(self.tokens.keys().to_set().contains(port@));
                            }
                        },
                    }
                    self.phase = Phase::Evaluate;
                    Command::Evaluate
                },
                Message::Watermark(time) => {
                    if time > self.watermark {
                        self.watermark = time;
                    }
                    Command::Wait
                },
                Message::Control(control) => {
                    self.control = Some(control);
                    Command::Wait
                },
            },
            Event::Closed { .. } => {
                flush(&mut self.tokens);
                self.stop()
            },
            Event::Evaluated { fire, actions, now } => {
                apply_actions(&mut self.tokens, &actions);
                if fire {
                    let inputs = gather(&mut self.tokens);
                    self.phase = Phase::Run;
                    self.firing_start = now;
                    Command::Run { inputs }
                } else {
                    discard_dropped(&mut self.tokens);
                    self.resume()
                }
            },
            Event::Ran { outputs, now } => {
                let deadline_miss = check_deadline(self.local_deadline, self.firing_start, now);
                self.phase = Phase::OutputRule;
                Command::OutputRule { outputs, deadline_miss }
            },
            Event::Emitted { outputs, timestamp } => {
                let messages = dispatch(&outputs, &self.fanout, timestamp);
                self.phase = Phase::Dispatch;
                Command::Send { messages }
            },
            Event::Dispatched { disconnected } => {
                let was_connected = is_connected(&self.fanout);
                shrink(&mut self.fanout, &disconnected);
                if was_connected && !is_connected(&self.fanout) {
                    self.stop()
                } else {
                    self.resume()
                }
            },
            Event::Failed { error } => {
                let missing = match &error {
                    FlowError::MissingInput => true,
                    _ => false,
                };
                if missing && matches!(self.phase, Phase::Run) {
                    self.resume()
                } else {
                    self.phase = Phase::Faulted;
                    Command::Fault { error }
                }
            },
            Event::Cancel => {
                if self.is_busy() {
                    self.cancel_requested = true;
                    Command::Continue
                } else {
                    self.stop()
                }
            },
            Event::Kill => {
                self.phase = Phase::Killed;
                Command::Halt
            },
        }
    }
}

} // verus!
