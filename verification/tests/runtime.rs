use zenoh_flow::dataflow::{Dataflow, InputDescriptor, OutputDescriptor, PortDescriptor};
use zenoh_flow::error::FlowError;
use zenoh_flow::instance::{links_leaving, Instance, Status};
use zenoh_flow::keyed::Keyed;
use zenoh_flow::link::{Delivery, Link};
use zenoh_flow::message::{Control, Data, DataMessage, Message, NodeOutput};
use zenoh_flow::operator::{
    check_deadline, default_input_rule, default_output_rule, dispatch, take_input, Command, Event,
    LocalDeadlineMiss, OperatorRunner, Phase,
};
use zenoh_flow::sink::{SinkCommand, SinkEvent, SinkPhase, SinkRunner};
use zenoh_flow::source::{SourceCommand, SourceEvent, SourcePhase, SourceRunner};
use zenoh_flow::token::{Action, Token};

static SOURCE: &str = "Source";
static DESTINATION: &str = "Counter";

fn number(n: usize) -> Data {
    Data::new("usize".to_string(), (n as u64).to_le_bytes().to_vec())
}

fn value(data: &Data) -> usize {
    let bytes = data.try_get("usize").unwrap();
    let mut raw = [0u8; 8];
    raw.copy_from_slice(bytes);
    u64::from_le_bytes(raw) as usize
}

fn port(id: &str, ty: &str) -> PortDescriptor {
    PortDescriptor { port_id: id.to_string(), port_type: ty.to_string() }
}

fn out(node: &str, output: &str) -> OutputDescriptor {
    OutputDescriptor { node: node.to_string(), output: output.to_string() }
}

fn inp(node: &str, input: &str) -> InputDescriptor {
    InputDescriptor { node: node.to_string(), input: input.to_string() }
}

fn send_all(queues: &mut Vec<Link<Message>>, messages: Vec<(usize, Message)>) -> Vec<usize> {
    let mut disconnected = Vec::new();
    for (link, message) in messages {
        match queues[link].send(message) {
            Ok(Delivery::Queued) => {},
            Ok(_) => panic!("link {} is full", link),
            Err(FlowError::PortDisconnected) => disconnected.push(link),
            Err(e) => panic!("unexpected error {:?}", e),
        }
    }
    disconnected
}

fn one_port(port: &str, links: Vec<usize>) -> Keyed<Vec<usize>> {
    let mut fanout = Keyed::new();
    fanout.insert(port.to_string(), links);
    fanout
}

fn no_actions() -> Keyed<Action> {
    Keyed::new()
}

/// One operator with one input `Source` and one output `Counter` on link 0.
fn small_operator(local_deadline: Option<u64>) -> OperatorRunner {
    OperatorRunner::new(&vec![SOURCE.to_string()], one_port(DESTINATION, vec![0]), local_deadline)
}

fn arrive(runner: &mut OperatorRunner, port: &str, n: usize, timestamp: u64) -> Command {
    runner.step(Event::Arrived {
        port: port.to_string(),
        message: Message::Data(DataMessage::new(number(n), timestamp)),
    })
}

/// Drives source -> operator -> sink over the values that the source
/// emits, with `rule` as the operator's input rule, and returns what the
/// sink was given together with each deadline report.
fn run_pipeline(
    emitted: Vec<usize>,
    local_deadline: Option<u64>,
    run_takes: u64,
    rule: fn(&Keyed<Token>) -> (bool, Keyed<Action>),
) -> (Vec<usize>, Vec<Option<LocalDeadlineMiss>>, Instance<()>) {
    let mut dataflow: Dataflow<()> = Dataflow::new();
    dataflow.add_static_source(SOURCE.to_string(), port(SOURCE, "int"), ()).unwrap();
    dataflow.add_static_sink("generic-sink".to_string(), port(DESTINATION, "int"), ()).unwrap();
    dataflow
        .add_static_operator(
            "noop".to_string(),
            vec![port(SOURCE, "int")],
            vec![port(DESTINATION, "int")],
            local_deadline,
            (),
        )
        .unwrap();
    dataflow.add_link(out(SOURCE, SOURCE), inp("noop", SOURCE), None, None, None).unwrap();
    dataflow
        .add_link(out("noop", DESTINATION), inp("generic-sink", DESTINATION), None, None, None)
        .unwrap();

    let mut instance = Instance::try_instantiate(dataflow).unwrap();
    let mut queues: Vec<Link<Message>> = instance.make_links();
    let mut source =
        SourceRunner::new(links_leaving(instance.dataflow().links(), SOURCE, SOURCE));
    let mut operator = instance.operator_runner("noop").unwrap();
    let mut sink = SinkRunner::new();
    for id in instance.get_nodes() {
        instance.start_node(&id).unwrap();
    }

    let mut received = Vec::new();
    let mut reports = Vec::new();
    let mut clock: u64 = 0;
    for n in emitted {
        // The source runs and sends.
        clock += 1;
        let messages = match source.step(SourceEvent::Produced { data: number(n), timestamp: clock }) {
            SourceCommand::Send { messages } => messages,
            other => panic!("the source answered {:?}", other),
        };
        let disconnected = send_all(&mut queues, messages);
        assert!(matches!(source.step(SourceEvent::Dispatched { disconnected }), SourceCommand::Run));

        // The operator takes the message and asks its input rule.
        let message = queues[0].recv().unwrap().unwrap();
        let command = operator.step(Event::Arrived { port: SOURCE.to_string(), message });
        assert!(matches!(command, Command::Evaluate));
        let (fire, actions) = rule(operator.tokens());
        clock += 1;
        let start = clock;
        let mut inputs = match operator.step(Event::Evaluated { fire, actions, now: start }) {
            Command::Run { inputs } => inputs,
            Command::Wait => continue,
            other => panic!("the operator answered {:?}", other),
        };

        // The operator's run and output rule.
        let input = take_input(&mut inputs, SOURCE).unwrap();
        let mut outputs = Keyed::new();
        outputs.insert(DESTINATION.to_string(), number(value(input.data())));
        clock += run_takes;
        let (outputs, miss) = match operator.step(Event::Ran { outputs, now: clock }) {
            Command::OutputRule { outputs, deadline_miss } => (outputs, deadline_miss),
            other => panic!("the operator answered {:?}", other),
        };
        reports.push(miss);
        clock += 1;
        let messages = match operator
            .step(Event::Emitted { outputs: default_output_rule(&outputs), timestamp: clock })
        {
            Command::Send { messages } => messages,
            other => panic!("the operator answered {:?}", other),
        };
        let disconnected = send_all(&mut queues, messages);
        assert!(matches!(operator.step(Event::Dispatched { disconnected }), Command::Wait));

        // The sink takes the message.
        let message = queues[1].recv().unwrap().unwrap();
        match sink.step(SinkEvent::Arrived { message }) {
            SinkCommand::Run { message } => {
                assert_eq!(message.timestamp(), clock);
                received.push(value(message.data()));
            },
            other => panic!("the sink answered {:?}", other),
        }
        assert!(matches!(sink.step(SinkEvent::Ran), SinkCommand::Wait));
    }
    assert_eq!(source.phase(), SourcePhase::Run);
    assert_eq!(operator.phase(), Phase::WaitTokens);
    assert_eq!(sink.phase(), SinkPhase::Wait);
    (received, reports, instance)
}

fn drop_odd(tokens: &Keyed<Token>) -> (bool, Keyed<Action>) {
    let mut actions = Keyed::new();
    match tokens.get(SOURCE).unwrap() {
        Token::Ready { message, .. } => {
            if value(message.data()) % 2 != 0 {
                actions.insert(SOURCE.to_string(), Action::Drop);
                (false, actions)
            } else {
                (true, actions)
            }
        },
        Token::Pending => panic!("the input rule was asked without a message"),
    }
}

fn by_default(tokens: &Keyed<Token>) -> (bool, Keyed<Action>) {
    (default_input_rule(tokens), Keyed::new())
}

#[test]
fn action_drop() {
    let (received, _, mut instance) = run_pipeline(vec![1, 2, 3, 4], None, 1, drop_odd);
    // Every value that the sink receives is twice its count of values.
    assert_eq!(received.len(), 2);
    for (count, data) in received.iter().enumerate() {
        assert_eq!((count + 1) * 2, *data);
    }
    assert_eq!(received, vec![2, 4]);
    for id in instance.get_nodes() {
        instance.kill(&id).unwrap();
        assert_eq!(instance.status(&id), Some(Status::Killed));
    }
}

#[test]
fn local_deadline() {
    // The operator takes 1000 per firing; its deadline is 500.
    let (received, reports, mut instance) = run_pipeline(vec![1], Some(500), 1000, by_default);
    assert_eq!(reports.len(), 1);
    assert!(reports[0].is_some(), "Expected `deadline_miss` to be `Some`");
    let miss = reports[0].unwrap();
    assert_eq!(miss.configured, 500);
    assert_eq!(miss.observed, 1000);
    assert_eq!(miss.end - miss.start, 1000);
    assert_eq!(received, vec![1]);
    for id in instance.get_sources() {
        instance.stop_node(&id).unwrap();
    }
    for id in instance.get_operators() {
        instance.stop_node(&id).unwrap();
    }
    for id in instance.get_sinks() {
        instance.stop_node(&id).unwrap();
    }
    for id in instance.get_nodes() {
        assert_eq!(instance.status(&id), Some(Status::Stopped));
    }
}

#[test]
fn firing_within_the_deadline_is_not_reported() {
    let (received, reports, _) = run_pipeline(vec![1, 2], Some(500), 500, by_default);
    assert_eq!(reports, vec![None, None]);
    assert_eq!(received, vec![1, 2]);
    let (_, reports, _) = run_pipeline(vec![1], None, 100_000, by_default);
    assert_eq!(reports, vec![None]);
}

#[test]
fn deadline_check_values() {
    assert_eq!(check_deadline(None, 0, u64::MAX), None);
    assert_eq!(check_deadline(Some(500), 100, 600), None);
    assert_eq!(
        check_deadline(Some(500), 100, 601),
        Some(LocalDeadlineMiss { start: 100, end: 601, configured: 500, observed: 501 })
    );
    // A clock that went back counts as no time taken.
    assert_eq!(check_deadline(Some(0), 600, 100), None);
    assert_eq!(
        check_deadline(Some(0), 5, 6),
        Some(LocalDeadlineMiss { start: 5, end: 6, configured: 0, observed: 1 })
    );
}

#[test]
fn default_rule_waits_for_every_port() {
    let inputs = vec!["a".to_string(), "b".to_string()];
    let mut runner = OperatorRunner::new(&inputs, Keyed::new(), None);
    assert_eq!(runner.pending_ports(), vec!["a", "b"]);
    assert!(!default_input_rule(runner.tokens()));

    assert!(matches!(arrive(&mut runner, "b", 20, 1), Command::Evaluate));
    assert!(!default_input_rule(runner.tokens()));
    let command = runner.step(Event::Evaluated { fire: false, actions: no_actions(), now: 0 });
    assert!(matches!(command, Command::Wait));
    assert_eq!(runner.pending_ports(), vec!["a"]);

    assert!(matches!(arrive(&mut runner, "a", 10, 2), Command::Evaluate));
    assert!(default_input_rule(runner.tokens()));
    let mut inputs = match runner.step(Event::Evaluated { fire: true, actions: no_actions(), now: 3 }) {
        Command::Run { inputs } => inputs,
        other => panic!("the operator answered {:?}", other),
    };
    assert_eq!(inputs.len(), 2);
    assert_eq!(value(take_input(&mut inputs, "a").unwrap().data()), 10);
    assert_eq!(value(take_input(&mut inputs, "b").unwrap().data()), 20);
    assert!(matches!(take_input(&mut inputs, "a"), Err(FlowError::MissingInput)));
    assert_eq!(runner.pending_ports(), vec!["a", "b"]);
    assert_eq!(runner.phase(), Phase::Run);
}

#[test]
fn kept_message_stays_for_the_next_firing() {
    let inputs = vec!["a".to_string(), "b".to_string()];
    let mut runner = OperatorRunner::new(&inputs, Keyed::new(), None);
    arrive(&mut runner, "a", 1, 1);
    runner.step(Event::Evaluated { fire: false, actions: no_actions(), now: 0 });
    arrive(&mut runner, "b", 2, 2);
    let mut actions = Keyed::new();
    actions.insert("a".to_string(), Action::Keep);
    let inputs = match runner.step(Event::Evaluated { fire: true, actions, now: 0 }) {
        Command::Run { inputs } => inputs,
        other => panic!("the operator answered {:?}", other),
    };
    // Only the consumed message is an input; the kept one is still there.
    assert_eq!(inputs.len(), 1);
    assert!(inputs.get("b").is_some());
    assert!(inputs.get("a").is_none());
    match runner.tokens().get("a").unwrap() {
        Token::Ready { message, action } => {
            assert_eq!(value(message.data()), 1);
            assert_eq!(*action, Action::Keep);
        },
        Token::Pending => panic!("the kept message is gone"),
    }
    assert!(!runner.tokens().get("b").unwrap().is_ready());
    assert_eq!(runner.pending_ports(), vec!["b"]);

    // It is still there when the cycle comes round.
    runner.step(Event::Ran { outputs: Keyed::new(), now: 1 });
    runner.step(Event::Emitted { outputs: Keyed::new(), timestamp: 2 });
    assert!(matches!(runner.step(Event::Dispatched { disconnected: vec![] }), Command::Wait));
    assert!(runner.tokens().get("a").unwrap().is_ready());
}

#[test]
fn dropped_message_is_discarded_even_when_firing() {
    let inputs = vec!["a".to_string(), "b".to_string()];
    let mut runner = OperatorRunner::new(&inputs, Keyed::new(), None);
    arrive(&mut runner, "a", 1, 1);
    runner.step(Event::Evaluated { fire: false, actions: no_actions(), now: 0 });
    arrive(&mut runner, "b", 2, 2);
    let mut actions = Keyed::new();
    actions.insert("a".to_string(), Action::Drop);
    let inputs = match runner.step(Event::Evaluated { fire: true, actions, now: 0 }) {
        Command::Run { inputs } => inputs,
        other => panic!("the operator answered {:?}", other),
    };
    assert_eq!(inputs.len(), 1);
    assert!(inputs.get("a").is_none());
    assert!(!runner.tokens().get("a").unwrap().is_ready());
}

#[test]
fn actions_on_other_ports_are_ignored() {
    let mut runner = small_operator(None);
    arrive(&mut runner, SOURCE, 1, 1);
    let mut actions = Keyed::new();
    actions.insert("elsewhere".to_string(), Action::Drop);
    let command = runner.step(Event::Evaluated { fire: false, actions, now: 0 });
    // Nothing is pending, so the rule is asked again at once.
    assert!(matches!(command, Command::Evaluate));
    assert!(runner.tokens().get(SOURCE).unwrap().is_ready());
    assert!(runner.tokens().get("elsewhere").is_none());
}

#[test]
fn events_out_of_turn_are_handed_back() {
    let mut runner = small_operator(None);
    // No callback runs yet.
    assert!(matches!(
        runner.step(Event::Ran { outputs: Keyed::new(), now: 0 }),
        Command::OutOfTurn { event: Event::Ran { .. } }
    ));
    assert!(matches!(
        runner.step(Event::Evaluated { fire: true, actions: no_actions(), now: 0 }),
        Command::OutOfTurn { .. }
    ));
    // A message for a port that the operator does not have.
    assert!(matches!(arrive(&mut runner, "elsewhere", 1, 1), Command::OutOfTurn { .. }));
    assert!(matches!(arrive(&mut runner, SOURCE, 1, 1), Command::Evaluate));
    // The input rule runs: no message is taken now.
    match arrive(&mut runner, SOURCE, 2, 2) {
        Command::OutOfTurn { event: Event::Arrived { message: Message::Data(m), .. } } => {
            assert_eq!(value(m.data()), 2)
        },
        other => panic!("the operator answered {:?}", other),
    }
    assert_eq!(runner.phase(), Phase::Evaluate);
}

#[test]
fn stop_between_phases_finalizes_once() {
    let mut runner = small_operator(None);
    assert!(matches!(runner.step(Event::Cancel), Command::Finalize));
    assert_eq!(runner.phase(), Phase::Stopped);
    assert!(matches!(runner.step(Event::Cancel), Command::OutOfTurn { .. }));
    assert!(matches!(runner.step(Event::Kill), Command::OutOfTurn { .. }));
    assert!(matches!(arrive(&mut runner, SOURCE, 1, 1), Command::OutOfTurn { .. }));
    assert_eq!(runner.phase(), Phase::Stopped);
}

#[test]
fn stop_during_run_waits_for_its_return() {
    let mut runner = small_operator(None);
    arrive(&mut runner, SOURCE, 1, 1);
    runner.step(Event::Evaluated { fire: true, actions: no_actions(), now: 0 });
    assert_eq!(runner.phase(), Phase::Run);
    assert!(matches!(runner.step(Event::Cancel), Command::Continue));
    assert_eq!(runner.phase(), Phase::Run);
    assert!(matches!(runner.step(Event::Cancel), Command::Continue));
    // `run` returns: nothing is handed to the output rule any more.
    assert!(matches!(
        runner.step(Event::Ran { outputs: Keyed::new(), now: 5 }),
        Command::Finalize
    ));
    assert_eq!(runner.phase(), Phase::Stopped);
}

#[test]
fn graceful_stop_finalizes_each_node_once_in_order() {
    let mut source = SourceRunner::new(vec![0]);
    let mut operator = small_operator(None);
    let mut sink = SinkRunner::new();
    let mut finalized = Vec::new();

    // The source is in `run` when it is asked to stop.
    assert!(matches!(source.step(SourceEvent::Cancel), SourceCommand::Continue));
    if let SourceCommand::Finalize =
        source.step(SourceEvent::Produced { data: number(1), timestamp: 1 })
    {
        finalized.push("source");
    }
    if let Command::Finalize = operator.step(Event::Cancel) {
        finalized.push("operator");
    }
    if let SinkCommand::Finalize = sink.step(SinkEvent::Cancel) {
        finalized.push("sink");
    }
    // Asking again changes nothing.
    assert!(matches!(source.step(SourceEvent::Cancel), SourceCommand::OutOfTurn { .. }));
    assert!(matches!(operator.step(Event::Cancel), Command::OutOfTurn { .. }));
    assert!(matches!(sink.step(SinkEvent::Cancel), SinkCommand::OutOfTurn { .. }));
    assert_eq!(finalized, vec!["source", "operator", "sink"]);
    assert_eq!(source.phase(), SourcePhase::Stopped);
    assert_eq!(sink.phase(), SinkPhase::Stopped);
}

#[test]
fn kill_does_not_finalize() {
    let mut source = SourceRunner::new(vec![0]);
    let mut operator = small_operator(None);
    let mut sink = SinkRunner::new();
    arrive(&mut operator, SOURCE, 1, 1);
    let mut finalized = 0;
    for halted in [
        matches!(source.step(SourceEvent::Kill), SourceCommand::Halt),
        matches!(operator.step(Event::Kill), Command::Halt),
        matches!(sink.step(SinkEvent::Kill), SinkCommand::Halt),
    ] {
        assert!(halted);
    }
    if let SourceCommand::Finalize = source.step(SourceEvent::Cancel) {
        finalized += 1;
    }
    if let Command::Finalize = operator.step(Event::Cancel) {
        finalized += 1;
    }
    if let SinkCommand::Finalize = sink.step(SinkEvent::Cancel) {
        finalized += 1;
    }
    assert_eq!(finalized, 0);
    assert_eq!(source.phase(), SourcePhase::Killed);
    assert_eq!(operator.phase(), Phase::Killed);
    assert_eq!(sink.phase(), SinkPhase::Killed);
}

#[test]
fn fan_out_gives_each_sink_every_message() {
    let mut queues: Vec<Link<Message>> = vec![
        Link::new(None, zenoh_flow::link::Policy::Block).unwrap(),
        Link::new(None, zenoh_flow::link::Policy::Block).unwrap(),
    ];
    let mut source = SourceRunner::new(vec![0, 1]);
    for n in [1usize, 2, 3] {
        let messages =
            match source.step(SourceEvent::Produced { data: number(n), timestamp: n as u64 }) {
                SourceCommand::Send { messages } => messages,
                other => panic!("the source answered {:?}", other),
            };
        assert_eq!(messages.len(), 2);
        let disconnected = send_all(&mut queues, messages);
        assert!(matches!(source.step(SourceEvent::Dispatched { disconnected }), SourceCommand::Run));
    }
    let mut total = 0;
    for queue in queues.iter_mut() {
        let mut sink = SinkRunner::new();
        let mut seen = Vec::new();
        while let Some(message) = queue.recv().unwrap() {
            match sink.step(SinkEvent::Arrived { message }) {
                SinkCommand::Run { message } => seen.push(value(message.data())),
                other => panic!("the sink answered {:?}", other),
            }
            sink.step(SinkEvent::Ran);
            total += 1;
        }
        assert_eq!(seen, vec![1, 2, 3]);
    }
    assert_eq!(total, 6);
}

#[test]
fn dispatch_copies_each_output_to_each_link() {
    let mut fanout = Keyed::new();
    fanout.insert("left".to_string(), vec![3usize, 1]);
    fanout.insert("right".to_string(), vec![2usize]);
    fanout.insert("unused".to_string(), vec![]);
    let mut outputs = Keyed::new();
    outputs.insert("right".to_string(), NodeOutput::Data(number(7)));
    outputs.insert("nowhere".to_string(), NodeOutput::Data(number(8)));
    outputs.insert("left".to_string(), NodeOutput::Control(Control::EndOfStream));
    let messages = dispatch(&outputs, &fanout, 99);
    assert_eq!(messages.len(), 3);
    assert_eq!(messages[0].0, 2);
    match &messages[0].1 {
        Message::Data(m) => {
            assert_eq!(value(m.data()), 7);
            assert_eq!(m.timestamp(), 99);
        },
        other => panic!("unexpected message {:?}", other),
    }
    assert_eq!(messages[1].0, 3);
    assert_eq!(messages[2].0, 1);
    assert!(matches!(messages[1].1, Message::Control(Control::EndOfStream)));
    assert!(matches!(messages[2].1, Message::Control(Control::EndOfStream)));
}

#[test]
fn default_output_rule_forwards_data() {
    let mut outputs = Keyed::new();
    outputs.insert("a".to_string(), number(1));
    outputs.insert("b".to_string(), number(2));
    let rule = default_output_rule(&outputs);
    assert_eq!(rule.len(), 2);
    assert_eq!(rule.key(0), "a");
    assert_eq!(rule.key(1), "b");
    match rule.get("b").unwrap() {
        NodeOutput::Data(d) => assert_eq!(value(d), 2),
        other => panic!("unexpected output {:?}", other),
    }
}

#[test]
fn failed_callback_faults_the_runner() {
    let mut runner = small_operator(None);
    arrive(&mut runner, SOURCE, 1, 1);
    match runner.step(Event::Failed { error: FlowError::UserError("boom".to_string()) }) {
        Command::Fault { error: FlowError::UserError(reason) } => assert_eq!(reason, "boom"),
        other => panic!("the operator answered {:?}", other),
    }
    assert_eq!(runner.phase(), Phase::Faulted);
    assert!(matches!(arrive(&mut runner, SOURCE, 2, 2), Command::OutOfTurn { .. }));
    assert!(matches!(runner.step(Event::Cancel), Command::Finalize));
}

#[test]
fn missing_input_ends_the_cycle_not_the_runner() {
    let mut runner = small_operator(None);
    arrive(&mut runner, SOURCE, 1, 1);
    runner.step(Event::Evaluated { fire: true, actions: no_actions(), now: 0 });
    let command = runner.step(Event::Failed { error: FlowError::MissingInput });
    assert!(matches!(command, Command::Wait));
    assert_eq!(runner.phase(), Phase::WaitTokens);
    // While the input rule runs, the same error is a fault.
    arrive(&mut runner, SOURCE, 2, 2);
    assert!(matches!(
        runner.step(Event::Failed { error: FlowError::MissingInput }),
        Command::Fault { .. }
    ));
}

#[test]
fn watermarks_and_controls_are_noted() {
    let mut runner = small_operator(None);
    let wm = |t| Event::Arrived { port: SOURCE.to_string(), message: Message::Watermark(t) };
    assert!(matches!(runner.step(wm(5)), Command::Wait));
    assert!(matches!(runner.step(wm(3)), Command::Wait));
    assert_eq!(runner.watermark(), 5);
    assert_eq!(runner.control(), None);
    let command = runner.step(Event::Arrived {
        port: SOURCE.to_string(),
        message: Message::Control(Control::Cancel),
    });
    assert!(matches!(command, Command::Wait));
    assert_eq!(runner.control(), Some(Control::Cancel));

    let mut sink = SinkRunner::new();
    assert!(matches!(sink.step(SinkEvent::Arrived { message: Message::Watermark(8) }), SinkCommand::Wait));
    assert!(matches!(
        sink.step(SinkEvent::Arrived { message: Message::Control(Control::EndOfStream) }),
        SinkCommand::Wait
    ));
    assert_eq!(sink.watermark(), 8);
    assert_eq!(sink.control(), Some(Control::EndOfStream));
    assert_eq!(sink.phase(), SinkPhase::Wait);
}

#[test]
fn end_of_stream_stops_the_receiver() {
    let inputs = vec!["a".to_string(), "b".to_string()];
    let mut runner = OperatorRunner::new(&inputs, Keyed::new(), None);
    arrive(&mut runner, "a", 1, 1);
    runner.step(Event::Evaluated { fire: false, actions: no_actions(), now: 0 });
    assert!(matches!(runner.step(Event::Closed { port: "b".to_string() }), Command::Finalize));
    assert_eq!(runner.phase(), Phase::Stopped);
    assert!(!runner.tokens().get("a").unwrap().is_ready());

    let mut sink = SinkRunner::new();
    assert!(matches!(sink.step(SinkEvent::Closed), SinkCommand::Finalize));
    assert_eq!(sink.phase(), SinkPhase::Stopped);
}

#[test]
fn disconnected_links_shrink_the_fan_out() {
    let mut fanout = Keyed::new();
    fanout.insert("x".to_string(), vec![0usize, 1]);
    fanout.insert("y".to_string(), vec![2usize]);
    let mut runner = OperatorRunner::new(&vec![SOURCE.to_string()], fanout, None);
    let cycle = |runner: &mut OperatorRunner, disconnected: Vec<usize>| {
        arrive(runner, SOURCE, 1, 1);
        runner.step(Event::Evaluated { fire: true, actions: Keyed::new(), now: 0 });
        runner.step(Event::Ran { outputs: Keyed::new(), now: 1 });
        let mut outputs = Keyed::new();
        outputs.insert("x".to_string(), NodeOutput::Data(number(1)));
        outputs.insert("y".to_string(), NodeOutput::Data(number(2)));
        let links: Vec<usize> = match runner.step(Event::Emitted { outputs, timestamp: 2 }) {
            Command::Send { messages } => messages.iter().map(|(link, _)| *link).collect(),
            other => panic!("the operator answered {:?}", other),
        };
        (links, runner.step(Event::Dispatched { disconnected }))
    };
    let (links, command) = cycle(&mut runner, vec![1]);
    assert_eq!(links, vec![0, 1, 2]);
    assert!(matches!(command, Command::Wait));
    let (links, command) = cycle(&mut runner, vec![2, 7]);
    assert_eq!(links, vec![0, 2]);
    assert!(matches!(command, Command::Wait));
    // The last link goes: the operator drains.
    let (links, command) = cycle(&mut runner, vec![0]);
    assert_eq!(links, vec![0]);
    assert!(matches!(command, Command::Finalize));
    assert_eq!(runner.phase(), Phase::Stopped);
}

#[test]
fn source_without_receivers_drains() {
    let mut source = SourceRunner::new(vec![4]);
    source.step(SourceEvent::Produced { data: number(1), timestamp: 1 });
    assert!(matches!(
        source.step(SourceEvent::Dispatched { disconnected: vec![4] }),
        SourceCommand::Finalize
    ));
    // A source that never had a link goes on.
    let mut source = SourceRunner::new(vec![]);
    match source.step(SourceEvent::Produced { data: number(1), timestamp: 1 }) {
        SourceCommand::Send { messages } => assert!(messages.is_empty()),
        other => panic!("the source answered {:?}", other),
    }
    assert!(matches!(
        source.step(SourceEvent::Dispatched { disconnected: vec![] }),
        SourceCommand::Run
    ));
}

#[test]
fn failed_source_and_sink_are_faulted() {
    let mut source = SourceRunner::new(vec![0]);
    assert!(matches!(
        source.step(SourceEvent::Failed { error: FlowError::DeserializationError }),
        SourceCommand::Fault { error: FlowError::DeserializationError }
    ));
    assert_eq!(source.phase(), SourcePhase::Faulted);
    assert!(matches!(
        source.step(SourceEvent::Produced { data: number(1), timestamp: 1 }),
        SourceCommand::OutOfTurn { .. }
    ));
    assert!(matches!(source.step(SourceEvent::Cancel), SourceCommand::Finalize));

    let mut sink = SinkRunner::new();
    assert!(matches!(sink.step(SinkEvent::Ran), SinkCommand::OutOfTurn { .. }));
    sink.step(SinkEvent::Arrived { message: Message::Data(DataMessage::new(number(1), 1)) });
    assert_eq!(sink.phase(), SinkPhase::Run);
    assert!(matches!(sink.step(SinkEvent::Cancel), SinkCommand::Continue));
    assert!(matches!(
        sink.step(SinkEvent::Failed { error: FlowError::TypeMismatch }),
        SinkCommand::Finalize
    ));
}
