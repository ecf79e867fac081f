//! What a node is to the runtime: the callbacks that user code provides.
//!
//! The three kinds of node differ in their firing loop, not in what they
//! are: each is initialised once, to a state that only its own runner
//! touches, and finalised once. The runners say when each callback is to be
//! called; the callbacks themselves are the user's.

use crate::context::Context;
use crate::error::FlowError;
use crate::keyed::{text_map, Keyed};
use crate::message::{Data, DataMessage, NodeOutput};
use crate::operator::LocalDeadlineMiss;
use crate::token::Token;
use vstd::prelude::*;

verus! {

/// The configuration of a node: keys and values that the node may read and
/// cannot change.
#[derive(Debug)]
pub struct Configuration {
    entries: Keyed<String>,
}

impl View for Configuration {
    type V = Map<Seq<char>, Seq<char>>;

    closed spec fn view(&self) -> Map<Seq<char>, Seq<char>> {
        text_map(self.entries@)
    }
}

impl Configuration {
    /// The configuration that binds each key of `entries` to its value.
    pub fn new(entries: Keyed<String>) -> (r: Self)
        ensures
            r@ == text_map(entries@),
    {
        Configuration { entries }
    }

    /// The value of `key`, if the configuration has one.
    pub fn get(&self, key: &str) -> (r: Option<&String>)
        ensures
            match r {
                Some(value) => self@.contains_key(key@) && value@ == self@[key@],
                None => !self@.contains_key(key@),
            },
    {
        self.entries.get(key)
    }
}

/// What every node provides.
pub trait Node {
    /// What the node keeps between its callbacks.
    type State;

    /// Makes the state of the node. Called once, before the node runs.
    fn initialize(&self, configuration: &Option<Configuration>) -> Result<Self::State, FlowError>;

    /// Gives up the state of the node. Called once, when the node is
    /// stopped.
    fn finalize(&self, state: &mut Self::State) -> Result<(), FlowError>;
}

/// A node that produces data.
pub trait Source: Node {
    /// Produces the next payload for the node's output port.
    fn run(&self, context: &Context, state: &mut Self::State) -> Result<Data, FlowError>;
}

/// A node that takes data.
pub trait Sink: Node {
    /// Takes one message of the node's input port.
    fn run(&self, context: &Context, state: &mut Self::State, input: DataMessage) -> Result<
        (),
        FlowError,
    >;
}

/// A node that takes data on its input ports and produces data on its
/// output ports.
pub trait Operator: Node {
    /// Decides whether the operator fires on these tokens. It may set the
    /// action of any token.
    fn input_rule(
        &self,
        context: &Context,
        state: &mut Self::State,
        tokens: &mut Keyed<Token>,
    ) -> Result<bool, FlowError>;

    /// Computes the outputs of a firing from its inputs.
    fn run(
        &self,
        context: &Context,
        state: &mut Self::State,
        inputs: &mut Keyed<DataMessage>,
    ) -> Result<Keyed<Data>, FlowError>;

    /// Decides what is sent for the outputs of a firing. A port that it
    /// leaves out sends nothing.
    fn output_rule(
        &self,
        context: &Context,
        state: &mut Self::State,
        outputs: Keyed<Data>,
        deadline_miss: Option<LocalDeadlineMiss>,
    ) -> Result<Keyed<NodeOutput>, FlowError>;
}

} // verus!
