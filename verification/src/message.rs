//! What travels on a link: data with the type it claims and the time it was
//! sent, watermarks and control signals.

use crate::error::FlowError;
use vstd::prelude::*;

verus! {

/// A payload as specifications see it.
pub struct DataView {
    /// The name of the type that the bytes encode.
    pub type_tag: Seq<char>,
    /// The encoded value.
    pub bytes: Seq<u8>,
}

/// A payload: an encoded value together with the name of its type. Once made
/// it cannot be changed.
#[derive(Debug)]
pub struct Data {
    type_tag: String,
    bytes: Vec<u8>,
}

impl View for Data {
    type V = DataView;

    closed spec fn view(&self) -> DataView {
        DataView { type_tag: self.type_tag@, bytes: self.bytes@ }
    }
}

impl Data {
    /// A payload of the type named `type_tag`.
    pub fn new(type_tag: String, bytes: Vec<u8>) -> (r: Self)
        ensures
            r@ == (DataView { type_tag: type_tag@, bytes: bytes@ }),
    {
        Data { type_tag, bytes }
    }

    /// The name of the type that the payload holds.
    pub fn type_tag(&self) -> (r: &String)
        ensures
            r@ == self@.type_tag,
    {
        &self.type_tag
    }

    /// The encoded value, if the payload holds the type named `type_tag`;
    /// else `TypeMismatch`.
    pub fn try_get(&self, type_tag: &str) -> (r: Result<&Vec<u8>, FlowError>)
        ensures
            match r {
                Ok(bytes) => self@.type_tag == type_tag@ && bytes@ == self@.bytes,
                Err(e) => self@.type_tag != type_tag@ && e is TypeMismatch,
            },
    {
        if self.type_tag == type_tag.to_owned() {
            Ok(&self.bytes)
        } else {
            Err(FlowError::TypeMismatch)
        }
    }

    /// A second payload with the same type and bytes.
    pub fn duplicate(&self) -> (r: Self)
        ensures
            r@ == self@,
    {
        let r = Data { type_tag: self.type_tag.clone(), bytes: self.bytes.clone() };
        assert(r.bytes@ =~= self.bytes@);
        r
    }
}

/// A data message as specifications see it.
pub struct DataMessageView {
    pub data: DataView,
    pub timestamp: u64,
}

/// A payload and the time at which it was sent.
#[derive(Debug)]
pub struct DataMessage {
    data: Data,
    timestamp: u64,
}

impl View for DataMessage {
    type V = DataMessageView;

    closed spec fn view(&self) -> DataMessageView {
        DataMessageView { data: self.data@, timestamp: self.timestamp }
    }
}

impl DataMessage {
    /// The message that carries `data`, sent at `timestamp`.
    pub fn new(data: Data, timestamp: u64) -> (r: Self)
        ensures
            r@ == (DataMessageView { data: data@, timestamp }),
    {
        DataMessage { data, timestamp }
    }

    /// The payload.
    pub fn data(&self) -> (r: &Data)
        ensures
            r@ == self@.data,
    {
        &self.data
    }

    /// The time at which the message was sent.
    pub fn timestamp(&self) -> (r: u64)
        ensures
            r == self@.timestamp,
    {
        self.timestamp
    }

    /// The payload, taken out of the message.
    pub fn into_data(self) -> (r: Data)
        ensures
            r@ == self@.data,
    {
        self.data
    }

    /// A second message with the same payload and time.
    pub fn duplicate(&self) -> (r: Self)
        ensures
            r@ == self@,
    {
        DataMessage { data: self.data.duplicate(), timestamp: self.timestamp }
    }
}

/// A signal that travels in place of data.
#[derive(Clone, Copy, Debug, PartialEq, Eq, Structural)]
pub enum Control {
    /// The receiver is asked to stop.
    Cancel,
    /// Nothing will follow on this link.
    EndOfStream,
}

/// A message as specifications see it.
pub enum MessageView {
    Data(DataMessageView),
    Watermark(u64),
    Control(Control),
}

/// What a link carries.
#[derive(Debug)]
pub enum Message {
    /// A payload with the time at which it was sent.
    Data(DataMessage),
    /// No data older than this time will follow.
    Watermark(u64),
    /// A control signal.
    Control(Control),
}

impl View for Message {
    type V = MessageView;

    open spec fn view(&self) -> MessageView {
        match self {
            Message::Data(m) => MessageView::Data(m@),
            Message::Watermark(t) => MessageView::Watermark(*t),
            Message::Control(c) => MessageView::Control(*c),
        }
    }
}

impl Message {
    /// A second message with the same contents.
    pub fn duplicate(&self) -> (r: Self)
        ensures
            r@ == self@,
    {
        match self {
            Message::Data(m) => Message::Data(m.duplicate()),
            Message::Watermark(t) => Message::Watermark(*t),
            Message::Control(c) => Message::Control(*c),
        }
    }
}

/// What a node hands to its output rule, and what the rule hands on.
#[derive(Debug)]
pub enum NodeOutput {
    /// A payload to be sent.
    Data(Data),
    /// A control signal to be sent.
    Control(Control),
}

/// A node output as specifications see it.
pub enum NodeOutputView {
    Data(DataView),
    Control(Control),
}

impl View for NodeOutput {
    type V = NodeOutputView;

    open spec fn view(&self) -> NodeOutputView {
        match self {
            NodeOutput::Data(d) => NodeOutputView::Data(d@),
            NodeOutput::Control(c) => NodeOutputView::Control(*c),
        }
    }
}

} // verus!
