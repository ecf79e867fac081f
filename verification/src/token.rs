//! Firing tokens: what an operator knows of each of its input ports while it
//! decides whether to fire.

use crate::message::DataMessage;
use vstd::prelude::*;

verus! {

/// What becomes of the message of a token once the input rule has spoken.
#[derive(Clone, Copy, Debug, PartialEq, Eq, Structural)]
pub enum Action {
    /// The message is an input of the firing and leaves the port.
    Consume,
    /// The message stays on the port for the next firing.
    Keep,
    /// The message is discarded.
    Drop,
}

/// The state of one input port during a firing attempt.
#[derive(Debug)]
pub enum Token {
    /// No message has arrived on the port.
    Pending,
    /// A message has arrived; `action` says what is to become of it.
    Ready { message: DataMessage, action: Action },
}

impl Token {
    /// The token when the input rule has decided to fire: a consumed or
    /// dropped message leaves the port, a kept one stays.
    pub open spec fn after_fire(self) -> Token {
        match self {
            Token::Ready { action: Action::Keep, .. } => self,
            _ => Token::Pending,
        }
    }

    /// The token when the input rule has decided not to fire: a dropped
    /// message leaves the port, any other stays.
    pub open spec fn after_skip(self) -> Token {
        match self {
            Token::Ready { action: Action::Drop, .. } => Token::Pending,
            _ => self,
        }
    }

    /// Whether the message of the token is an input of a firing.
    pub open spec fn consumed(self) -> bool {
        self matches Token::Ready { action: Action::Consume, .. }
    }

    /// The token with `action` in place of its own, if it is ready.
    pub open spec fn with_action(self, action: Action) -> Token {
        match self {
            Token::Ready { message, .. } => Token::Ready { message, action },
            Token::Pending => Token::Pending,
        }
    }

    /// Both tokens are pending, or both hold a message with the same
    /// contents and the same action.
    pub open spec fn alike(self, other: Token) -> bool {
        match (self, other) {
            (Token::Pending, Token::Pending) => true,
            (
                Token::Ready { message: mine, action: my_action },
                Token::Ready { message: theirs, action: their_action },
            ) => mine@ == theirs@ && my_action == their_action,
            _ => false,
        }
    }

    /// A second token like this one.
    pub fn duplicate(&self) -> (r: Token)
        ensures
            r.alike(*self),
    {
        match self {
            Token::Pending => Token::Pending,
            Token::Ready { message, action } => Token::Ready {
                message: message.duplicate(),
                action: *action,
            },
        }
    }

    /// The token of a port on which `message` has just arrived: ready, to be
    /// consumed.
    pub fn ready(message: DataMessage) -> (r: Token)
        ensures
            r == (Token::Ready { message, action: Action::Consume }),
    {
        Token::Ready { message, action: Action::Consume }
    }

    /// Whether a message has arrived.
    pub fn is_ready(&self) -> (r: bool)
        ensures
            r == (*self is Ready),
    {
        match self {
            Token::Ready { .. } => true,
            Token::Pending => false,
        }
    }

    /// The action of a ready token.
    pub fn action(&self) -> (r: Option<Action>)
        ensures
            r == match *self {
                Token::Ready { action, .. } => Some(action),
                Token::Pending => None,
            },
    {
        match self {
            Token::Ready { action, .. } => Some(*action),
            Token::Pending => None,
        }
    }

    /// The message of a ready token.
    pub fn message(&self) -> (r: Option<&DataMessage>)
        ensures
            r == match *self {
                Token::Ready { message, .. } => Some(&message),
                Token::Pending => None,
            },
    {
        match self {
            Token::Ready { message, .. } => Some(message),
            Token::Pending => None,
        }
    }

    /// Sets the action of a ready token; a pending token stays as it is.
    pub fn set_action(&mut self, action: Action)
        ensures
            *final(self) == old(self).with_action(action),
    {
        match self {
            Token::Ready { action: own, .. } => {
                *own = action;
            },
            Token::Pending => {},
        }
    }

    /// Marks the message as to be consumed.
    pub fn set_action_consume(&mut self)
        ensures
            *final(self) == old(self).with_action(Action::Consume),
    {
        self.set_action(Action::Consume)
    }

    /// Marks the message as to be kept.
    pub fn set_action_keep(&mut self)
        ensures
            *final(self) == old(self).with_action(Action::Keep),
    {
        self.set_action(Action::Keep)
    }

    /// Marks the message as to be dropped.
    pub fn set_action_drop(&mut self)
        ensures
            *final(self) == old(self).with_action(Action::Drop),
    {
        self.set_action(Action::Drop)
    }
}

} // verus!
