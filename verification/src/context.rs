//! What a runtime shares with its nodes: its name, its identifier and its
//! clock.

use vstd::prelude::*;

verus! {

/// A hybrid logical clock. Its timestamps rise strictly, follow the physical
/// time where that runs ahead, and never fall behind a timestamp that the
/// clock has been shown.
#[derive(Debug)]
pub struct Hlc {
    last: u64,
}

impl View for Hlc {
    type V = u64;

    /// The latest timestamp that the clock gave or was shown.
    closed spec fn view(&self) -> u64 {
        self.last
    }
}

/// The timestamp that follows `last` when the physical time is `now`.
pub open spec fn next_timestamp(last: u64, now: u64) -> int {
    if now > last {
        now as int
    } else {
        last + 1
    }
}

impl Hlc {
    /// A clock that has given no timestamp yet.
    pub fn new() -> (r: Self)
        ensures
            r@ == 0,
    {
        Hlc { last: 0 }
    }

    /// A fresh timestamp, later than every one before: the physical time
    /// `now` if that is later, else the successor of the latest. `None` when
    /// the clock has reached its end; it then stays as it is.
    pub fn new_timestamp(&mut self, now: u64) -> (r: Option<u64>)
        ensures
            match r {
                Some(t) => t == next_timestamp(old(self)@, now) && t > old(self)@ && final(self)@
                    == t,
                None => next_timestamp(old(self)@, now) > u64::MAX && final(self)@ == old(self)@,
            },
    {
        if now > self.last {
            self.last = now;
            Some(now)
        } else if self.last < u64::MAX {
            self.last = self.last + 1;
            Some(self.last)
        } else {
            None
        }
    }

    /// Shows the clock a timestamp met on a message: the clock will not
    /// give an earlier one.
    pub fn update_with_timestamp(&mut self, seen: u64)
        ensures
            final(self)@ == if seen > old(self)@ {
                seen
            } else {
                old(self)@
            },
    {
        if seen > self.last {
            self.last = seen;
        }
    }
}

/// A context as specifications see it.
pub struct ContextView {
    pub runtime_name: Seq<char>,
    pub runtime_uuid: u128,
}

/// What a runtime shares with its nodes. Nodes only read it.
#[derive(Debug)]
pub struct Context {
    runtime_name: String,
    runtime_uuid: u128,
}

impl View for Context {
    type V = ContextView;

    closed spec fn view(&self) -> ContextView {
        ContextView { runtime_name: self.runtime_name@, runtime_uuid: self.runtime_uuid }
    }
}

impl Context {
    /// The context of the runtime named `runtime_name`.
    pub fn new(runtime_name: String, runtime_uuid: u128) -> (r: Self)
        ensures
            r@ == (ContextView { runtime_name: runtime_name@, runtime_uuid }),
    {
        Context { runtime_name, runtime_uuid }
    }

    /// The name of the runtime.
    pub fn runtime_name(&self) -> (r: &String)
        ensures
            r@ == self@.runtime_name,
    {
        &self.runtime_name
    }

    /// The identifier of the runtime.
    pub fn runtime_uuid(&self) -> (r: u128)
        ensures
            r == self@.runtime_uuid,
    {
        self.runtime_uuid
    }

    /// A second context with the same name and identifier, for another
    /// node.
    pub fn duplicate(&self) -> (r: Self)
        ensures
            r@ == self@,
    {
        Context { runtime_name: self.runtime_name.clone(), runtime_uuid: self.runtime_uuid }
    }
}

} // verus!
