//! A dataflow that is ready to run: its wiring and the life of its nodes.
//!
//! An instance is made from a finished dataflow. It tells which links leave
//! each output port and which link enters each input port, makes the queue
//! of each link and the runner of each operator, and keeps track of which
//! nodes run.

use crate::dataflow::{
    link_views, node_views, Dataflow, DataflowView, LinkDescriptor, LinkDescriptorView, NodeKind,
    NodeRecord, NodeView,
};
use crate::error::FlowError;
use crate::keyed::{texts, Keyed};
use crate::link::{Link, LinkView, Policy, DEFAULT_CAPACITY};
use crate::operator::{link_lists, OperatorRunner, Phase, RunnerView};
use crate::token::Token;
use vstd::prelude::*;

verus! {

/// Where a node stands in its life.
#[derive(Clone, Copy, Debug, PartialEq, Eq, Structural)]
pub enum Status {
    /// The node was never started.
    Created,
    /// The node runs.
    Running,
    /// The node was stopped and finalised.
    Stopped,
    /// The node was killed.
    Killed,
}

/// The links that leave the output port `end`, by their place among the
/// links, in rising order.
pub open spec fn leaving(links: Seq<LinkDescriptorView>, end: (Seq<char>, Seq<char>)) -> Seq<usize>
    decreases links.len(),
{
    if links.len() == 0 {
        Seq::empty()
    } else if links.last().from == end {
        leaving(links.drop_last(), end).push((links.len() - 1) as usize)
    } else {
        leaving(links.drop_last(), end)
    }
}

/// The capacity of the queue made for a link.
pub open spec fn capacity_of(link: LinkDescriptorView) -> nat {
    match link.capacity {
        Some(capacity) => capacity as nat,
        None => DEFAULT_CAPACITY as nat,
    }
}

/// The places of the links that leave the output port `port` of `node`.
pub fn links_leaving(links: &Vec<LinkDescriptor>, node: &str, port: &str) -> (r: Vec<usize>)
    ensures
        r@ == leaving(link_views(links@), (node@, port@)),
{
    let from_node = node.to_owned();
    let from_port = port.to_owned();
    let mut found: Vec<usize> = Vec::new();
    let mut k: usize = 0;
    while k < links.len()
        invariant
            0 <= k <= links.len(),
            from_node@ == node@,
            from_port@ == port@,
            found@ == leaving(link_views(links@).take(k as int), (node@, port@)),
        decreases links.len() - k,
    {
        proof {
            assert(link_views(links@).take(k + 1).drop_last() =~= link_views(links@).take(k as int));
        }
        if links[k].from.node == from_node && links[k].from.output == from_port {
            found.push(k);
        }
        k += 1;
    }
    proof {
        assert(link_views(links@).take(k as int) =~= link_views(links@));
    }
    found
}

/// The place of the link that enters the input port `port` of `node`, if
/// one does; the first such place, should there be several.
pub fn link_entering(links: &Vec<LinkDescriptor>, node: &str, port: &str) -> (r: Option<usize>)
    ensures
        match r {
            Some(k) => {
                &&& k < links.len()
                &&& link_views(links@)[k as int].to == (node@, port@)
                &&& forall|j: int|
                    0 <= j < k ==> (#[trigger] link_views(links@)[j]).to != (node@, port@)
            },
            None => forall|k: int|
                0 <= k < links.len() ==> (#[trigger] link_views(links@)[k]).to != (node@, port@),
        },
{
    let to_node = node.to_owned();
    let to_port = port.to_owned();
    let mut k: usize = 0;
    while k < links.len()
        invariant
            0 <= k <= links.len(),
            to_node@ == node@,
            to_port@ == port@,
            forall|j: int| 0 <= j < k ==> (#[trigger] link_views(links@)[j]).to != (node@, port@),
        decreases links.len() - k,
    {
        if links[k].to.node == to_node && links[k].to.input == to_port {
            return Some(k);
        }
        k += 1;
    }
    None
}

/// Those of `ids` that name a node of the kind `kind`, in their order.
pub open spec fn of_kind<N>(
    ids: Seq<Seq<char>>,
    nodes: Map<Seq<char>, NodeView<N>>,
    kind: NodeKind,
) -> Seq<Seq<char>>
    decreases ids.len(),
{
    if ids.len() == 0 {
        Seq::empty()
    } else if nodes[ids.last()].kind == kind {
        of_kind(ids.drop_last(), nodes, kind).push(ids.last())
    } else {
        of_kind(ids.drop_last(), nodes, kind)
    }
}

/// The identifiers of the nodes of the kind `kind`, in the order in which
/// the nodes were added.
pub fn nodes_of_kind<N>(nodes: &Keyed<NodeRecord<N>>, kind: NodeKind) -> (r: Vec<String>)
    ensures
        texts(r@) == of_kind(nodes.keys(), node_views(nodes@), kind),
{
    let mut found: Vec<String> = Vec::new();
    let n = nodes.len();
    let mut i: usize = 0;
    while i < n
        invariant
            0 <= i <= n,
            n == nodes.keys().len(),
            nodes.consistent(),
            texts(found@) == of_kind(nodes.keys().take(i as int), node_views(nodes@), kind),
        decreases n - i,
    {
        proof {
            assert(nodes.keys().take(i + 1).drop_last() =~= nodes.keys().take(i as int));
            assert(nodes.keys().contains(nodes.keys()[i as int]));
        }
        let ghost before = texts(found@);
        if nodes.value(i).kind() == kind {
            found.push(nodes.key(i).clone());
            proof {
                assert(texts(found@) =~= before.push(nodes.keys()[i as int]));
            }
        }
        i += 1;
    }
    proof {
        assert(nodes.keys().take(n as int) =~= nodes.keys());
    }
    found
}

/// An instance as specifications see it.
pub struct InstanceView<N> {
    /// The dataflow that the instance was made from.
    pub dataflow: DataflowView<N>,
    /// Where each node stands in its life.
    pub status: Map<Seq<char>, Status>,
}

impl<N> InstanceView<N> {
    /// The instance with the node `id` in the state `status`.
    pub open spec fn with_status(self, id: Seq<char>, status: Status) -> Self {
        InstanceView { status: self.status.insert(id, status), ..self }
    }

    /// The links that leave each output port of the node `id`.
    pub open spec fn fanout(self, id: Seq<char>) -> Map<Seq<char>, Seq<usize>> {
        Map::new(
            |port: Seq<char>| self.dataflow.nodes[id].outputs.contains_key(port),
            |port: Seq<char>| leaving(self.dataflow.links, (id, port)),
        )
    }

    /// The runner of the operator `id` before its first event.
    pub open spec fn fresh_runner(self, id: Seq<char>) -> RunnerView {
        RunnerView {
            tokens: Map::new(
                |port: Seq<char>| self.dataflow.nodes[id].inputs.contains_key(port),
                |port: Seq<char>| Token::Pending,
            ),
            fanout: self.fanout(id),
            local_deadline: self.dataflow.nodes[id].local_deadline,
            phase: Phase::WaitTokens,
            cancel_requested: false,
            firing_start: 0,
            watermark: 0,
            control: None,
        }
    }
}

/// A dataflow that is ready to run.
#[derive(Debug)]
pub struct Instance<N> {
    dataflow: Dataflow<N>,
    status: Keyed<Status>,
}

impl<N> View for Instance<N> {
    type V = InstanceView<N>;

    closed spec fn view(&self) -> InstanceView<N> {
        InstanceView { dataflow: self.dataflow@, status: self.status@ }
    }
}

impl<N> Instance<N> {
    /// Makes the instance of a dataflow. No node runs yet. A dataflow that
    /// the builder has accepted can always be instantiated.
    pub fn try_instantiate(dataflow: Dataflow<N>) -> (r: Result<Self, FlowError>)
        ensures
            r matches Ok(instance) && instance@.dataflow == dataflow@ && instance@.status == Map::new(
                |id: Seq<char>| dataflow@.nodes.contains_key(id),
                |id: Seq<char>| Status::Created,
            ),
    {
        let mut status: Keyed<Status> = Keyed::new();
        let nodes = dataflow.nodes();
        let n = nodes.len();
        let mut i: usize = 0;
        while i < n
            invariant
                0 <= i <= n,
                n == nodes.keys().len(),
                nodes.consistent(),
                status.consistent(),
                status.keys() == nodes.keys().take(i as int),
                forall|j: int| 0 <= j < i ==> status.values()[j] == Status::Created,
            decreases n - i,
        {
            proof {
                let id = nodes.keys()[i as int];
                if status@.contains_key(id) {
                    assert(status.keys().to_set().contains(id));
                    let j = status.keys().index_of(id);
                    assert(nodes.keys()[j] == nodes.keys()[i as int]);
                }
            }
            status.insert(nodes.key(i).clone(), Status::Created);
            proof {
                assert(status.keys() =~= nodes.keys().take(i + 1));
            }
            i += 1;
        }
        proof {
            assert(nodes.keys().take(n as int) =~= nodes.keys());
            let wanted = Map::new(
                |id: Seq<char>| dataflow@.nodes.contains_key(id),
                |id: Seq<char>| Status::Created,
            );
            assert forall|id: Seq<char>| status@.contains_key(id) implies status@[id]
                == Status::Created by {
                assert(status.keys().to_set().contains(id));
                let j = status.keys().index_of(id);
                assert(status@[status.keys()[j]] == status.values()[j]);
            }
            assert(status@.dom() =~= wanted.dom());
            assert(status@ =~= wanted);
        }
        Ok(Instance { dataflow, status })
    }

    /// The dataflow that the instance was made from.
    pub fn dataflow(&self) -> (r: &Dataflow<N>)
        ensures
            r@ == self@.dataflow,
    {
        &self.dataflow
    }

    /// Where the node `id` stands in its life, if there is such a node.
    pub fn status(&self, id: &str) -> (r: Option<Status>)
        ensures
            r == if self@.status.contains_key(id@) {
                Some(self@.status[id@])
            } else {
                None
            },
    {
        match self.status.get(id) {
            Some(status) => Some(*status),
            None => None,
        }
    }

    /// The identifiers of all nodes, in the order in which they were added.
    pub fn get_nodes(&self) -> (r: Vec<String>)
        ensures
            texts(r@) == self@.dataflow.ids,
    {
        let nodes = self.dataflow.nodes();
        let mut ids: Vec<String> = Vec::new();
        let n = nodes.len();
        let mut i: usize = 0;
        while i < n
            invariant
                0 <= i <= n,
                n == nodes.keys().len(),
                texts(ids@) == nodes.keys().take(i as int),
            decreases n - i,
        {
            let ghost before = texts(ids@);
            ids.push(nodes.key(i).clone());
            proof {
                assert(texts(ids@) =~= before.push(nodes.keys()[i as int]));
                assert(nodes.keys().take(i + 1) =~= before.push(nodes.keys()[i as int]));
            }
            i += 1;
        }
        proof {
            assert(nodes.keys().take(n as int) =~= nodes.keys());
        }
        ids
    }

    /// The identifiers of the sources, in the order in which they were
    /// added.
    pub fn get_sources(&self) -> (r: Vec<String>)
        ensures
            texts(r@) == of_kind(self@.dataflow.ids, self@.dataflow.nodes, NodeKind::Source),
    {
        nodes_of_kind(self.dataflow.nodes(), NodeKind::Source)
    }

    /// The identifiers of the operators, in the order in which they were
    /// added.
    pub fn get_operators(&self) -> (r: Vec<String>)
        ensures
            texts(r@) == of_kind(self@.dataflow.ids, self@.dataflow.nodes, NodeKind::Operator),
    {
        nodes_of_kind(self.dataflow.nodes(), NodeKind::Operator)
    }

    /// The identifiers of the sinks, in the order in which they were added.
    pub fn get_sinks(&self) -> (r: Vec<String>)
        ensures
            texts(r@) == of_kind(self@.dataflow.ids, self@.dataflow.nodes, NodeKind::Sink),
    {
        nodes_of_kind(self.dataflow.nodes(), NodeKind::Sink)
    }

    /// The links that leave each output port of the node `id`, if there is
    /// such a node.
    pub fn fanout(&self, id: &str) -> (r: Option<Keyed<Vec<usize>>>)
        ensures
            match r {
                Some(fanout) => self@.dataflow.nodes.contains_key(id@) && link_lists(fanout@)
                    == self@.fanout(id@),
                None => !self@.dataflow.nodes.contains_key(id@),
            },
    {
        let record = match self.dataflow.node(id) {
            Some(record) => record,
            None => {
                return None;
            },
        };
        let links = self.dataflow.links();
        let outputs = record.outputs();
        let mut fanout: Keyed<Vec<usize>> = Keyed::new();
        let n = outputs.len();
        let mut i: usize = 0;
        while i < n
            invariant
                0 <= i <= n,
                n == outputs.keys().len(),
                outputs.consistent(),
                link_views(links@) == self@.dataflow.links,
                forall|port: Seq<char>|
                    fanout@.contains_key(port) <==> exists|j: int|
                        0 <= j < i && #[trigger] outputs.keys()[j] == port,
                forall|port: Seq<char>|
                    fanout@.contains_key(port) ==> (#[trigger] fanout@[port])@ == leaving(
                        self@.dataflow.links,
                        (id@, port),
                    ),
            decreases n - i,
        {
            let ghost before = fanout@;
            let leaving_here = links_leaving(links, id, outputs.key(i).as_str());
            fanout.insert(outputs.key(i).clone(), leaving_here);
            proof {
                let next = i + 1;
                let keys = outputs.keys();
                assert forall|port: Seq<char>| fanout@.contains_key(port) <==> exists|j: int|
                    0 <= j < next && #[trigger] keys[j] == port by {
                    if fanout@.contains_key(port) {
                        if before.contains_key(port) {
                            let j = choose|j: int| 0 <= j < i && #[trigger] keys[j] == port;
                            assert(0 <= j < next && keys[j] == port);
                        } else {
                            assert(keys[i as int] == port);
                        }
                    }
                    if exists|j: int| 0 <= j < next && #[trigger] keys[j] == port {
                        let j = choose|j: int| 0 <= j < next && #[trigger] keys[j] == port;
                        if j < i {
                            assert(before.contains_key(port));
                        }
                    }
                }
            }
            i += 1;
        }
        proof {
            let wanted = self@.fanout(id@);
            let keys = outputs.keys();
            assert forall|port: Seq<char>| link_lists(fanout@).contains_key(port)
                <==> wanted.contains_key(port) by {
                if fanout@.contains_key(port) {
                    let j = choose|j: int| 0 <= j < n && #[trigger] keys[j] == port;
                    assert(keys.to_set().contains(keys[j]));
                }
                if wanted.contains_key(port) {
                    assert(keys.to_set().contains(port));
                    let j = keys.index_of(port);
                    assert(0 <= j < n && keys[j] == port);
                }
            }
            assert(link_lists(fanout@) =~= wanted);
        }
        Some(fanout)
    }

    /// The runner of the operator `id` before its first event; `None` if
    /// the instance has no such node or the node is no operator.
    pub fn operator_runner(&self, id: &str) -> (r: Option<OperatorRunner>)
        ensures
            match r {
                Some(runner) => {
                    &&& self@.dataflow.nodes.contains_key(id@)
                    &&& self@.dataflow.nodes[id@].kind is Operator
                    &&& runner@ == self@.fresh_runner(id@)
                },
                None => !(self@.dataflow.nodes.contains_key(id@) && self@.dataflow.nodes[id@].kind
                    is Operator),
            },
    {
        let record = match self.dataflow.node(id) {
            Some(record) => record,
            None => {
                return None;
            },
        };
        match record.kind() {
            NodeKind::Operator => {},
            _ => {
                return None;
            },
        }
        let fanout = match self.fanout(id) {
            Some(fanout) => fanout,
            None => {
                return None;
            },
        };
        let ports = record.inputs();
        let mut inputs: Vec<String> = Vec::new();
        let n = ports.len();
        let mut i: usize = 0;
        while i < n
            invariant
                0 <= i <= n,
                n == ports.keys().len(),
                texts(inputs@) == ports.keys().take(i as int),
            decreases n - i,
        {
            let ghost before = texts(inputs@);
            inputs.push(ports.key(i).clone());
            proof {
                assert(texts(inputs@) =~= before.push(ports.keys()[i as int]));
                assert(ports.keys().take(i + 1) =~= before.push(ports.keys()[i as int]));
            }
            i += 1;
        }
        let runner = OperatorRunner::new(&inputs, fanout, record.local_deadline());
        proof {
            assert(ports.keys().take(n as int) =~= ports.keys());
            let keys = ports.keys();
            assert forall|port: Seq<char>|
                (exists|i: int| 0 <= i < inputs.len() && inputs[i]@ == port)
                    <==> self@.dataflow.nodes[id@].inputs.contains_key(port) by {
                if exists|i: int| 0 <= i < inputs.len() && inputs[i]@ == port {
                    let i = choose|i: int| 0 <= i < inputs.len() && inputs[i]@ == port;
                    assert(texts(inputs@)[i] == port);
                    assert(keys.to_set().contains(keys[i]));
                }
                if self@.dataflow.nodes[id@].inputs.contains_key(port) {
                    assert(keys.to_set().contains(port));
                    let j = keys.index_of(port);
                    assert(texts(inputs@)[j] == port);
                    assert(inputs[j]@ == port);
                }
            }
            assert(runner@.tokens =~= self@.fresh_runner(id@).tokens);
        }
        Some(runner)
    }

    /// Makes the queue of each link, in the order of the links: open,
    /// empty, of the capacity that the link asks for, and blocking when
    /// full.
    pub fn make_links<T>(&self) -> (r: Vec<Link<T>>)
        ensures
            r.len() == self@.dataflow.links.len(),
            forall|k: int|
                0 <= k < r.len() ==> (#[trigger] r[k])@ == LinkView::<T>::empty(
                    capacity_of(self@.dataflow.links[k]),
                    Policy::Block,
                ),
    {
        let links = self.dataflow.links();
        let mut made: Vec<Link<T>> = Vec::new();
        let mut k: usize = 0;
        while k < links.len()
            invariant
                0 <= k <= links.len(),
                made.len() == k,
                self@.dataflow.valid(),
                link_views(links@) == self@.dataflow.links,
                forall|j: int|
                    0 <= j < k ==> (#[trigger] made[j])@ == LinkView::<T>::empty(
                        capacity_of(self@.dataflow.links[j]),
                        Policy::Block,
                    ),
            decreases links.len() - k,
        {
            proof {
                assert(link_views(links@)[k as int] == links[k as int]@);
                assert(self@.dataflow.link_fault_but_duplicate(self@.dataflow.links[k as int])
                    is None);
            }
            match Link::new(links[k].capacity, Policy::Block) {
                Ok(link) => {
                    made.push(link);
                },
                Err(_) => {
                    proof {
                        assert(false);
                    }
                },
            }
            k += 1;
        }
        made
    }

    /// The order in which to stop the nodes so that the dataflow drains:
    /// the sources first, then the operators, then the sinks.
    pub fn stop_order(&self) -> (r: Vec<String>)
        ensures
            texts(r@) == of_kind(self@.dataflow.ids, self@.dataflow.nodes, NodeKind::Source)
                + of_kind(self@.dataflow.ids, self@.dataflow.nodes, NodeKind::Operator) + of_kind(
                self@.dataflow.ids,
                self@.dataflow.nodes,
                NodeKind::Sink,
            ),
    {
        let mut order = self.get_sources();
        let mut operators = self.get_operators();
        let mut sinks = self.get_sinks();
        let ghost first = texts(order@);
        let ghost second = texts(operators@);
        let ghost third = texts(sinks@);
        order.append(&mut operators);
        proof {
            assert(texts(order@) =~= first + second);
        }
        order.append(&mut sinks);
        proof {
            assert(texts(order@) =~= first + second + third);
        }
        order
    }

    /// Starts the node `id`. A node that runs already is not started
    /// again: that is `AlreadyRunning`. A node that the instance does not
    /// have is an `UnknownPort`.
    pub fn start_node(&mut self, id: &str) -> (r: Result<(), FlowError>)
        ensures
            match r {
                Ok(_) => {
                    &&& old(self)@.status.contains_key(id@)
                    &&& old(self)@.status[id@] != Status::Running
                    &&& final(self)@ == old(self)@.with_status(id@, Status::Running)
                },
                Err(e) => {
                    &&& final(self)@ == old(self)@
                    &&& if old(self)@.status.contains_key(id@) {
                        old(self)@.status[id@] == Status::Running && e is AlreadyRunning
                    } else {
                        e is UnknownPort
                    }
                },
            },
    {
        self.transition(id, true, Status::Running)
    }

    /// Stops the node `id`: it is asked to stop, awaited and finalised. A
    /// node that does not run cannot be stopped: that is `NotRunning`. A
    /// node that the instance does not have is an `UnknownPort`.
    pub fn stop_node(&mut self, id: &str) -> (r: Result<(), FlowError>)
        ensures
            match r {
                Ok(_) => {
                    &&& old(self)@.status.contains_key(id@)
                    &&& old(self)@.status[id@] == Status::Running
                    &&& final(self)@ == old(self)@.with_status(id@, Status::Stopped)
                },
                Err(e) => {
                    &&& final(self)@ == old(self)@
                    &&& if old(self)@.status.contains_key(id@) {
                        old(self)@.status[id@] != Status::Running && e is NotRunning
                    } else {
                        e is UnknownPort
                    }
                },
            },
    {
        self.transition(id, false, Status::Stopped)
    }

    /// Kills the node `id`: its task is aborted and the node is not
    /// finalised. A node that does not run cannot be killed: that is
    /// `NotRunning`. A node that the instance does not have is an
    /// `UnknownPort`.
    pub fn kill(&mut self, id: &str) -> (r: Result<(), FlowError>)
        ensures
            match r {
                Ok(_) => {
                    &&& old(self)@.status.contains_key(id@)
                    &&& old(self)@.status[id@] == Status::Running
                    &&& final(self)@ == old(self)@.with_status(id@, Status::Killed)
                },
                Err(e) => {
                    &&& final(self)@ == old(self)@
                    &&& if old(self)@.status.contains_key(id@) {
                        old(self)@.status[id@] != Status::Running && e is NotRunning
                    } else {
                        e is UnknownPort
                    }
                },
            },
    {
        self.transition(id, false, Status::Killed)
    }

    /// Moves the node `id` to `next`, from rest if `starting` and from
    /// running if not.
    fn transition(&mut self, id: &str, starting: bool, next: Status) -> (r: Result<(), FlowError>)
        ensures
            match r {
                Ok(_) => {
                    &&& old(self)@.status.contains_key(id@)
                    &&& (old(self)@.status[id@] == Status::Running) != starting
                    &&& final(self)@ == old(self)@.with_status(id@, next)
                },
                Err(e) => {
                    &&& final(self)@ == old(self)@
                    &&& if old(self)@.status.contains_key(id@) {
                        &&& (old(self)@.status[id@] == Status::Running) == starting
                        &&& if starting {
                            e is AlreadyRunning
                        } else {
                            e is NotRunning
                        }
                    } else {
                        e is UnknownPort
                    }
                },
            },
    {
        match self.status.position(id) {
            None => {
                proof {
                    assert(!self.status.keys().to_set().contains(id@));
                }
                Err(FlowError::UnknownPort)
            },
            Some(i) => {
                proof {
                    assert(self.status.keys().to_set().contains(self.status.keys()[i as int]));
                }
                let running = match self.status.value(i) {
                    Status::Running => true,
                    _ => false,
                };
                if running == starting {
                    if starting {
                        Err(FlowError::AlreadyRunning)
                    } else {
                        Err(FlowError::NotRunning)
                    }
                } else {
                    self.status.replace(i, next);
                    Ok(())
                }
            },
        }
    }
}

} // verus!
