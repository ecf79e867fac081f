//! The dataflow under construction: nodes with their ports, and the links
//! between them.
//!
//! Nodes and links are added one at a time, and each addition is checked.
//! No two nodes share an identifier; a link joins an output port to an
//! input port of the same type, both of which exist; an input port has at
//! most one link, while an output port may have many.

use crate::error::FlowError;
use crate::keyed::{text_map, Keyed};
use vstd::prelude::*;

verus! {

/// A port of a node: its identifier and the name of the type it carries.
#[derive(Debug)]
pub struct PortDescriptor {
    pub port_id: String,
    pub port_type: String,
}

/// The three kinds of node.
#[derive(Clone, Copy, Debug, PartialEq, Eq, Structural)]
pub enum NodeKind {
    /// Produces data on one output port.
    Source,
    /// Takes data on its input ports and produces data on its output ports.
    Operator,
    /// Takes data on one input port.
    Sink,
}

/// The output port that a link leaves.
#[derive(Debug)]
pub struct OutputDescriptor {
    pub node: String,
    pub output: String,
}

/// The input port that a link enters.
#[derive(Debug)]
pub struct InputDescriptor {
    pub node: String,
    pub input: String,
}

/// A link of the dataflow.
#[derive(Debug)]
pub struct LinkDescriptor {
    pub from: OutputDescriptor,
    pub to: InputDescriptor,
    /// How many messages may wait on the link; the default if `None`.
    pub capacity: Option<usize>,
    pub priority: Option<u8>,
    pub bandwidth: Option<u64>,
}

/// A link as specifications see it.
pub struct LinkDescriptorView {
    /// The node and the output port that the link leaves.
    pub from: (Seq<char>, Seq<char>),
    /// The node and the input port that the link enters.
    pub to: (Seq<char>, Seq<char>),
    pub capacity: Option<usize>,
    pub priority: Option<u8>,
    pub bandwidth: Option<u64>,
}

impl View for LinkDescriptor {
    type V = LinkDescriptorView;

    open spec fn view(&self) -> LinkDescriptorView {
        LinkDescriptorView {
            from: (self.from.node@, self.from.output@),
            to: (self.to.node@, self.to.input@),
            capacity: self.capacity,
            priority: self.priority,
            bandwidth: self.bandwidth,
        }
    }
}

/// A node of the dataflow: its ports, its deadline if it has one, and the
/// object that the caller attached to it.
#[derive(Debug)]
pub struct NodeRecord<N> {
    kind: NodeKind,
    inputs: Keyed<String>,
    outputs: Keyed<String>,
    local_deadline: Option<u64>,
    node: N,
}

/// A node as specifications see it.
pub struct NodeView<N> {
    pub kind: NodeKind,
    /// The type of each input port.
    pub inputs: Map<Seq<char>, Seq<char>>,
    /// The type of each output port.
    pub outputs: Map<Seq<char>, Seq<char>>,
    pub local_deadline: Option<u64>,
    /// What the caller attached to the node.
    pub node: N,
}

impl<N> View for NodeRecord<N> {
    type V = NodeView<N>;

    closed spec fn view(&self) -> NodeView<N> {
        NodeView {
            kind: self.kind,
            inputs: text_map(self.inputs@),
            outputs: text_map(self.outputs@),
            local_deadline: self.local_deadline,
            node: self.node,
        }
    }
}

impl<N> NodeRecord<N> {
    /// The kind of the node.
    pub fn kind(&self) -> (r: NodeKind)
        ensures
            r == self@.kind,
    {
        self.kind
    }

    /// The input ports with their types.
    pub fn inputs(&self) -> (r: &Keyed<String>)
        ensures
            text_map(r@) == self@.inputs,
    {
        &self.inputs
    }

    /// The output ports with their types.
    pub fn outputs(&self) -> (r: &Keyed<String>)
        ensures
            text_map(r@) == self@.outputs,
    {
        &self.outputs
    }

    /// The deadline of a firing, if the node has one.
    pub fn local_deadline(&self) -> (r: Option<u64>)
        ensures
            r == self@.local_deadline,
    {
        self.local_deadline
    }

    /// What the caller attached to the node.
    pub fn node(&self) -> (r: &N)
        ensures
            *r == self@.node,
    {
        &self.node
    }
}

/// The ports that a list of descriptors declares, each with its type.
pub open spec fn declared(ports: Seq<PortDescriptor>) -> Map<Seq<char>, Seq<char>> {
    Map::new(
        |id: Seq<char>| exists|i: int| 0 <= i < ports.len() && #[trigger] ports[i].port_id@ == id,
        |id: Seq<char>|
            ports[choose|i: int| 0 <= i < ports.len() && #[trigger] ports[i].port_id@ == id].port_type@,
    )
}

/// No two descriptors of the list share a port identifier.
pub open spec fn distinct_ports(ports: Seq<PortDescriptor>) -> bool {
    forall|i: int, j: int|
        0 <= i < j < ports.len() ==> (#[trigger] ports[i]).port_id@ != (#[trigger] ports[j]).port_id@
}

/// Collects port descriptors into a map from identifier to type; `None`
/// where two of them share an identifier.
pub fn collect_ports(ports: Vec<PortDescriptor>) -> (r: Option<Keyed<String>>)
    ensures
        match r {
            Some(map) => distinct_ports(ports@) && text_map(map@) == declared(ports@),
            None => !distinct_ports(ports@),
        },
{
    let mut map: Keyed<String> = Keyed::new();
    let mut i: usize = 0;
    while i < ports.len()
        invariant
            0 <= i <= ports.len(),
            distinct_ports(ports@.take(i as int)),
            text_map(map@) == declared(ports@.take(i as int)),
        decreases ports.len() - i,
    {
        let ghost seen = ports@.take(i as int);
        let ghost more = ports@.take(i + 1);
        if map.contains_key(ports[i].port_id.as_str()) {
            proof {
                let id = ports[i as int].port_id@;
                assert(text_map(map@).contains_key(id));
                assert(declared(seen).contains_key(id));
                let j = choose|j: int| 0 <= j < seen.len() && #[trigger] seen[j].port_id@ == id;
                assert(ports@[j].port_id@ == ports@[i as int].port_id@);
            }
            return None;
        }
        let ghost old_map = map@;
        map.insert(ports[i].port_id.clone(), ports[i].port_type.clone());
        proof {
            assert(!text_map(old_map).contains_key(ports[i as int].port_id@));
            assert(text_map(map@) =~= text_map(old_map).insert(
                ports[i as int].port_id@,
                ports[i as int].port_type@,
            ));
            assert forall|a: int, b: int| 0 <= a < b < more.len() implies (#[trigger] more[a]).port_id@
                != (#[trigger] more[b]).port_id@ by {
                if b < i {
                    assert(seen[a].port_id@ != seen[b].port_id@);
                } else {
                    assert(seen[a].port_id@ == more[a].port_id@);
                }
            }
            assert forall|id: Seq<char>| text_map(map@).contains_key(id) <==> declared(
                more,
            ).contains_key(id) by {
                if declared(seen).contains_key(id) {
                    let j = choose|j: int| 0 <= j < seen.len() && #[trigger] seen[j].port_id@ == id;
                    assert(more[j].port_id@ == id);
                }
                if id == ports[i as int].port_id@ {
                    assert(more[i as int].port_id@ == id);
                }
                if declared(more).contains_key(id) {
                    let j = choose|j: int| 0 <= j < more.len() && #[trigger] more[j].port_id@ == id;
                    if j < i {
                        assert(seen[j].port_id@ == id);
                    }
                }
            }
            assert forall|id: Seq<char>| text_map(map@).contains_key(id) implies text_map(map@)[id]
                == declared(more)[id] by {
                assert(declared(more).contains_key(id));
                let j = choose|j: int| 0 <= j < more.len() && #[trigger] more[j].port_id@ == id;
                if id == ports[i as int].port_id@ {
                    if j < i {
                        assert(more[j].port_id@ != more[i as int].port_id@);
                    }
                } else {
                    assert(declared(seen).contains_key(id));
                    let k = choose|k: int| 0 <= k < seen.len() && #[trigger] seen[k].port_id@ == id;
                    assert(seen[k] == more[k]);
                    if j != k {
                        if j < k {
                            assert(more[j].port_id@ != more[k].port_id@);
                        } else {
                            assert(more[k].port_id@ != more[j].port_id@);
                        }
                    }
                }
            }
            assert(text_map(map@) =~= declared(more));
        }
        i += 1;
    }
    proof {
        assert(ports@.take(i as int) =~= ports@);
    }
    Some(map)
}

/// A dataflow as specifications see it.
pub struct DataflowView<N> {
    /// The nodes by identifier.
    pub nodes: Map<Seq<char>, NodeView<N>>,
    /// The identifiers of the nodes, in the order in which they were added.
    pub ids: Seq<Seq<char>>,
    /// The links, in the order in which they were added.
    pub links: Seq<LinkDescriptorView>,
}

impl<N> DataflowView<N> {
    /// The dataflow without nodes or links.
    pub open spec fn empty() -> Self {
        DataflowView { nodes: Map::empty(), ids: Seq::empty(), links: Seq::empty() }
    }

    /// The node `end.0` has an output port `end.1`.
    pub open spec fn has_output(self, end: (Seq<char>, Seq<char>)) -> bool {
        self.nodes.contains_key(end.0) && self.nodes[end.0].outputs.contains_key(end.1)
    }

    /// The node `end.0` has an input port `end.1`.
    pub open spec fn has_input(self, end: (Seq<char>, Seq<char>)) -> bool {
        self.nodes.contains_key(end.0) && self.nodes[end.0].inputs.contains_key(end.1)
    }

    /// Some link enters the input port `end`.
    pub open spec fn linked(self, end: (Seq<char>, Seq<char>)) -> bool {
        exists|k: int| 0 <= k < self.links.len() && (#[trigger] self.links[k]).to == end
    }

    /// Why `link` cannot be added, if it cannot. An end that does not exist
    /// is reported first, then ports of different types, then an input port
    /// that has a link already, then a capacity of zero.
    pub open spec fn link_fault(self, link: LinkDescriptorView) -> Option<FlowError> {
        if !self.has_output(link.from) || !self.has_input(link.to) {
            Some(FlowError::UnknownPort)
        } else if self.nodes[link.from.0].outputs[link.from.1] != self.nodes[link.to.0].inputs[link.to.1] {
            Some(FlowError::PortTypeMismatch)
        } else if self.linked(link.to) {
            Some(FlowError::DuplicateLink)
        } else if link.capacity == Some(0usize) {
            Some(FlowError::ConfigurationError)
        } else {
            None
        }
    }

    /// The dataflow with one more node.
    pub open spec fn with_node(self, id: Seq<char>, node: NodeView<N>) -> Self {
        DataflowView { nodes: self.nodes.insert(id, node), ids: self.ids.push(id), ..self }
    }

    /// The dataflow with one more link.
    pub open spec fn with_link(self, link: LinkDescriptorView) -> Self {
        DataflowView { links: self.links.push(link), ..self }
    }

    /// What holds of every dataflow: each node is listed once; a source has
    /// no input and a sink no output; every link joins two existing ports
    /// of one type and can hold a message; no input port has two links.
    pub open spec fn valid(self) -> bool {
        &&& self.ids.no_duplicates()
        &&& self.nodes.dom() == self.ids.to_set()
        &&& forall|id: Seq<char>| #[trigger]
            self.nodes.contains_key(id) ==> {
                &&& self.nodes[id].kind is Source ==> self.nodes[id].inputs.dom() == Set::<
                    Seq<char>,
                >::empty()
                &&& self.nodes[id].kind is Sink ==> self.nodes[id].outputs.dom() == Set::<
                    Seq<char>,
                >::empty()
            }
        &&& forall|k: int|
            0 <= k < self.links.len() ==> self.link_fault_but_duplicate(#[trigger] self.links[k])
                is None
        &&& forall|a: int, b: int|
            0 <= a < b < self.links.len() ==> (#[trigger] self.links[a]).to != (
            #[trigger] self.links[b]).to
    }

    /// Why `link` cannot be part of the dataflow, leaving aside the other
    /// links.
    pub open spec fn link_fault_but_duplicate(self, link: LinkDescriptorView) -> Option<FlowError> {
        if !self.has_output(link.from) || !self.has_input(link.to) {
            Some(FlowError::UnknownPort)
        } else if self.nodes[link.from.0].outputs[link.from.1] != self.nodes[link.to.0].inputs[link.to.1] {
            Some(FlowError::PortTypeMismatch)
        } else if link.capacity == Some(0usize) {
            Some(FlowError::ConfigurationError)
        } else {
            None
        }
    }
}

/// The dataflow without nodes or links is valid.
pub proof fn lemma_bare_is_valid<N>()
    ensures
        DataflowView::<N>::empty().valid(),
{
    let bare = DataflowView::<N>::empty();
    assert(bare.nodes.dom() =~= bare.ids.to_set());
}

/// The views of a sequence of links.
pub open spec fn link_views(links: Seq<LinkDescriptor>) -> Seq<LinkDescriptorView> {
    Seq::new(links.len(), |k: int| links[k]@)
}

/// The views of the nodes of a map.
pub open spec fn node_views<N>(nodes: Map<Seq<char>, NodeRecord<N>>) -> Map<Seq<char>, NodeView<N>> {
    Map::new(|id: Seq<char>| nodes.contains_key(id), |id: Seq<char>| nodes[id]@)
}

/// A dataflow under construction.
#[derive(Debug)]
pub struct Dataflow<N> {
    nodes: Keyed<NodeRecord<N>>,
    links: Vec<LinkDescriptor>,
}

impl<N> View for Dataflow<N> {
    type V = DataflowView<N>;

    closed spec fn view(&self) -> DataflowView<N> {
        DataflowView {
            nodes: node_views(self.nodes@),
            ids: self.nodes.keys(),
            links: link_views(self.links@),
        }
    }
}

impl<N> Dataflow<N> {
    #[verifier::type_invariant]
    spec fn well_formed(&self) -> bool {
        self@.valid()
    }

    /// The dataflow without nodes or links.
    pub fn new() -> (r: Self)
        ensures
            r@ == DataflowView::<N>::empty(),
            r@.valid(),
    {
        let nodes: Keyed<NodeRecord<N>> = Keyed::new();
        let links: Vec<LinkDescriptor> = Vec::new();
        proof {
            lemma_bare_is_valid::<N>();
            assert(node_views(nodes@) =~= Map::empty());
            assert(link_views(links@) =~= Seq::empty());
        }
        Dataflow { nodes, links }
    }

    /// The node with identifier `id`, if there is one.
    pub fn node(&self, id: &str) -> (r: Option<&NodeRecord<N>>)
        ensures
            self@.valid(),
            match r {
                Some(record) => self@.nodes.contains_key(id@) && record@ == self@.nodes[id@],
                None => !self@.nodes.contains_key(id@),
            },
    {
        proof {
            use_type_invariant(self);
        }
        self.nodes.get(id)
    }

    /// The nodes, in the order in which they were added.
    pub fn nodes(&self) -> (r: &Keyed<NodeRecord<N>>)
        ensures
            self@.valid(),
            node_views(r@) == self@.nodes,
            r.keys() == self@.ids,
    {
        proof {
            use_type_invariant(self);
        }
        &self.nodes
    }

    /// The links, in the order in which they were added.
    pub fn links(&self) -> (r: &Vec<LinkDescriptor>)
        ensures
            self@.valid(),
            link_views(r@) == self@.links,
    {
        proof {
            use_type_invariant(self);
        }
        &self.links
    }

    fn add_node(&mut self, id: String, record: NodeRecord<N>) -> (r: Result<(), FlowError>)
        requires
            record@.kind is Source ==> record@.inputs.dom() == Set::<Seq<char>>::empty(),
            record@.kind is Sink ==> record@.outputs.dom() == Set::<Seq<char>>::empty(),
        ensures
            final(self)@.valid(),
            old(self)@.nodes.contains_key(id@) ==> r == Err::<(), FlowError>(FlowError::DuplicateNode)
                && final(self)@ == old(self)@,
            !old(self)@.nodes.contains_key(id@) ==> r is Ok && final(self)@ == old(self)@.with_node(
                id@,
                record@,
            ),
    {
        proof {
            use_type_invariant(&*self);
        }
        if self.nodes.contains_key(id.as_str()) {
            return Err(FlowError::DuplicateNode);
        }
        let mut links: Vec<LinkDescriptor> = Vec::new();
        let mut nodes: Keyed<NodeRecord<N>> = Keyed::new();
        proof {
            lemma_bare_is_valid::<N>();
            assert(node_views(nodes@) =~= Map::empty());
            assert(link_views(links@) =~= Seq::empty());
            assert((DataflowView { links: Seq::empty(), ..self@ }).valid());
        }
        std::mem::swap(&mut self.links, &mut links);
        std::mem::swap(&mut self.nodes, &mut nodes);
        nodes.insert(id, record);
        proof {
            let grown = old(self)@.with_node(id@, record@);
            assert(node_views(nodes@) =~= grown.nodes);
            assert(grown.nodes.dom() =~= grown.ids.to_set());
            assert forall|k: int| 0 <= k < grown.links.len() implies grown.link_fault_but_duplicate(
                #[trigger] grown.links[k],
            ) is None by {
                assert(old(self)@.link_fault_but_duplicate(old(self)@.links[k]) is None);
            }
            assert(grown.valid());
            let bare = DataflowView { links: Seq::empty(), ..grown };
            assert(bare.valid());
        }
        self.nodes = nodes;
        self.links = links;
        Ok(())
    }

    /// Adds a source with one output port. A node with the same identifier
    /// may not exist yet.
    pub fn add_static_source(&mut self, id: String, output: PortDescriptor, node: N) -> (r: Result<
        (),
        FlowError,
    >)
        ensures
            final(self)@.valid(),
            old(self)@.nodes.contains_key(id@) ==> r == Err::<(), FlowError>(FlowError::DuplicateNode)
                && final(self)@ == old(self)@,
            !old(self)@.nodes.contains_key(id@) ==> r is Ok && final(self)@ == old(self)@.with_node(
                id@,
                (NodeView {
                    kind: NodeKind::Source,
                    inputs: Map::empty(),
                    outputs: Map::empty().insert(output.port_id@, output.port_type@),
                    local_deadline: None,
                    node,
                }),
            ),
    {
        let inputs: Keyed<String> = Keyed::new();
        let mut outputs: Keyed<String> = Keyed::new();
        outputs.insert(output.port_id, output.port_type);
        let record = NodeRecord { kind: NodeKind::Source, inputs, outputs, local_deadline: None, node };
        proof {
            assert(record@.inputs =~= Map::empty());
            assert(record@.outputs =~= Map::empty().insert(output.port_id@, output.port_type@));
        }
        self.add_node(id, record)
    }

    /// Adds a sink with one input port. A node with the same identifier may
    /// not exist yet.
    pub fn add_static_sink(&mut self, id: String, input: PortDescriptor, node: N) -> (r: Result<
        (),
        FlowError,
    >)
        ensures
            final(self)@.valid(),
            old(self)@.nodes.contains_key(id@) ==> r == Err::<(), FlowError>(FlowError::DuplicateNode)
                && final(self)@ == old(self)@,
            !old(self)@.nodes.contains_key(id@) ==> r is Ok && final(self)@ == old(self)@.with_node(
                id@,
                (NodeView {
                    kind: NodeKind::Sink,
                    inputs: Map::empty().insert(input.port_id@, input.port_type@),
                    outputs: Map::empty(),
                    local_deadline: None,
                    node,
                }),
            ),
    {
        let mut inputs: Keyed<String> = Keyed::new();
        inputs.insert(input.port_id, input.port_type);
        let outputs: Keyed<String> = Keyed::new();
        let record = NodeRecord { kind: NodeKind::Sink, inputs, outputs, local_deadline: None, node };
        proof {
            assert(record@.outputs =~= Map::empty());
            assert(record@.inputs =~= Map::empty().insert(input.port_id@, input.port_type@));
        }
        self.add_node(id, record)
    }

    /// Adds an operator with its input and output ports and, if it has one,
    /// the deadline of its firings. A node with the same identifier may not
    /// exist yet, and no two ports of one direction may share an
    /// identifier: that is a `ConfigurationError`.
    pub fn add_static_operator(
        &mut self,
        id: String,
        inputs: Vec<PortDescriptor>,
        outputs: Vec<PortDescriptor>,
        local_deadline: Option<u64>,
        node: N,
    ) -> (r: Result<(), FlowError>)
        ensures
            final(self)@.valid(),
            old(self)@.nodes.contains_key(id@) ==> r == Err::<(), FlowError>(FlowError::DuplicateNode)
                && final(self)@ == old(self)@,
            !old(self)@.nodes.contains_key(id@) && !(distinct_ports(inputs@) && distinct_ports(
                outputs@,
            )) ==> r == Err::<(), FlowError>(FlowError::ConfigurationError) && final(self)@ == old(
                self,
            )@,
            !old(self)@.nodes.contains_key(id@) && distinct_ports(inputs@) && distinct_ports(outputs@)
                ==> r is Ok && final(self)@ == old(self)@.with_node(
                id@,
                (NodeView {
                    kind: NodeKind::Operator,
                    inputs: declared(inputs@),
                    outputs: declared(outputs@),
                    local_deadline,
                    node,
                }),
            ),
    {
        proof {
            use_type_invariant(&*self);
        }
        if self.nodes.contains_key(id.as_str()) {
            return Err(FlowError::DuplicateNode);
        }
        let inputs = match collect_ports(inputs) {
            Some(map) => map,
            None => {
                return Err(FlowError::ConfigurationError);
            },
        };
        let outputs = match collect_ports(outputs) {
            Some(map) => map,
            None => {
                return Err(FlowError::ConfigurationError);
            },
        };
        let record = NodeRecord { kind: NodeKind::Operator, inputs, outputs, local_deadline, node };
        self.add_node(id, record)
    }
    /// Whether some link enters the input port `to`.
    pub fn is_linked(&self, to: &InputDescriptor) -> (r: bool)
        ensures
            r == self@.linked((to.node@, to.input@)),
    {
        let mut k: usize = 0;
        while k < self.links.len()
            invariant
                0 <= k <= self.links.len(),
                forall|j: int|
                    0 <= j < k ==> (#[trigger] link_views(self.links@)[j]).to != (
                        to.node@,
                        to.input@,
                    ),
            decreases self.links.len() - k,
        {
            if self.links[k].to.node == to.node && self.links[k].to.input == to.input {
                proof {
                    assert(link_views(self.links@)[k as int].to == (to.node@, to.input@));
                }
                return true;
            }
            k += 1;
        }
        false
    }

    /// Adds a link from an output port to an input port. Both must exist
    /// (`UnknownPort`) and carry the same type (`PortTypeMismatch`); the
    /// input port may not have a link yet (`DuplicateLink`); the capacity,
    /// if one is given, may not be zero (`ConfigurationError`).
    pub fn add_link(
        &mut self,
        from: OutputDescriptor,
        to: InputDescriptor,
        capacity: Option<usize>,
        priority: Option<u8>,
        bandwidth: Option<u64>,
    ) -> (r: Result<(), FlowError>)
        ensures
            final(self)@.valid(),
            ({
                let link = (LinkDescriptorView {
                    from: (from.node@, from.output@),
                    to: (to.node@, to.input@),
                    capacity,
                    priority,
                    bandwidth,
                });
                match old(self)@.link_fault(link) {
                    Some(e) => r == Err::<(), FlowError>(e) && final(self)@ == old(self)@,
                    None => r is Ok && final(self)@ == old(self)@.with_link(link),
                }
            }),
    {
        proof {
            use_type_invariant(&*self);
        }
        let same_type = {
            let source = match self.nodes.get(from.node.as_str()) {
                Some(record) => record.outputs.get(from.output.as_str()),
                None => None,
            };
            let target = match self.nodes.get(to.node.as_str()) {
                Some(record) => record.inputs.get(to.input.as_str()),
                None => None,
            };
            match (source, target) {
                (Some(a), Some(b)) => *a == *b,
                _ => {
                    return Err(FlowError::UnknownPort);
                },
            }
        };
        if !same_type {
            return Err(FlowError::PortTypeMismatch);
        }
        if self.is_linked(&to) {
            return Err(FlowError::DuplicateLink);
        }
        if let Some(0) = capacity {
            return Err(FlowError::ConfigurationError);
        }
        let link = LinkDescriptor { from, to, capacity, priority, bandwidth };
        let mut links: Vec<LinkDescriptor> = Vec::new();
        proof {
            assert(link_views(links@) =~= Seq::empty());
            assert((DataflowView { links: Seq::empty(), ..self@ }).valid());
        }
        std::mem::swap(&mut self.links, &mut links);
        links.push(link);
        proof {
            let grown = old(self)@.with_link(link@);
            assert(link_views(links@) =~= grown.links);
            assert forall|k: int| 0 <= k < grown.links.len() implies grown.link_fault_but_duplicate(
                #[trigger] grown.links[k],
            ) is None by {
                if k < old(self)@.links.len() {
                    assert(old(self)@.link_fault_but_duplicate(old(self)@.links[k]) is None);
                }
            }
            assert forall|a: int, b: int| 0 <= a < b < grown.links.len() implies (
            #[trigger] grown.links[a]).to != (#[trigger] grown.links[b]).to by {
                if b < old(self)@.links.len() {
                    assert(old(self)@.links[a].to != old(self)@.links[b].to);
                } else {
                    assert(old(self)@.links[a].to != link@.to);
                }
            }
            assert(grown.valid());
        }
        self.links = links;
        Ok(())
    }
}

} // verus!
