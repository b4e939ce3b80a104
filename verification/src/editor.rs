//! The graph editor: the aggregate that owns the graph and the catalog
//! of node descriptions, and applies discrete edit events to them.
//!
//! Edits that would break a graph invariant are surfaced as rejected
//! outcomes, never as partial mutations. Connecting is two-phase so a
//! drag gesture can get live feedback: `NodeEvent::TrySnap` is the pure
//! trial, `NodeEvent::Snap` the commit.
use vstd::prelude::*;

use crate::graph::GraphError;
use crate::graph::IndexGraph;
use crate::graph::NodeDesc;

verus! {

/// Wiring-gesture events against sockets, identified by their socket
/// identities.
#[derive(Debug, Clone, PartialEq, Eq, Structural)]
pub enum NodeEvent {
    /// Trial: would connecting this output to this input be accepted?
    TrySnap(usize, usize),
    /// A gesture began on this socket.
    ConnectSockets(usize),
    /// The gesture's loose end is over an input.
    ConnectInput,
    /// The gesture's loose end is over an output.
    ConnectOutput,
    /// Commit: connect this output to this input.
    Snap(usize, usize),
    /// A gesture is in flight.
    Connecting,
    /// Clear the incoming connection of an input socket.
    Disconnect,
}

/// Catalog and instantiation events.
#[derive(Debug)]
pub enum AppEvent {
    /// Register a node description in the catalog.
    AddNode(NodeDesc),
    /// Instantiate a node from the named description.
    InsertNode(String),
}

/// The first catalog entry with this name.
pub open spec fn find_desc(s: Seq<NodeDesc>, name: Seq<char>) -> Option<int>
    decreases s.len(),
{
    if s.len() == 0 {
        None
    } else if s[0].name@ == name {
        Some(0int)
    } else {
        match find_desc(s.drop_first(), name) {
            Some(j) => Some(j + 1),
            None => None,
        }
    }
}

/// Where everything lives: the graph and the registered node
/// descriptions. The graph is mutated only through this type's
/// operations, which keep it well-formed.
pub struct NodeApp {
    pub graph: IndexGraph,
    pub node_descriptions: Vec<NodeDesc>,
}

impl NodeApp {
    /// An empty editor: no nodes, no catalog entries.
    pub fn new() -> (a: NodeApp)
        ensures
            a.graph@.wf(),
            a.graph@.nodes.len() == 0,
            a.node_descriptions@.len() == 0,
    {
        NodeApp { graph: IndexGraph::new(), node_descriptions: Vec::new() }
    }

    /// The catalog index registered under `name`, if any.
    fn find_desc_exec(&self, name: &String) -> (r: Option<usize>)
        ensures
            match find_desc(self.node_descriptions@, name@) {
                Some(j) => r is Some && r->0 as int == j && 0 <= j
                    < self.node_descriptions@.len(),
                None => r is None,
            },
    {
        let mut i: usize = 0;
        while i < self.node_descriptions.len()
            invariant
                i <= self.node_descriptions@.len(),
                forall|j: int| 0 <= j < i ==> self.node_descriptions@[j].name@ != name@,
            decreases self.node_descriptions@.len() - i,
        {
            if self.node_descriptions[i].name == *name {
                proof {
                    lemma_find_desc_first(self.node_descriptions@, name@, i as int);
                }
                return Some(i);
            }
            i += 1;
        }
        proof {
            lemma_find_desc_none(self.node_descriptions@, name@);
        }
        None
    }

    /// Apply a catalog or instantiation event. `AddNode` registers the
    /// description: a fresh name is appended, and re-registering a name
    /// replaces its entry in place, so later instantiations see the new
    /// description. `InsertNode` instantiates the named description in
    /// the graph — a fresh live node with one fresh, unconnected socket
    /// per declared input and output, everything else untouched — and
    /// answers the fresh node identity, or does nothing if the name is
    /// not registered.
    pub fn on_event(&mut self, event: AppEvent) -> (r: Option<usize>)
        requires
            old(self).graph@.wf(),
        ensures
            final(self).graph@.wf(),
            match event {
                AppEvent::AddNode(desc) => {
                    &&& final(self).graph@ == old(self).graph@
                    &&& final(self).node_descriptions@ == (match find_desc(
                        old(self).node_descriptions@,
                        desc.name@,
                    ) {
                        Some(j) => old(self).node_descriptions@.update(j, desc),
                        None => old(self).node_descriptions@.push(desc),
                    })
                    &&& r is None
                },
                AppEvent::InsertNode(name) => {
                    &&& final(self).node_descriptions@ == old(self).node_descriptions@
                    &&& match find_desc(old(self).node_descriptions@, name@) {
                        Some(j) => {
                            let d = old(self).node_descriptions@[j];
                            let go = old(self).graph@;
                            let gf = final(self).graph@;
                            let id = go.nodes.len() as int;
                            &&& r == Some(go.nodes.len() as usize)
                            &&& gf.nodes.len() == id + 1
                            &&& gf.nodes[id].alive
                            &&& gf.nodes[id].name == d.name@
                            &&& gf.nodes[id].inputs.len() == d.inputs@.len()
                            &&& gf.nodes[id].outputs.len() == d.outputs@.len()
                            &&& gf.sockets.len() == go.sockets.len() + d.inputs@.len()
                                + d.outputs@.len()
                            &&& forall|n: int| 0 <= n < id ==> gf.nodes[n] == go.nodes[n]
                            &&& forall|t: int|
                                0 <= t < go.sockets.len() ==> gf.sockets[t] == go.sockets[t]
                                    && gf.incoming[t] == go.incoming[t]
                            &&& forall|t: int|
                                go.sockets.len() <= t < gf.sockets.len() ==> (
                                #[trigger] gf.incoming[t]) is None && gf.sockets[t].node == id
                            &&& forall|a: int, b: int| gf.edge(a, b) <==> go.edge(a, b)
                        },
                        None => {
                            &&& r is None
                            &&& final(self).graph@ == old(self).graph@
                        },
                    }
                },
            },
    {
        match event {
            AppEvent::AddNode(desc) => {
                match self.find_desc_exec(&desc.name) {
                    Some(i) => {
                        proof {
                            let fd = find_desc(old(self).node_descriptions@, desc.name@);
                            assert(fd is Some);
                            assert(i as int == fd->0);
                        }
                        self.node_descriptions.set(i, desc);
                    },
                    None => {
                        self.node_descriptions.push(desc);
                    },
                }
                None
            },
            AppEvent::InsertNode(name) => {
                match self.find_desc_exec(&name) {
                    Some(i) => {
                        proof {
                            let fd = find_desc(old(self).node_descriptions@, name@);
                            assert(fd is Some);
                            assert(i as int == fd->0);
                        }
                        let desc = &self.node_descriptions[i];
                        let id = self.graph.add_node(desc);
                        proof {
                            assert(self.graph@.nodes[id as int].name == old(
                                self,
                            ).node_descriptions@[i as int].name@);
                        }
                        Some(id)
                    },
                    None => None,
                }
            },
        }
    }

    /// Apply a wiring-gesture event. `TrySnap` validates without
    /// committing and answers what a commit would answer; `Snap`
    /// commits; the remaining variants carry no graph meaning and do
    /// nothing. A rejected edit reports its reason and leaves the graph
    /// exactly as it was.
    pub fn on_node_event(&mut self, event: NodeEvent) -> (r: Option<GraphError>)
        requires
            old(self).graph@.wf(),
        ensures
            final(self).graph@.wf(),
            final(self).node_descriptions@ == old(self).node_descriptions@,
            match event {
                NodeEvent::TrySnap(from, to) => final(self).graph@ == old(self).graph@ && r == old(
                    self,
                ).graph@.connect_check(from as int, to as int),
                NodeEvent::Snap(from, to) => {
                    match old(self).graph@.connect_check(from as int, to as int) {
                        Some(e) => r == Some(e) && final(self).graph@ == old(self).graph@,
                        None => r is None && final(self).graph@ == old(
                            self,
                        ).graph@.with_connection(from as int, to as int),
                    }
                },
                _ => final(self).graph@ == old(self).graph@ && r is None,
            },
    {
        match event {
            NodeEvent::TrySnap(from, to) => self.graph.can_connect(from, to),
            NodeEvent::Snap(from, to) => {
                match self.graph.connect(from, to) {
                    Ok(_) => None,
                    Err(e) => Some(e),
                }
            },
            _ => None,
        }
    }

    /// Clear the incoming connection of an input socket; on an
    /// unconnected input this is a no-op and reports nothing.
    pub fn disconnect_input(&mut self, socket: usize)
        requires
            old(self).graph@.wf(),
        ensures
            final(self).graph@.wf(),
            final(self).node_descriptions@ == old(self).node_descriptions@,
            old(self).graph@.socket_in_range(socket as int)
                && old(self).graph@.sockets[socket as int].is_input ==> final(self).graph@ == old(
                self,
            ).graph@.without_connection(socket as int),
            !(old(self).graph@.socket_in_range(socket as int)
                && old(self).graph@.sockets[socket as int].is_input) ==> final(self).graph@ == old(
                self,
            ).graph@,
    {
        self.graph.disconnect(socket);
    }
}

/// If entries `0..i` miss the name and entry `i` carries it, the first
/// match is `i`.
proof fn lemma_find_desc_first(s: Seq<NodeDesc>, name: Seq<char>, i: int)
    requires
        0 <= i < s.len(),
        forall|j: int| 0 <= j < i ==> s[j].name@ != name,
        s[i].name@ == name,
    ensures
        find_desc(s, name) == Some(i),
    decreases i,
{
    if i == 0 {
    } else {
        lemma_find_desc_first(s.drop_first(), name, i - 1);
    }
}

/// If no entry carries the name, there is no first match.
proof fn lemma_find_desc_none(s: Seq<NodeDesc>, name: Seq<char>)
    requires
        forall|j: int| 0 <= j < s.len() ==> s[j].name@ != name,
    ensures
        find_desc(s, name) is None,
    decreases s.len(),
{
    if s.len() > 0 {
        lemma_find_desc_none(s.drop_first(), name);
    }
}

} // verus!
