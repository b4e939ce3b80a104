//! The graph model: an index-addressed store of nodes, sockets and
//! directed connections from output sockets to input sockets.
//!
//! Nodes and sockets are referenced by small integer identities; every
//! lookup goes through the model's own tables, so the structural
//! invariants (no self-loops, at most one incoming connection per input,
//! acyclic node-to-node dependencies) are stated and checked over plain
//! indices.
use vstd::prelude::*;

verus! {

/// A recoverable failure of a graph edit or query. Edits that fail leave
/// the graph unchanged.
#[derive(Clone, Copy, Debug, PartialEq, Eq, Structural)]
pub enum GraphError {
    /// The requested connection would break a structural invariant:
    /// same-node wiring, an already-occupied destination input, a wrong
    /// socket direction, or a node-to-node cycle.
    InvalidConnection,
    /// A complete dependency order does not exist.
    CyclicGraph,
    /// A socket identity that the model does not know (out of range, or
    /// owned by a removed node).
    UnknownSocket,
    /// A node identity that the model does not know.
    UnknownNode,
}

/// Mathematical image of one socket.
#[verifier::ext_equal]
pub ghost struct SocketModel {
    /// Identity of the owning node.
    pub node: int,
    /// Direction: `true` for an input (consumes a value).
    pub is_input: bool,
    /// The parameter or return name this socket stands for.
    pub label: Seq<char>,
}

/// Mathematical image of one node.
#[verifier::ext_equal]
pub ghost struct NodeModel {
    /// The node description's name; also the callee name at emission.
    pub name: Seq<char>,
    /// Removed nodes keep their slot but are dead.
    pub alive: bool,
    /// Socket identities of the inputs, in description order.
    pub inputs: Seq<int>,
    /// Socket identities of the outputs, in description order.
    pub outputs: Seq<int>,
}

/// Mathematical image of the whole graph.
#[verifier::ext_equal]
pub ghost struct GraphModel {
    pub nodes: Seq<NodeModel>,
    pub sockets: Seq<SocketModel>,
    /// For each socket identity: the source output socket of the one
    /// incoming connection, if the socket is a connected input.
    pub incoming: Seq<Option<int>>,
}

/// An immutable catalog entry: nodes are instances of descriptions.
#[derive(Debug, Clone)]
pub struct NodeDesc {
    pub name: String,
    pub inputs: Vec<String>,
    pub outputs: Vec<String>,
}

/// One socket's stored data.
pub struct SocketInfo {
    pub node: usize,
    pub is_input: bool,
    pub label: String,
}

/// One node's stored data.
pub struct NodeInfo {
    pub name: String,
    pub alive: bool,
    pub inputs: Vec<usize>,
    pub outputs: Vec<usize>,
}

/// The aggregate store. Mutation goes through the editing operations
/// below, which keep `GraphModel::wf` as an invariant.
pub struct IndexGraph {
    pub nodes: Vec<NodeInfo>,
    pub sockets: Vec<SocketInfo>,
    pub incoming: Vec<Option<usize>>,
}

impl View for SocketInfo {
    type V = SocketModel;

    open spec fn view(&self) -> SocketModel {
        SocketModel { node: self.node as int, is_input: self.is_input, label: self.label@ }
    }
}

impl View for NodeInfo {
    type V = NodeModel;

    open spec fn view(&self) -> NodeModel {
        NodeModel {
            name: self.name@,
            alive: self.alive,
            inputs: Seq::new(self.inputs@.len(), |k: int| self.inputs@[k] as int),
            outputs: Seq::new(self.outputs@.len(), |k: int| self.outputs@[k] as int),
        }
    }
}

impl View for IndexGraph {
    type V = GraphModel;

    open spec fn view(&self) -> GraphModel {
        GraphModel {
            nodes: Seq::new(self.nodes@.len(), |n: int| self.nodes@[n]@),
            sockets: Seq::new(self.sockets@.len(), |s: int| self.sockets@[s]@),
            incoming: Seq::new(
                self.incoming@.len(),
                |s: int|
                    match self.incoming@[s] {
                        Some(o) => Some(o as int),
                        None => None,
                    },
            ),
        }
    }
}

impl GraphModel {
    /// `s` is a socket identity the model knows.
    pub open spec fn socket_in_range(self, s: int) -> bool {
        0 <= s < self.sockets.len()
    }

    /// `n` is a node identity the model knows.
    pub open spec fn node_in_range(self, n: int) -> bool {
        0 <= n < self.nodes.len()
    }

    /// Structural well-formedness: every table entry refers back into the
    /// model, node socket lists agree with the sockets' own records, and
    /// every stored connection joins a live output to a live input of a
    /// different node.
    pub open spec fn wf(self) -> bool {
        &&& self.incoming.len() == self.sockets.len()
        &&& forall|s: int|
            self.socket_in_range(s) ==> self.node_in_range(#[trigger] self.sockets[s].node)
        &&& forall|n: int, k: int|
            self.node_in_range(n) && 0 <= k < self.nodes[n].inputs.len() ==> {
                let s = #[trigger] self.nodes[n].inputs[k];
                &&& self.socket_in_range(s)
                &&& self.sockets[s].node == n
                &&& self.sockets[s].is_input
            }
        &&& forall|n: int, k: int|
            self.node_in_range(n) && 0 <= k < self.nodes[n].outputs.len() ==> {
                let s = #[trigger] self.nodes[n].outputs[k];
                &&& self.socket_in_range(s)
                &&& self.sockets[s].node == n
                &&& !self.sockets[s].is_input
            }
        &&& forall|s: int|
            self.socket_in_range(s) && (#[trigger] self.incoming[s]) is Some ==> {
                let o = self.incoming[s]->0;
                &&& self.sockets[s].is_input
                &&& self.socket_in_range(o)
                &&& !self.sockets[o].is_input
                &&& self.sockets[o].node != self.sockets[s].node
                &&& self.nodes[self.sockets[o].node].alive
                &&& self.nodes[self.sockets[s].node].alive
            }
    }

    /// The node-to-node dependency relation induced by the connections:
    /// some connection runs from an output of `a` to an input of `b`.
    pub open spec fn edge(self, a: int, b: int) -> bool {
        exists|s: int|
            {
                &&& self.socket_in_range(s)
                &&& (#[trigger] self.incoming[s]) is Some
                &&& self.sockets[self.incoming[s]->0].node == a
                &&& self.sockets[s].node == b
            }
    }

    /// One pass over the destination sockets `0..j`, in identity order,
    /// adding the destination's node whenever the source's node is
    /// already in the set. The pass is cumulative: later sockets see the
    /// additions of earlier ones.
    pub open spec fn grow_upto(self, acc: Set<int>, j: int) -> Set<int>
        decreases j,
    {
        if j <= 0 {
            acc
        } else {
            let prev = self.grow_upto(acc, j - 1);
            let s = j - 1;
            if self.socket_in_range(s) && self.incoming[s] is Some && prev.contains(
                self.sockets[self.incoming[s]->0].node,
            ) {
                prev.insert(self.sockets[s].node)
            } else {
                prev
            }
        }
    }

    /// One full pass over every destination socket.
    pub open spec fn grow(self, acc: Set<int>) -> Set<int> {
        self.grow_upto(acc, self.incoming.len() as int)
    }

    /// `k` full passes.
    pub open spec fn grow_rounds(self, acc: Set<int>, k: nat) -> Set<int>
        decreases k,
    {
        if k == 0 {
            acc
        } else {
            self.grow(self.grow_rounds(acc, (k - 1) as nat))
        }
    }

    /// The nodes reachable from `a` along the dependency edges, `a`
    /// itself included: as many growing passes as there are nodes, which
    /// reaches the closure because each pass that changes anything adds
    /// at least one of the at most `nodes.len()` node identities.
    pub open spec fn reachable_from(self, a: int) -> Set<int> {
        self.grow_rounds(set![a], self.nodes.len())
    }

    /// Why a `connect(o, i)` request must be refused, or `None` if it is
    /// acceptable. Checks run in this order: both identities must name
    /// live sockets of the right directions; the two sockets must sit on
    /// different nodes; the destination must be free (unless it already
    /// holds exactly this connection); and the new edge must not close a
    /// node-to-node cycle, i.e. the source's node must not already
    /// depend on the destination's node.
    pub open spec fn connect_check(self, o: int, i: int) -> Option<GraphError> {
        if !(self.socket_in_range(o) && self.socket_in_range(i)) {
            Some(GraphError::UnknownSocket)
        } else if !(self.nodes[self.sockets[o].node].alive && self.nodes[self.sockets[i].node].alive) {
            Some(GraphError::UnknownSocket)
        } else if !(!self.sockets[o].is_input && self.sockets[i].is_input) {
            Some(GraphError::InvalidConnection)
        } else if self.sockets[o].node == self.sockets[i].node {
            Some(GraphError::InvalidConnection)
        } else if self.incoming[i] is Some {
            if self.incoming[i]->0 == o {
                None
            } else {
                Some(GraphError::InvalidConnection)
            }
        } else if self.reachable_from(self.sockets[i].node).contains(self.sockets[o].node) {
            Some(GraphError::InvalidConnection)
        } else {
            None
        }
    }

    /// The model after storing the connection `o -> i`.
    pub open spec fn with_connection(self, o: int, i: int) -> GraphModel {
        GraphModel { incoming: self.incoming.update(i, Some(o)), ..self }
    }

    /// The model after clearing the incoming connection of `i`.
    pub open spec fn without_connection(self, i: int) -> GraphModel {
        GraphModel { incoming: self.incoming.update(i, None), ..self }
    }
}

impl IndexGraph {
    /// An empty graph: no nodes, no sockets, no connections.
    pub fn new() -> (g: IndexGraph)
        ensures
            g@.wf(),
            g@.nodes.len() == 0,
            g@.sockets.len() == 0,
    {
        IndexGraph { nodes: Vec::new(), sockets: Vec::new(), incoming: Vec::new() }
    }

    /// Number of node slots (live and removed).
    pub fn num_nodes(&self) -> (n: usize)
        ensures
            n == self@.nodes.len(),
    {
        self.nodes.len()
    }

    /// Number of sockets ever created.
    pub fn num_sockets(&self) -> (n: usize)
        ensures
            n == self@.sockets.len(),
    {
        self.sockets.len()
    }

    /// Instantiate a node from a description: one fresh node slot and one
    /// fresh socket per declared input and output. Returns the new node's
    /// identity. Existing nodes, sockets and connections are untouched,
    /// and the dependency relation is unchanged (fresh sockets are
    /// unconnected).
    pub fn add_node(&mut self, desc: &NodeDesc) -> (id: usize)
        requires
            old(self)@.wf(),
        ensures
            final(self)@.wf(),
            id == old(self)@.nodes.len(),
            final(self)@.nodes.len() == old(self)@.nodes.len() + 1,
            final(self)@.nodes[id as int].alive,
            final(self)@.nodes[id as int].name == desc.name@,
            final(self)@.nodes[id as int].inputs.len() == desc.inputs@.len(),
            final(self)@.nodes[id as int].outputs.len() == desc.outputs@.len(),
            final(self)@.sockets.len() == old(self)@.sockets.len() + desc.inputs@.len()
                + desc.outputs@.len(),
            forall|n: int|
                0 <= n < old(self)@.nodes.len() ==> final(self)@.nodes[n] == old(self)@.nodes[n],
            forall|s: int|
                0 <= s < old(self)@.sockets.len() ==> final(self)@.sockets[s] == old(
                    self,
                )@.sockets[s] && final(self)@.incoming[s] == old(self)@.incoming[s],
            forall|k: int|
                0 <= k < desc.inputs@.len() ==> final(self)@.nodes[id as int].inputs[k] == old(
                    self,
                )@.sockets.len() + k,
            forall|k: int|
                0 <= k < desc.outputs@.len() ==> final(self)@.nodes[id as int].outputs[k] == old(
                    self,
                )@.sockets.len() + desc.inputs@.len() + k,
            forall|s: int|
                old(self)@.sockets.len() <= s < final(self)@.sockets.len() ==> (
                #[trigger] final(self)@.incoming[s]) is None && final(self)@.sockets[s].node == id,
            forall|a: int, b: int| final(self)@.edge(a, b) <==> old(self)@.edge(a, b),
    {
        let id = self.nodes.len();
        let base = self.sockets.len();
        proof {
            assert(self.incoming@.len() == self.sockets@.len());
        }
        let mut inputs: Vec<usize> = Vec::new();
        let mut k: usize = 0;
        while k < desc.inputs.len()
            invariant
                old(self)@.wf(),
                id == self.nodes@.len(),
                base == old(self).sockets@.len(),
                self.nodes@ == old(self).nodes@,
                k == inputs@.len(),
                k <= desc.inputs@.len(),
                self.sockets@.len() == base + k,
                self.incoming@.len() == self.sockets@.len(),
                forall|s: int|
                    0 <= s < base ==> self.sockets@[s] == old(self).sockets@[s]
                        && self.incoming@[s] == old(self).incoming@[s],
                forall|j: int| 0 <= j < k ==> inputs@[j] == base + j,
                forall|s: int|
                    base <= s < self.sockets@.len() ==> (#[trigger] self.sockets@[s]).node == id
                        && self.sockets@[s].is_input && self.incoming@[s] is None,
            decreases desc.inputs@.len() - k,
        {
            let sid = self.sockets.len();
            self.sockets.push(
                SocketInfo { node: id, is_input: true, label: desc.inputs[k].clone() },
            );
            self.incoming.push(None);
            inputs.push(sid);
            k += 1;
        }
        let mut outputs: Vec<usize> = Vec::new();
        let mut k2: usize = 0;
        while k2 < desc.outputs.len()
            invariant
                old(self)@.wf(),
                id == self.nodes@.len(),
                base == old(self).sockets@.len(),
                self.nodes@ == old(self).nodes@,
                inputs@.len() == desc.inputs@.len(),
                k2 == outputs@.len(),
                k2 <= desc.outputs@.len(),
                self.sockets@.len() == base + desc.inputs@.len() + k2,
                self.incoming@.len() == self.sockets@.len(),
                forall|s: int|
                    0 <= s < base ==> self.sockets@[s] == old(self).sockets@[s]
                        && self.incoming@[s] == old(self).incoming@[s],
                forall|j: int| 0 <= j < inputs@.len() ==> inputs@[j] == base + j,
                forall|j: int|
                    0 <= j < k2 ==> outputs@[j] == base + desc.inputs@.len() + j,
                forall|s: int|
                    base <= s < base + desc.inputs@.len() ==> (#[trigger] self.sockets@[s]).node
                        == id && self.sockets@[s].is_input && self.incoming@[s] is None,
                forall|s: int|
                    base + desc.inputs@.len() <= s < self.sockets@.len() ==> (
                    #[trigger] self.sockets@[s]).node == id && !self.sockets@[s].is_input
                        && self.incoming@[s] is None,
            decreases desc.outputs@.len() - k2,
        {
            let sid = self.sockets.len();
            self.sockets.push(
                SocketInfo { node: id, is_input: false, label: desc.outputs[k2].clone() },
            );
            self.incoming.push(None);
            outputs.push(sid);
            k2 += 1;
        }
        self.nodes.push(NodeInfo { name: desc.name.clone(), alive: true, inputs, outputs });
        proof {
            let post = self@;
            let pre = old(self)@;
            let nin = desc.inputs@.len() as int;
            let nout = desc.outputs@.len() as int;
            assert forall|s: int| 0 <= s < base implies post.sockets[s] == pre.sockets[s]
                && post.incoming[s] == pre.incoming[s] by {
                assert(self.sockets@[s] == old(self).sockets@[s]);
                assert(self.incoming@[s] == old(self).incoming@[s]);
            }
            assert forall|n: int| 0 <= n < id implies post.nodes[n] == pre.nodes[n] by {
                assert(self.nodes@[n] == old(self).nodes@[n]);
            }
            assert forall|s: int| base <= s < post.sockets.len() implies (
            #[trigger] post.incoming[s]) is None && post.sockets[s].node == id by {
                assert((#[trigger] self.sockets@[s]).node == id);
                assert(self.incoming@[s] is None);
            }
            assert forall|s: int| base <= s < base + nin implies post.sockets[s].is_input by {
                assert((#[trigger] self.sockets@[s]).is_input);
            }
            assert forall|s: int|
                base + nin <= s < base + nin + nout implies !post.sockets[s].is_input by {
                assert(!(#[trigger] self.sockets@[s]).is_input);
            }
            assert(post.nodes[id as int] == self.nodes@[id as int]@);
            assert forall|k: int| 0 <= k < nin implies post.nodes[id as int].inputs[k] == base
                + k by {
                assert(inputs@[k] == base + k);
            }
            assert forall|k: int| 0 <= k < nout implies post.nodes[id as int].outputs[k] == base
                + nin + k by {
                assert(outputs@[k] == base + nin + k);
            }
            assert forall|n: int, k: int|
                post.node_in_range(n) && 0 <= k < post.nodes[n].inputs.len() implies {
                    let s = #[trigger] post.nodes[n].inputs[k];
                    &&& post.socket_in_range(s)
                    &&& post.sockets[s].node == n
                    &&& post.sockets[s].is_input
                } by {
                if n < id {
                    assert(post.nodes[n] == pre.nodes[n]);
                    let s = pre.nodes[n].inputs[k];
                    assert(pre.socket_in_range(s));
                    assert(post.sockets[s] == pre.sockets[s]);
                }
            }
            assert forall|n: int, k: int|
                post.node_in_range(n) && 0 <= k < post.nodes[n].outputs.len() implies {
                    let s = #[trigger] post.nodes[n].outputs[k];
                    &&& post.socket_in_range(s)
                    &&& post.sockets[s].node == n
                    &&& !post.sockets[s].is_input
                } by {
                if n < id {
                    assert(post.nodes[n] == pre.nodes[n]);
                    let s = pre.nodes[n].outputs[k];
                    assert(pre.socket_in_range(s));
                    assert(post.sockets[s] == pre.sockets[s]);
                }
            }
            assert forall|s: int|
                post.socket_in_range(s) && (#[trigger] post.incoming[s]) is Some implies {
                    let o = post.incoming[s]->0;
                    &&& post.sockets[s].is_input
                    &&& post.socket_in_range(o)
                    &&& !post.sockets[o].is_input
                    &&& post.sockets[o].node != post.sockets[s].node
                    &&& post.nodes[post.sockets[o].node].alive
                    &&& post.nodes[post.sockets[s].node].alive
                } by {
                assert(s < base);
                assert(post.incoming[s] == pre.incoming[s]);
                let o = pre.incoming[s]->0;
                assert(pre.socket_in_range(o));
                assert(post.sockets[o] == pre.sockets[o]);
                assert(post.nodes[pre.sockets[o].node] == pre.nodes[pre.sockets[o].node]);
                assert(post.nodes[pre.sockets[s].node] == pre.nodes[pre.sockets[s].node]);
            }
            assert forall|a: int, b: int| post.edge(a, b) <==> pre.edge(a, b) by {
                if post.edge(a, b) {
                    let s = choose|s: int|
                        {
                            &&& post.socket_in_range(s)
                            &&& (#[trigger] post.incoming[s]) is Some
                            &&& post.sockets[post.incoming[s]->0].node == a
                            &&& post.sockets[s].node == b
                        };
                    assert(s < base);
                    assert(pre.incoming[s] is Some);
                    assert(pre.sockets[pre.incoming[s]->0].node == a);
                    assert(pre.sockets[s].node == b);
                    assert(pre.edge(a, b));
                }
                if pre.edge(a, b) {
                    let s = choose|s: int|
                        {
                            &&& pre.socket_in_range(s)
                            &&& (#[trigger] pre.incoming[s]) is Some
                            &&& pre.sockets[pre.incoming[s]->0].node == a
                            &&& pre.sockets[s].node == b
                        };
                    assert(post.incoming[s] is Some);
                    assert(pre.socket_in_range(pre.incoming[s]->0));
                    assert(post.sockets[post.incoming[s]->0].node == a);
                    assert(post.sockets[s].node == b);
                    assert(post.edge(a, b));
                }
            }
        }
        id
    }
}

/// The node identities whose flag is set: the abstraction of a
/// `Vec<bool>` visited table indexed by node identity.
pub open spec fn flags_set(f: Seq<bool>) -> Set<int> {
    Set::new(|i: int| 0 <= i < f.len() && f[i])
}

impl GraphModel {
    /// The model after removing node `id`: the slot goes dead and every
    /// connection incident to one of its sockets is cleared.
    pub open spec fn without_node(self, id: int) -> GraphModel {
        GraphModel {
            nodes: self.nodes.update(
                id,
                NodeModel { alive: false, ..self.nodes[id] },
            ),
            sockets: self.sockets,
            incoming: Seq::new(
                self.incoming.len(),
                |s: int|
                    if self.incoming[s] is Some && (self.sockets[s].node == id
                        || self.sockets[self.incoming[s]->0].node == id) {
                        None
                    } else {
                        self.incoming[s]
                    },
            ),
        }
    }
}

impl IndexGraph {
    /// The visited table of the growing passes: entry `a` is set exactly
    /// when node `a` is reachable from `start` along dependency edges.
    fn reach_flags(&self, start: usize) -> (flags: Vec<bool>)
        requires
            self@.wf(),
            start < self@.nodes.len(),
        ensures
            flags@.len() == self@.nodes.len(),
            flags_set(flags@) == self@.reachable_from(start as int),
    {
        let n = self.nodes.len();
        let mut flags: Vec<bool> = Vec::new();
        let mut i: usize = 0;
        while i < n
            invariant
                i == flags@.len(),
                i <= n,
                forall|j: int| 0 <= j < i ==> !flags@[j],
            decreases n - i,
        {
            flags.push(false);
            i += 1;
        }
        flags.set(start, true);
        proof {
            assert(flags_set(flags@) =~= set![start as int]);
            assert(self@.grow_rounds(set![start as int], 0) == set![start as int]);
        }
        let mut round: usize = 0;
        while round < n
            invariant
                self@.wf(),
                n == self@.nodes.len(),
                start < n,
                flags@.len() == n,
                round <= n,
                flags_set(flags@) == self@.grow_rounds(set![start as int], round as nat),
            decreases n - round,
        {
            let ghost acc0 = flags_set(flags@);
            let mut s: usize = 0;
            proof {
                assert(self@.grow_upto(acc0, 0) == acc0);
            }
            while s < self.incoming.len()
                invariant
                    self@.wf(),
                    n == self@.nodes.len(),
                    flags@.len() == n,
                    s <= self.incoming@.len(),
                    self.incoming@.len() == self@.incoming.len(),
                    flags_set(flags@) == self@.grow_upto(acc0, s as int),
                decreases self.incoming@.len() - s,
            {
                let ghost before = flags_set(flags@);
                match self.incoming[s] {
                    Some(o) => {
                        proof {
                            assert(self@.incoming[s as int] is Some);
                            assert(self@.socket_in_range(o as int));
                            assert(self@.node_in_range(self@.sockets[o as int].node));
                            assert(self@.node_in_range(self@.sockets[s as int].node));
                        }
                        let a = self.sockets[o].node;
                        if flags[a] {
                            let b = self.sockets[s].node;
                            flags.set(b, true);
                            proof {
                                assert(flags_set(flags@) =~= before.insert(b as int));
                            }
                        } else {
                            proof {
                                assert(!before.contains(a as int));
                            }
                        }
                    },
                    None => {
                    },
                }
                proof {
                    assert(flags_set(flags@) =~= self@.grow_upto(acc0, s as int + 1));
                }
                s += 1;
            }
            round += 1;
        }
        flags
    }

    /// The trial half of a two-phase connect: validates a proposed
    /// connection from output socket `from` to input socket `to` without
    /// mutating anything, so a gesture in flight can get live
    /// accept/reject feedback. Returns `None` when a commit would
    /// succeed, or exactly the error the commit would report.
    pub fn can_connect(&self, from: usize, to: usize) -> (r: Option<GraphError>)
        requires
            self@.wf(),
        ensures
            r == self@.connect_check(from as int, to as int),
    {
        if from >= self.sockets.len() || to >= self.sockets.len() {
            return Some(GraphError::UnknownSocket);
        }
        if !self.nodes[self.sockets[from].node].alive || !self.nodes[self.sockets[to].node].alive {
            return Some(GraphError::UnknownSocket);
        }
        if self.sockets[from].is_input || !self.sockets[to].is_input {
            return Some(GraphError::InvalidConnection);
        }
        if self.sockets[from].node == self.sockets[to].node {
            return Some(GraphError::InvalidConnection);
        }
        match self.incoming[to] {
            Some(o) => {
                if o == from {
                    None
                } else {
                    Some(GraphError::InvalidConnection)
                }
            },
            None => {
                let flags = self.reach_flags(self.sockets[to].node);
                if flags[self.sockets[from].node] {
                    Some(GraphError::InvalidConnection)
                } else {
                    None
                }
            },
        }
    }

    /// The commit half: store the connection if and only if the trial
    /// checks pass. A refused connect reports why and leaves the graph
    /// exactly as it was; an accepted one changes nothing but the
    /// destination input's incoming entry.
    pub fn connect(&mut self, from: usize, to: usize) -> (r: Result<(), GraphError>)
        requires
            old(self)@.wf(),
        ensures
            final(self)@.wf(),
            match old(self)@.connect_check(from as int, to as int) {
                Some(e) => r == Err::<(), GraphError>(e) && final(self)@ == old(self)@,
                None => r == Ok::<(), GraphError>(()) && final(self)@ == old(self)@.with_connection(
                    from as int,
                    to as int,
                ),
            },
    {
        match self.can_connect(from, to) {
            Some(e) => Err(e),
            None => {
                self.incoming.set(to, Some(from));
                proof {
                    let pre = old(self)@;
                    let post = self@;
                    assert(post =~= pre.with_connection(from as int, to as int));
                    assert forall|s: int|
                        post.socket_in_range(s) && (#[trigger] post.incoming[s]) is Some implies {
                            let o = post.incoming[s]->0;
                            &&& post.sockets[s].is_input
                            &&& post.socket_in_range(o)
                            &&& !post.sockets[o].is_input
                            &&& post.sockets[o].node != post.sockets[s].node
                            &&& post.nodes[post.sockets[o].node].alive
                            &&& post.nodes[post.sockets[s].node].alive
                        } by {
                        if s != to {
                            assert(post.incoming[s] == pre.incoming[s]);
                        }
                    }
                }
                Ok(())
            },
        }
    }

    /// Clear the incoming connection of input socket `to`, if any. On an
    /// unconnected input, or on an identity that is not a known input
    /// socket, this does nothing and reports nothing: disconnecting is
    /// always safe to ask for.
    pub fn disconnect(&mut self, to: usize)
        requires
            old(self)@.wf(),
        ensures
            final(self)@.wf(),
            old(self)@.socket_in_range(to as int) && old(self)@.sockets[to as int].is_input
                ==> final(self)@ == old(self)@.without_connection(to as int),
            !(old(self)@.socket_in_range(to as int) && old(self)@.sockets[to as int].is_input)
                ==> final(self)@ == old(self)@,
    {
        if to < self.sockets.len() {
            if self.sockets[to].is_input {
                self.incoming.set(to, None);
                proof {
                    let pre = old(self)@;
                    let post = self@;
                    assert(post =~= pre.without_connection(to as int));
                    assert forall|s: int|
                        post.socket_in_range(s) && (#[trigger] post.incoming[s]) is Some implies {
                            let o = post.incoming[s]->0;
                            &&& post.sockets[s].is_input
                            &&& post.socket_in_range(o)
                            &&& !post.sockets[o].is_input
                            &&& post.sockets[o].node != post.sockets[s].node
                            &&& post.nodes[post.sockets[o].node].alive
                            &&& post.nodes[post.sockets[s].node].alive
                        } by {
                        assert(s != to);
                        assert(post.incoming[s] == pre.incoming[s]);
                    }
                }
            }
        }
    }

    /// Remove a node: every connection incident to one of its sockets is
    /// cleared first, so no connection dangles, and then the slot goes
    /// dead. Fails only on an identity that is not a live node, leaving
    /// the graph unchanged.
    pub fn remove_node(&mut self, id: usize) -> (r: Result<(), GraphError>)
        requires
            old(self)@.wf(),
        ensures
            final(self)@.wf(),
            if old(self)@.node_in_range(id as int) && old(self)@.nodes[id as int].alive {
                r == Ok::<(), GraphError>(()) && final(self)@ == old(self)@.without_node(id as int)
            } else {
                r == Err::<(), GraphError>(GraphError::UnknownNode) && final(self)@ == old(self)@
            },
    {
        if id >= self.nodes.len() {
            return Err(GraphError::UnknownNode);
        }
        if !self.nodes[id].alive {
            return Err(GraphError::UnknownNode);
        }
        let ghost pre = self@;
        let mut s: usize = 0;
        while s < self.incoming.len()
            invariant
                pre == old(self)@,
                pre.wf(),
                self.nodes@ == old(self).nodes@,
                self.sockets@ == old(self).sockets@,
                self.incoming@.len() == pre.incoming.len(),
                s <= self.incoming@.len(),
                id < self.nodes@.len(),
                forall|t: int|
                    0 <= t < self.incoming@.len() ==> #[trigger] self@.incoming[t]
                        == (if 0 <= t < s && pre.incoming[t] is Some && (pre.sockets[t].node == id
                            || pre.sockets[pre.incoming[t]->0].node == id) {
                            None
                        } else {
                            pre.incoming[t]
                        }),
            decreases self.incoming@.len() - s,
        {
            let ghost cur = self@;
            match self.incoming[s] {
                Some(o) => {
                    proof {
                        assert(self@.incoming[s as int] == pre.incoming[s as int]);
                        assert(pre.incoming[s as int] is Some);
                        assert(pre.socket_in_range(o as int));
                        assert(pre.incoming.len() == pre.sockets.len());
                        assert(pre.sockets.len() == self.sockets@.len());
                        assert((s as int) < self.sockets@.len());
                        assert((o as int) < self.sockets@.len());
                    }
                    if self.sockets[s].node == id || self.sockets[o].node == id {
                        self.incoming.set(s, None);
                    }
                },
                None => {
                },
            }
            proof {
                assert forall|t: int|
                    0 <= t < self.incoming@.len() implies #[trigger] self@.incoming[t] == (if 0
                        <= t < s + 1 && pre.incoming[t] is Some && (pre.sockets[t].node == id
                        || pre.sockets[pre.incoming[t]->0].node == id) {
                        None
                    } else {
                        pre.incoming[t]
                    }) by {
                    if t != s {
                        assert(self@.incoming[t] == cur.incoming[t]);
                    }
                }
            }
            s += 1;
        }
        let ghost cleared = self@;
        let mut node = self.nodes.remove(id);
        node.alive = false;
        self.nodes.insert(id, node);
        proof {
            let post = self@;
            assert(post.incoming =~= cleared.incoming);
            let target = pre.without_node(id as int);
            assert(self.nodes@.len() == old(self).nodes@.len());
            assert forall|n: int|
                0 <= n < self.nodes@.len() && n != id implies self.nodes@[n] == old(
                    self,
                ).nodes@[n] by {
                assert(old(self).nodes@.remove(id as int).len() == old(self).nodes@.len() - 1);
                if n < id {
                    assert(old(self).nodes@.remove(id as int)[n] == old(self).nodes@[n]);
                } else {
                    assert(old(self).nodes@.remove(id as int)[n - 1] == old(self).nodes@[n]);
                }
            }
            assert(post.nodes[id as int] =~= target.nodes[id as int]);
            assert forall|n: int|
                0 <= n < post.nodes.len() implies post.nodes[n] =~~= target.nodes[n] by {
                if n != id {
                    assert(self.nodes@[n] == old(self).nodes@[n]);
                }
            }
            assert(post.nodes =~~= target.nodes);
            assert(post.sockets =~= target.sockets);
            assert forall|t: int|
                0 <= t < post.incoming.len() implies post.incoming[t] == target.incoming[t] by {
                assert(cleared.incoming[t] == (if pre.incoming[t] is Some && (pre.sockets[t].node == id || pre.sockets[pre.incoming[t]->0].node == id) {
                    None
                } else {
                    pre.incoming[t]
                }));
                assert(post.incoming[t] == cleared.incoming[t]);
            }
            assert(post.incoming =~= target.incoming);
            assert(post =~~= pre.without_node(id as int));
            assert forall|t: int|
                post.socket_in_range(t) && (#[trigger] post.incoming[t]) is Some implies {
                    let o = post.incoming[t]->0;
                    &&& post.sockets[t].is_input
                    &&& post.socket_in_range(o)
                    &&& !post.sockets[o].is_input
                    &&& post.sockets[o].node != post.sockets[t].node
                    &&& post.nodes[post.sockets[o].node].alive
                    &&& post.nodes[post.sockets[t].node].alive
                } by {
                assert(post.incoming[t] == pre.incoming[t]);
                assert(pre.sockets[t].node != id);
                assert(pre.sockets[pre.incoming[t]->0].node != id);
            }
        }
        Ok(())
    }
}

/// The same identities, as mathematical integers.
pub open spec fn seq_usize_ints(s: Seq<usize>) -> Seq<int> {
    Seq::new(s.len(), |p: int| s[p] as int)
}

impl GraphModel {
    /// Every dependency source of `b` is already placed.
    pub open spec fn preds_placed(self, placed: Set<int>, b: int) -> bool {
        forall|a: int| self.edge(a, b) ==> placed.contains(a)
    }

    /// Node `j` may be placed next: live, not yet placed, and with all
    /// its dependency sources placed.
    pub open spec fn ready(self, placed: Set<int>, j: int) -> bool {
        &&& self.node_in_range(j)
        &&& self.nodes[j].alive
        &&& !placed.contains(j)
        &&& self.preds_placed(placed, j)
    }

    /// The first placeable node at identity `j` or above. Scanning in
    /// identity order is what makes the linearization stable among ties:
    /// insertion order breaks them.
    pub open spec fn first_ready_from(self, placed: Set<int>, j: int) -> Option<int>
        decreases self.nodes.len() - j,
    {
        if j < 0 || j >= self.nodes.len() {
            None
        } else if self.ready(placed, j) {
            Some(j)
        } else {
            self.first_ready_from(placed, j + 1)
        }
    }

    /// Up to `k` rounds of placing the first ready node.
    pub open spec fn topo_rec(self, placed: Set<int>, k: nat) -> Seq<int>
        decreases k,
    {
        if k == 0 {
            Seq::empty()
        } else {
            match self.first_ready_from(placed, 0) {
                None => Seq::empty(),
                Some(j) => seq![j] + self.topo_rec(placed.insert(j), (k - 1) as nat),
            }
        }
    }

    /// The dependency order of the graph: repeatedly place the
    /// lowest-identity live node whose sources are all placed. A
    /// deterministic function of the model; it covers every live node
    /// exactly when the dependency relation is acyclic.
    pub open spec fn topo_spec(self) -> Seq<int> {
        self.topo_rec(Set::empty(), self.nodes.len())
    }

    /// How many of the node slots `0..j` are live.
    pub open spec fn alive_upto(self, j: int) -> int
        decreases j,
    {
        if j <= 0 {
            0
        } else {
            self.alive_upto(j - 1) + if self.nodes[j - 1].alive {
                1int
            } else {
                0int
            }
        }
    }

    /// How many live nodes the graph has.
    pub open spec fn alive_total(self) -> int {
        self.alive_upto(self.nodes.len() as int)
    }
}

impl IndexGraph {
    /// Whether all dependency sources of node `j` are flagged placed.
    fn preds_placed_exec(&self, placed: &Vec<bool>, j: usize) -> (r: bool)
        requires
            self@.wf(),
            placed@.len() == self@.nodes.len(),
            j < self@.nodes.len(),
        ensures
            r == self@.preds_placed(flags_set(placed@), j as int),
    {
        let mut s: usize = 0;
        while s < self.incoming.len()
            invariant
                self@.wf(),
                placed@.len() == self@.nodes.len(),
                j < self@.nodes.len(),
                s <= self.incoming@.len(),
                forall|t: int|
                    0 <= t < s && (#[trigger] self@.incoming[t]) is Some && self@.sockets[t].node
                        == j ==> flags_set(placed@).contains(
                        self@.sockets[self@.incoming[t]->0].node,
                    ),
            decreases self.incoming@.len() - s,
        {
            match self.incoming[s] {
                Some(o) => {
                    proof {
                        assert(self@.incoming[s as int] is Some);
                        assert(self@.socket_in_range(o as int));
                        assert(self@.node_in_range(self@.sockets[o as int].node));
                        assert(self@.node_in_range(self@.sockets[s as int].node));
                    }
                    if self.sockets[s].node == j {
                        let a = self.sockets[o].node;
                        if !placed[a] {
                            proof {
                                assert(self@.edge(a as int, j as int));
                                assert(!flags_set(placed@).contains(a as int));
                            }
                            return false;
                        }
                    }
                },
                None => {
                },
            }
            s += 1;
        }
        proof {
            assert forall|a: int| self@.edge(a, j as int) implies flags_set(placed@).contains(
                a,
            ) by {
                let t = choose|t: int|
                    {
                        &&& self@.socket_in_range(t)
                        &&& (#[trigger] self@.incoming[t]) is Some
                        &&& self@.sockets[self@.incoming[t]->0].node == a
                        &&& self@.sockets[t].node == j as int
                    };
                assert(flags_set(placed@).contains(self@.sockets[self@.incoming[t]->0].node));
            }
        }
        true
    }

    /// The first placeable node in identity order, if any.
    fn find_ready(&self, placed: &Vec<bool>) -> (r: Option<usize>)
        requires
            self@.wf(),
            placed@.len() == self@.nodes.len(),
        ensures
            match r {
                Some(j) => self@.first_ready_from(flags_set(placed@), 0) == Some(j as int) && j
                    < self@.nodes.len(),
                None => self@.first_ready_from(flags_set(placed@), 0) is None,
            },
    {
        let ghost fs = flags_set(placed@);
        let mut j: usize = 0;
        while j < self.nodes.len()
            invariant
                self@.wf(),
                placed@.len() == self@.nodes.len(),
                fs == flags_set(placed@),
                j <= self@.nodes.len(),
                self@.first_ready_from(fs, 0) == self@.first_ready_from(fs, j as int),
            decreases self@.nodes.len() - j,
        {
            if self.nodes[j].alive && !placed[j] {
                if self.preds_placed_exec(placed, j) {
                    proof {
                        assert(self@.ready(fs, j as int));
                        assert(self@.first_ready_from(fs, j as int) == Some(j as int));
                    }
                    return Some(j);
                }
            }
            proof {
                assert(!self@.ready(fs, j as int));
                assert(self@.first_ready_from(fs, j as int) == self@.first_ready_from(
                    fs,
                    j as int + 1,
                ));
            }
            j += 1;
        }
        proof {
            assert(self@.first_ready_from(fs, self@.nodes.len() as int) is None);
        }
        None
    }

    /// A deterministic topological linearization of the live nodes over
    /// the dependency edges, stable by node insertion order among ties:
    /// exactly `topo_spec`. Reports `CyclicGraph` precisely when no
    /// complete dependency order exists, that is when `topo_spec` stops
    /// short of covering every live node.
    pub fn topo_order(&self) -> (r: Result<Vec<usize>, GraphError>)
        requires
            self@.wf(),
        ensures
            match r {
                Ok(order) => seq_usize_ints(order@) == self@.topo_spec() && order@.len()
                    == self@.alive_total(),
                Err(e) => e == GraphError::CyclicGraph && self@.topo_spec().len()
                    != self@.alive_total(),
            },
    {
        let n = self.nodes.len();
        let mut placed: Vec<bool> = Vec::new();
        let mut i0: usize = 0;
        while i0 < n
            invariant
                i0 == placed@.len(),
                i0 <= n,
                forall|t: int| 0 <= t < i0 ==> !placed@[t],
            decreases n - i0,
        {
            placed.push(false);
            i0 += 1;
        }
        proof {
            assert(flags_set(placed@) =~= Set::<int>::empty());
            assert(self@.topo_spec() == seq_usize_ints(Seq::<usize>::empty()) + self@.topo_rec(
                flags_set(placed@),
                n as nat,
            ));
        }
        let mut order: Vec<usize> = Vec::new();
        let mut done = false;
        let mut i: usize = 0;
        while i < n
            invariant
                self@.wf(),
                n == self@.nodes.len(),
                placed@.len() == n,
                i <= n,
                !done ==> self@.topo_spec() == seq_usize_ints(order@) + self@.topo_rec(
                    flags_set(placed@),
                    (n - i) as nat,
                ),
                done ==> self@.topo_spec() == seq_usize_ints(order@),
            decreases n - i,
        {
            if !done {
                let ghost fs = flags_set(placed@);
                let ghost k = (n - i) as nat;
                match self.find_ready(&placed) {
                    Some(j) => {
                        proof {
                            assert(k > 0);
                            assert(self@.topo_rec(fs, k) == seq![j as int] + self@.topo_rec(
                                fs.insert(j as int),
                                (k - 1) as nat,
                            ));
                        }
                        let ghost pre_order = order@;
                        order.push(j);
                        placed.set(j, true);
                        proof {
                            assert(flags_set(placed@) =~= fs.insert(j as int));
                            assert(seq_usize_ints(order@) =~= seq_usize_ints(pre_order) + seq![
                                j as int,
                            ]);
                            assert(seq_usize_ints(pre_order) + (seq![j as int] + self@.topo_rec(
                                flags_set(placed@),
                                (k - 1) as nat,
                            )) =~= (seq_usize_ints(pre_order) + seq![j as int]) + self@.topo_rec(
                                flags_set(placed@),
                                (k - 1) as nat,
                            ));
                        }
                    },
                    None => {
                        proof {
                            assert(self@.topo_rec(fs, k) =~= Seq::<int>::empty());
                            assert(seq_usize_ints(order@) + Seq::<int>::empty() =~= seq_usize_ints(
                                order@,
                            ));
                        }
                        done = true;
                    },
                }
            }
            i += 1;
        }
        proof {
            if !done {
                assert(self@.topo_rec(flags_set(placed@), 0) =~= Seq::<int>::empty());
                assert(seq_usize_ints(order@) + Seq::<int>::empty() =~= seq_usize_ints(order@));
            }
        }
        let mut alive: usize = 0;
        let mut c: usize = 0;
        while c < n
            invariant
                n == self@.nodes.len(),
                c <= n,
                alive <= c,
                alive == self@.alive_upto(c as int),
            decreases n - c,
        {
            if self.nodes[c].alive {
                alive += 1;
            }
            c += 1;
        }
        if order.len() == alive {
            Ok(order)
        } else {
            Err(GraphError::CyclicGraph)
        }
    }
}

/// A placed node is what `first_ready_from` said: ready at the set it
/// was chosen against, and at or after the scan start.
proof fn lemma_first_ready_some(m: GraphModel, placed: Set<int>, j0: int)
    requires
        m.first_ready_from(placed, j0) is Some,
    ensures
        m.ready(placed, m.first_ready_from(placed, j0)->0),
        j0 <= m.first_ready_from(placed, j0)->0 < m.nodes.len(),
    decreases m.nodes.len() - j0,
{
    if !(j0 < 0 || j0 >= m.nodes.len()) && !m.ready(placed, j0) {
        lemma_first_ready_some(m, placed, j0 + 1);
    }
}

/// Soundness of the recursive linearization: every element is a live
/// node, never already placed, never repeated, and each of its
/// dependency sources is either placed beforehand or appears earlier in
/// the sequence.
proof fn lemma_topo_rec_sound(m: GraphModel, placed: Set<int>, k: nat)
    requires
        m.wf(),
    ensures
        ({
            let t = m.topo_rec(placed, k);
            forall|p: int|
                0 <= p < t.len() ==> {
                    &&& m.node_in_range(#[trigger] t[p])
                    &&& m.nodes[t[p]].alive
                    &&& !placed.contains(t[p])
                    &&& !t.subrange(0, p).contains(t[p])
                    &&& forall|a: int|
                        m.edge(a, t[p]) ==> placed.contains(a) || t.subrange(0, p).contains(a)
                }
        }),
    decreases k,
{
    let t = m.topo_rec(placed, k);
    if k > 0 && m.first_ready_from(placed, 0) is Some {
        let j = m.first_ready_from(placed, 0)->0;
        lemma_first_ready_some(m, placed, 0);
        let placed2 = placed.insert(j);
        let t2 = m.topo_rec(placed2, (k - 1) as nat);
        lemma_topo_rec_sound(m, placed2, (k - 1) as nat);
        assert(t == seq![j] + t2);
        assert forall|p: int|
            0 <= p < t.len() implies {
                &&& m.node_in_range(#[trigger] t[p])
                &&& m.nodes[t[p]].alive
                &&& !placed.contains(t[p])
                &&& !t.subrange(0, p).contains(t[p])
                &&& forall|a: int|
                    m.edge(a, t[p]) ==> placed.contains(a) || t.subrange(0, p).contains(a)
            } by {
            if p == 0 {
                assert(t[0] == j);
                assert(t.subrange(0, 0) =~= Seq::<int>::empty());
            } else {
                assert(t[p] == t2[p - 1]);
                assert(t.subrange(0, p) =~= seq![j] + t2.subrange(0, p - 1));
                assert(!placed2.contains(t2[p - 1]));
                assert(t[p] != j);
                assert(!t2.subrange(0, p - 1).contains(t2[p - 1]));
                assert(!t.subrange(0, p).contains(t[p]));
                assert forall|a: int| m.edge(a, t[p]) implies placed.contains(a) || t.subrange(
                    0,
                    p,
                ).contains(a) by {
                    assert(placed2.contains(a) || t2.subrange(0, p - 1).contains(a));
                    if placed2.contains(a) && !placed.contains(a) {
                        assert(a == j);
                        assert(t.subrange(0, p)[0] == j);
                    } else if t2.subrange(0, p - 1).contains(a) {
                        let q = choose|q: int|
                            0 <= q < p - 1 && #[trigger] t2.subrange(0, p - 1)[q] == a;
                        assert(t.subrange(0, p)[q + 1] == a);
                    }
                }
            }
        }
    }
}

/// LAW: the dependency order is consistent with every connection. If a
/// node-to-node edge runs from `a` to the node at position `p` of the
/// order, then `a` stands at some earlier position.
pub proof fn lemma_topo_spec_respects_connections(m: GraphModel, a: int, p: int)
    requires
        m.wf(),
        0 <= p < m.topo_spec().len(),
        m.edge(a, m.topo_spec()[p]),
    ensures
        exists|q: int| 0 <= q < p && m.topo_spec()[q] == a,
{
    lemma_topo_rec_sound(m, Set::empty(), m.nodes.len());
    let t = m.topo_spec();
    assert(m.node_in_range(t[p]));
    assert(m.edge(a, t[p]));
    assert(!Set::<int>::empty().contains(a));
    assert(t.subrange(0, p).contains(a));
    let q = choose|q: int| 0 <= q < t.subrange(0, p).len() && t.subrange(0, p)[q] == a;
    assert(t[q] == a);
}

/// LAW: the dependency order lists only live nodes and never repeats
/// one; together with `topo_order`'s length clause this makes a
/// successful linearization a permutation of the live nodes.
pub proof fn lemma_topo_spec_no_duplicates(m: GraphModel)
    requires
        m.wf(),
    ensures
        forall|p: int|
            0 <= p < m.topo_spec().len() ==> m.node_in_range(#[trigger] m.topo_spec()[p])
                && m.nodes[m.topo_spec()[p]].alive,
        forall|p: int, q: int|
            0 <= p < q < m.topo_spec().len() ==> m.topo_spec()[p] != m.topo_spec()[q],
{
    lemma_topo_rec_sound(m, Set::empty(), m.nodes.len());
    let t = m.topo_spec();
    assert forall|p: int, q: int| 0 <= p < q < t.len() implies t[p] != t[q] by {
        assert(!t.subrange(0, q).contains(t[q]));
        assert(t.subrange(0, q)[p] == t[p]);
    }
}

/// The set of node slots below `j` that are live has exactly
/// `alive_upto(j)` elements.
proof fn lemma_live_count(m: GraphModel, j: int)
    requires
        0 <= j <= m.nodes.len(),
    ensures
        Set::new(|n: int| 0 <= n < j && m.nodes[n].alive).finite(),
        Set::new(|n: int| 0 <= n < j && m.nodes[n].alive).len() == m.alive_upto(j),
    decreases j,
{
    broadcast use vstd::set::group_set_axioms;

    let s = Set::new(|n: int| 0 <= n < j && m.nodes[n].alive);
    if j == 0 {
        assert(s =~= Set::<int>::empty());
    } else {
        lemma_live_count(m, j - 1);
        let s0 = Set::new(|n: int| 0 <= n < j - 1 && m.nodes[n].alive);
        if m.nodes[j - 1].alive {
            assert(s =~= s0.insert(j - 1));
            assert(!s0.contains(j - 1));
        } else {
            assert(s =~= s0);
        }
    }
}

/// LAW: a successful linearization covers every live node. Together
/// with `lemma_topo_spec_no_duplicates` this makes the order a
/// permutation of the live nodes, and with
/// `lemma_topo_spec_respects_connections` a true topological order.
pub proof fn lemma_topo_spec_complete(m: GraphModel)
    requires
        m.wf(),
        m.topo_spec().len() == m.alive_total(),
    ensures
        forall|n: int|
            m.node_in_range(n) && m.nodes[n].alive ==> #[trigger] m.topo_spec().contains(n),
{
    broadcast use vstd::seq_lib::seq_to_set_is_finite;

    let t = m.topo_spec();
    lemma_topo_spec_no_duplicates(m);
    lemma_live_count(m, m.nodes.len() as int);
    let live = Set::new(|n: int| 0 <= n < m.nodes.len() && m.nodes[n].alive);
    assert(t.no_duplicates()) by {
        assert forall|p: int, q: int| 0 <= p < t.len() && 0 <= q < t.len() && p != q implies t[p]
            != t[q] by {
            if p < q {
                assert(t[p] != t[q]);
            } else {
                assert(t[q] != t[p]);
            }
        }
    }
    t.unique_seq_to_set();
    assert(t.to_set().subset_of(live)) by {
        assert forall|x: int| t.to_set().contains(x) implies live.contains(x) by {
            let p = choose|p: int| 0 <= p < t.len() && t[p] == x;
            assert(m.node_in_range(t[p]) && m.nodes[t[p]].alive);
        }
    }
    vstd::set_lib::lemma_subset_equality(t.to_set(), live);
    assert forall|n: int| m.node_in_range(n) && m.nodes[n].alive implies #[trigger] t.contains(
        n,
    ) by {
        assert(live.contains(n));
        assert(t.to_set().contains(n));
    }
}

/// A growing pass never drops members, and one pass keeps going from
/// where a shorter one stopped.
proof fn lemma_grow_upto_inflationary(m: GraphModel, acc: Set<int>, j: int)
    ensures
        acc.subset_of(m.grow_upto(acc, j)),
        forall|j2: int| j2 <= j ==> #[trigger] m.grow_upto(acc, j2).subset_of(m.grow_upto(acc, j)),
    decreases j,
{
    if j > 0 {
        lemma_grow_upto_inflationary(m, acc, j - 1);
        assert(m.grow_upto(acc, j - 1).subset_of(m.grow_upto(acc, j)));
        assert forall|j2: int| j2 <= j implies #[trigger] m.grow_upto(acc, j2).subset_of(
            m.grow_upto(acc, j),
        ) by {
            if j2 <= j - 1 {
                assert(m.grow_upto(acc, j2).subset_of(m.grow_upto(acc, j - 1)));
            }
        }
    } else {
        assert forall|j2: int| j2 <= j implies #[trigger] m.grow_upto(acc, j2).subset_of(
            m.grow_upto(acc, j),
        ) by {
            assert(m.grow_upto(acc, j2) == acc);
            assert(m.grow_upto(acc, j) == acc);
        }
    }
}

/// A growing pass keeps every set finite.
proof fn lemma_grow_upto_finite(m: GraphModel, acc: Set<int>, j: int)
    requires
        acc.finite(),
    ensures
        m.grow_upto(acc, j).finite(),
    decreases j,
{
    if j > 0 {
        lemma_grow_upto_finite(m, acc, j - 1);
    }
}

/// A pass stays within the node identities and the starting set.
proof fn lemma_grow_upto_bounded(m: GraphModel, acc: Set<int>, j: int, bound: Set<int>)
    requires
        m.wf(),
        acc.subset_of(bound),
        forall|n: int| m.node_in_range(n) ==> #[trigger] bound.contains(n),
    ensures
        m.grow_upto(acc, j).subset_of(bound),
    decreases j,
{
    if j > 0 {
        lemma_grow_upto_bounded(m, acc, j - 1, bound);
    }
}

/// One full pass reaches across any single edge out of the set.
proof fn lemma_grow_crosses_edge(m: GraphModel, s: Set<int>, x: int, y: int)
    requires
        m.wf(),
        s.contains(x),
        m.edge(x, y),
    ensures
        m.grow(s).contains(y),
{
    let t = choose|t: int|
        {
            &&& m.socket_in_range(t)
            &&& (#[trigger] m.incoming[t]) is Some
            &&& m.sockets[m.incoming[t]->0].node == x
            &&& m.sockets[t].node == y
        };
    lemma_grow_upto_inflationary(m, s, t);
    assert(m.grow_upto(s, t).contains(x));
    assert(m.grow_upto(s, t + 1).contains(y));
    lemma_grow_upto_inflationary(m, s, m.incoming.len() as int);
    assert(t + 1 <= m.incoming.len());
    assert(m.grow_upto(s, t + 1).subset_of(m.grow_upto(s, m.incoming.len() as int)));
}

/// Once one round adds nothing, no later round adds anything.
proof fn lemma_rounds_fix(m: GraphModel, acc: Set<int>, k: nat, k2: nat)
    requires
        m.grow_rounds(acc, k + 1) =~= m.grow_rounds(acc, k),
        k <= k2,
    ensures
        m.grow_rounds(acc, k2) =~= m.grow_rounds(acc, k),
    decreases k2 - k,
{
    if k2 > k {
        lemma_rounds_fix(m, acc, k, (k2 - 1) as nat);
        assert(m.grow_rounds(acc, k2) == m.grow(m.grow_rounds(acc, (k2 - 1) as nat)));
        assert(m.grow(m.grow_rounds(acc, (k2 - 1) as nat)) == m.grow(m.grow_rounds(acc, k)));
        assert(m.grow(m.grow_rounds(acc, k)) == m.grow_rounds(acc, k + 1));
    }
}

/// As many rounds as there are nodes reach a fixed point: each earlier
/// round either was already fixed or grew the set by at least one of
/// the at most `nodes.len() + 1` possible members.
proof fn lemma_reachable_is_fixpoint(m: GraphModel, a: int)
    requires
        m.wf(),
    ensures
        m.grow(m.reachable_from(a)) =~= m.reachable_from(a),
{
    broadcast use vstd::set::group_set_axioms;

    let n = m.nodes.len() as int;
    let bound = vstd::set_lib::set_int_range(0, n).insert(a);
    vstd::set_lib::lemma_int_range(0, n);
    if !m.node_in_range(a) {
        lemma_rounds_outside(m, a, n as nat);
        lemma_grow_outside(m, a, m.incoming.len() as int);
        assert(m.reachable_from(a) =~= set![a]);
        assert(m.reachable_from(a) == set![a]);
        assert(m.grow(set![a]) =~= set![a]);
    } else if exists|k: nat|
        k < n && #[trigger] m.grow_rounds(set![a], k + 1) =~= m.grow_rounds(set![a], k) {
        let k = choose|k: nat|
            k < n && #[trigger] m.grow_rounds(set![a], k + 1) =~= m.grow_rounds(set![a], k);
        lemma_rounds_fix(m, set![a], k, n as nat);
        lemma_rounds_fix(m, set![a], k, (n + 1) as nat);
        assert(m.grow_rounds(set![a], (n + 1) as nat) == m.grow(m.grow_rounds(set![a], n as nat)));
    } else {
        // Every round below `n` grew the set, so round `n` would hold
        // more members than the node identities admit.
        assert forall|k: nat| k <= n implies #[trigger] m.grow_rounds(set![a], k).len() >= k
            + 1 by {
            lemma_rounds_grow_len(m, a, k, bound);
        }
        assert(m.grow_rounds(set![a], n as nat).len() >= n + 1);
        lemma_rounds_props(m, a, n as nat);
        assert(bound =~= vstd::set_lib::set_int_range(0, n));
        assert(m.grow_rounds(set![a], n as nat).subset_of(bound));
        vstd::set_lib::lemma_len_subset(m.grow_rounds(set![a], n as nat), bound);
        assert(bound.len() == n);
        assert(false);
    }
}

/// From an identity that is no node, a pass adds nothing: every
/// addition's source is a node identity.
proof fn lemma_grow_outside(m: GraphModel, a: int, j: int)
    requires
        m.wf(),
        !m.node_in_range(a),
    ensures
        m.grow_upto(set![a], j) =~= set![a],
    decreases j,
{
    if j > 0 {
        lemma_grow_outside(m, a, j - 1);
        let t = j - 1;
        if m.socket_in_range(t) && m.incoming[t] is Some {
            assert(m.socket_in_range(m.incoming[t]->0));
            assert(m.node_in_range(m.sockets[m.incoming[t]->0].node));
            assert(!set![a].contains(m.sockets[m.incoming[t]->0].node));
        }
    }
}

/// From an identity that is no node, every round stays at the start.
proof fn lemma_rounds_outside(m: GraphModel, a: int, k: nat)
    requires
        m.wf(),
        !m.node_in_range(a),
    ensures
        m.grow_rounds(set![a], k) =~= set![a],
    decreases k,
{
    if k > 0 {
        lemma_rounds_outside(m, a, (k - 1) as nat);
        assert(m.grow_rounds(set![a], (k - 1) as nat) == set![a]);
        lemma_grow_outside(m, a, m.incoming.len() as int);
    }
}

/// Every round's set is finite and within the node identities plus the
/// start.
proof fn lemma_rounds_props(m: GraphModel, a: int, k: nat)
    requires
        m.wf(),
    ensures
        m.grow_rounds(set![a], k).finite(),
        m.grow_rounds(set![a], k).subset_of(
            vstd::set_lib::set_int_range(0, m.nodes.len() as int).insert(a),
        ),
    decreases k,
{
    broadcast use vstd::set::group_set_axioms;

    let bound = vstd::set_lib::set_int_range(0, m.nodes.len() as int).insert(a);
    if k == 0 {
        assert(set![a].subset_of(bound));
    } else {
        lemma_rounds_props(m, a, (k - 1) as nat);
        lemma_grow_upto_finite(m, m.grow_rounds(set![a], (k - 1) as nat), m.incoming.len() as int);
        lemma_grow_upto_bounded(
            m,
            m.grow_rounds(set![a], (k - 1) as nat),
            m.incoming.len() as int,
            bound,
        );
    }
}

/// While no round below `k` is fixed, the sets grow by at least one
/// member per round.
proof fn lemma_rounds_grow_len(m: GraphModel, a: int, k: nat, bound: Set<int>)
    requires
        m.wf(),
        bound == vstd::set_lib::set_int_range(0, m.nodes.len() as int).insert(a),
        forall|k2: nat|
            k2 < m.nodes.len() ==> !(#[trigger] m.grow_rounds(set![a], k2 + 1) =~= m.grow_rounds(
                set![a],
                k2,
            )),
        k <= m.nodes.len(),
    ensures
        m.grow_rounds(set![a], k).len() >= k + 1,
    decreases k,
{
    broadcast use vstd::set::group_set_axioms;

    if k == 0 {
        assert(m.grow_rounds(set![a], 0) == set![a]);
        assert(set![a].contains(a));
        assert(set![a].len() == 1);
    } else {
        let prev = m.grow_rounds(set![a], (k - 1) as nat);
        let cur = m.grow_rounds(set![a], k);
        lemma_rounds_grow_len(m, a, (k - 1) as nat, bound);
        lemma_rounds_props(m, a, (k - 1) as nat);
        lemma_rounds_props(m, a, k);
        lemma_grow_upto_inflationary(m, prev, m.incoming.len() as int);
        assert(prev.subset_of(cur));
        assert(!(cur =~= prev));
        let e = choose|e: int| cur.contains(e) && !prev.contains(e);
        prev.lemma_subset_not_in_lt(cur, e);
    }
}

/// LAW (cycle guard, reflexivity): a node always counts as reaching
/// itself, so a connection whose source node is the destination's own
/// is caught by the guard as well as by the same-node check.
pub proof fn lemma_reachable_refl(m: GraphModel, a: int)
    ensures
        m.reachable_from(a).contains(a),
{
    lemma_rounds_refl(m, a, m.nodes.len() as nat);
}

proof fn lemma_rounds_refl(m: GraphModel, a: int, k: nat)
    ensures
        m.grow_rounds(set![a], k).contains(a),
    decreases k,
{
    if k > 0 {
        lemma_rounds_refl(m, a, (k - 1) as nat);
        lemma_grow_upto_inflationary(m, m.grow_rounds(set![a], (k - 1) as nat), m.incoming.len() as int);
    }
}

/// LAW (cycle guard, closure): the reach set of `a` is closed under the
/// dependency edges. With reflexivity this means any chain of
/// connections from `a` ends inside `reachable_from(a)`, so `connect`
/// refuses exactly the edges that would close a node-to-node cycle.
pub proof fn lemma_reachable_closed(m: GraphModel, a: int, x: int, y: int)
    requires
        m.wf(),
        m.reachable_from(a).contains(x),
        m.edge(x, y),
    ensures
        m.reachable_from(a).contains(y),
{
    lemma_reachable_is_fixpoint(m, a);
    lemma_grow_crosses_edge(m, m.reachable_from(a), x, y);
}

/// LAW: disconnecting an input that holds no connection is a no-op.
/// The model after the clear is the model before it, so `disconnect`
/// on an unconnected input changes nothing and reports nothing.
pub proof fn lemma_disconnect_unconnected_noop(m: GraphModel, i: int)
    requires
        0 <= i < m.incoming.len(),
        m.incoming[i] is None,
    ensures
        m.without_connection(i) == m,
{
    assert(m.incoming.update(i, None) =~= m.incoming);
    assert(m.without_connection(i) =~= m);
}

} // verus!
