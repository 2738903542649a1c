//! The store of the nodes of one generation: it takes nodes until its
//! limits are reached and gives none back before it is cleared as a whole.

use crate::search_tree::{EdgeView, NodeId, NodeView, SearchNode, SCALE};
use vstd::prelude::*;

verus! {

/// Why an arena refuses.
#[derive(Clone, Copy, Debug, PartialEq, Eq, Structural)]
pub enum Error {
    /// The arena has no room left.
    Full,
}

/// What an arena holds.
pub ghost struct ArenaView {
    pub nodes: Seq<NodeView>,
    /// Most nodes that the arena takes.
    pub node_limit: nat,
    /// Most edges that the arena takes, over all its nodes.
    pub edge_limit: nat,
    /// Edges taken so far.
    pub edges: nat,
    /// A request has been refused since the arena was last cleared.
    pub full: bool,
}

impl ArenaView {
    pub open spec fn wf(self) -> bool {
        &&& self.nodes.len() <= self.node_limit
        &&& self.edges <= self.edge_limit
        &&& forall|i: int| 0 <= i < self.nodes.len() ==> (#[trigger] self.nodes[i]).wf()
    }

    /// The arena with its node `i` changed to `node`.
    pub open spec fn with_node(self, i: int, node: NodeView) -> ArenaView {
        ArenaView { nodes: self.nodes.update(i, node), ..self }
    }

    /// The arena after it has been cleared: empty, with its limits.
    pub open spec fn cleared(self) -> ArenaView {
        ArenaView { nodes: Seq::empty(), edges: 0, full: false, ..self }
    }

    /// Whether the arena grants `n` more edges.
    pub open spec fn grants_edges(self, n: nat) -> bool {
        !self.full && self.edges + n <= self.edge_limit
    }

    /// Whether the arena grants one more node.
    pub open spec fn grants_node(self) -> bool {
        !self.full && self.nodes.len() < self.node_limit
    }

    /// The arena after a request for `n` edges.
    pub open spec fn after_edges(self, n: nat) -> ArenaView {
        if self.grants_edges(n) {
            ArenaView { edges: self.edges + n, ..self }
        } else {
            ArenaView { full: true, ..self }
        }
    }

    /// The arena after a request to take `node`.
    pub open spec fn after_node(self, node: NodeView) -> ArenaView {
        if self.grants_node() {
            ArenaView { nodes: self.nodes.push(node), ..self }
        } else {
            ArenaView { full: true, ..self }
        }
    }

    /// Whether the arena takes `node` with its edges.
    pub open spec fn grants(self, node: NodeView) -> bool {
        self.grants_edges(node.edges.len()) && self.nodes.len() < self.node_limit
    }

    /// The arena after a request to take `node` with its edges: the edges
    /// are asked for first, the node only if they are granted.
    pub open spec fn after_store(self, node: NodeView) -> ArenaView {
        if self.grants_edges(node.edges.len()) {
            self.after_edges(node.edges.len()).after_node(node)
        } else {
            self.after_edges(node.edges.len())
        }
    }

    /// The arena with no edge of any node knowing where it leads.
    pub open spec fn without_links(self) -> ArenaView {
        ArenaView {
            nodes: Seq::new(self.nodes.len(), |i: int| self.nodes[i].without_links()),
            ..self
        }
    }
}

pub struct Arena {
    nodes: Vec<SearchNode>,
    node_limit: usize,
    edge_limit: usize,
    edges: usize,
    full: bool,
}

impl View for Arena {
    type V = ArenaView;

    closed spec fn view(&self) -> ArenaView {
        ArenaView {
            nodes: self.nodes@.map_values(|n: SearchNode| n@),
            node_limit: self.node_limit as nat,
            edge_limit: self.edge_limit as nat,
            edges: self.edges as nat,
            full: self.full,
        }
    }
}

impl Arena {
    /// An empty arena that takes up to `node_limit` nodes with up to
    /// `edge_limit` edges between them.
    pub fn new(node_limit: usize, edge_limit: usize) -> (r: Arena)
        ensures
            r@ == (ArenaView {
                nodes: Seq::empty(),
                node_limit: node_limit as nat,
                edge_limit: edge_limit as nat,
                edges: 0,
                full: false,
            }),
            r@.wf(),
    {
        let arena = Arena { nodes: Vec::new(), node_limit, edge_limit, edges: 0, full: false };
        proof {
            assert(arena@.nodes =~= Seq::empty());
        }
        arena
    }

    /// Asks for room for the `n` edges of a node.
    pub fn alloc_move_info(&mut self, n: usize) -> (r: Result<(), Error>)
        requires
            old(self)@.wf(),
        ensures
            r.is_ok() <==> old(self)@.grants_edges(n as nat),
            final(self)@ == old(self)@.after_edges(n as nat),
            final(self)@.wf(),
    {
        if self.full || n > self.edge_limit - self.edges {
            self.full = true;
            return Err(Error::Full);
        }
        self.edges = self.edges + n;
        Ok(())
    }

    /// Asks the arena to take `node`; on success, returns its place.
    pub fn alloc_node(&mut self, node: SearchNode) -> (r: Result<usize, Error>)
        ensures
            r.is_ok() <==> old(self)@.grants_node(),
            final(self)@ == old(self)@.after_node(node@),
            r matches Ok(i) ==> i == old(self)@.nodes.len(),
            old(self)@.wf() && node@.wf() ==> final(self)@.wf(),
    {
        if self.full || self.nodes.len() >= self.node_limit {
            self.full = true;
            return Err(Error::Full);
        }
        let index = self.nodes.len();
        self.nodes.push(node);
        proof {
            assert(self@.nodes =~= old(self)@.nodes.push(node@));
        }
        Ok(index)
    }

    /// Asks the arena to take `node` with its edges; on success, returns
    /// the place of the node.
    pub fn store(&mut self, node: SearchNode) -> (r: Result<usize, Error>)
        requires
            old(self)@.wf(),
            node@.wf(),
        ensures
            r.is_ok() <==> old(self)@.grants(node@),
            final(self)@ == old(self)@.after_store(node@),
            r matches Ok(i) ==> i == old(self)@.nodes.len(),
            r.is_err() ==> final(self)@.full,
            final(self)@.wf(),
    {
        match self.alloc_move_info(node.len()) {
            Ok(()) => self.alloc_node(node),
            Err(e) => Err(e),
        }
    }

    pub fn is_full(&self) -> (r: bool)
        ensures
            r == self@.full,
    {
        self.full
    }

    /// Number of nodes.
    pub fn len(&self) -> (r: usize)
        ensures
            r == self@.nodes.len(),
    {
        self.nodes.len()
    }

    pub fn node(&self, i: usize) -> (r: &SearchNode)
        requires
            i < self@.nodes.len(),
        ensures
            r@ == self@.nodes[i as int],
    {
        &self.nodes[i]
    }

    /// Empties the arena.
    pub fn clear(&mut self)
        ensures
            final(self)@ == old(self)@.cleared(),
            final(self)@.wf(),
    {
        self.nodes.clear();
        self.edges = 0;
        self.full = false;
        proof {
            assert(self@.nodes =~= Seq::empty());
        }
    }

    /// Makes every edge of every node forget where it leads.
    pub fn clear_links(&mut self)
        ensures
            final(self)@ == old(self)@.without_links(),
            old(self)@.wf() ==> final(self)@.wf(),
    {
        let mut i: usize = 0;
        while i < self.nodes.len()
            invariant
                i <= self.nodes@.len(),
                self.nodes@.len() == old(self)@.nodes.len(),
                self@.nodes.len() == old(self)@.nodes.len(),
                self@.node_limit == old(self)@.node_limit,
                self@.edge_limit == old(self)@.edge_limit,
                self@.edges == old(self)@.edges,
                self@.full == old(self)@.full,
                forall|k: int|
                    0 <= k < i ==> #[trigger] self@.nodes[k] == old(self)@.nodes[k].without_links(),
                forall|k: int|
                    i <= k < self@.nodes.len() ==> #[trigger] self@.nodes[k] == old(self)@.nodes[k],
                old(self)@.wf() ==> forall|k: int|
                    0 <= k < self@.nodes.len() ==> (#[trigger] self@.nodes[k]).wf(),
            decreases self.nodes@.len() - i,
        {
            let ghost before = self@;
            assert(before.nodes[i as int] == old(self)@.nodes[i as int]);
            let node = &mut self.nodes[i];
            node.clear_children_links();
            proof {
                assert(self@.nodes =~= before.nodes.update(i as int, self.nodes@[i as int]@));
            }
            i = i + 1;
        }
        proof {
            assert(self@.nodes =~= old(self)@.without_links().nodes);
        }
    }

    /// A playout goes down edge `edge` of node `node`.
    pub fn down_edge(&mut self, node: usize, edge: usize)
        requires
            old(self)@.wf(),
            node < old(self)@.nodes.len(),
            edge < old(self)@.nodes[node as int].edges.len(),
            old(self)@.nodes[node as int].edges[edge as int].visits < u32::MAX,
        ensures
            final(self)@ == old(self)@.with_node(
                node as int,
                old(self)@.nodes[node as int].with_edge(
                    edge as int,
                    old(self)@.nodes[node as int].edges[edge as int].descended(),
                ),
            ),
            final(self)@.wf(),
    {
        let target = &mut self.nodes[node];
        target.down_edge(edge);
        proof {
            assert(self@.nodes =~= old(self)@.nodes.update(node as int, self.nodes@[node as int]@));
        }
    }

    /// A playout comes back up edge `edge` of node `node` with the reward
    /// `evaln`.
    pub fn up_edge(&mut self, node: usize, edge: usize, evaln: i64)
        requires
            old(self)@.wf(),
            node < old(self)@.nodes.len(),
            edge < old(self)@.nodes[node as int].edges.len(),
            old(self)@.nodes[node as int].edges[edge as int].in_flight > 0,
            -SCALE <= evaln <= SCALE,
        ensures
            final(self)@ == old(self)@.with_node(
                node as int,
                old(self)@.nodes[node as int].with_edge(
                    edge as int,
                    old(self)@.nodes[node as int].edges[edge as int].ascended(evaln as int),
                ),
            ),
            final(self)@.wf(),
    {
        let target = &mut self.nodes[node];
        target.up_edge(edge, evaln);
        proof {
            assert(self@.nodes =~= old(self)@.nodes.update(node as int, self.nodes@[node as int]@));
        }
    }

    /// Tells edge `edge` of node `node` where it leads.
    pub fn link_edge(&mut self, node: usize, edge: usize, child: Option<NodeId>)
        requires
            node < old(self)@.nodes.len(),
            edge < old(self)@.nodes[node as int].edges.len(),
        ensures
            final(self)@ == old(self)@.with_node(
                node as int,
                old(self)@.nodes[node as int].with_edge(
                    edge as int,
                    EdgeView { child, ..old(self)@.nodes[node as int].edges[edge as int] },
                ),
            ),
            old(self)@.wf() ==> final(self)@.wf(),
    {
        let target = &mut self.nodes[node];
        target.link_edge(edge, child);
        proof {
            assert(self@.nodes =~= old(self)@.nodes.update(node as int, self.nodes@[node as int]@));
        }
    }
}

} // verus!
