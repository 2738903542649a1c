//! The tables that find the node of a position by its key: one table for
//! each of two generations of nodes, the older of which is given up when
//! the younger has no room left.

use crate::arena::{Arena, ArenaView, Error};
use crate::search_tree::{EdgeView, NodeId, NodeView, SearchNode, SCALE};
use std::collections::HashMap;
use vstd::prelude::*;

verus! {

broadcast use vstd::std_specs::hash::group_hash_axioms;

/// What a table holds: the nodes of its arena, and for each key that it
/// knows the place of the node of that position.
pub ghost struct TableView {
    pub arena: ArenaView,
    pub entries: Map<u64, usize>,
}

impl TableView {
    pub open spec fn wf(self) -> bool {
        &&& self.arena.wf()
        &&& forall|key: u64| #[trigger]
            self.entries.contains_key(key) ==> self.entries[key] < self.arena.nodes.len()
    }

    /// The place of the node of the position with key `key`.
    pub open spec fn find(self, key: u64) -> Option<usize> {
        if self.entries.contains_key(key) {
            Some(self.entries[key])
        } else {
            None
        }
    }

    /// A table without nodes, with the limits of this one.
    pub open spec fn cleared(self) -> TableView {
        TableView { arena: self.arena.cleared(), entries: Map::empty() }
    }
}

/// The nodes of one generation and the keys of their positions.
pub struct TranspositionTable {
    arena: Arena,
    table: HashMap<u64, usize>,
}

impl View for TranspositionTable {
    type V = TableView;

    closed spec fn view(&self) -> TableView {
        TableView { arena: self.arena@, entries: self.table@ }
    }
}

impl TranspositionTable {
    /// A table without nodes that takes up to `node_limit` nodes with up to
    /// `edge_limit` edges between them.
    pub fn empty(node_limit: usize, edge_limit: usize) -> (r: TranspositionTable)
        ensures
            r@.wf(),
            r@.arena == (ArenaView {
                nodes: Seq::empty(),
                node_limit: node_limit as nat,
                edge_limit: edge_limit as nat,
                edges: 0,
                full: false,
            }),
            r@.entries == Map::<u64, usize>::empty(),
    {
        TranspositionTable { arena: Arena::new(node_limit, edge_limit), table: HashMap::new() }
    }

    pub fn arena(&self) -> (r: &Arena)
        ensures
            r@ == self@.arena,
    {
        &self.arena
    }

    /// The place of the node of the position with key `key`.
    pub fn lookup(&self, key: u64) -> (r: Option<usize>)
        ensures
            r == self@.find(key),
    {
        match self.table.get(&key) {
            Some(index) => Some(*index),
            None => None,
        }
    }

    /// Notes that the node of the position with key `key` is at `index`,
    /// unless the table knows a node of that position: then it returns the
    /// place of that node and stays as it is.
    pub fn insert(&mut self, key: u64, index: usize) -> (r: Option<usize>)
        requires
            old(self)@.wf(),
            index < old(self)@.arena.nodes.len(),
        ensures
            r == old(self)@.find(key),
            final(self)@.arena == old(self)@.arena,
            final(self)@.entries == if r.is_some() {
                old(self)@.entries
            } else {
                old(self)@.entries.insert(key, index)
            },
            final(self)@.wf(),
    {
        match self.lookup(key) {
            Some(existing) => Some(existing),
            None => {
                self.table.insert(key, index);
                None
            },
        }
    }
}

/// What a pair of tables holds.
pub ghost struct LRView {
    /// The table that new nodes go to.
    pub active: TableView,
    /// The table of the generation before.
    pub previous: TableView,
    /// The generation of the nodes of `active`.
    pub active_generation: u64,
    /// The generation of the nodes of `previous`.
    pub previous_generation: u64,
    /// The first generation that has not been used.
    pub next_generation: u64,
}

impl LRView {
    /// A link is sound if it names no node that is missing from a table
    /// whose generation it bears.
    pub open spec fn link_ok(self, link: Option<NodeId>) -> bool {
        link matches Some(id) ==> {
            &&& id.generation < self.next_generation
            &&& id.generation == self.active_generation ==> id.index
                < self.active.arena.nodes.len()
            &&& id.generation == self.previous_generation ==> id.index
                < self.previous.arena.nodes.len()
        }
    }

    /// All links of the node are sound.
    pub open spec fn links_ok(self, node: NodeView) -> bool {
        forall|j: int| 0 <= j < node.edges.len() ==> self.link_ok((#[trigger] node.edges[j]).child)
    }

    pub open spec fn wf(self) -> bool {
        &&& self.active.wf()
        &&& self.previous.wf()
        &&& 0 < self.active_generation < self.next_generation
        &&& 0 < self.previous_generation < self.next_generation
        &&& self.active_generation != self.previous_generation
        &&& forall|i: int|
            0 <= i < self.active.arena.nodes.len() ==> self.links_ok(
                #[trigger] self.active.arena.nodes[i],
            )
        &&& forall|i: int|
            0 <= i < self.previous.arena.nodes.len() ==> self.links_ok(
                #[trigger] self.previous.arena.nodes[i],
            )
    }

    /// The node with this name is in one of the two tables.
    pub open spec fn live(self, id: NodeId) -> bool {
        ||| id.generation == self.active_generation && id.index < self.active.arena.nodes.len()
        ||| id.generation == self.previous_generation && id.index
            < self.previous.arena.nodes.len()
    }

    /// The node with the name `id`, which is live.
    pub open spec fn node(self, id: NodeId) -> NodeView {
        if id.generation == self.active_generation {
            self.active.arena.nodes[id.index as int]
        } else {
            self.previous.arena.nodes[id.index as int]
        }
    }

    /// The tables with the node `id`, which is live, changed to `node`.
    pub open spec fn with_node(self, id: NodeId, node: NodeView) -> LRView {
        if id.generation == self.active_generation {
            LRView {
                active: TableView {
                    arena: self.active.arena.with_node(id.index as int, node),
                    ..self.active
                },
                ..self
            }
        } else {
            LRView {
                previous: TableView {
                    arena: self.previous.arena.with_node(id.index as int, node),
                    ..self.previous
                },
                ..self
            }
        }
    }

    /// The tables with `arena` as the arena of the active one.
    pub open spec fn with_active_arena(self, arena: ArenaView) -> LRView {
        LRView { active: TableView { arena, ..self.active }, ..self }
    }

    /// The name of the node of the position with key `key`, the active
    /// table asked first.
    pub open spec fn find(self, key: u64) -> Option<NodeId> {
        match self.active.find(key) {
            Some(index) => Some(NodeId { generation: self.active_generation, index }),
            None => match self.previous.find(key) {
                Some(index) => Some(NodeId { generation: self.previous_generation, index }),
                None => None,
            },
        }
    }

    /// What asking for the node of the position with key `key` does to the
    /// tables and returns. A node that only the previous table knows is
    /// copied into the active arena and noted in the active table, if the
    /// arena grants it; if not, the node of the previous table is named.
    pub open spec fn looked_up(self, key: u64) -> (LRView, Option<NodeId>) {
        match self.active.find(key) {
            Some(index) => (self, Some(NodeId { generation: self.active_generation, index })),
            None => match self.previous.find(key) {
                None => (self, None),
                Some(index) => {
                    let node = self.previous.arena.nodes[index as int];
                    let arena = self.active.arena.after_store(node);
                    let place = self.active.arena.nodes.len() as usize;
                    if self.active.arena.grants(node) {
                        (
                            LRView {
                                active: TableView {
                                    arena,
                                    entries: self.active.entries.insert(key, place),
                                },
                                ..self
                            },
                            Some(NodeId { generation: self.active_generation, index: place }),
                        )
                    } else {
                        (
                            LRView { active: TableView { arena, ..self.active }, ..self },
                            Some(NodeId { generation: self.previous_generation, index }),
                        )
                    }
                },
            },
        }
    }

    /// The tables after the generations have changed places: the active
    /// table becomes the previous one, and an empty table of a generation
    /// never used before becomes the active one. Where the generations
    /// have run out, both tables are emptied and the count starts again.
    pub open spec fn flipped(self) -> LRView {
        if self.next_generation == u64::MAX {
            LRView {
                active: self.previous.cleared(),
                previous: self.active.cleared(),
                previous_generation: 1,
                active_generation: 2,
                next_generation: 3,
            }
        } else {
            LRView {
                active: self.previous.cleared(),
                previous: self.active,
                previous_generation: self.active_generation,
                active_generation: self.next_generation,
                next_generation: (self.next_generation + 1) as u64,
            }
        }
    }
}

/// A sound link stays sound while the tables keep their generations and
/// lose no node.
pub proof fn lemma_links_stay_ok(before: LRView, after: LRView, node: NodeView)
    requires
        before.links_ok(node),
        after.active_generation == before.active_generation,
        after.previous_generation == before.previous_generation,
        after.next_generation == before.next_generation,
        after.active.arena.nodes.len() >= before.active.arena.nodes.len(),
        after.previous.arena.nodes.len() >= before.previous.arena.nodes.len(),
    ensures
        after.links_ok(node),
{
    assert forall|j: int| 0 <= j < node.edges.len() implies after.link_ok(
        (#[trigger] node.edges[j]).child,
    ) by {
        assert(before.link_ok(node.edges[j].child));
    }
}

/// All links stay sound while the tables keep their generations, the
/// previous arena keeps its nodes, and the active arena keeps its nodes and
/// gains at most nodes whose links are sound.
pub proof fn lemma_growth_keeps_links(before: LRView, after: LRView)
    requires
        before.wf(),
        after.active_generation == before.active_generation,
        after.previous_generation == before.previous_generation,
        after.next_generation == before.next_generation,
        after.previous.arena.nodes == before.previous.arena.nodes,
        after.active.arena.nodes.len() >= before.active.arena.nodes.len(),
        forall|i: int|
            0 <= i < before.active.arena.nodes.len() ==> #[trigger] after.active.arena.nodes[i]
                == before.active.arena.nodes[i],
        forall|i: int|
            before.active.arena.nodes.len() <= i < after.active.arena.nodes.len()
                ==> before.links_ok(#[trigger] after.active.arena.nodes[i]),
    ensures
        forall|i: int|
            0 <= i < after.active.arena.nodes.len() ==> after.links_ok(
                #[trigger] after.active.arena.nodes[i],
            ),
        forall|i: int|
            0 <= i < after.previous.arena.nodes.len() ==> after.links_ok(
                #[trigger] after.previous.arena.nodes[i],
            ),
{
    assert forall|i: int| 0 <= i < after.active.arena.nodes.len() implies after.links_ok(
        #[trigger] after.active.arena.nodes[i],
    ) by {
        if i < before.active.arena.nodes.len() {
            assert(before.links_ok(before.active.arena.nodes[i]));
        }
        lemma_links_stay_ok(before, after, after.active.arena.nodes[i]);
    }
    assert forall|i: int| 0 <= i < after.previous.arena.nodes.len() implies after.links_ok(
        #[trigger] after.previous.arena.nodes[i],
    ) by {
        assert(before.links_ok(before.previous.arena.nodes[i]));
        lemma_links_stay_ok(before, after, before.previous.arena.nodes[i]);
    }
}

/// The tables of two generations.
pub struct LRTable {
    active: TranspositionTable,
    previous: TranspositionTable,
    active_generation: u64,
    previous_generation: u64,
    next_generation: u64,
}

impl View for LRTable {
    type V = LRView;

    closed spec fn view(&self) -> LRView {
        LRView {
            active: self.active@,
            previous: self.previous@,
            active_generation: self.active_generation,
            previous_generation: self.previous_generation,
            next_generation: self.next_generation,
        }
    }
}

impl LRTable {
    /// The pair of `current`, as the active table, and `previous`. The
    /// nodes keep their counts; their edges forget where they lead.
    pub fn new(current: TranspositionTable, previous: TranspositionTable) -> (r: LRTable)
        requires
            current@.wf(),
            previous@.wf(),
        ensures
            r@.wf(),
            r@.active == (TableView { arena: current@.arena.without_links(), ..current@ }),
            r@.previous == (TableView { arena: previous@.arena.without_links(), ..previous@ }),
            r@.previous_generation == 1,
            r@.active_generation == 2,
            r@.next_generation == 3,
    {
        let mut current = current;
        let mut previous = previous;
        current.arena.clear_links();
        previous.arena.clear_links();
        let table = LRTable {
            active: current,
            previous,
            active_generation: 2,
            previous_generation: 1,
            next_generation: 3,
        };
        proof {
            assert forall|i: int| 0 <= i < table@.active.arena.nodes.len() implies table@.links_ok(
                #[trigger] table@.active.arena.nodes[i],
            ) by {
                let node = table@.active.arena.nodes[i];
                assert forall|j: int| 0 <= j < node.edges.len() implies table@.link_ok(
                    (#[trigger] node.edges[j]).child,
                ) by {}
            }
            assert forall|i: int| 0 <= i < table@.previous.arena.nodes.len() implies table@.links_ok(
                #[trigger] table@.previous.arena.nodes[i],
            ) by {
                let node = table@.previous.arena.nodes[i];
                assert forall|j: int| 0 <= j < node.edges.len() implies table@.link_ok(
                    (#[trigger] node.edges[j]).child,
                ) by {}
            }
        }
        table
    }

    /// The node with the name `id`, if it is in one of the tables.
    pub fn node(&self, id: NodeId) -> (r: Option<&SearchNode>)
        requires
            self@.wf(),
        ensures
            r.is_some() <==> self@.live(id),
            r matches Some(node) ==> node@ == self@.node(id),
    {
        if id.generation == self.active_generation {
            if id.index < self.active.arena.len() {
                Some(self.active.arena.node(id.index))
            } else {
                None
            }
        } else if id.generation == self.previous_generation {
            if id.index < self.previous.arena.len() {
                Some(self.previous.arena.node(id.index))
            } else {
                None
            }
        } else {
            None
        }
    }

    /// Whether the active arena has refused a request.
    pub fn is_arena_full(&self) -> (r: bool)
        ensures
            r == self@.active.arena.full,
    {
        self.active.arena.is_full()
    }

    /// The generation of the nodes that are made now.
    pub fn generation(&self) -> (r: u64)
        ensures
            r == self@.active_generation,
    {
        self.active_generation
    }

    /// Gives up the pair and hands out the active table.
    pub fn table(self) -> (r: TranspositionTable)
        ensures
            r@ == self@.active,
    {
        self.active
    }

    /// The name of the node of the position with key `key`, where a table
    /// knows one. A node found in the previous table only is copied to the
    /// active one and noted there, if the active arena takes it; if not,
    /// the node of the previous table is named.
    pub fn lookup(&mut self, key: u64) -> (r: Option<NodeId>)
        requires
            old(self)@.wf(),
        ensures
            final(self)@.wf(),
            (final(self)@, r) == old(self)@.looked_up(key),
            r.is_some() <==> old(self)@.find(key).is_some(),
            r matches Some(id) ==> final(self)@.live(id),
            forall|id: NodeId| #[trigger]
                old(self)@.live(id) ==> final(self)@.live(id) && final(self)@.node(id) == old(
                    self,
                )@.node(id),
    {
        if let Some(index) = self.active.lookup(key) {
            return Some(NodeId { generation: self.active_generation, index });
        }
        let index = match self.previous.lookup(key) {
            Some(index) => index,
            None => {
                return None;
            },
        };
        let copy = self.previous.arena.node(index).duplicate();
        let ghost node = copy@;
        assert(old(self)@.links_ok(old(self)@.previous.arena.nodes[index as int]));
        match self.active.arena.store(copy) {
            Ok(place) => {
                self.active.table.insert(key, place);
                proof {
                    lemma_growth_keeps_links(old(self)@, self@);
                }
                Some(NodeId { generation: self.active_generation, index: place })
            },
            Err(_) => {
                proof {
                    lemma_growth_keeps_links(old(self)@, self@);
                }
                Some(NodeId { generation: self.previous_generation, index })
            },
        }
    }

    /// Warms up `node`, the node of the position with key `key`, with the
    /// counts of the node that a table knows for that position, the active
    /// table asked first.
    pub fn lookup_into(&self, key: u64, node: &mut SearchNode)
        requires
            self@.wf(),
            old(node)@.wf(),
            old(node)@.settled(),
        ensures
            final(node)@ == (match self@.find(key) {
                Some(id) => old(node)@.warmed(self@.node(id)),
                None => old(node)@,
            }),
            final(node)@.wf(),
            final(node)@.settled(),
    {
        if let Some(index) = self.active.lookup(key) {
            node.warm_start(self.active.arena.node(index));
        } else if let Some(index) = self.previous.lookup(key) {
            node.warm_start(self.previous.arena.node(index));
        }
    }

    /// Notes in the active table that the node of the position with key
    /// `key` is at `index` of the active arena, unless the table knows a
    /// node of that position: then it returns the name of that node and
    /// stays as it is.
    pub fn insert(&mut self, key: u64, index: usize) -> (r: Option<NodeId>)
        requires
            old(self)@.wf(),
            index < old(self)@.active.arena.nodes.len(),
        ensures
            final(self)@.wf(),
            r == (match old(self)@.active.find(key) {
                Some(existing) => Some(
                    NodeId { generation: old(self)@.active_generation, index: existing },
                ),
                None => None,
            }),
            r matches Some(id) ==> final(self)@.live(id),
            final(self)@ == (LRView {
                active: TableView {
                    entries: if r.is_some() {
                        old(self)@.active.entries
                    } else {
                        old(self)@.active.entries.insert(key, index)
                    },
                    ..old(self)@.active
                },
                ..old(self)@
            }),
    {
        let existing = self.active.insert(key, index);
        proof {
            lemma_growth_keeps_links(old(self)@, self@);
        }
        match existing {
            Some(existing) => Some(NodeId { generation: self.active_generation, index: existing }),
            None => None,
        }
    }

    /// Asks the active arena for room for the `n` edges of a node.
    pub fn alloc_move_info(&mut self, n: usize) -> (r: Result<(), Error>)
        requires
            old(self)@.wf(),
        ensures
            final(self)@.wf(),
            r.is_ok() <==> old(self)@.active.arena.grants_edges(n as nat),
            r.is_err() ==> final(self)@.active.arena.full,
            final(self)@ == old(self)@.with_active_arena(
                old(self)@.active.arena.after_edges(n as nat),
            ),
    {
        let r = self.active.arena.alloc_move_info(n);
        proof {
            lemma_active_arena_keeps_wf(old(self)@, self@.active.arena);
            assert(self@ == old(self)@.with_active_arena(self@.active.arena));
        }
        r
    }

    /// Asks the active arena to take `node`, whose edges do not know where
    /// they lead; on success, returns the name of the node.
    pub fn alloc_node(&mut self, node: SearchNode) -> (r: Result<NodeId, Error>)
        requires
            old(self)@.wf(),
            node@.wf(),
            node@.unlinked(),
        ensures
            final(self)@.wf(),
            r.is_ok() <==> old(self)@.active.arena.grants_node(),
            r.is_err() ==> final(self)@.active.arena.full,
            final(self)@ == old(self)@.with_active_arena(old(self)@.active.arena.after_node(node@)),
            r matches Ok(id) ==> {
                &&& id == (NodeId {
                    generation: old(self)@.active_generation,
                    index: old(self)@.active.arena.nodes.len() as usize,
                })
                &&& final(self)@.live(id)
                &&& final(self)@.node(id) == node@
            },
    {
        let ghost view = node@;
        let r = self.active.arena.alloc_node(node);
        proof {
            assert forall|j: int| 0 <= j < view.edges.len() implies old(self)@.link_ok(
                (#[trigger] view.edges[j]).child,
            ) by {}
            lemma_active_arena_keeps_wf(old(self)@, self@.active.arena);
            assert(self@ == old(self)@.with_active_arena(self@.active.arena));
        }
        match r {
            Ok(index) => Ok(NodeId { generation: self.active_generation, index }),
            Err(e) => Err(e),
        }
    }

    /// The generations change places: see [`LRView::flipped`].
    pub fn flip_tables(&mut self)
        requires
            old(self)@.wf(),
        ensures
            final(self)@ == old(self)@.flipped(),
            final(self)@.wf(),
            final(self)@.active.arena.nodes.len() == 0,
    {
        std::mem::swap(&mut self.active, &mut self.previous);
        self.active.arena.clear();
        self.active.table.clear();
        if self.next_generation == u64::MAX {
            self.previous.arena.clear();
            self.previous.table.clear();
            self.previous_generation = 1;
            self.active_generation = 2;
            self.next_generation = 3;
        } else {
            self.previous_generation = self.active_generation;
            self.active_generation = self.next_generation;
            self.next_generation = self.next_generation + 1;
            proof {
                let after = self@;
                assert forall|i: int| 0 <= i < after.previous.arena.nodes.len() implies after.links_ok(
                    #[trigger] after.previous.arena.nodes[i],
                ) by {
                    let node = after.previous.arena.nodes[i];
                    assert(old(self)@.links_ok(old(self)@.active.arena.nodes[i]));
                    assert forall|j: int| 0 <= j < node.edges.len() implies after.link_ok(
                        (#[trigger] node.edges[j]).child,
                    ) by {
                        assert(old(self)@.link_ok(node.edges[j].child));
                    }
                }
            }
        }
    }

    /// A playout goes down edge `edge` of the node `id`.
    pub fn down_edge(&mut self, id: NodeId, edge: usize)
        requires
            old(self)@.wf(),
            old(self)@.live(id),
            edge < old(self)@.node(id).edges.len(),
            old(self)@.node(id).edges[edge as int].visits < u32::MAX,
        ensures
            final(self)@ == old(self)@.with_node(
                id,
                old(self)@.node(id).with_edge(
                    edge as int,
                    old(self)@.node(id).edges[edge as int].descended(),
                ),
            ),
            final(self)@.wf(),
    {
        if id.generation == self.active_generation {
            self.active.arena.down_edge(id.index, edge);
        } else {
            self.previous.arena.down_edge(id.index, edge);
        }
        proof {
            let changed = self@.node(id).edges[edge as int];
            lemma_edge_change_keeps_wf(old(self)@, id, edge as int, changed);
            assert(self@ == old(self)@.with_node(
                id,
                old(self)@.node(id).with_edge(edge as int, changed),
            ));
        }
    }

    /// A playout comes back up edge `edge` of the node `id` with the
    /// reward `evaln`.
    pub fn up_edge(&mut self, id: NodeId, edge: usize, evaln: i64)
        requires
            old(self)@.wf(),
            old(self)@.live(id),
            edge < old(self)@.node(id).edges.len(),
            old(self)@.node(id).edges[edge as int].in_flight > 0,
            -SCALE <= evaln <= SCALE,
        ensures
            final(self)@ == old(self)@.with_node(
                id,
                old(self)@.node(id).with_edge(
                    edge as int,
                    old(self)@.node(id).edges[edge as int].ascended(evaln as int),
                ),
            ),
            final(self)@.wf(),
    {
        if id.generation == self.active_generation {
            self.active.arena.up_edge(id.index, edge, evaln);
        } else {
            self.previous.arena.up_edge(id.index, edge, evaln);
        }
        proof {
            let changed = self@.node(id).edges[edge as int];
            lemma_edge_change_keeps_wf(old(self)@, id, edge as int, changed);
            assert(self@ == old(self)@.with_node(
                id,
                old(self)@.node(id).with_edge(edge as int, changed),
            ));
        }
    }

    /// Tells edge `edge` of the node `id` that it leads to `child`, which
    /// is a sound link.
    pub fn link_edge(&mut self, id: NodeId, edge: usize, child: Option<NodeId>)
        requires
            old(self)@.wf(),
            old(self)@.live(id),
            edge < old(self)@.node(id).edges.len(),
            old(self)@.link_ok(child),
        ensures
            final(self)@ == old(self)@.with_node(
                id,
                old(self)@.node(id).with_edge(
                    edge as int,
                    EdgeView { child, ..old(self)@.node(id).edges[edge as int] },
                ),
            ),
            final(self)@.wf(),
    {
        if id.generation == self.active_generation {
            self.active.arena.link_edge(id.index, edge, child);
        } else {
            self.previous.arena.link_edge(id.index, edge, child);
        }
        proof {
            let changed = self@.node(id).edges[edge as int];
            lemma_edge_change_keeps_wf(old(self)@, id, edge as int, changed);
            assert(self@ == old(self)@.with_node(
                id,
                old(self)@.node(id).with_edge(edge as int, changed),
            ));
        }
    }
}

/// Changing one edge of one node to a well-formed edge with a sound link
/// keeps the tables well-formed.
pub proof fn lemma_edge_change_keeps_wf(before: LRView, id: NodeId, edge: int, e: EdgeView)
    requires
        before.wf(),
        before.live(id),
        0 <= edge < before.node(id).edges.len(),
        e.wf(),
        before.link_ok(e.child),
    ensures
        before.with_node(id, before.node(id).with_edge(edge, e)).wf(),
{
    let changed = before.node(id).with_edge(edge, e);
    let after = before.with_node(id, changed);
    assert(before.node(id).wf());
    assert(changed.wf()) by {
        assert forall|j: int| 0 <= j < changed.edges.len() implies (#[trigger] changed.edges[j]).wf() by {
            if j != edge {
                assert(before.node(id).edges[j].wf());
            }
        }
    }
    assert(after.active.wf()) by {
        assert forall|i: int| 0 <= i < after.active.arena.nodes.len() implies (
        #[trigger] after.active.arena.nodes[i]).wf() by {
            if !(id.generation == before.active_generation && i == id.index) {
                assert(before.active.arena.nodes[i].wf());
            }
        }
        assert forall|key: u64| #[trigger]
            after.active.entries.contains_key(key) implies after.active.entries[key]
            < after.active.arena.nodes.len() by {
            assert(before.active.entries.contains_key(key));
        }
    }
    assert(after.previous.wf()) by {
        assert forall|i: int| 0 <= i < after.previous.arena.nodes.len() implies (
        #[trigger] after.previous.arena.nodes[i]).wf() by {
            if !(id.generation != before.active_generation && i == id.index) {
                assert(before.previous.arena.nodes[i].wf());
            }
        }
        assert forall|key: u64| #[trigger]
            after.previous.entries.contains_key(key) implies after.previous.entries[key]
            < after.previous.arena.nodes.len() by {
            assert(before.previous.entries.contains_key(key));
        }
    }
    assert forall|i: int| 0 <= i < after.active.arena.nodes.len() implies after.links_ok(
        #[trigger] after.active.arena.nodes[i],
    ) by {
        let node = after.active.arena.nodes[i];
        assert(before.links_ok(before.active.arena.nodes[i]));
        assert forall|j: int| 0 <= j < node.edges.len() implies after.link_ok(
            (#[trigger] node.edges[j]).child,
        ) by {
            if id.generation == before.active_generation && i == id.index && j == edge {
            } else {
                assert(before.link_ok(before.active.arena.nodes[i].edges[j].child));
            }
        }
    }
    assert forall|i: int| 0 <= i < after.previous.arena.nodes.len() implies after.links_ok(
        #[trigger] after.previous.arena.nodes[i],
    ) by {
        let node = after.previous.arena.nodes[i];
        assert(before.links_ok(before.previous.arena.nodes[i]));
        assert forall|j: int| 0 <= j < node.edges.len() implies after.link_ok(
            (#[trigger] node.edges[j]).child,
        ) by {
            if id.generation != before.active_generation && i == id.index && j == edge {
            } else {
                assert(before.link_ok(before.previous.arena.nodes[i].edges[j].child));
            }
        }
    }
}

/// The tables stay well-formed when the active arena keeps its nodes and
/// gains at most nodes whose links are sound.
pub proof fn lemma_active_arena_keeps_wf(before: LRView, arena: ArenaView)
    requires
        before.wf(),
        arena.wf(),
        arena.nodes.len() >= before.active.arena.nodes.len(),
        forall|i: int|
            0 <= i < before.active.arena.nodes.len() ==> #[trigger] arena.nodes[i]
                == before.active.arena.nodes[i],
        forall|i: int|
            before.active.arena.nodes.len() <= i < arena.nodes.len() ==> before.links_ok(
                #[trigger] arena.nodes[i],
            ),
    ensures
        before.with_active_arena(arena).wf(),
{
    let after = before.with_active_arena(arena);
    assert(after.active.wf()) by {
        assert forall|key: u64| #[trigger]
            after.active.entries.contains_key(key) implies after.active.entries[key]
            < after.active.arena.nodes.len() by {
            assert(before.active.entries.contains_key(key));
        }
    }
    lemma_growth_keeps_links(before, after);
}

} // verus!
