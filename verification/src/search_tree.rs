//! The game tree: edges that carry the statistics of the playouts through
//! them, and nodes that own the edges of one position.

use crate::arena::Error as ArenaError;
use crate::evaluation::{evaluate_state_flag, white_flag, Flag, Wdl};
use crate::path::{path_get, path_len, path_new, path_push, path_steps, Step};
use crate::position::Color;
use crate::state::{legal_moves_of, move_copy, played, State};
use crate::transposition_table::{
    lemma_edge_change_keeps_wf, lemma_links_stay_ok, LRTable, LRView, TableView,
    TranspositionTable,
};
use arrayvec::ArrayVec;
use shakmaty::Move;
use vstd::prelude::*;

verus! {

/// The unit in which the rewards of the search are counted: a certain win
/// is worth `SCALE`, a certain loss `-SCALE`.
pub const SCALE: i64 = 65536;

/// What a playout takes off an edge on its way down and gives back on its
/// way up, to keep other playouts off the edge in between.
pub const VIRTUAL_LOSS: i64 = SCALE;

/// The largest number of edges that one playout passes.
pub const MAX_PLAYOUT_LENGTH: usize = 256;

/// Where a node lives: the generation of its arena and its place in it.
#[derive(Clone, Copy, Debug, PartialEq, Eq, Structural)]
pub struct NodeId {
    pub generation: u64,
    pub index: usize,
}

/// What an edge holds.
pub ghost struct EdgeView {
    /// Playouts that went down the edge.
    pub visits: nat,
    /// Sum of the rewards that came back up, less one virtual loss for
    /// each playout that is still below.
    pub sum_evaluations: int,
    /// Playouts that went down and have not come back up.
    pub in_flight: nat,
    /// The prior of the move, as the bits of a 32-bit floating-point number.
    pub policy: u32,
    pub mov: Move,
    /// The node that the move leads to, where it is known.
    pub child: Option<NodeId>,
}

impl EdgeView {
    /// The rewards that came back up, each raised by one `SCALE` so that none
    /// is negative.
    pub open spec fn raised_sum(self) -> int {
        self.sum_evaluations + self.visits * VIRTUAL_LOSS
    }

    /// Holds of every edge of a tree: each playout that came back up has
    /// added a reward between `-SCALE` and `SCALE`.
    pub open spec fn wf(self) -> bool {
        &&& self.visits <= u32::MAX
        &&& self.in_flight <= self.visits
        &&& 0 <= self.raised_sum() <= 2 * (self.visits - self.in_flight) * SCALE
    }

    /// The edge after a playout has gone down it.
    pub open spec fn descended(self) -> EdgeView {
        EdgeView {
            visits: self.visits + 1,
            in_flight: self.in_flight + 1,
            sum_evaluations: self.sum_evaluations - VIRTUAL_LOSS,
            ..self
        }
    }

    /// The edge after a playout has come back up with the reward `evaln`.
    pub open spec fn ascended(self, evaln: int) -> EdgeView {
        EdgeView {
            in_flight: (self.in_flight - 1) as nat,
            sum_evaluations: self.sum_evaluations + evaln + VIRTUAL_LOSS,
            ..self
        }
    }

    /// The edge with the counts of `other` in place of its own.
    pub open spec fn replaced(self, other: EdgeView) -> EdgeView {
        EdgeView { visits: other.visits, sum_evaluations: other.sum_evaluations, ..self }
    }

    /// An edge that no playout has passed.
    pub open spec fn untouched(policy: u32, mov: Move) -> EdgeView {
        EdgeView { visits: 0, sum_evaluations: 0, in_flight: 0, policy, mov, child: None }
    }
}

/// The sum of an edge stays within what its visits allow: with the virtual
/// losses put back, it is at most two units for each visit.
pub proof fn lemma_edge_sum_bounded(e: EdgeView)
    requires
        e.wf(),
    ensures
        0 <= e.visits,
        -(e.visits * 2 * SCALE) <= e.sum_evaluations + e.visits * VIRTUAL_LOSS <= e.visits * 2
            * SCALE,
        -(e.visits * SCALE) <= e.sum_evaluations <= e.visits * SCALE,
{
    assert(2 * (e.visits - e.in_flight) * SCALE <= e.visits * 2 * SCALE) by (nonlinear_arith)
        requires
            0 <= e.in_flight <= e.visits,
    ;
}

/// Going down an edge and coming back up, with a reward in range, keeps the
/// edge well-formed and adds one visit and the reward.
pub proof fn lemma_down_up(e: EdgeView, evaln: int)
    requires
        e.wf(),
        e.visits < u32::MAX,
        -SCALE <= evaln <= SCALE,
    ensures
        e.descended().wf(),
        e.descended().ascended(evaln).wf(),
        e.descended().ascended(evaln) == (EdgeView {
            visits: e.visits + 1,
            sum_evaluations: e.sum_evaluations + evaln,
            ..e
        }),
{
    assert(2 * ((e.visits + 1) - e.in_flight) * SCALE == 2 * (e.visits - e.in_flight) * SCALE + 2
        * SCALE) by (nonlinear_arith);
    assert(2 * ((e.visits + 1) - (e.in_flight + 1)) * SCALE == 2 * (e.visits - e.in_flight)
        * SCALE) by (nonlinear_arith);
}

/// One move out of a position, with the statistics of the playouts that
/// took it.
pub struct HotMoveInfo {
    sum_evaluations: i64,
    visits: u32,
    in_flight: u32,
    policy: u32,
    mov: Move,
    child: Option<NodeId>,
}

impl View for HotMoveInfo {
    type V = EdgeView;

    closed spec fn view(&self) -> EdgeView {
        EdgeView {
            visits: self.visits as nat,
            sum_evaluations: self.sum_evaluations as int,
            in_flight: self.in_flight as nat,
            policy: self.policy,
            mov: self.mov,
            child: self.child,
        }
    }
}

impl HotMoveInfo {
    pub fn new(policy: u32, mov: Move) -> (r: HotMoveInfo)
        ensures
            r@ == EdgeView::untouched(policy, mov),
            r@.wf(),
    {
        HotMoveInfo { policy, sum_evaluations: 0, visits: 0, in_flight: 0, mov, child: None }
    }

    pub fn get_move(&self) -> (r: &Move)
        ensures
            *r == self@.mov,
    {
        &self.mov
    }

    pub fn visits(&self) -> (r: u32)
        ensures
            r == self@.visits,
    {
        self.visits
    }

    pub fn sum_rewards(&self) -> (r: i64)
        ensures
            r == self@.sum_evaluations,
    {
        self.sum_evaluations
    }

    /// Playouts that are below the edge.
    pub fn in_flight(&self) -> (r: u32)
        ensures
            r == self@.in_flight,
    {
        self.in_flight
    }

    /// The prior of the move, as the bits of a 32-bit floating-point number.
    pub fn policy(&self) -> (r: u32)
        ensures
            r == self@.policy,
    {
        self.policy
    }

    pub fn child(&self) -> (r: Option<NodeId>)
        ensures
            r == self@.child,
    {
        self.child
    }

    /// A playout goes down the edge: one visit more, one virtual loss off
    /// the sum.
    pub fn down(&mut self)
        requires
            old(self)@.wf(),
            old(self)@.visits < u32::MAX,
        ensures
            final(self)@ == old(self)@.descended(),
            final(self)@.wf(),
    {
        proof {
            lemma_edge_sum_bounded(self@);
            lemma_down_up(self@, 0);
            assert(self@.visits * SCALE <= 4294967295 * SCALE) by (nonlinear_arith)
                requires
                    self@.visits <= 4294967295,
            ;
        }
        self.sum_evaluations = self.sum_evaluations - VIRTUAL_LOSS;
        self.visits = self.visits + 1;
        self.in_flight = self.in_flight + 1;
    }

    /// A playout comes back up the edge with the reward `evaln`: the
    /// virtual loss returns to the sum, and the reward with it.
    pub fn up(&mut self, evaln: i64)
        requires
            old(self)@.wf(),
            old(self)@.in_flight > 0,
            -SCALE <= evaln <= SCALE,
        ensures
            final(self)@ == old(self)@.ascended(evaln as int),
            final(self)@.wf(),
    {
        proof {
            lemma_edge_sum_bounded(self@);
            assert(self@.visits * SCALE <= 4294967295 * SCALE) by (nonlinear_arith)
                requires
                    self@.visits <= 4294967295,
            ;
            assert(2 * (self@.visits - (self@.in_flight - 1)) * SCALE == 2 * (self@.visits
                - self@.in_flight) * SCALE + 2 * SCALE) by (nonlinear_arith);
        }
        let delta = evaln + VIRTUAL_LOSS;
        self.sum_evaluations = self.sum_evaluations + delta;
        self.in_flight = self.in_flight - 1;
    }

    /// Takes over the visits and the sum of `other`.
    pub fn replace(&mut self, other: &HotMoveInfo)
        requires
            other@.wf(),
            old(self)@.in_flight == 0,
        ensures
            final(self)@ == old(self)@.replaced(other@),
            final(self)@.wf(),
    {
        proof {
            assert(2 * (other@.visits - other@.in_flight) * SCALE <= 2 * (other@.visits - 0)
                * SCALE) by (nonlinear_arith)
                requires
                    0 <= other@.in_flight <= other@.visits,
            ;
        }
        self.visits = other.visits;
        self.sum_evaluations = other.sum_evaluations;
    }

    /// Sets the node that the move leads to.
    pub fn set_child(&mut self, child: Option<NodeId>)
        ensures
            final(self)@ == (EdgeView { child, ..old(self)@ }),
    {
        self.child = child;
    }

    /// Sets the prior of the move.
    pub fn set_policy(&mut self, policy: u32)
        ensures
            final(self)@ == (EdgeView { policy, ..old(self)@ }),
    {
        self.policy = policy;
    }

    /// An edge that holds what this one holds.
    pub fn duplicate(&self) -> (r: HotMoveInfo)
        ensures
            r@ == self@,
    {
        HotMoveInfo {
            sum_evaluations: self.sum_evaluations,
            visits: self.visits,
            in_flight: self.in_flight,
            policy: self.policy,
            mov: move_copy(&self.mov),
            child: self.child,
        }
    }
}

/// What a node holds.
pub ghost struct NodeView {
    pub edges: Seq<EdgeView>,
    pub flag: Flag,
}

impl NodeView {
    /// Holds of every node of a tree: its edges are well-formed, and a node
    /// whose game is over has none.
    pub open spec fn wf(self) -> bool {
        &&& forall|i: int| 0 <= i < self.edges.len() ==> (#[trigger] self.edges[i]).wf()
        &&& self.flag.terminal() ==> self.edges.len() == 0
    }

    /// No playout is below an edge of the node.
    pub open spec fn settled(self) -> bool {
        forall|i: int| 0 <= i < self.edges.len() ==> (#[trigger] self.edges[i]).in_flight == 0
    }

    /// No edge of the node knows where it leads.
    pub open spec fn unlinked(self) -> bool {
        forall|i: int| 0 <= i < self.edges.len() ==> (#[trigger] self.edges[i]).child.is_none()
    }

    /// The node with its edge `i` changed to `edge`.
    pub open spec fn with_edge(self, i: int, edge: EdgeView) -> NodeView {
        NodeView { edges: self.edges.update(i, edge), ..self }
    }

    /// The node with no edge knowing where it leads.
    pub open spec fn without_links(self) -> NodeView {
        NodeView {
            edges: Seq::new(self.edges.len(), |i: int| EdgeView { child: None, ..self.edges[i] }),
            ..self
        }
    }

    /// The node with the priors `evals` on its first edges, as far as there
    /// are both.
    pub open spec fn with_policy(self, evals: Seq<u32>) -> NodeView {
        NodeView {
            edges: Seq::new(
                self.edges.len(),
                |i: int|
                    if i < evals.len() {
                        EdgeView { policy: evals[i], ..self.edges[i] }
                    } else {
                        self.edges[i]
                    },
            ),
            ..self
        }
    }

    /// The node with the counts of `other` on its first edges, as far as
    /// there are both.
    pub open spec fn warmed(self, other: NodeView) -> NodeView {
        NodeView {
            edges: Seq::new(
                self.edges.len(),
                |i: int|
                    if i < other.edges.len() {
                        self.edges[i].replaced(other.edges[i])
                    } else {
                        self.edges[i]
                    },
            ),
            ..self
        }
    }

    /// The node of a position from which `moves` can be played, with the
    /// priors `policy`: one untouched edge for each move that has a prior,
    /// in the order of the moves.
    pub open spec fn created(moves: Seq<Move>, policy: Seq<u32>, flag: Flag) -> NodeView {
        NodeView {
            edges: Seq::new(
                if policy.len() < moves.len() {
                    policy.len()
                } else {
                    moves.len()
                },
                |i: int| EdgeView::untouched(policy[i], moves[i]),
            ),
            flag,
        }
    }
}

/// The record of one position: its edges and its flag.
pub struct SearchNode {
    hots: Vec<HotMoveInfo>,
    flag: Flag,
}

impl View for SearchNode {
    type V = NodeView;

    closed spec fn view(&self) -> NodeView {
        NodeView { edges: self.hots@.map_values(|e: HotMoveInfo| e@), flag: self.flag }
    }
}

impl SearchNode {
    pub fn new(hots: Vec<HotMoveInfo>, flag: Flag) -> (r: SearchNode)
        requires
            flag.terminal() ==> hots@.len() == 0,
        ensures
            r@.edges == hots@.map_values(|e: HotMoveInfo| e@),
            r@.flag == flag,
    {
        SearchNode { hots, flag }
    }

    /// The node that stands for every position drawn by the rules.
    pub fn draw() -> (r: SearchNode)
        ensures
            r@ == draw_view(),
            r@.wf(),
    {
        let node = SearchNode { hots: Vec::new(), flag: Flag::TerminalDraw };
        proof {
            assert(node@.edges =~= draw_view().edges);
        }
        node
    }

    /// The node that stands for every position that has no node yet.
    pub fn unexpanded() -> (r: SearchNode)
        ensures
            r@ == unexpanded_view(),
            r@.wf(),
    {
        let node = SearchNode { hots: Vec::new(), flag: Flag::Standard };
        proof {
            assert(node@.edges =~= unexpanded_view().edges);
        }
        node
    }

    pub fn flag(&self) -> (r: Flag)
        ensures
            r == self@.flag,
    {
        self.flag
    }

    pub fn set_flag(&mut self, flag: Flag)
        requires
            flag.terminal() ==> old(self)@.edges.len() == 0,
        ensures
            final(self)@ == (NodeView { flag, ..old(self)@ }),
    {
        self.flag = flag;
    }

    pub fn is_terminal(&self) -> (r: bool)
        ensures
            r == self@.flag.terminal(),
    {
        self.flag.is_terminal()
    }

    pub fn is_tablebase(&self) -> (r: bool)
        ensures
            r == self@.flag.tablebase(),
    {
        self.flag.is_tablebase()
    }

    pub fn hots(&self) -> (r: &Vec<HotMoveInfo>)
        ensures
            r@.len() == self@.edges.len(),
            forall|i: int| 0 <= i < r@.len() ==> (#[trigger] r@[i])@ == self@.edges[i],
    {
        &self.hots
    }

    /// Number of edges.
    pub fn len(&self) -> (r: usize)
        ensures
            r == self@.edges.len(),
    {
        self.hots.len()
    }

    /// Overwrites the priors of the first edges with `evals`, as far as
    /// there are both.
    pub fn update_policy(&mut self, evals: &[u32])
        ensures
            final(self)@ == old(self)@.with_policy(evals@),
    {
        let n = if self.hots.len() < evals.len() {
            self.hots.len()
        } else {
            evals.len()
        };
        let mut i: usize = 0;
        while i < n
            invariant
                i <= n,
                n <= evals@.len(),
                n == if old(self)@.edges.len() < evals@.len() {
                    old(self)@.edges.len()
                } else {
                    evals@.len()
                },
                self@.flag == old(self)@.flag,
                self@.edges.len() == old(self)@.edges.len(),
                self.hots@.len() == old(self)@.edges.len(),
                forall|k: int|
                    0 <= k < i ==> #[trigger] self@.edges[k] == (EdgeView {
                        policy: evals@[k],
                        ..old(self)@.edges[k]
                    }),
                forall|k: int|
                    i <= k < self@.edges.len() ==> #[trigger] self@.edges[k] == old(self)@.edges[k],
            decreases n - i,
        {
            let ghost before = self@;
            assert(before.edges[i as int] == old(self)@.edges[i as int]);
            let edge = &mut self.hots[i];
            edge.set_policy(evals[i]);
            proof {
                assert(self@.edges =~= before.edges.update(i as int, self.hots@[i as int]@));
            }
            i = i + 1;
        }
        proof {
            assert(self@.edges =~= old(self)@.with_policy(evals@).edges);
        }
    }

    /// Makes every edge forget where it leads.
    pub fn clear_children_links(&mut self)
        ensures
            final(self)@ == old(self)@.without_links(),
            final(self)@.unlinked(),
            old(self)@.wf() ==> final(self)@.wf(),
    {
        let mut i: usize = 0;
        while i < self.hots.len()
            invariant
                i <= self.hots@.len(),
                self@.flag == old(self)@.flag,
                self@.edges.len() == old(self)@.edges.len(),
                self.hots@.len() == old(self)@.edges.len(),
                forall|k: int|
                    0 <= k < i ==> #[trigger] self@.edges[k] == (EdgeView {
                        child: None,
                        ..old(self)@.edges[k]
                    }),
                forall|k: int|
                    i <= k < self@.edges.len() ==> #[trigger] self@.edges[k] == old(self)@.edges[k],
            decreases self.hots@.len() - i,
        {
            let ghost before = self@;
            assert(before.edges[i as int] == old(self)@.edges[i as int]);
            let edge = &mut self.hots[i];
            edge.set_child(None);
            proof {
                assert(self@.edges =~= before.edges.update(i as int, self.hots@[i as int]@));
            }
            i = i + 1;
        }
        proof {
            assert(self@.edges =~= old(self)@.without_links().edges);
        }
    }

    /// A playout goes down edge `i`.
    pub fn down_edge(&mut self, i: usize)
        requires
            i < old(self)@.edges.len(),
            old(self)@.wf(),
            old(self)@.edges[i as int].visits < u32::MAX,
        ensures
            final(self)@ == old(self)@.with_edge(i as int, old(self)@.edges[i as int].descended()),
            final(self)@.wf(),
    {
        let edge = &mut self.hots[i];
        edge.down();
        proof {
            assert(self@.edges =~= old(self)@.edges.update(i as int, self.hots@[i as int]@));
        }
    }

    /// A playout comes back up edge `i` with the reward `evaln`.
    pub fn up_edge(&mut self, i: usize, evaln: i64)
        requires
            i < old(self)@.edges.len(),
            old(self)@.wf(),
            old(self)@.edges[i as int].in_flight > 0,
            -SCALE <= evaln <= SCALE,
        ensures
            final(self)@ == old(self)@.with_edge(
                i as int,
                old(self)@.edges[i as int].ascended(evaln as int),
            ),
            final(self)@.wf(),
    {
        let edge = &mut self.hots[i];
        edge.up(evaln);
        proof {
            assert(self@.edges =~= old(self)@.edges.update(i as int, self.hots@[i as int]@));
        }
    }

    /// Tells edge `i` where it leads.
    pub fn link_edge(&mut self, i: usize, child: Option<NodeId>)
        requires
            i < old(self)@.edges.len(),
        ensures
            final(self)@ == old(self)@.with_edge(
                i as int,
                EdgeView { child, ..old(self)@.edges[i as int] },
            ),
            old(self)@.wf() ==> final(self)@.wf(),
    {
        let edge = &mut self.hots[i];
        edge.set_child(child);
        proof {
            assert(self@.edges =~= old(self)@.edges.update(i as int, self.hots@[i as int]@));
        }
    }

    /// Takes over the counts of the edges of `other`, edge by edge in
    /// their order, as far as there are both.
    pub fn warm_start(&mut self, other: &SearchNode)
        requires
            old(self)@.wf(),
            old(self)@.settled(),
            other@.wf(),
        ensures
            final(self)@ == old(self)@.warmed(other@),
            final(self)@.wf(),
            final(self)@.settled(),
            old(self)@.unlinked() ==> final(self)@.unlinked(),
    {
        let n = if self.hots.len() < other.hots.len() {
            self.hots.len()
        } else {
            other.hots.len()
        };
        let mut i: usize = 0;
        while i < n
            invariant
                i <= n,
                n <= other.hots@.len(),
                n <= self.hots@.len(),
                other@.wf(),
                other@.edges.len() == other.hots@.len(),
                self@.flag == old(self)@.flag,
                self@.edges.len() == old(self)@.edges.len(),
                self.hots@.len() == old(self)@.edges.len(),
                self@.wf(),
                self@.settled(),
                forall|k: int|
                    0 <= k < i ==> #[trigger] self@.edges[k] == old(self)@.edges[k].replaced(
                        other@.edges[k],
                    ),
                forall|k: int|
                    i <= k < self@.edges.len() ==> #[trigger] self@.edges[k] == old(self)@.edges[k],
            decreases n - i,
        {
            let ghost before = self@;
            assert(before.edges[i as int].in_flight == 0);
            assert(other@.edges[i as int].wf());
            let edge = &mut self.hots[i];
            edge.replace(&other.hots[i]);
            proof {
                assert(self@.edges =~= before.edges.update(i as int, self.hots@[i as int]@));
            }
            i = i + 1;
        }
        proof {
            assert(self@.edges =~= old(self)@.warmed(other@).edges);
            if old(self)@.unlinked() {
                assert forall|k: int| 0 <= k < self@.edges.len() implies (
                #[trigger] self@.edges[k]).child.is_none() by {
                    assert(old(self)@.edges[k].child.is_none());
                }
            }
        }
    }

    /// A node that holds what this one holds.
    pub fn duplicate(&self) -> (r: SearchNode)
        ensures
            r@ == self@,
    {
        let mut hots: Vec<HotMoveInfo> = Vec::with_capacity(self.hots.len());
        let mut i: usize = 0;
        while i < self.hots.len()
            invariant
                i <= self.hots@.len(),
                hots@.len() == i,
                forall|k: int| 0 <= k < i ==> (#[trigger] hots@[k])@ == self.hots@[k]@,
            decreases self.hots@.len() - i,
        {
            hots.push(self.hots[i].duplicate());
            i = i + 1;
        }
        let node = SearchNode { hots, flag: self.flag };
        proof {
            assert(node@.edges =~= self@.edges);
        }
        node
    }
}

/// Where a playout stands.
#[derive(Clone, Copy, Debug, PartialEq, Eq, Structural)]
pub enum Cursor {
    /// At the root of the tree.
    Root,
    /// At a node of one of the tables.
    Node(NodeId),
    /// At a position that the rules make a draw.
    Draw,
    /// At a position that has no node.
    Unexpanded,
}

/// How a playout fared when it was sent down an edge.
#[derive(Clone, Copy, Debug, PartialEq, Eq, Structural)]
pub enum Selection {
    /// It did not go: the tree and the playout are as they were.
    Rejected,
    /// It is the first playout down the edge: the position that it
    /// reached is to be evaluated, and the playout ends there.
    Leaf,
    /// It stands at the node that the edge leads to.
    Descended,
    /// No node is known for the position that it reached: the node is to
    /// be made.
    Unknown,
}

/// What the caller of a playout has found out for it.
pub enum Event<'a> {
    /// Nothing: the playout is at its start.
    Start,
    /// The edge to go down, by its place in the node.
    Chosen(usize),
    /// The evaluation for white of the position that the playout reached.
    Evaluated(i64),
    /// What the node of the position that the playout reached is made of,
    /// beside its legal moves: the priors of the moves, in their order, and
    /// the answer of the tablebase.
    Made { policy: &'a [u32], tablebase: Option<Wdl> },
}

/// What a playout needs next from its caller.
#[derive(Clone, Copy, Debug, PartialEq, Eq, Structural)]
pub enum Action {
    /// An edge of the node at which it stands.
    Choose,
    /// The evaluation of the position that it reached.
    Evaluate,
    /// What the node of the position that it reached is made of.
    Make,
    /// Nothing: it has ended and is the playout with this number.
    Done(usize),
    /// Nothing: the arena refused its node, the tree has made room, and
    /// the playout is lost.
    Lost,
}

/// What the tree holds.
pub ghost struct TreeView {
    pub root: NodeView,
    pub tables: LRView,
    /// Sum of the depths of the playouts.
    pub num_nodes: nat,
    /// Playouts that were carried through.
    pub playouts: nat,
    /// Largest depth of a playout.
    pub max_depth: nat,
    /// Nodes made for positions that the tablebase knew.
    pub tb_hits: nat,
    /// The latest second for which a report was due.
    pub next_info: u64,
    /// The exploration constant, as the bits of a 32-bit floating-point
    /// number.
    pub cpuct: u32,
}

/// The node that stands for the positions drawn by the rules.
pub open spec fn draw_view() -> NodeView {
    NodeView { edges: Seq::empty(), flag: Flag::TerminalDraw }
}

/// The node that stands for the positions without a node.
pub open spec fn unexpanded_view() -> NodeView {
    NodeView { edges: Seq::empty(), flag: Flag::Standard }
}

impl TreeView {
    pub open spec fn wf(self) -> bool {
        &&& self.root.wf()
        &&& self.tables.wf()
        &&& self.tables.links_ok(self.root)
    }

    /// The node at which a playout with this cursor stands; none where the
    /// cursor names a node that the tables have given up.
    pub open spec fn node_at(self, cursor: Cursor) -> Option<NodeView> {
        match cursor {
            Cursor::Root => Some(self.root),
            Cursor::Node(id) => if self.tables.live(id) {
                Some(self.tables.node(id))
            } else {
                None
            },
            Cursor::Draw => Some(draw_view()),
            Cursor::Unexpanded => Some(unexpanded_view()),
        }
    }

    /// The tree with the node at `cursor`, the root or a live node, changed
    /// to `node`.
    pub open spec fn with_node_at(self, cursor: Cursor, node: NodeView) -> TreeView {
        match cursor {
            Cursor::Root => TreeView { root: node, ..self },
            Cursor::Node(id) => TreeView { tables: self.tables.with_node(id, node), ..self },
            _ => self,
        }
    }

    /// The tree with edge `edge` of the node at `cursor` changed to `e`.
    pub open spec fn with_edge_at(self, cursor: Cursor, edge: int, e: EdgeView) -> TreeView {
        self.with_node_at(cursor, self.node_at(cursor).unwrap().with_edge(edge, e))
    }

    /// Whether `cursor` names a node that takes playouts: the root or a
    /// node of the tables.
    pub open spec fn holds(self, cursor: Cursor) -> bool {
        match cursor {
            Cursor::Root => true,
            Cursor::Node(id) => self.tables.live(id),
            _ => false,
        }
    }

    /// What sending a playout down edge `choice` of the node at `cursor`
    /// makes of the tree, where the playout stands then and how it fared.
    /// `drawn` and `key` tell of the position behind the edge: whether the
    /// rules make it a draw, and its key.
    ///
    /// The edge takes the playout in any case. The first playout down an
    /// edge ends there. Any other goes to the draw where the position is
    /// drawn, else to the node to which the edge leads; where the edge does
    /// not know, the tables are asked and the edge learns their answer.
    pub open spec fn selected(self, cursor: Cursor, choice: int, drawn: bool, key: u64) -> (
        TreeView,
        Cursor,
        Selection,
    ) {
        let edge = self.node_at(cursor).unwrap().edges[choice];
        let down = self.with_edge_at(cursor, choice, edge.descended());
        if edge.visits == 0 {
            (down, Cursor::Unexpanded, Selection::Leaf)
        } else if drawn {
            (down, Cursor::Draw, Selection::Descended)
        } else if edge.child.is_some() && self.tables.live(edge.child.unwrap()) {
            (down, Cursor::Node(edge.child.unwrap()), Selection::Descended)
        } else {
            let (tables, found) = down.tables.looked_up(key);
            let looked = TreeView { tables, ..down };
            match found {
                Some(id) => (
                    looked.with_edge_at(
                        cursor,
                        choice,
                        EdgeView { child: Some(id), ..edge.descended() },
                    ),
                    Cursor::Node(id),
                    Selection::Descended,
                ),
                None => (looked, cursor, Selection::Unknown),
            }
        }
    }

    /// Whether the tree takes a playout down edge `choice` of the node at
    /// `cursor`, the playout being in the state `state` with `length` edges
    /// behind it: the playout goes on from the node, the node has the edge,
    /// the edge can count one visit more, and the state accepts the move of
    /// the edge.
    pub open spec fn takes(self, cursor: Cursor, state: State, length: nat, choice: int) -> bool {
        &&& self.descends(cursor, state.summary().clock(), length)
        &&& 0 <= choice < self.node_at(cursor).unwrap().edges.len()
        &&& self.node_at(cursor).unwrap().edges[choice].visits < u32::MAX
        &&& state.accepts(self.node_at(cursor).unwrap().edges[choice].mov)
    }

    /// Where edge `choice` of the node at `cursor` leads: to the node that
    /// the edge names, if that node is live; nowhere, if the edge is
    /// missing, names no node or names one that the tables have given up.
    pub open spec fn child_at(self, cursor: Cursor, choice: int) -> Option<Cursor> {
        match self.node_at(cursor) {
            Some(node) => if 0 <= choice < node.edges.len() && node.edges[choice].child.is_some()
                && self.tables.live(node.edges[choice].child.unwrap()) {
                Some(Cursor::Node(node.edges[choice].child.unwrap()))
            } else {
                None
            },
            None => None,
        }
    }

    /// Where the walk along the principal variation stands next, having
    /// taken `taken` moves before it takes edge `choice` of the node at
    /// `at`: at the child, while fewer than `num_moves` moves are taken
    /// with this one.
    pub open spec fn principal_next(
        self,
        at: Cursor,
        choice: int,
        taken: int,
        num_moves: int,
    ) -> Option<Cursor> {
        if taken + 1 < num_moves {
            self.child_at(at, choice)
        } else {
            None
        }
    }

    /// Whether a playout that stands at `cursor`, with the steps `steps`
    /// behind it, waits for the node of its position: its last step went
    /// down an edge of the node at `cursor`.
    pub open spec fn awaits(self, cursor: Cursor, steps: Seq<Step>) -> bool {
        &&& steps.len() > 0
        &&& self.holds(cursor)
        &&& steps.last() == step_of(cursor, steps.last().2)
        &&& steps.last().2 < self.node_at(cursor).unwrap().edges.len()
    }

    /// The tree after the active arena has refused a request: the
    /// generations change places and the root forgets where its edges lead.
    pub open spec fn flipped(self) -> TreeView {
        TreeView { tables: self.tables.flipped(), root: self.root.without_links(), ..self }
    }

    /// The tree after an attempt to make room: flipped if the active arena
    /// has refused a request, else as it is.
    pub open spec fn recycled(self) -> TreeView {
        if self.tables.active.arena.full {
            self.flipped()
        } else {
            self
        }
    }

    /// The tree with one more node counted for the tablebase, if `flag` is
    /// a flag of the tablebase.
    pub open spec fn counted(self, flag: Flag) -> TreeView {
        if flag.tablebase() && self.tb_hits < usize::MAX {
            TreeView { tb_hits: self.tb_hits + 1, ..self }
        } else {
            self
        }
    }

    /// What giving the node `fresh` to the position behind edge `edge` of
    /// the node at `cursor` makes of the tree, and where a playout that
    /// waited for the node stands then; nowhere, if the arena refused.
    /// `key` is the key of the position.
    ///
    /// The arena is asked for the edges of the node, then the node takes
    /// over the counts that the tables hold for its position, then the
    /// arena is asked for the node. Where the arena refuses, the tree makes
    /// room. Where the edge has come to know a live node in between, it
    /// keeps it. Else the edge leads to the node that the active table
    /// already knows for the position, if there is one, and otherwise to
    /// the new node, which the table then notes.
    pub open spec fn expanded(self, cursor: Cursor, edge: int, fresh: NodeView, key: u64) -> (
        TreeView,
        Option<Cursor>,
    ) {
        let counted = self.counted(fresh.flag);
        let arena = self.tables.active.arena;
        let with_edges = self.tables.with_active_arena(arena.after_edges(fresh.edges.len()));
        if !arena.grants_edges(fresh.edges.len()) {
            (TreeView { tables: with_edges, ..counted }.recycled(), None)
        } else {
            let warmed = match with_edges.find(key) {
                Some(id) => fresh.warmed(with_edges.node(id)),
                None => fresh,
            };
            let with_node = with_edges.with_active_arena(
                with_edges.active.arena.after_node(warmed),
            );
            if !with_edges.active.arena.grants_node() {
                (TreeView { tables: with_node, ..counted }.recycled(), None)
            } else {
                let id = NodeId {
                    generation: self.tables.active_generation,
                    index: arena.nodes.len() as usize,
                };
                let stored = TreeView { tables: with_node, ..counted };
                let before = stored.node_at(cursor).unwrap().edges[edge];
                if before.child.is_some() && with_node.live(before.child.unwrap()) {
                    (stored, Some(Cursor::Node(before.child.unwrap())))
                } else {
                    match with_node.active.find(key) {
                        Some(index) => {
                            let known = NodeId {
                                generation: self.tables.active_generation,
                                index,
                            };
                            (
                                stored.with_edge_at(
                                    cursor,
                                    edge,
                                    EdgeView { child: Some(known), ..before },
                                ),
                                Some(Cursor::Node(known)),
                            )
                        },
                        None => (
                            TreeView {
                                tables: LRView {
                                    active: TableView {
                                        entries: with_node.active.entries.insert(key, id.index),
                                        ..with_node.active
                                    },
                                    ..with_node
                                },
                                ..stored
                            }.with_edge_at(cursor, edge, EdgeView { child: Some(id), ..before }),
                            Some(Cursor::Node(id)),
                        ),
                    }
                }
            }
        }
    }

    /// The tree after the reward `evaln` has come back up the edge of
    /// `step`. A step that names no edge with a playout below it changes
    /// nothing.
    pub open spec fn ascended(self, step: Step, evaln: int) -> TreeView {
        let cursor = cursor_of(step);
        if self.holds(cursor) && step.2 < self.node_at(cursor).unwrap().edges.len()
            && self.node_at(cursor).unwrap().edges[step.2 as int].in_flight > 0 {
            self.with_edge_at(
                cursor,
                step.2 as int,
                self.node_at(cursor).unwrap().edges[step.2 as int].ascended(evaln),
            )
        } else {
            self
        }
    }

    /// The tree after the reward `evaln` has come back up the path `steps`,
    /// last step first, changing its sign from each step to the one before.
    pub open spec fn backed_up(self, steps: Seq<Step>, evaln: int) -> TreeView
        decreases steps.len(),
    {
        if steps.len() == 0 {
            self
        } else {
            self.ascended(steps.last(), evaln).backed_up(steps.drop_last(), -evaln)
        }
    }

    /// The tree after a playout with `length` edges behind it has been
    /// counted.
    pub open spec fn tallied(self, length: nat) -> TreeView {
        let depth = if length == 0 {
            0
        } else {
            (length - 1) as nat
        };
        TreeView {
            num_nodes: capped(self.num_nodes + depth),
            max_depth: if depth > self.max_depth {
                depth
            } else {
                self.max_depth
            },
            playouts: capped(self.playouts + 1),
            ..self
        }
    }

    /// The tree after a playout that stands at `cursor`, with the steps
    /// `steps` behind it and `side` to move, has ended with the evaluation
    /// `evaln` of its position for white: the reward has come back up the
    /// path, and the playout is counted.
    pub open spec fn concluded(
        self,
        cursor: Cursor,
        steps: Seq<Step>,
        evaln: int,
        side: Color,
    ) -> TreeView {
        self.backed_up(
            steps,
            backup_reward(
                match self.node_at(cursor) {
                    Some(node) => node.flag,
                    None => Flag::Standard,
                },
                evaln,
                side,
            ),
        ).tallied(steps.len())
    }

    /// What is done when a playout comes to stand at `cursor`: where it
    /// goes on, an edge is to be chosen; where not, it ends there with the
    /// evaluation 0.
    pub open spec fn headed(self, cursor: Cursor, steps: Seq<Step>, clock: u32, side: Color) -> (
        TreeView,
        Action,
    ) {
        if self.descends(cursor, clock, steps.len()) {
            (self, Action::Choose)
        } else {
            let ended = self.concluded(cursor, steps, 0, side);
            (ended, Action::Done(ended.playouts as usize))
        }
    }

    /// Whether a playout that stands at `cursor`, with the half-move clock
    /// at `clock` and `length` edges behind it, goes on.
    pub open spec fn descends(self, cursor: Cursor, clock: u32, length: nat) -> bool {
        self.node_at(cursor) matches Some(node) && {
            &&& !node.flag.terminal()
            &&& node.edges.len() > 0
            &&& !(node.flag.tablebase() && clock == 0)
            &&& length < MAX_PLAYOUT_LENGTH
        }
    }
}

/// `n`, or the largest count that the machine holds if `n` is beyond it.
pub open spec fn capped(n: nat) -> nat {
    if n > usize::MAX {
        usize::MAX as nat
    } else {
        n
    }
}

/// The reward of a playout that ended at a node with the flag `flag`, for
/// white: what the flag says where it speaks, and otherwise the evaluation
/// `evaln` of the position, kept within one unit.
pub open spec fn leaf_reward(flag: Flag, evaln: int) -> int {
    if flag.win() {
        SCALE as int
    } else if flag.loss() {
        -SCALE
    } else if flag != Flag::Standard {
        0
    } else if evaln > SCALE {
        SCALE as int
    } else if evaln < -SCALE {
        -SCALE
    } else {
        evaln
    }
}

/// The reward with which the backup of a playout starts, `side` being the
/// side to move where the playout ended: the reward for white with its sign
/// changed if white is to move there.
pub open spec fn backup_reward(flag: Flag, evaln: int, side: Color) -> int {
    if side == Color::White {
        -leaf_reward(flag, evaln)
    } else {
        leaf_reward(flag, evaln)
    }
}

/// The step of a path that goes down edge `edge` of the node at `cursor`.
pub open spec fn step_of(cursor: Cursor, edge: usize) -> Step {
    match cursor {
        Cursor::Node(id) => (id.generation, id.index, edge),
        _ => (0u64, 0usize, edge),
    }
}

/// The cursor at the node of a step.
pub open spec fn cursor_of(step: Step) -> Cursor {
    if step.0 == 0 {
        Cursor::Root
    } else {
        Cursor::Node(NodeId { generation: step.0, index: step.1 })
    }
}

/// One descent from the root, from its start to its backup.
pub struct Playout {
    state: State,
    cursor: Cursor,
    path: ArrayVec<(u64, usize, usize), 256>,
}

impl Playout {
    /// The state of the game where the playout stands.
    pub closed spec fn state(&self) -> State {
        self.state
    }

    pub closed spec fn cursor(&self) -> Cursor {
        self.cursor
    }

    /// The edges that the playout went down, first edge first.
    pub closed spec fn steps(&self) -> Seq<Step> {
        path_steps(self.path)
    }

    pub open spec fn wf(&self) -> bool {
        self.state().wf() && self.steps().len() <= MAX_PLAYOUT_LENGTH
    }

    pub fn current_state(&self) -> (r: &State)
        ensures
            *r == self.state(),
    {
        &self.state
    }

    pub fn at(&self) -> (r: Cursor)
        ensures
            r == self.cursor(),
    {
        self.cursor
    }

    /// Number of edges that the playout went down.
    pub fn len(&self) -> (r: usize)
        ensures
            r == self.steps().len(),
            r <= MAX_PLAYOUT_LENGTH,
    {
        path_len(&self.path)
    }

    /// Step `i` of the path.
    pub fn step(&self, i: usize) -> (r: Step)
        requires
            i < self.steps().len(),
        ensures
            r == self.steps()[i as int],
    {
        path_get(&self.path, i)
    }
}

/// The tree of one search: the root with its state, the tables of the
/// nodes below it, and the counters of the search.
pub struct SearchTree {
    root_node: SearchNode,
    root_state: State,
    cpuct: u32,
    ttable: LRTable,
    draw_node: SearchNode,
    unexpanded_node: SearchNode,
    num_nodes: usize,
    playouts: usize,
    max_depth: usize,
    tb_hits: usize,
    next_info: u64,
}

impl View for SearchTree {
    type V = TreeView;

    closed spec fn view(&self) -> TreeView {
        TreeView {
            root: self.root_node@,
            tables: self.ttable@,
            num_nodes: self.num_nodes as nat,
            playouts: self.playouts as nat,
            max_depth: self.max_depth as nat,
            tb_hits: self.tb_hits as nat,
            next_info: self.next_info,
            cpuct: self.cpuct,
        }
    }
}

/// The node of the position `state`: an edge for each of its legal moves
/// that has a prior in `policy`, and the flag that follows from the moves,
/// the check and the answer `tablebase` of the tablebase.
pub open spec fn created_node(state: State, policy: Seq<u32>, tablebase: Option<Wdl>) -> NodeView {
    NodeView::created(
        legal_moves_of(state.chess()),
        policy,
        white_flag(
            legal_moves_of(state.chess()).len() == 0,
            state.summary().in_check(),
            tablebase,
            state.summary().side(),
        ),
    )
}

/// Makes the node of a position: an untouched edge for each legal move
/// that has a prior, with the move and its prior in the same place, and
/// the flag of the position. Counts the node in `tb_hits` if the tablebase
/// knew the position.
pub fn create_node(
    state: &State,
    policy: &[u32],
    tablebase: Option<Wdl>,
    tb_hits: &mut usize,
) -> (r: SearchNode)
    ensures
        r@ == created_node(*state, policy@, tablebase),
        r@.wf(),
        r@.settled(),
        r@.unlinked(),
        *final(tb_hits) == if r@.flag.tablebase() && *old(tb_hits) < usize::MAX {
            (*old(tb_hits) + 1) as usize
        } else {
            *old(tb_hits)
        },
{
    let moves = state.available_moves();
    let state_flag = evaluate_state_flag(state, &moves, tablebase);
    if state_flag.is_tablebase() && *tb_hits < usize::MAX {
        *tb_hits = *tb_hits + 1;
    }
    let count = if policy.len() < moves.len() {
        policy.len()
    } else {
        moves.len()
    };
    let mut hots: Vec<HotMoveInfo> = Vec::with_capacity(count);
    let mut i: usize = 0;
    while i < count
        invariant
            i <= count,
            count <= policy@.len(),
            count <= moves@.len(),
            hots@.len() == i,
            forall|k: int|
                0 <= k < i ==> (#[trigger] hots@[k])@ == EdgeView::untouched(policy@[k], moves@[k]),
        decreases count - i,
    {
        hots.push(HotMoveInfo::new(policy[i], move_copy(&moves[i])));
        i = i + 1;
    }
    let node = SearchNode::new(hots, state_flag);
    proof {
        assert(node@.edges =~= created_node(*state, policy@, tablebase).edges);
    }
    node
}

impl SearchTree {
    /// The state of the game at the root.
    pub closed spec fn start(&self) -> State {
        self.root_state
    }

    /// Holds of every tree that exists.
    pub closed spec fn wf(&self) -> bool {
        &&& self@.wf()
        &&& self.root_state.wf()
        &&& self.draw_node@ == draw_view()
        &&& self.unexpanded_node@ == unexpanded_view()
    }

    /// A tree that exists has a well-formed view.
    pub proof fn lemma_wf_view(&self)
        requires
            self.wf(),
        ensures
            self@.wf(),
            self.start().wf(),
    {
    }

    /// The tree for a search from `state`. `policy` holds the priors of the
    /// legal moves of `state`, in their order, `tablebase` the answer of
    /// the tablebase for `state`; `cpuct` is the exploration constant. The root takes over the counts that `previous_table` holds
    /// for its position; `current_table` and `previous_table` become the
    /// tables of the tree.
    pub fn new(
        state: State,
        current_table: TranspositionTable,
        previous_table: TranspositionTable,
        policy: &[u32],
        tablebase: Option<Wdl>,
        cpuct: u32,
    ) -> (r: SearchTree)
        requires
            state.wf(),
            current_table@.wf(),
            previous_table@.wf(),
        ensures
            r.wf(),
            r.start() == state,
            r@.root == (match previous_table@.find(state.summary().hash()) {
                Some(index) => created_node(state, policy@, tablebase).warmed(
                    previous_table@.arena.nodes[index as int],
                ),
                None => created_node(state, policy@, tablebase),
            }),
            r@.tables.active == (TableView {
                arena: current_table@.arena.without_links(),
                ..current_table@
            }),
            r@.tables.previous == (TableView {
                arena: previous_table@.arena.without_links(),
                ..previous_table@
            }),
            r@.num_nodes == 1,
            r@.playouts == 0,
            r@.max_depth == 0,
            r@.tb_hits == if r@.root.flag.tablebase() {
                1nat
            } else {
                0nat
            },
            r@.next_info == 0,
            r@.cpuct == cpuct,
    {
        let mut tb_hits: usize = 0;
        let mut root_node = create_node(&state, policy, tablebase, &mut tb_hits);
        if let Some(index) = previous_table.lookup(state.key()) {
            root_node.warm_start(previous_table.arena().node(index));
        }
        let ttable = LRTable::new(current_table, previous_table);
        let tree = SearchTree {
            root_state: state,
            root_node,
            cpuct,
            ttable,
            draw_node: SearchNode::draw(),
            unexpanded_node: SearchNode::unexpanded(),
            num_nodes: 1,
            playouts: 0,
            max_depth: 0,
            tb_hits,
            next_info: 0,
        };
        proof {
            let root = tree@.root;
            assert(root.unlinked());
            assert forall|j: int| 0 <= j < root.edges.len() implies tree@.tables.link_ok(
                (#[trigger] root.edges[j]).child,
            ) by {}
        }
        tree
    }

    /// Overwrites the priors of the first edges of the root with `evals`.
    pub fn update_root_policy(&mut self, evals: &[u32])
        requires
            old(self).wf(),
        ensures
            final(self).wf(),
            final(self).start() == old(self).start(),
            final(self)@ == (TreeView { root: old(self)@.root.with_policy(evals@), ..old(self)@ }),
    {
        self.root_node.update_policy(evals);
        proof {
            let root = self@.root;
            assert forall|j: int| 0 <= j < root.edges.len() implies (#[trigger] root.edges[j]).wf() by {
                assert(old(self)@.root.edges[j].wf());
            }
            assert forall|j: int| 0 <= j < root.edges.len() implies self@.tables.link_ok(
                (#[trigger] root.edges[j]).child,
            ) by {
                assert(old(self)@.tables.link_ok(old(self)@.root.edges[j].child));
            }
        }
    }

    /// Gives up the tree and hands out its active table.
    pub fn table(self) -> (r: TranspositionTable)
        ensures
            r@ == self@.tables.active,
    {
        self.ttable.table()
    }

    pub fn num_nodes(&self) -> (r: usize)
        ensures
            r == self@.num_nodes,
    {
        self.num_nodes
    }

    pub fn playouts(&self) -> (r: usize)
        ensures
            r == self@.playouts,
    {
        self.playouts
    }

    pub fn max_depth(&self) -> (r: usize)
        ensures
            r == self@.max_depth,
    {
        self.max_depth
    }

    pub fn tb_hits(&self) -> (r: usize)
        ensures
            r == self@.tb_hits,
    {
        self.tb_hits
    }

    /// The exploration constant, as the bits of a 32-bit floating-point
    /// number.
    pub fn cpuct(&self) -> (r: u32)
        ensures
            r == self@.cpuct,
    {
        self.cpuct
    }

    pub fn root_state(&self) -> (r: &State)
        ensures
            *r == self.start(),
    {
        &self.root_state
    }

    pub fn root_node(&self) -> (r: &SearchNode)
        ensures
            r@ == self@.root,
    {
        &self.root_node
    }

    /// The tables of the tree.
    pub fn tables(&self) -> (r: &LRTable)
        ensures
            r@ == self@.tables,
    {
        &self.ttable
    }

    /// The node at which a playout with this cursor stands.
    pub fn node(&self, cursor: Cursor) -> (r: Option<&SearchNode>)
        requires
            self.wf(),
        ensures
            r.is_some() == self@.node_at(cursor).is_some(),
            r matches Some(node) ==> Some(node@) == self@.node_at(cursor),
    {
        match cursor {
            Cursor::Root => Some(&self.root_node),
            Cursor::Node(id) => self.ttable.node(id),
            Cursor::Draw => Some(&self.draw_node),
            Cursor::Unexpanded => Some(&self.unexpanded_node),
        }
    }

    /// A playout at its start: at the root, in the state of the root, with
    /// no edge behind it.
    pub fn begin_playout(&self) -> (r: Playout)
        requires
            self.wf(),
        ensures
            r.wf(),
            r.cursor() == Cursor::Root,
            r.steps().len() == 0,
            r.state().chess() == self.start().chess(),
            r.state().summary() == self.start().summary(),
            r.state().earlier() == self.start().earlier(),
    {
        Playout { state: self.root_state.clone(), cursor: Cursor::Root, path: path_new() }
    }

    /// Whether the playout goes on from where it stands: not from a
    /// position whose game is over, nor from a node without edges, nor from
    /// a position that the tablebase knows while the half-move clock is at
    /// zero, nor with a full path behind it.
    pub fn descends(&self, playout: &Playout) -> (r: bool)
        requires
            self.wf(),
        ensures
            r == self@.descends(
                playout.cursor(),
                playout.state().summary().clock(),
                playout.steps().len(),
            ),
    {
        let node = match self.node(playout.cursor) {
            Some(node) => node,
            None => {
                return false;
            },
        };
        if node.is_terminal() {
            return false;
        }
        if node.len() == 0 {
            return false;
        }
        if node.is_tablebase() && playout.state.halfmove_counter() == 0 {
            return false;
        }
        if path_len(&playout.path) >= MAX_PLAYOUT_LENGTH {
            return false;
        }
        true
    }

    /// Changes edge `edge` of the node at `cursor` by `change`.
    fn change_edge(&mut self, cursor: Cursor, edge: usize, change: EdgeChange)
        requires
            old(self).wf(),
            old(self)@.holds(cursor),
            edge < old(self)@.node_at(cursor).unwrap().edges.len(),
            change.allowed(old(self)@, old(self)@.node_at(cursor).unwrap().edges[edge as int]),
        ensures
            final(self).wf(),
            final(self).start() == old(self).start(),
            final(self)@ == old(self)@.with_edge_at(
                cursor,
                edge as int,
                change.applied(old(self)@.node_at(cursor).unwrap().edges[edge as int]),
            ),
    {
        proof {
            lemma_tree_edge_change_keeps_wf(
                self@,
                cursor,
                edge as int,
                change.applied(self@.node_at(cursor).unwrap().edges[edge as int]),
            );
        }
        match cursor {
            Cursor::Node(id) => {
                match change {
                    EdgeChange::Down => self.ttable.down_edge(id, edge),
                    EdgeChange::Up(evaln) => self.ttable.up_edge(id, edge, evaln),
                    EdgeChange::Link(child) => self.ttable.link_edge(id, edge, child),
                }
            },
            _ => {
                match change {
                    EdgeChange::Down => self.root_node.down_edge(edge),
                    EdgeChange::Up(evaln) => self.root_node.up_edge(edge, evaln),
                    EdgeChange::Link(child) => self.root_node.link_edge(edge, child),
                }
            },
        }
    }

    /// Sends the playout down edge `choice` of the node at which it
    /// stands, if the tree takes it there (see [`TreeView::takes`]): the
    /// move of the edge is played in the state of the playout, the edge is
    /// added to its path, and the tree changes as [`TreeView::selected`]
    /// says. Where the tree does not take the playout, the playout is
    /// rejected, and the tree and the playout stay as they are.
    pub fn select(&mut self, playout: &mut Playout, choice: usize) -> (r: Selection)
        requires
            old(self).wf(),
            old(playout).wf(),
        ensures
            final(self).wf(),
            final(playout).wf(),
            final(self).start() == old(self).start(),
            r != Selection::Rejected <==> old(self)@.takes(
                old(playout).cursor(),
                old(playout).state(),
                old(playout).steps().len(),
                choice as int,
            ),
            r == Selection::Rejected ==> final(self)@ == old(self)@ && *final(playout) == *old(
                playout,
            ),
            r != Selection::Rejected ==> {
                let cursor = old(playout).cursor();
                &&& old(self)@.descends(
                    cursor,
                    old(playout).state().summary().clock(),
                    old(playout).steps().len(),
                )
                &&& choice < old(self)@.node_at(cursor).unwrap().edges.len()
                &&& old(self)@.node_at(cursor).unwrap().edges[choice as int].visits < u32::MAX
                &&& Some(final(playout).state().chess()) == played(
                    old(playout).state().chess(),
                    old(self)@.node_at(cursor).unwrap().edges[choice as int].mov,
                )
                &&& final(playout).steps() == old(playout).steps().push(step_of(cursor, choice))
                &&& final(playout).state().earlier() == old(playout).state().earlier_after(
                    final(playout).state().summary().clock(),
                )
                &&& (final(self)@, final(playout).cursor(), r) == old(self)@.selected(
                    cursor,
                    choice as int,
                    final(playout).state().drawn(),
                    final(playout).state().summary().hash(),
                )
            },
            r == Selection::Unknown ==> final(self)@.awaits(
                final(playout).cursor(),
                final(playout).steps(),
            ),
    {
        if !self.descends(playout) {
            return Selection::Rejected;
        }
        let cursor = playout.cursor;
        let node = match self.node(cursor) {
            Some(node) => node,
            None => {
                return Selection::Rejected;
            },
        };
        if choice >= node.len() {
            return Selection::Rejected;
        }
        let edge = &node.hots()[choice];
        let visits = edge.visits();
        let child = edge.child();
        let mov = move_copy(edge.get_move());
        let ghost before = edge@;
        if visits == u32::MAX {
            return Selection::Rejected;
        }
        if !playout.state.make_move(&mov) {
            return Selection::Rejected;
        }
        assert(before.wf()) by {
            assert(self@.node_at(cursor).unwrap().wf());
        }
        self.change_edge(cursor, choice, EdgeChange::Down);
        let step = match cursor {
            Cursor::Node(id) => (id.generation, id.index, choice),
            _ => (0u64, 0usize, choice),
        };
        path_push(&mut playout.path, step);
        if visits == 0 {
            playout.cursor = Cursor::Unexpanded;
            return Selection::Leaf;
        }
        if playout.state.is_drawn() {
            playout.cursor = Cursor::Draw;
            return Selection::Descended;
        }
        if let Some(id) = child {
            if self.ttable.node(id).is_some() {
                playout.cursor = Cursor::Node(id);
                return Selection::Descended;
            }
        }
        let ghost down = self@;
        match self.ttable.lookup(playout.state.key()) {
            Some(id) => {
                proof {
                    assert(self@.holds(cursor));
                    assert(self@.node_at(cursor).unwrap() == down.node_at(cursor).unwrap());
                }
                self.change_edge(cursor, choice, EdgeChange::Link(Some(id)));
                playout.cursor = Cursor::Node(id);
                Selection::Descended
            },
            None => Selection::Unknown,
        }
    }

    /// Makes room after the active arena has refused a request: the
    /// generations change places, and no edge of the root knows any more
    /// where it leads.
    pub fn flip_tables(&mut self)
        requires
            old(self).wf(),
        ensures
            final(self).wf(),
            final(self).start() == old(self).start(),
            final(self)@ == old(self)@.flipped(),
            final(self)@.root.unlinked(),
            final(self)@.tables.active.arena.nodes.len() == 0,
    {
        self.ttable.flip_tables();
        self.root_node.clear_children_links();
        proof {
            let root = self@.root;
            assert forall|j: int| 0 <= j < root.edges.len() implies self@.tables.link_ok(
                (#[trigger] root.edges[j]).child,
            ) by {}
        }
    }

    /// Makes room if the active arena has refused a request.
    fn recycle(&mut self)
        requires
            old(self).wf(),
        ensures
            final(self).wf(),
            final(self).start() == old(self).start(),
            final(self)@ == old(self)@.recycled(),
    {
        if self.ttable.is_arena_full() {
            self.flip_tables();
        }
    }

    /// Gives the position at which the playout stands its node: see
    /// [`TreeView::expanded`]. `policy` holds the priors of the legal moves
    /// of the position, in their order, `tablebase` the answer of the
    /// tablebase. Where the arena refuses, the tree makes room and the
    /// playout is lost: its edges keep their virtual losses.
    pub fn expand(
        &mut self,
        playout: &mut Playout,
        policy: &[u32],
        tablebase: Option<Wdl>,
    ) -> (r: Result<(), ArenaError>)
        requires
            old(self).wf(),
            old(playout).wf(),
            old(self)@.awaits(old(playout).cursor(), old(playout).steps()),
        ensures
            final(self).wf(),
            final(playout).wf(),
            final(self).start() == old(self).start(),
            final(playout).state() == old(playout).state(),
            final(playout).steps() == old(playout).steps(),
            ({
                let (tree, cursor) = old(self)@.expanded(
                    old(playout).cursor(),
                    old(playout).steps().last().2 as int,
                    created_node(old(playout).state(), policy@, tablebase),
                    old(playout).state().summary().hash(),
                );
                &&& final(self)@ == tree
                &&& r.is_ok() == cursor.is_some()
                &&& cursor matches Some(c) ==> final(playout).cursor() == c
                &&& cursor.is_none() ==> final(playout).cursor() == old(playout).cursor()
            }),
    {
        let cursor = playout.cursor;
        let last = path_get(&playout.path, path_len(&playout.path) - 1);
        let edge = last.2;
        let key = playout.state.key();
        let mut node = create_node(&playout.state, policy, tablebase, &mut self.tb_hits);
        let ghost fresh = node@;
        let ghost counted = self@;
        assert(counted == old(self)@.counted(fresh.flag));
        if self.ttable.alloc_move_info(node.len()).is_err() {
            self.recycle();
            return Err(ArenaError::Full);
        }
        self.ttable.lookup_into(key, &mut node);
        let ghost warmed = node@;
        let id = match self.ttable.alloc_node(node) {
            Ok(id) => id,
            Err(_) => {
                self.recycle();
                return Err(ArenaError::Full);
            },
        };
        proof {
            lemma_links_stay_ok(old(self)@.tables, self@.tables, self@.root);
        }
        assert(self@.holds(cursor));
        let child = match self.node(cursor) {
            Some(parent) => parent.hots()[edge].child(),
            None => None,
        };
        if let Some(other) = child {
            if self.ttable.node(other).is_some() {
                playout.cursor = Cursor::Node(other);
                return Ok(());
            }
        }
        match self.ttable.insert(key, id.index) {
            Some(existing) => {
                proof {
                    lemma_links_stay_ok(old(self)@.tables, self@.tables, self@.root);
                }
                self.change_edge(cursor, edge, EdgeChange::Link(Some(existing)));
                playout.cursor = Cursor::Node(existing);
            },
            None => {
                proof {
                    lemma_links_stay_ok(old(self)@.tables, self@.tables, self@.root);
                }
                self.change_edge(cursor, edge, EdgeChange::Link(Some(id)));
                playout.cursor = Cursor::Node(id);
            },
        }
        Ok(())
    }

    /// The reward `evaln` comes back up the path of the playout: each edge,
    /// the last first, takes its virtual loss back and the reward with it,
    /// and the reward changes its sign from each edge to the one before.
    pub fn finish_playout(&mut self, playout: &Playout, evaln: i64)
        requires
            old(self).wf(),
            -SCALE <= evaln <= SCALE,
        ensures
            final(self).wf(),
            final(self).start() == old(self).start(),
            final(self)@ == old(self)@.backed_up(playout.steps(), evaln as int),
    {
        let ghost steps = playout.steps();
        let mut i: usize = path_len(&playout.path);
        let mut evaln_value: i64 = evaln;
        proof {
            assert(steps.take(i as int) =~= steps);
        }
        while i > 0
            invariant
                i <= steps.len(),
                steps == playout.steps(),
                self.wf(),
                self.start() == old(self).start(),
                -SCALE <= evaln_value <= SCALE,
                self@.backed_up(steps.take(i as int), evaln_value as int) == old(self)@.backed_up(
                    steps,
                    evaln as int,
                ),
            decreases i,
        {
            i = i - 1;
            let step = path_get(&playout.path, i);
            proof {
                let prefix = steps.take(i as int + 1);
                assert(prefix.last() == step);
                assert(prefix.drop_last() =~= steps.take(i as int));
            }
            self.ascend(step, evaln_value);
            evaln_value = -evaln_value;
        }
    }

    /// The reward `evaln` comes back up the edge of `step`, if the step
    /// names an edge with a playout below it.
    fn ascend(&mut self, step: Step, evaln: i64)
        requires
            old(self).wf(),
            -SCALE <= evaln <= SCALE,
        ensures
            final(self).wf(),
            final(self).start() == old(self).start(),
            final(self)@ == old(self)@.ascended(step, evaln as int),
    {
        let cursor = if step.0 == 0 {
            Cursor::Root
        } else {
            Cursor::Node(NodeId { generation: step.0, index: step.1 })
        };
        let pending = match cursor {
            Cursor::Root => step.2 < self.root_node.len() && self.root_node.hots()[step.2].in_flight()
                > 0,
            Cursor::Node(id) => match self.ttable.node(id) {
                Some(node) => step.2 < node.len() && node.hots()[step.2].in_flight() > 0,
                None => false,
            },
            _ => false,
        };
        if pending {
            assert(self@.node_at(cursor).unwrap().wf());
            self.change_edge(cursor, step.2, EdgeChange::Up(evaln));
        }
    }

    /// Ends the playout with the evaluation `evaln` of the position that
    /// it reached, for white: the reward is found (see [`backup_reward`])
    /// and comes back up the path, and the playout is counted. Returns the
    /// number of playouts carried through.
    pub fn conclude(&mut self, playout: &Playout, evaln: i64) -> (r: usize)
        requires
            old(self).wf(),
            playout.wf(),
        ensures
            final(self).wf(),
            final(self).start() == old(self).start(),
            final(self)@ == old(self)@.concluded(
                playout.cursor(),
                playout.steps(),
                evaln as int,
                playout.state().summary().side(),
            ),
            r == final(self)@.playouts,
    {
        let flag = match self.node(playout.cursor) {
            Some(node) => node.flag(),
            None => Flag::Standard,
        };
        let reward: i64 = match flag {
            Flag::TerminalWin | Flag::TablebaseWin => SCALE,
            Flag::TerminalLoss | Flag::TablebaseLoss => -SCALE,
            Flag::TerminalDraw | Flag::TablebaseDraw => 0,
            Flag::Standard => if evaln > SCALE {
                SCALE
            } else if evaln < -SCALE {
                -SCALE
            } else {
                evaln
            },
        };
        let last_move_was_black = playout.state.side_to_move().is_white();
        let reward = if last_move_was_black {
            -reward
        } else {
            reward
        };
        self.finish_playout(playout, reward);
        let length = path_len(&playout.path);
        // the root is not counted
        let depth = if length == 0 {
            0
        } else {
            length - 1
        };
        self.num_nodes = if depth > usize::MAX - self.num_nodes {
            usize::MAX
        } else {
            self.num_nodes + depth
        };
        if depth > self.max_depth {
            self.max_depth = depth;
        }
        if self.playouts < usize::MAX {
            self.playouts = self.playouts + 1;
        }
        self.playouts
    }

    /// Whether the playout waits for the node of its position.
    pub fn awaits(&self, playout: &Playout) -> (r: bool)
        requires
            self.wf(),
        ensures
            r == self@.awaits(playout.cursor(), playout.steps()),
    {
        let length = path_len(&playout.path);
        if length == 0 {
            return false;
        }
        let last = path_get(&playout.path, length - 1);
        let held = match playout.cursor {
            Cursor::Root => last.0 == 0 && last.1 == 0,
            Cursor::Node(id) => last.0 == id.generation && last.1 == id.index,
            _ => false,
        };
        if !held {
            return false;
        }
        match self.node(playout.cursor) {
            Some(node) => last.2 < node.len(),
            None => false,
        }
    }

    /// Ends the playout with the evaluation 0 unless it goes on from where
    /// it stands.
    fn head(&mut self, playout: &Playout) -> (r: Action)
        requires
            old(self).wf(),
            playout.wf(),
        ensures
            final(self).wf(),
            final(self).start() == old(self).start(),
            (final(self)@, r) == old(self)@.headed(
                playout.cursor(),
                playout.steps(),
                playout.state().summary().clock(),
                playout.state().summary().side(),
            ),
    {
        if self.descends(playout) {
            Action::Choose
        } else {
            Action::Done(self.conclude(playout, 0))
        }
    }

    /// Carries the playout on with what its caller has found out for it,
    /// and tells what it needs next.
    ///
    /// At its start, and whenever it comes to stand at a node, the playout
    /// asks for an edge if it goes on from there (see
    /// [`TreeView::descends`]), and else ends with the evaluation 0. With
    /// an edge chosen it goes down the edge (see [`TreeView::selected`]):
    /// the first playout down an edge asks for the evaluation of the
    /// position behind it, one that finds no node there asks for the node,
    /// and one that is rejected ends with the evaluation 0. With the
    /// evaluation it ends (see [`TreeView::concluded`]). With the node made
    /// it comes to stand at the node, or is lost where the arena refused
    /// (see [`TreeView::expanded`]); a node that the playout did not wait
    /// for is left aside.
    pub fn playout(&mut self, run: &mut Playout, event: Event) -> (r: Action)
        requires
            old(self).wf(),
            old(run).wf(),
        ensures
            final(self).wf(),
            final(run).wf(),
            final(self).start() == old(self).start(),
            match event {
                Event::Start => {
                    &&& *final(run) == *old(run)
                    &&& (final(self)@, r) == old(self)@.headed(
                        old(run).cursor(),
                        old(run).steps(),
                        old(run).state().summary().clock(),
                        old(run).state().summary().side(),
                    )
                },
                Event::Evaluated(evaln) => {
                    &&& *final(run) == *old(run)
                    &&& final(self)@ == old(self)@.concluded(
                        old(run).cursor(),
                        old(run).steps(),
                        evaln as int,
                        old(run).state().summary().side(),
                    )
                    &&& r == Action::Done(final(self)@.playouts as usize)
                },
                Event::Chosen(choice) => if !old(self)@.takes(
                    old(run).cursor(),
                    old(run).state(),
                    old(run).steps().len(),
                    choice as int,
                ) {
                    &&& *final(run) == *old(run)
                    &&& final(self)@ == old(self)@.concluded(
                        old(run).cursor(),
                        old(run).steps(),
                        0,
                        old(run).state().summary().side(),
                    )
                    &&& r == Action::Done(final(self)@.playouts as usize)
                } else {
                    let cursor = old(run).cursor();
                    let (tree, at, fared) = old(self)@.selected(
                        cursor,
                        choice as int,
                        final(run).state().drawn(),
                        final(run).state().summary().hash(),
                    );
                    &&& old(self)@.descends(
                        cursor,
                        old(run).state().summary().clock(),
                        old(run).steps().len(),
                    )
                    &&& Some(final(run).state().chess()) == played(
                        old(run).state().chess(),
                        old(self)@.node_at(cursor).unwrap().edges[choice as int].mov,
                    )
                    &&& final(run).state().earlier() == old(run).state().earlier_after(
                        final(run).state().summary().clock(),
                    )
                    &&& final(run).steps() == old(run).steps().push(step_of(cursor, choice))
                    &&& final(run).cursor() == at
                    &&& match fared {
                        Selection::Leaf => final(self)@ == tree && r == Action::Evaluate,
                        Selection::Unknown => final(self)@ == tree && r == Action::Make,
                        _ => (final(self)@, r) == tree.headed(
                            at,
                            final(run).steps(),
                            final(run).state().summary().clock(),
                            final(run).state().summary().side(),
                        ),
                    }
                },
                Event::Made { policy, tablebase } => {
                    &&& final(run).state() == old(run).state()
                    &&& final(run).steps() == old(run).steps()
                    &&& if old(self)@.awaits(old(run).cursor(), old(run).steps()) {
                        let (tree, at) = old(self)@.expanded(
                            old(run).cursor(),
                            old(run).steps().last().2 as int,
                            created_node(old(run).state(), policy@, tablebase),
                            old(run).state().summary().hash(),
                        );
                        match at {
                            Some(at) => {
                                &&& final(run).cursor() == at
                                &&& (final(self)@, r) == tree.headed(
                                    at,
                                    old(run).steps(),
                                    old(run).state().summary().clock(),
                                    old(run).state().summary().side(),
                                )
                            },
                            None => {
                                &&& final(run).cursor() == old(run).cursor()
                                &&& final(self)@ == tree
                                &&& r == Action::Lost
                            },
                        }
                    } else {
                        &&& final(run).cursor() == old(run).cursor()
                        &&& (final(self)@, r) == old(self)@.headed(
                            old(run).cursor(),
                            old(run).steps(),
                            old(run).state().summary().clock(),
                            old(run).state().summary().side(),
                        )
                    }
                },
            },
    {
        match event {
            Event::Start => self.head(run),
            Event::Evaluated(evaln) => Action::Done(self.conclude(run, evaln)),
            Event::Chosen(choice) => {
                let ghost before = old(run).steps();
                match self.select(run, choice) {
                    Selection::Rejected => Action::Done(self.conclude(run, 0)),
                    Selection::Leaf => {
                        proof {
                            assert(run.steps().len() == before.len() + 1);
                        }
                        Action::Evaluate
                    },
                    Selection::Unknown => {
                        proof {
                            assert(run.steps().len() == before.len() + 1);
                        }
                        Action::Make
                    },
                    Selection::Descended => {
                        proof {
                            assert(run.steps().len() == before.len() + 1);
                        }
                        self.head(run)
                    },
                }
            },
            Event::Made { policy, tablebase } => {
                if !self.awaits(run) {
                    return self.head(run);
                }
                match self.expand(run, policy, tablebase) {
                    Ok(()) => self.head(run),
                    Err(_) => Action::Lost,
                }
            },
        }
    }

    /// Where edge `choice` of the node at `cursor` leads, as far as the
    /// tree knows: to a node that is live.
    pub fn child(&self, cursor: Cursor, choice: usize) -> (r: Option<Cursor>)
        requires
            self.wf(),
        ensures
            r == self@.child_at(cursor, choice as int),
    {
        let node = match self.node(cursor) {
            Some(node) => node,
            None => {
                return None;
            },
        };
        if choice >= node.len() {
            return None;
        }
        match node.hots()[choice].child() {
            Some(id) => if self.ttable.node(id).is_some() {
                Some(Cursor::Node(id))
            } else {
                None
            },
            None => None,
        }
    }

    /// The next stand of the walk along the principal variation: the walk
    /// stands at `at`, has taken `taken` moves before, and now takes the
    /// move of edge `choice`. It goes on to the node to which the edge
    /// leads, unless it has then taken its `num_moves` moves or the tree
    /// does not know a live node there.
    pub fn principal_step(&self, at: Cursor, choice: usize, taken: usize, num_moves: usize) -> (r:
        Option<Cursor>)
        requires
            self.wf(),
        ensures
            r == self@.principal_next(at, choice as int, taken as int, num_moves as int),
    {
        if num_moves == 0 || taken >= num_moves - 1 {
            None
        } else {
            self.child(at, choice)
        }
    }

    /// The figures of a report after `search_time_ms` milliseconds of
    /// search; none before the first millisecond or the first playout.
    pub fn info(&self, search_time_ms: u64) -> (r: Option<SearchInfo>)
        ensures
            r == search_info(self@, search_time_ms),
    {
        if search_time_ms == 0 || self.playouts == 0 {
            return None;
        }
        let nodes = self.num_nodes;
        let depth = nodes / self.playouts;
        let sel_depth = self.max_depth;
        Some(
            SearchInfo {
                depth: if depth < 1 {
                    1
                } else {
                    depth
                },
                seldepth: if sel_depth < 1 {
                    1
                } else {
                    sel_depth
                },
                nodes,
                nps: (nodes as u128) * 1000 / (search_time_ms as u128),
                tbhits: self.tb_hits,
                time: search_time_ms,
                pv_length: if depth < 2 {
                    2
                } else {
                    depth
                },
            },
        )
    }

    /// Decides what is due after the playout that brought the count of
    /// playouts to `playouts`: see [`report_for`]. `after_end` tells
    /// whether the time of the search is over, `elapsed_secs` how many
    /// seconds it has run.
    pub fn report_due(&mut self, playouts: usize, after_end: bool, elapsed_secs: u64) -> (r: Report)
        requires
            old(self).wf(),
        ensures
            final(self).wf(),
            final(self).start() == old(self).start(),
            r == report_for(playouts, after_end, elapsed_secs, old(self)@.next_info),
            final(self)@ == (TreeView {
                next_info: if r != Report::PrintAndStop && playouts % 65536 == 0 && elapsed_secs
                    > old(self)@.next_info {
                    elapsed_secs
                } else {
                    old(self)@.next_info
                },
                ..old(self)@
            }),
    {
        if playouts % 128 == 0 && after_end {
            return Report::PrintAndStop;
        }
        if playouts % 65536 == 0 {
            let next_info = self.next_info;
            if elapsed_secs > next_info {
                self.next_info = elapsed_secs;
            }
            if next_info < elapsed_secs {
                return Report::Print;
            }
        }
        Report::Continue
    }
}

/// A change to one edge.
pub enum EdgeChange {
    /// A playout goes down the edge.
    Down,
    /// A playout comes back up the edge with a reward.
    Up(i64),
    /// The edge learns where it leads.
    Link(Option<NodeId>),
}

impl EdgeChange {
    /// Whether the change can be made to the edge `edge` of the tree `tree`.
    pub open spec fn allowed(self, tree: TreeView, edge: EdgeView) -> bool {
        match self {
            EdgeChange::Down => edge.visits < u32::MAX,
            EdgeChange::Up(evaln) => edge.in_flight > 0 && -SCALE <= evaln <= SCALE,
            EdgeChange::Link(child) => tree.tables.link_ok(child),
        }
    }

    /// The edge `edge` after the change.
    pub open spec fn applied(self, edge: EdgeView) -> EdgeView {
        match self {
            EdgeChange::Down => edge.descended(),
            EdgeChange::Up(evaln) => edge.ascended(evaln as int),
            EdgeChange::Link(child) => EdgeView { child, ..edge },
        }
    }
}

/// Changing one edge of the root or of a live node to a well-formed edge
/// with a sound link keeps the tree well-formed.
pub proof fn lemma_tree_edge_change_keeps_wf(tree: TreeView, cursor: Cursor, edge: int, e: EdgeView)
    requires
        tree.wf(),
        tree.holds(cursor),
        0 <= edge < tree.node_at(cursor).unwrap().edges.len(),
        e.wf(),
        tree.tables.link_ok(e.child),
    ensures
        tree.with_edge_at(cursor, edge, e).wf(),
{
    let after = tree.with_edge_at(cursor, edge, e);
    match cursor {
        Cursor::Node(id) => {
            lemma_edge_change_keeps_wf(tree.tables, id, edge, e);
            lemma_links_stay_ok(tree.tables, after.tables, tree.root);
        },
        _ => {
            assert forall|j: int| 0 <= j < after.root.edges.len() implies (
            #[trigger] after.root.edges[j]).wf() by {
                if j != edge {
                    assert(tree.root.edges[j].wf());
                }
            }
            assert forall|j: int| 0 <= j < after.root.edges.len() implies after.tables.link_ok(
                (#[trigger] after.root.edges[j]).child,
            ) by {
                if j != edge {
                    assert(tree.tables.link_ok(tree.root.edges[j].child));
                }
            }
        },
    }
}

/// The figures of a report on the search.
#[derive(Clone, Copy, Debug, PartialEq, Eq, Structural)]
pub struct SearchInfo {
    /// Mean depth of the playouts, at least 1.
    pub depth: usize,
    /// Largest depth of a playout, at least 1.
    pub seldepth: usize,
    pub nodes: usize,
    /// Nodes in a second.
    pub nps: u128,
    pub tbhits: usize,
    /// Milliseconds of search.
    pub time: u64,
    /// Number of moves to show of the principal variation.
    pub pv_length: usize,
}

/// The figures of a report on the tree `tree` after `search_time_ms`
/// milliseconds.
pub open spec fn search_info(tree: TreeView, search_time_ms: u64) -> Option<SearchInfo> {
    if search_time_ms == 0 || tree.playouts == 0 {
        None
    } else {
        let depth = tree.num_nodes / tree.playouts;
        Some(
            SearchInfo {
                depth: if depth < 1 {
                    1
                } else {
                    depth as usize
                },
                seldepth: if tree.max_depth < 1 {
                    1
                } else {
                    tree.max_depth as usize
                },
                nodes: tree.num_nodes as usize,
                nps: (tree.num_nodes * 1000 / (search_time_ms as nat)) as u128,
                tbhits: tree.tb_hits as usize,
                time: search_time_ms,
                pv_length: if depth < 2 {
                    2
                } else {
                    depth as usize
                },
            },
        )
    }
}

/// What is due after a playout.
#[derive(Clone, Copy, Debug, PartialEq, Eq, Structural)]
pub enum Report {
    /// Nothing: the search goes on.
    Continue,
    /// A report, and the search goes on.
    Print,
    /// A report, and the search stops.
    PrintAndStop,
}

/// What is due after the playout that brought the count to `playouts`:
/// every 128 playouts the search stops with a report if its time is over;
/// every 65536 playouts a report is due if the search has run into a second
/// later than `watermark`, the latest second reported.
pub open spec fn report_for(
    playouts: usize,
    after_end: bool,
    elapsed_secs: u64,
    watermark: u64,
) -> Report {
    if playouts % 128 == 0 && after_end {
        Report::PrintAndStop
    } else if playouts % 65536 == 0 && watermark < elapsed_secs {
        Report::Print
    } else {
        Report::Continue
    }
}

/// Every edge that the tree holds keeps its sum within what its visits
/// allow.
pub proof fn lemma_tree_edges_bounded(tree: TreeView, cursor: Cursor, edge: int)
    requires
        tree.wf(),
        tree.node_at(cursor).is_some(),
        0 <= edge < tree.node_at(cursor).unwrap().edges.len(),
    ensures
        ({
            let e = tree.node_at(cursor).unwrap().edges[edge];
            &&& e.wf()
            &&& -(e.visits * 2 * SCALE) <= e.sum_evaluations + e.visits * VIRTUAL_LOSS <= e.visits
                * 2 * SCALE
        }),
{
    let node = tree.node_at(cursor).unwrap();
    assert(node.wf()) by {
        match cursor {
            Cursor::Node(id) => {
                if id.generation == tree.tables.active_generation {
                    assert(tree.tables.active.arena.nodes[id.index as int].wf());
                } else {
                    assert(tree.tables.previous.arena.nodes[id.index as int].wf());
                }
            },
            _ => {},
        }
    }
    lemma_edge_sum_bounded(node.edges[edge]);
}

/// A node whose game is over has no edges, wherever the tree holds it.
pub proof fn lemma_terminal_nodes_have_no_edges(tree: TreeView, cursor: Cursor)
    requires
        tree.wf(),
        tree.node_at(cursor) matches Some(node) && node.flag.terminal(),
    ensures
        tree.node_at(cursor).unwrap().edges.len() == 0,
{
    match cursor {
        Cursor::Node(id) => {
            if id.generation == tree.tables.active_generation {
                assert(tree.tables.active.arena.nodes[id.index as int].wf());
            } else {
                assert(tree.tables.previous.arena.nodes[id.index as int].wf());
            }
        },
        _ => {},
    }
}

/// Whether a link bears the generation of one of the two tables.
pub open spec fn current(tables: LRView, id: NodeId) -> bool {
    id.generation == tables.active_generation || id.generation == tables.previous_generation
}

/// Where the walk from `cursor` along the edges `choices` ends, each edge
/// followed to the node that it names; nowhere, if an edge is missing or
/// names no node of the generations of the tables.
pub open spec fn walked(tree: TreeView, cursor: Cursor, choices: Seq<int>) -> Option<Cursor>
    decreases choices.len(),
{
    if choices.len() == 0 {
        Some(cursor)
    } else {
        match walked(tree, cursor, choices.drop_last()) {
            Some(at) => match tree.node_at(at) {
                Some(node) => {
                    let choice = choices.last();
                    if 0 <= choice < node.edges.len() && node.edges[choice].child.is_some()
                        && current(tree.tables, node.edges[choice].child.unwrap()) {
                        Some(Cursor::Node(node.edges[choice].child.unwrap()))
                    } else {
                        None
                    }
                },
                None => None,
            },
            None => None,
        }
    }
}

/// Every node that a walk from the root reaches along links of the
/// generations of the tables is a node of one of the two tables.
pub proof fn lemma_walks_stay_in_tables(tree: TreeView, choices: Seq<int>)
    requires
        tree.wf(),
        choices.len() > 0,
    ensures
        walked(tree, Cursor::Root, choices) matches Some(at) ==> at matches Cursor::Node(id)
            && tree.tables.live(id),
    decreases choices.len(),
{
    if choices.len() > 1 {
        lemma_walks_stay_in_tables(tree, choices.drop_last());
    }
    match walked(tree, Cursor::Root, choices.drop_last()) {
        Some(at) => {
            match tree.node_at(at) {
                Some(node) => {
                    let choice = choices.last();
                    if 0 <= choice < node.edges.len() {
                        match at {
                            Cursor::Node(id) => {
                                if id.generation == tree.tables.active_generation {
                                    assert(tree.tables.links_ok(
                                        tree.tables.active.arena.nodes[id.index as int],
                                    ));
                                } else {
                                    assert(tree.tables.links_ok(
                                        tree.tables.previous.arena.nodes[id.index as int],
                                    ));
                                }
                            },
                            _ => {},
                        }
                        assert(tree.tables.link_ok(node.edges[choice].child));
                    }
                },
                None => {},
            }
        },
        None => {},
    }
}

/// Whether `best` is the first place of a largest reward.
pub open spec fn first_largest(rewards: Seq<i64>, best: int) -> bool {
    &&& 0 <= best < rewards.len()
    &&& forall|i: int| 0 <= i < rewards.len() ==> rewards[i] <= rewards[best]
    &&& forall|i: int| 0 <= i < best ==> rewards[i] < rewards[best]
}

/// The child to play after the search, `rewards` holding the reward of
/// each child in their order: the first of those with the largest reward.
pub fn select_child_after_search(rewards: &[i64]) -> (best: usize)
    requires
        rewards@.len() > 0,
    ensures
        first_largest(rewards@, best as int),
{
    let mut best: usize = 0;
    let mut best_reward = rewards[0];
    let mut i: usize = 1;
    while i < rewards.len()
        invariant
            1 <= i <= rewards@.len(),
            best < i,
            best_reward == rewards@[best as int],
            forall|k: int| 0 <= k < i ==> rewards@[k] <= rewards@[best as int],
            forall|k: int| 0 <= k < best ==> rewards@[k] < rewards@[best as int],
        decreases rewards@.len() - i,
    {
        let reward = rewards[i];
        if reward > best_reward {
            best = i;
            best_reward = reward;
        }
        i = i + 1;
    }
    best
}

} // verus!
