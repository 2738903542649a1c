use chess_mcts::arena::{Arena, Error};
use chess_mcts::evaluation::{Flag, Wdl};
use chess_mcts::search_tree::{
    create_node, HotMoveInfo, NodeId, SearchNode, MAX_PLAYOUT_LENGTH, SCALE, VIRTUAL_LOSS,
};
use chess_mcts::state::State;
use chess_mcts::transposition_table::{LRTable, TranspositionTable};
use shakmaty::Move;

fn some_moves() -> Vec<Move> {
    State::new().unwrap().available_moves()
}

fn edge(policy: u32) -> HotMoveInfo {
    HotMoveInfo::new(policy, some_moves()[0])
}

fn node_with(edges: usize, flag: Flag) -> SearchNode {
    let moves = some_moves();
    SearchNode::new((0..edges).map(|i| HotMoveInfo::new(i as u32, moves[i])).collect(), flag)
}

#[test]
fn constants_of_the_search() {
    assert_eq!(VIRTUAL_LOSS, SCALE);
    assert_eq!(MAX_PLAYOUT_LENGTH, 256);
}

#[test]
fn new_edge_is_untouched() {
    let moves = some_moves();
    let e = HotMoveInfo::new(0.25f32.to_bits(), moves[3]);
    assert_eq!(e.visits(), 0);
    assert_eq!(e.sum_rewards(), 0);
    assert_eq!(e.in_flight(), 0);
    assert_eq!(f32::from_bits(e.policy()), 0.25);
    assert_eq!(*e.get_move(), moves[3]);
    assert_eq!(e.child(), None);
}

#[test]
fn down_takes_a_virtual_loss() {
    let mut e = edge(0);
    e.down();
    assert_eq!(e.visits(), 1);
    assert_eq!(e.in_flight(), 1);
    assert_eq!(e.sum_rewards(), -SCALE);
    e.down();
    assert_eq!(e.visits(), 2);
    assert_eq!(e.in_flight(), 2);
    assert_eq!(e.sum_rewards(), -2 * SCALE);
}

#[test]
fn up_gives_the_virtual_loss_back_with_the_reward() {
    let mut e = edge(0);
    e.down();
    e.up(SCALE / 4);
    assert_eq!(e.visits(), 1);
    assert_eq!(e.in_flight(), 0);
    assert_eq!(e.sum_rewards(), SCALE / 4);
    e.down();
    e.down();
    e.up(-SCALE);
    assert_eq!(e.sum_rewards(), SCALE / 4 - 2 * SCALE);
    assert_eq!(e.in_flight(), 1);
    e.up(SCALE);
    assert_eq!(e.sum_rewards(), SCALE / 4);
    assert_eq!(e.visits(), 3);
}

#[test]
fn sum_stays_within_two_units_a_visit() {
    let mut e = edge(0);
    let rewards = [SCALE, -SCALE, 0, SCALE, SCALE, -SCALE / 2, 17, -SCALE];
    for (i, reward) in rewards.into_iter().enumerate() {
        e.down();
        let visits = e.visits() as i64;
        assert!((e.sum_rewards() + visits * VIRTUAL_LOSS).abs() <= visits * 2 * SCALE);
        e.up(reward);
        assert_eq!(e.visits() as usize, i + 1);
        assert!((e.sum_rewards() + visits * VIRTUAL_LOSS).abs() <= visits * 2 * SCALE);
        assert!(e.sum_rewards().abs() <= visits * SCALE);
    }
    assert_eq!(e.sum_rewards(), SCALE - SCALE / 2 + 17);
}

#[test]
fn replace_takes_the_counts_and_keeps_the_rest() {
    let moves = some_moves();
    let mut other = HotMoveInfo::new(9, moves[1]);
    other.down();
    other.up(100);
    other.down();
    other.set_child(Some(NodeId { generation: 4, index: 2 }));
    let mut e = HotMoveInfo::new(5, moves[0]);
    e.replace(&other);
    assert_eq!(e.visits(), 2);
    assert_eq!(e.sum_rewards(), 100 - SCALE);
    assert_eq!(e.in_flight(), 0);
    assert_eq!(e.policy(), 5);
    assert_eq!(*e.get_move(), moves[0]);
    assert_eq!(e.child(), None);
}

#[test]
fn duplicate_edge_holds_the_same() {
    let mut e = edge(77);
    e.down();
    e.set_child(Some(NodeId { generation: 1, index: 0 }));
    e.set_policy(78);
    let copy = e.duplicate();
    assert_eq!(copy.visits(), 1);
    assert_eq!(copy.in_flight(), 1);
    assert_eq!(copy.sum_rewards(), -SCALE);
    assert_eq!(copy.policy(), 78);
    assert_eq!(copy.child(), Some(NodeId { generation: 1, index: 0 }));
    assert_eq!(copy.get_move(), e.get_move());
}

#[test]
fn node_answers_for_its_flag() {
    let mut node = node_with(0, Flag::Standard);
    assert_eq!(node.flag(), Flag::Standard);
    assert!(!node.is_terminal());
    assert!(!node.is_tablebase());
    node.set_flag(Flag::TerminalLoss);
    assert!(node.is_terminal());
    let node = node_with(3, Flag::TablebaseWin);
    assert!(node.is_tablebase());
    assert!(!node.is_terminal());
    assert_eq!(node.len(), 3);
    assert_eq!(node.hots().len(), 3);
}

#[test]
fn sentinels_have_no_edges() {
    let draw = SearchNode::draw();
    assert_eq!(draw.flag(), Flag::TerminalDraw);
    assert!(draw.hots().is_empty());
    let unexpanded = SearchNode::unexpanded();
    assert_eq!(unexpanded.flag(), Flag::Standard);
    assert!(unexpanded.hots().is_empty());
}

#[test]
fn update_policy_stops_at_the_shorter() {
    let mut node = node_with(3, Flag::Standard);
    node.update_policy(&[10, 11]);
    let priors: Vec<u32> = node.hots().iter().map(|e| e.policy()).collect();
    assert_eq!(priors, vec![10, 11, 2]);
    node.update_policy(&[20, 21, 22, 23]);
    let priors: Vec<u32> = node.hots().iter().map(|e| e.policy()).collect();
    assert_eq!(priors, vec![20, 21, 22]);
}

#[test]
fn clear_children_links_leaves_the_counts() {
    let mut node = node_with(3, Flag::Standard);
    node.link_edge(0, Some(NodeId { generation: 2, index: 5 }));
    node.link_edge(2, Some(NodeId { generation: 1, index: 0 }));
    node.down_edge(2);
    assert_eq!(node.hots()[0].child(), Some(NodeId { generation: 2, index: 5 }));
    node.clear_children_links();
    for e in node.hots() {
        assert_eq!(e.child(), None);
    }
    assert_eq!(node.hots()[2].visits(), 1);
    assert_eq!(node.hots()[2].sum_rewards(), -SCALE);
    assert_eq!(node.hots()[1].policy(), 1);
}

#[test]
fn node_edges_go_down_and_up() {
    let mut node = node_with(2, Flag::Standard);
    node.down_edge(1);
    node.up_edge(1, -SCALE);
    assert_eq!(node.hots()[1].visits(), 1);
    assert_eq!(node.hots()[1].sum_rewards(), -SCALE);
    assert_eq!(node.hots()[0].visits(), 0);
}

#[test]
fn warm_start_copies_counts_in_order() {
    let mut old = node_with(2, Flag::Standard);
    old.down_edge(0);
    old.up_edge(0, 300);
    old.down_edge(1);
    old.up_edge(1, -50);
    old.down_edge(1);
    old.up_edge(1, -50);
    let mut fresh = node_with(3, Flag::Standard);
    fresh.warm_start(&old);
    assert_eq!(fresh.hots()[0].visits(), 1);
    assert_eq!(fresh.hots()[0].sum_rewards(), 300);
    assert_eq!(fresh.hots()[1].visits(), 2);
    assert_eq!(fresh.hots()[1].sum_rewards(), -100);
    assert_eq!(fresh.hots()[2].visits(), 0);
    assert_eq!(fresh.hots()[2].policy(), 2);
    let mut short = node_with(1, Flag::Standard);
    short.warm_start(&old);
    assert_eq!(short.len(), 1);
    assert_eq!(short.hots()[0].sum_rewards(), 300);
}

#[test]
fn duplicate_node_holds_the_same() {
    let mut node = node_with(2, Flag::TablebaseDraw);
    node.down_edge(1);
    let copy = node.duplicate();
    assert_eq!(copy.flag(), Flag::TablebaseDraw);
    assert_eq!(copy.len(), 2);
    assert_eq!(copy.hots()[1].visits(), 1);
    assert_eq!(copy.hots()[0].get_move(), node.hots()[0].get_move());
}

#[test]
fn create_node_pairs_priors_with_moves() {
    let state = State::new().unwrap();
    let moves = state.available_moves();
    let policy: Vec<u32> = (0..moves.len() as u32).map(|i| 100 + i).collect();
    let mut tb_hits = 0;
    let node = create_node(&state, &policy, None, &mut tb_hits);
    assert_eq!(node.flag(), Flag::Standard);
    assert_eq!(node.len(), 20);
    assert_eq!(tb_hits, 0);
    for (i, e) in node.hots().iter().enumerate() {
        assert_eq!(e.policy(), 100 + i as u32);
        assert_eq!(*e.get_move(), moves[i]);
        assert_eq!(e.visits(), 0);
        assert_eq!(e.child(), None);
    }
    let fewer = create_node(&state, &policy[..3], Some(Wdl::Win), &mut tb_hits);
    assert_eq!(fewer.len(), 3);
    assert_eq!(fewer.flag(), Flag::TablebaseWin);
    assert_eq!(tb_hits, 1);
    // priors beyond the last move are left out
    let longer: Vec<u32> = (0..25).collect();
    let capped = create_node(&state, &longer, None, &mut tb_hits);
    assert_eq!(capped.len(), 20);
    assert_eq!(capped.hots()[19].policy(), 19);
    assert_eq!(*capped.hots()[19].get_move(), moves[19]);
}

#[test]
fn create_node_of_a_finished_game_has_no_edges() {
    let state = State::from_fen("R5k1/5ppp/8/8/8/8/8/6K1 b - - 0 1").unwrap();
    let moves = state.available_moves();
    let mut tb_hits = 5;
    let node = create_node(&state, &[], Some(Wdl::Loss), &mut tb_hits);
    assert_eq!(node.flag(), Flag::TerminalWin);
    assert!(node.is_terminal());
    assert!(node.hots().is_empty());
    assert_eq!(tb_hits, 5);
}

#[test]
fn arena_grants_until_a_limit_is_reached() {
    let mut arena = Arena::new(2, 5);
    assert_eq!(arena.len(), 0);
    assert!(!arena.is_full());
    assert_eq!(arena.alloc_move_info(3), Ok(()));
    assert_eq!(arena.alloc_node(node_with(3, Flag::Standard)), Ok(0));
    assert_eq!(arena.alloc_move_info(2), Ok(()));
    assert_eq!(arena.alloc_node(node_with(2, Flag::Standard)), Ok(1));
    assert!(!arena.is_full());
    assert_eq!(arena.alloc_node(node_with(0, Flag::Standard)), Err(Error::Full));
    assert!(arena.is_full());
    assert_eq!(arena.len(), 2);
    assert_eq!(arena.node(1).len(), 2);
}

#[test]
fn arena_once_full_refuses_everything() {
    let mut arena = Arena::new(10, 5);
    assert_eq!(arena.alloc_move_info(6), Err(Error::Full));
    assert!(arena.is_full());
    assert_eq!(arena.alloc_move_info(1), Err(Error::Full));
    assert_eq!(arena.alloc_node(node_with(0, Flag::Standard)), Err(Error::Full));
    assert_eq!(arena.len(), 0);
    arena.clear();
    assert!(!arena.is_full());
    assert_eq!(arena.alloc_move_info(5), Ok(()));
    assert_eq!(arena.alloc_move_info(1), Err(Error::Full));
}

#[test]
fn arena_store_asks_for_edges_and_node() {
    let mut arena = Arena::new(2, 4);
    assert_eq!(arena.store(node_with(3, Flag::Standard)), Ok(0));
    assert_eq!(arena.store(node_with(2, Flag::Standard)), Err(Error::Full));
    assert!(arena.is_full());
    assert_eq!(arena.len(), 1);
}

#[test]
fn arena_changes_one_edge() {
    let mut arena = Arena::new(4, 40);
    arena.store(node_with(2, Flag::Standard)).unwrap();
    arena.store(node_with(3, Flag::Standard)).unwrap();
    arena.down_edge(1, 2);
    arena.up_edge(1, 2, 5);
    arena.link_edge(0, 1, Some(NodeId { generation: 1, index: 1 }));
    assert_eq!(arena.node(1).hots()[2].sum_rewards(), 5);
    assert_eq!(arena.node(1).hots()[1].visits(), 0);
    assert_eq!(arena.node(0).hots()[1].child(), Some(NodeId { generation: 1, index: 1 }));
    arena.clear_links();
    assert_eq!(arena.node(0).hots()[1].child(), None);
    assert_eq!(arena.node(1).hots()[2].visits(), 1);
}

#[test]
fn table_finds_what_was_inserted() {
    let (mut pair, first) = pair_with_one_node(42);
    assert_eq!(first, NodeId { generation: 2, index: 0 });
    assert_eq!(pair.lookup(42), Some(first));
    assert_eq!(pair.lookup(43), None);
    let second = pair.alloc_node(node_with(1, Flag::Standard)).unwrap();
    assert_eq!(second, NodeId { generation: 2, index: 1 });
    // the position is known: the table names the node that it has
    assert_eq!(pair.insert(42, second.index), Some(first));
    assert_eq!(pair.lookup(42), Some(first));
    assert_eq!(pair.insert(43, second.index), None);
    assert_eq!(pair.lookup(43), Some(second));
    let table = pair.table();
    assert_eq!(table.lookup(42), Some(0));
    assert_eq!(table.lookup(43), Some(1));
    assert_eq!(table.lookup(44), None);
    assert_eq!(table.arena().len(), 2);
}

fn pair_with_one_node(key: u64) -> (LRTable, NodeId) {
    let mut pair = LRTable::new(TranspositionTable::empty(4, 100), TranspositionTable::empty(4, 100));
    assert_eq!(pair.generation(), 2);
    pair.alloc_move_info(2).unwrap();
    let id = pair.alloc_node(node_with(2, Flag::Standard)).unwrap();
    assert_eq!(pair.insert(key, id.index), None);
    (pair, id)
}

#[test]
fn flip_keeps_the_last_generation_only() {
    let (mut pair, first) = pair_with_one_node(42);
    pair.down_edge(first, 1);
    pair.up_edge(first, 1, 9);
    pair.flip_tables();
    assert_eq!(pair.generation(), 3);
    assert!(!pair.is_arena_full());
    // the node is still there, in the previous generation
    assert_eq!(pair.node(first).unwrap().hots()[1].sum_rewards(), 9);
    assert!(pair.node(NodeId { generation: 3, index: 0 }).is_none());
    pair.flip_tables();
    assert_eq!(pair.generation(), 4);
    assert!(pair.node(first).is_none());
    assert_eq!(pair.lookup(42), None);
}

#[test]
fn lookup_promotes_from_the_previous_generation() {
    let (mut pair, first) = pair_with_one_node(42);
    pair.down_edge(first, 0);
    pair.up_edge(first, 0, -7);
    pair.link_edge(first, 1, Some(first));
    pair.flip_tables();
    let promoted = pair.lookup(42).unwrap();
    assert_eq!(promoted, NodeId { generation: 3, index: 0 });
    let copy = pair.node(promoted).unwrap();
    assert_eq!(copy.len(), 2);
    assert_eq!(copy.hots()[0].visits(), 1);
    assert_eq!(copy.hots()[0].sum_rewards(), -7);
    assert_eq!(copy.hots()[1].child(), Some(first));
    // the second time the active table knows the node
    assert_eq!(pair.lookup(42), Some(promoted));
    assert_eq!(pair.table().arena().len(), 1);
}

#[test]
fn lookup_names_the_previous_node_when_the_arena_is_full() {
    let mut old = LRTable::new(TranspositionTable::empty(4, 100), TranspositionTable::empty(0, 0));
    old.alloc_move_info(2).unwrap();
    let id = old.alloc_node(node_with(2, Flag::Standard)).unwrap();
    old.insert(42, id.index);
    let previous = old.table();
    let mut pair = LRTable::new(TranspositionTable::empty(0, 0), previous);
    assert!(!pair.is_arena_full());
    assert_eq!(pair.lookup(42), Some(NodeId { generation: 1, index: 0 }));
    assert!(pair.is_arena_full());
    assert_eq!(pair.lookup(7), None);
}

#[test]
fn lookup_into_warms_from_either_generation() {
    let (mut pair, first) = pair_with_one_node(42);
    pair.down_edge(first, 0);
    pair.up_edge(first, 0, 11);
    let mut fresh = node_with(2, Flag::Standard);
    pair.lookup_into(42, &mut fresh);
    assert_eq!(fresh.hots()[0].visits(), 1);
    assert_eq!(fresh.hots()[0].sum_rewards(), 11);
    pair.flip_tables();
    let mut fresh = node_with(2, Flag::Standard);
    pair.lookup_into(42, &mut fresh);
    assert_eq!(fresh.hots()[0].sum_rewards(), 11);
    let mut untouched = node_with(2, Flag::Standard);
    pair.lookup_into(43, &mut untouched);
    assert_eq!(untouched.hots()[0].visits(), 0);
}

#[test]
fn pairing_tables_clears_the_links() {
    let (mut pair, first) = pair_with_one_node(42);
    pair.link_edge(first, 0, Some(first));
    pair.down_edge(first, 0);
    let table = pair.table();
    let pair = LRTable::new(table, TranspositionTable::empty(1, 1));
    let node = pair.node(NodeId { generation: 2, index: 0 }).unwrap();
    assert_eq!(node.hots()[0].child(), None);
    assert_eq!(node.hots()[0].visits(), 1);
}
