use tile_merge::board::{Board, Piece, Pos, MAX_MERGEABLE, MAX_TILE};
use tile_merge::direction::{line_cell, Direction};
use tile_merge::end_check::check_game_end;
use tile_merge::game::{Game, Phase, Tile};
use tile_merge::resolve::{resolve_line, resolve_move, Instruction, MoveType};
use tile_merge::score::ScoreTracker;
use tile_merge::spawn::spawn_value;

fn line_of(values: &[u64]) -> Vec<Option<Piece>> {
    values
        .iter()
        .enumerate()
        .map(|(i, &v)| if v == 0 { None } else { Some(Piece { id: i as u64 + 1, value: v }) })
        .collect()
}

fn values_of(cells: &[Option<Piece>]) -> Vec<u64> {
    cells.iter().map(|c| c.map_or(0, |p| p.value)).collect()
}

fn board_of(size: usize, values: &[u64]) -> Board {
    Board { size, cells: line_of(values) }
}

fn game_of(size: usize, values: &[u64], phase: Phase) -> Game {
    let board = board_of(size, values);
    let mut tiles = vec![];
    for (i, c) in board.cells.iter().enumerate() {
        if let Some(p) = c {
            tiles.push(Tile { id: p.id, value: p.value, pos: Board::to_pos(i, size) });
        }
    }
    Game {
        board,
        tiles,
        pending: vec![],
        phase,
        score: ScoreTracker::new(),
        score_to_add: 0,
        next_id: 1000,
    }
}

fn occupied(b: &Board) -> usize {
    b.cells.iter().filter(|c| c.is_some()).count()
}

#[test]
fn line_pair_then_four_slides() {
    let (moves, gain, settled) = resolve_line(&line_of(&[2, 2, 4, 0]));
    assert_eq!(values_of(&settled), vec![4, 4, 0, 0]);
    assert_eq!(gain, 4);
    assert_eq!(moves.len(), 3);
    assert_eq!(moves[1].survivor, Some(1));
    assert_eq!(moves[1].to, 0);
    assert_eq!(moves[2].survivor, None);
    assert_eq!(moves[2].to, 1);
}

#[test]
fn line_second_move_merges_again() {
    let (_, gain, settled) = resolve_line(&line_of(&[2, 2, 4, 0]));
    let (moves, gain2, settled2) = resolve_line(&settled);
    assert_eq!(gain, 4);
    assert_eq!(values_of(&settled2), vec![8, 0, 0, 0]);
    assert_eq!(gain2, 8);
    assert_eq!(moves.len(), 2);
}

#[test]
fn line_three_equal_merge_once() {
    let (moves, gain, settled) = resolve_line(&line_of(&[2, 2, 2, 0]));
    assert_eq!(values_of(&settled), vec![4, 2, 0, 0]);
    assert_eq!(gain, 4);
    assert_eq!(moves[2].survivor, None);
    assert_eq!(moves[2].to, 1);
}

#[test]
fn line_four_equal_make_two_pairs() {
    let (_, gain, settled) = resolve_line(&line_of(&[2, 2, 2, 2]));
    assert_eq!(values_of(&settled), vec![4, 4, 0, 0]);
    assert_eq!(gain, 8);
}

#[test]
fn line_merged_tile_does_not_merge_again() {
    let (_, gain, settled) = resolve_line(&line_of(&[2, 2, 4, 4]));
    assert_eq!(values_of(&settled), vec![4, 8, 0, 0]);
    assert_eq!(gain, 12);
    let (_, gain, settled) = resolve_line(&line_of(&[4, 2, 2, 0]));
    assert_eq!(values_of(&settled), vec![4, 4, 0, 0]);
    assert_eq!(gain, 4);
}

#[test]
fn line_gaps_compact() {
    let (moves, gain, settled) = resolve_line(&line_of(&[0, 2, 0, 2]));
    assert_eq!(values_of(&settled), vec![4, 0, 0, 0]);
    assert_eq!(gain, 4);
    assert_eq!(moves[0].from, 1);
    assert_eq!(moves[0].to, 0);
    assert_eq!(moves[1].from, 3);
    assert_eq!(moves[1].survivor, Some(2));
}

#[test]
fn line_empty_gives_nothing() {
    let (moves, gain, settled) = resolve_line(&line_of(&[0, 0, 0, 0]));
    assert!(moves.is_empty());
    assert_eq!(gain, 0);
    assert_eq!(values_of(&settled), vec![0, 0, 0, 0]);
}

#[test]
fn line_cells_of_each_direction() {
    assert_eq!(line_cell(Direction::Up, 4, 1, 0), Pos { row: 0, col: 1 });
    assert_eq!(line_cell(Direction::Down, 4, 1, 0), Pos { row: 3, col: 1 });
    assert_eq!(line_cell(Direction::Left, 4, 2, 3), Pos { row: 2, col: 3 });
    assert_eq!(line_cell(Direction::Right, 4, 2, 0), Pos { row: 2, col: 3 });
}

#[test]
fn board_move_each_direction() {
    let b = board_of(4, &[
        2, 2, 4, 0,
        0, 0, 0, 0,
        0, 0, 0, 0,
        2, 0, 0, 0,
    ]);
    let left = resolve_move(&b, Direction::Left);
    assert_eq!(values_of(&left.settled.cells[0..4]), vec![4, 4, 0, 0]);
    assert_eq!(values_of(&left.settled.cells[12..16]), vec![2, 0, 0, 0]);
    assert_eq!(left.gain, 4);
    let right = resolve_move(&b, Direction::Right);
    assert_eq!(values_of(&right.settled.cells[0..4]), vec![0, 0, 4, 4]);
    assert_eq!(right.gain, 4);
    let up = resolve_move(&b, Direction::Up);
    assert_eq!(values_of(&up.settled.cells[0..4]), vec![4, 2, 4, 0]);
    assert_eq!(up.gain, 4);
    let down = resolve_move(&b, Direction::Down);
    assert_eq!(values_of(&down.settled.cells[12..16]), vec![4, 2, 4, 0]);
    assert_eq!(down.gain, 4);
    assert_eq!(occupied(&down.settled), 3);
}

#[test]
fn board_move_instructions() {
    let b = board_of(4, &[2, 2, 4, 0, 0, 0, 0, 0, 0, 0, 0, 0, 0, 0, 0, 0]);
    let out = resolve_move(&b, Direction::Left);
    assert_eq!(
        out.instructions,
        vec![
            Instruction { tile: 1, value: 2, from: Pos { row: 0, col: 0 }, kind: MoveType::Slide(Pos { row: 0, col: 0 }) },
            Instruction { tile: 2, value: 2, from: Pos { row: 0, col: 1 }, kind: MoveType::MergeInto(Pos { row: 0, col: 0 }, 1) },
            Instruction { tile: 3, value: 4, from: Pos { row: 0, col: 2 }, kind: MoveType::Slide(Pos { row: 0, col: 1 }) },
        ]
    );
}

#[test]
fn occupancy_drops_by_merges() {
    let b = board_of(4, &[2, 2, 2, 2, 4, 4, 8, 0, 2, 4, 8, 16, 0, 0, 0, 2]);
    let out = resolve_move(&b, Direction::Left);
    let merges = out
        .instructions
        .iter()
        .filter(|i| matches!(i.kind, MoveType::MergeInto(_, _)))
        .count();
    assert_eq!(merges, 3);
    assert_eq!(occupied(&out.settled), occupied(&b) - merges);
    assert_eq!(out.gain, 4 + 4 + 8);
}

#[test]
fn full_board_without_pairs_is_terminal() {
    let b = board_of(4, &[2, 4, 2, 4, 4, 2, 4, 2, 2, 4, 2, 4, 4, 2, 4, 2]);
    assert!(check_game_end(&b));
    let mut g = game_of(4, &[2, 4, 2, 4, 4, 2, 4, 2, 2, 4, 2, 4, 4, 2, 4, 2], Phase::GameOver);
    g.process_move(Direction::Left);
    assert_eq!(g.phase, Phase::GameOver);
    assert!(g.pending.is_empty());
    g.new_game_event();
    assert_eq!(g.phase, Phase::AwaitingInput);
    assert_eq!(occupied(&g.board), 2);
}

#[test]
fn full_board_with_pair_is_not_terminal() {
    assert!(!check_game_end(&board_of(4, &[2, 4, 2, 4, 4, 2, 4, 2, 2, 4, 2, 4, 4, 2, 4, 4])));
    assert!(!check_game_end(&board_of(4, &[2, 4, 2, 4, 4, 2, 4, 2, 2, 4, 2, 4, 2, 2, 4, 2])));
    assert!(!check_game_end(&board_of(2, &[2, 4, 2, 8])));
}

#[test]
fn board_with_empty_cell_is_not_terminal() {
    assert!(!check_game_end(&board_of(4, &[2, 4, 2, 4, 4, 2, 4, 2, 2, 4, 2, 4, 4, 2, 4, 0])));
}

#[test]
fn new_game_during_animation() {
    let mut g = game_of(4, &[2, 0, 2, 0, 0, 0, 0, 0, 0, 0, 0, 0, 0, 0, 0, 8], Phase::AwaitingInput);
    g.process_move(Direction::Right);
    assert_eq!(g.phase, Phase::Animating);
    assert_eq!(g.pending.len(), 3);
    let old_ids: Vec<u64> = g.tiles.iter().map(|t| t.id).collect();
    g.new_game_event();
    assert_eq!(g.phase, Phase::AwaitingInput);
    assert!(g.pending.is_empty());
    assert_eq!(g.tiles.len(), 2);
    assert_eq!(occupied(&g.board), 2);
    assert!(g.tiles.iter().all(|t| !old_ids.contains(&t.id)));
    assert_eq!(g.score_to_add, 0);
    let tiles_before = g.tiles.clone();
    let cells_before = g.board.cells.clone();
    for id in old_ids {
        g.anim_completed_event(id);
    }
    assert_eq!(g.tiles, tiles_before);
    assert_eq!(g.board.cells, cells_before);
    assert_eq!(g.phase, Phase::AwaitingInput);
}

#[test]
fn full_turn_moves_merges_scores_and_spawns() {
    let mut g = game_of(4, &[2, 2, 4, 0, 0, 0, 0, 0, 0, 0, 0, 0, 0, 0, 0, 0], Phase::AwaitingInput);
    g.process_move(Direction::Left);
    assert_eq!(g.phase, Phase::Animating);
    let ids: Vec<u64> = g.pending.iter().map(|i| i.tile).collect();
    // a move request while animating is dropped
    let pending = g.pending.clone();
    g.process_move(Direction::Right);
    assert_eq!(g.pending, pending);
    g.tick();
    assert_eq!(g.phase, Phase::Animating);
    for id in ids.iter().rev() {
        g.anim_completed_event(*id);
    }
    assert!(g.pending.is_empty());
    assert_eq!(g.tiles.len(), 2);
    assert!(g.tiles.contains(&Tile { id: 1, value: 4, pos: Pos { row: 0, col: 0 } }));
    assert!(g.tiles.contains(&Tile { id: 3, value: 4, pos: Pos { row: 0, col: 1 } }));
    g.tick();
    assert_eq!(g.phase, Phase::AwaitingInput);
    assert_eq!(g.score.score, 4);
    assert_eq!(g.score.high_score, 4);
    assert_eq!(g.score_to_add, 0);
    assert_eq!(occupied(&g.board), 3);
    assert_eq!(g.board.cells[0], Some(Piece { id: 1, value: 4 }));
    assert_eq!(g.board.cells[1], Some(Piece { id: 3, value: 4 }));
}

#[test]
fn blocked_move_still_spawns() {
    let mut g = game_of(4, &[2, 4, 0, 0, 0, 0, 0, 0, 0, 0, 0, 0, 0, 0, 0, 0], Phase::AwaitingInput);
    g.process_move(Direction::Left);
    let ids: Vec<u64> = g.pending.iter().map(|i| i.tile).collect();
    for id in ids {
        g.anim_completed_event(id);
    }
    g.tick();
    assert_eq!(g.phase, Phase::AwaitingInput);
    assert_eq!(occupied(&g.board), 3);
    assert_eq!(g.score.score, 0);
}

#[test]
fn high_score_survives_new_game() {
    let mut g = game_of(4, &[2, 2, 0, 0, 0, 0, 0, 0, 0, 0, 0, 0, 0, 0, 0, 0], Phase::AwaitingInput);
    g.process_move(Direction::Left);
    let ids: Vec<u64> = g.pending.iter().map(|i| i.tile).collect();
    for id in ids {
        g.anim_completed_event(id);
    }
    g.tick();
    assert_eq!(g.score.score, 4);
    g.new_game_event();
    assert_eq!(g.score.score, 0);
    assert_eq!(g.score.high_score, 4);
}

#[test]
fn score_tracker_add_and_reset() {
    let mut s = ScoreTracker::new();
    s.add(4);
    s.add(8);
    assert_eq!((s.score, s.high_score), (12, 12));
    s.reset();
    assert_eq!((s.score, s.high_score), (0, 12));
    s.add(4);
    assert_eq!((s.score, s.high_score), (4, 12));
    s.add(u64::MAX);
    assert_eq!(s.score, u64::MAX);
}

#[test]
fn spawn_values() {
    assert_eq!(spawn_value(0), 4);
    assert_eq!(spawn_value(1), 2);
    assert_eq!(spawn_value(9), 2);
}

#[test]
fn spawning_fills_distinct_empty_cells() {
    let mut g = Game::new(4);
    g.add_piece_event(5);
    assert_eq!(occupied(&g.board), 5);
    assert_eq!(g.tiles.len(), 5);
    assert!(g.tiles.iter().all(|t| t.value == 2 || t.value == 4));
    g.add_piece_event(20);
    assert_eq!(occupied(&g.board), 16);
    assert_eq!(g.tiles.len(), 16);
    g.add_piece_event(1);
    assert_eq!(g.tiles.len(), 16);
}

#[test]
fn start_game_spawns_two() {
    let mut g = Game::new(4);
    assert_eq!(g.phase, Phase::Setup);
    g.process_move(Direction::Up);
    assert_eq!(g.phase, Phase::Setup);
    g.start_game();
    assert_eq!(g.phase, Phase::AwaitingInput);
    assert_eq!(occupied(&g.board), 2);
    assert_eq!(g.tiles.len(), 2);
}

#[test]
fn one_cell_board_ends_at_once() {
    let mut g = Game::new(1);
    g.start_game();
    assert_eq!(occupied(&g.board), 1);
    assert_eq!(g.phase, Phase::GameOver);
}

#[test]
fn index_and_position() {
    assert_eq!(Board::to_index(Pos { row: 2, col: 3 }, 4), 11);
    assert_eq!(Board::to_pos(11, 4), Pos { row: 2, col: 3 });
    let mut b = Board::new(3);
    b.set(Pos { row: 1, col: 2 }, Some(Piece { id: 7, value: 8 }));
    assert_eq!(b.get(Pos { row: 1, col: 2 }), Some(Piece { id: 7, value: 8 }));
    assert_eq!(b.empty_cells(), vec![0, 1, 2, 3, 4, 6, 7, 8]);
    assert!(!b.is_full());
    b.clear();
    assert_eq!(b.empty_cells().len(), 9);
}

#[test]
fn spawn_on_last_cell_ends_game() {
    let mut g = game_of(4, &[2, 4, 2, 4, 4, 2, 4, 2, 2, 4, 2, 8, 4, 2, 16, 0], Phase::AwaitingInput);
    g.add_piece_event(1);
    assert_eq!(occupied(&g.board), 16);
    assert_eq!(g.phase, Phase::GameOver);
}

#[test]
fn spawn_leaving_a_pair_keeps_playing() {
    let mut g = game_of(4, &[2, 4, 2, 4, 4, 2, 4, 2, 2, 4, 2, 8, 4, 8, 8, 0], Phase::AwaitingInput);
    g.add_piece_event(1);
    assert_eq!(occupied(&g.board), 16);
    assert_eq!(g.phase, Phase::AwaitingInput);
}

#[test]
fn merges_stop_at_the_value_cap() {
    let (_, gain, settled) = resolve_line(&line_of(&[MAX_MERGEABLE, MAX_MERGEABLE, 0]));
    assert_eq!(values_of(&settled), vec![MAX_TILE, 0, 0]);
    assert_eq!(gain, MAX_TILE);
    let (_, gain, settled) = resolve_line(&line_of(&[MAX_TILE, MAX_TILE, 0]));
    assert_eq!(values_of(&settled), vec![MAX_TILE, MAX_TILE, 0]);
    assert_eq!(gain, 0);
}

#[test]
fn drawn_piece_takes_the_picked_empty_cell() {
    let mut g = game_of(2, &[2, 0, 0, 0], Phase::AwaitingInput);
    let mut empties = g.board.empty_cells();
    assert_eq!(empties, vec![1, 2, 3]);
    g.place_drawn_piece(&mut empties, 1, 0);
    assert_eq!(empties, vec![1, 3]);
    assert_eq!(g.board.cells[2], Some(Piece { id: 1000, value: 4 }));
    assert_eq!(g.tiles.last(), Some(&Tile { id: 1000, value: 4, pos: Pos { row: 1, col: 0 } }));
    g.place_drawn_piece(&mut empties, 1, 7);
    assert_eq!(empties, vec![1]);
    assert_eq!(g.board.cells[3], Some(Piece { id: 1001, value: 2 }));
    assert_eq!(g.next_id, 1002);
}
