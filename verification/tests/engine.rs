use tetris::game::Event;
use tetris::game::Game;
use tetris::game::PiecePicker;
use tetris::game::RandomPicker;
use tetris::game::ScriptedPicker;
use tetris::game::State;
use tetris::grid::Grid;

/// The coordinates of every occupied cell of a grid, in row-major order.
fn true_cells(g: &Grid) -> Vec<(usize, usize)> {
    let mut out = Vec::new();
    for i in 0..g.rows() {
        for j in 0..g.columns() {
            if g.get(i, j) {
                out.push((i, j));
            }
        }
    }
    out
}

fn square_game(rows: usize, cols: usize) -> Game<ScriptedPicker> {
    Game::new((rows, cols), ScriptedPicker::new(vec![0]))
}

#[test]
fn start_spawns_a_piece_and_plays() {
    let mut g = square_game(4, 4);
    assert_eq!(g.state, State::Init);
    assert!(g.handle_event(Event::Start));
    assert_eq!(g.state, State::Playing);
    // The square spawns top-aligned at column 4 / 2 = 2.
    let r = g.render();
    assert_eq!(true_cells(&r), vec![(2, 2), (2, 3), (3, 2), (3, 3)]);
    // The level itself holds nothing yet.
    assert_eq!(true_cells(&g.level), vec![]);
}

#[test]
fn left_stops_at_the_wall() {
    let mut g = square_game(4, 4);
    g.handle_event(Event::Start);
    assert!(g.handle_event(Event::Left));
    assert_eq!(true_cells(&g.render()), vec![(2, 1), (2, 2), (3, 1), (3, 2)]);
    g.handle_event(Event::Left);
    assert_eq!(true_cells(&g.render()), vec![(2, 0), (2, 1), (3, 0), (3, 1)]);
    // At column 0 a further move left is rejected and changes nothing.
    let before = g.render();
    g.handle_event(Event::Left);
    assert!(g.render().same_cells(&before));
    g.handle_event(Event::Left);
    assert!(g.render().same_cells(&before));
}

#[test]
fn right_stops_at_the_wall() {
    let mut g = square_game(4, 4);
    g.handle_event(Event::Start);
    g.handle_event(Event::Right);
    // Column 2 is already the rightmost position for a 2-wide piece.
    assert_eq!(true_cells(&g.render()), vec![(2, 2), (2, 3), (3, 2), (3, 3)]);
}

#[test]
fn tick_drops_the_piece_one_row() {
    let mut g = square_game(4, 4);
    g.handle_event(Event::Start);
    g.tick();
    assert_eq!(true_cells(&g.render()), vec![(1, 2), (1, 3), (2, 2), (2, 3)]);
    assert_eq!(true_cells(&g.level), vec![]);
    g.tick();
    assert_eq!(true_cells(&g.render()), vec![(0, 2), (0, 3), (1, 2), (1, 3)]);
}

#[test]
fn locking_without_full_rows_keeps_the_level() {
    let mut g = square_game(4, 4);
    g.handle_event(Event::Start);
    g.tick();
    g.tick();
    // The piece rests on the floor; this tick locks it and respawns.
    g.tick();
    assert_eq!(true_cells(&g.level), vec![(0, 2), (0, 3), (1, 2), (1, 3)]);
    assert_eq!(g.state, State::Playing);
    // The fresh piece is back at the top, centered.
    assert_eq!(
        true_cells(&g.render()),
        vec![(0, 2), (0, 3), (1, 2), (1, 3), (2, 2), (2, 3), (3, 2), (3, 3)]
    );
}

#[test]
fn blocked_spawn_ends_the_game() {
    let mut g = square_game(4, 4);
    g.handle_event(Event::Start);
    g.tick();
    g.tick();
    g.tick();
    // The column is now half filled; the next lock fills it to the top and
    // the respawned piece has no in-bounds row left.
    g.tick();
    assert_eq!(
        true_cells(&g.level),
        vec![(0, 2), (0, 3), (1, 2), (1, 3), (2, 2), (2, 3), (3, 2), (3, 3)]
    );
    assert_eq!(g.state, State::End);
}

#[test]
fn full_rows_are_cleared_on_the_locking_tick() {
    // A 2-by-2 level matches the square exactly: once moved to the wall and
    // locked, both rows are full and are cleared at once.
    let mut g = square_game(2, 2);
    g.handle_event(Event::Start);
    g.handle_event(Event::Left);
    assert_eq!(true_cells(&g.render()), vec![(0, 0), (0, 1), (1, 0), (1, 1)]);
    g.tick();
    assert_eq!(true_cells(&g.level), vec![]);
    // The respawned square cannot fit at column 2 / 2 = 1: game over.
    assert_eq!(g.state, State::End);
}

#[test]
fn single_full_row_shifts_rows_down() {
    // A stick laid flat fills the bottom row of a 4-wide level exactly;
    // a marker cell two rows up must shift down by one when it clears.
    let mut g: Game<ScriptedPicker> = Game::new((5, 4), ScriptedPicker::new(vec![1]));
    g.handle_event(Event::Start);
    // Vertical stick at (1, 2); move to the wall and lay it flat.
    g.handle_event(Event::Left);
    g.handle_event(Event::Left);
    g.handle_event(Event::Rotate);
    assert_eq!(true_cells(&g.render()), vec![(1, 0), (1, 1), (1, 2), (1, 3)]);
    g.level.set(2, 3, true);
    g.tick();
    assert_eq!(true_cells(&g.render()), vec![(0, 0), (0, 1), (0, 2), (0, 3), (2, 3)]);
    // This tick locks the full bottom row and clears it: the marker drops
    // from row 2 to row 1, the top rows stay blank.
    g.tick();
    assert_eq!(true_cells(&g.level), vec![(1, 3)]);
    assert_eq!(g.state, State::Playing);
}

#[test]
fn pause_and_resume_keep_the_grid() {
    let mut g = square_game(4, 4);
    g.handle_event(Event::Start);
    g.tick();
    g.tick();
    g.tick();
    let level_before = g.level.duplicate();
    let render_before = g.render();
    assert!(g.handle_event(Event::Pause));
    assert_eq!(g.state, State::Paused);
    // While paused, ticks and moves change nothing.
    g.tick();
    g.handle_event(Event::Left);
    g.handle_event(Event::Rotate);
    assert!(g.level.same_cells(&level_before));
    assert!(g.render().same_cells(&render_before));
    // Start resumes play without resetting the grid.
    assert!(g.handle_event(Event::Start));
    assert_eq!(g.state, State::Playing);
    assert!(g.level.same_cells(&level_before));
    assert!(g.render().same_cells(&render_before));
}

#[test]
fn pause_outside_playing_is_ignored() {
    let mut g = square_game(4, 4);
    assert!(g.handle_event(Event::Pause));
    assert_eq!(g.state, State::Init);
    g.handle_event(Event::Start);
    g.handle_event(Event::Pause);
    g.handle_event(Event::Pause);
    assert_eq!(g.state, State::Paused);
}

#[test]
fn rotation_out_of_bounds_is_rejected() {
    // A vertical stick at column 1 of a 3-wide level cannot lie flat:
    // the rotation would cross the right wall and must be discarded.
    let mut g: Game<ScriptedPicker> = Game::new((4, 3), ScriptedPicker::new(vec![1]));
    g.handle_event(Event::Start);
    let before = g.render();
    assert!(g.handle_event(Event::Rotate));
    assert!(g.render().same_cells(&before));
    assert_eq!(g.state, State::Playing);
}

#[test]
fn start_while_playing_changes_nothing() {
    let mut g = square_game(4, 4);
    g.handle_event(Event::Start);
    g.tick();
    let before = g.render();
    assert!(g.handle_event(Event::Start));
    assert_eq!(g.state, State::Playing);
    assert!(g.render().same_cells(&before));
}

#[test]
fn start_after_end_resets_the_level() {
    let mut g = square_game(2, 2);
    g.handle_event(Event::Start);
    g.handle_event(Event::Left);
    g.tick();
    assert_eq!(g.state, State::End);
    assert!(g.handle_event(Event::Start));
    assert_eq!(g.state, State::Playing);
    assert_eq!(true_cells(&g.level), vec![]);
}

#[test]
fn moves_are_ignored_unless_playing() {
    let mut g = square_game(4, 4);
    assert!(g.handle_event(Event::Left));
    assert!(g.handle_event(Event::Right));
    assert!(g.handle_event(Event::Rotate));
    assert_eq!(g.state, State::Init);
    g.tick();
    assert_eq!(g.state, State::Init);
}

#[test]
fn scripted_picker_cycles_and_reduces() {
    let mut p = ScriptedPicker::new(vec![2, 8]);
    assert_eq!(p.pick(7), 2);
    assert_eq!(p.pick(7), 1);
    assert_eq!(p.pick(7), 2);
    assert_eq!(p.pick(7), 1);
    let mut empty = ScriptedPicker::new(vec![]);
    assert_eq!(empty.pick(7), 0);
    assert_eq!(empty.pick(7), 0);
}

#[test]
fn random_picker_stays_in_range() {
    let mut p = RandomPicker;
    for _ in 0..200 {
        assert!(p.pick(7) < 7);
    }
}

#[test]
fn game_runs_with_the_random_picker() {
    let mut g: Game<RandomPicker> = Game::new((8, 6), RandomPicker);
    g.handle_event(Event::Start);
    for _ in 0..50 {
        g.handle_event(Event::Rotate);
        g.handle_event(Event::Left);
        g.tick();
        if g.state == State::End {
            g.handle_event(Event::Start);
        }
    }
    assert!(g.state == State::Playing || g.state == State::End);
}
