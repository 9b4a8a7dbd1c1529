use snake::chain::{Chain, ChainError, CHAIN_CAPACITY};
use snake::game::{Game, Role, TickOutcome, FOOD_ATTEMPTS};
use snake::grid::{Cell, Direction, GRID_CELLS, GRID_MAX, GRID_MIN};
use snake::rules::turn_direction;

fn cell(x: i32, y: i32) -> Cell {
    Cell { x, y }
}

#[test]
fn new_game_starts_with_two_segments() {
    let g = Game::new();
    assert_eq!(g.cells(), vec![cell(0, 0), cell(-1, 0)]);
    assert_eq!(g.direction(), Direction::Right);
    assert_eq!(g.food(), None);
    assert!(!g.eaten());
    assert!(g.is_alive());
    assert_eq!(g.len(), 2);
    assert_eq!(g.head(), cell(0, 0));
}

#[test]
fn reversal_is_rejected() {
    let mut g = Game::new();
    g.turn(Direction::Left);
    assert_eq!(g.direction(), Direction::Right);
    g.turn(Direction::Up);
    assert_eq!(g.direction(), Direction::Up);
    let mut h = Game::new();
    h.turn(Direction::Down);
    assert_eq!(h.direction(), Direction::Down);
    h.turn(Direction::Up);
    assert_eq!(h.direction(), Direction::Down);
    h.turn(Direction::Right);
    assert_eq!(h.direction(), Direction::Right);
}

#[test]
fn turn_direction_table() {
    assert_eq!(turn_direction(Direction::Right, Direction::Left), Direction::Right);
    assert_eq!(turn_direction(Direction::Right, Direction::Up), Direction::Up);
    assert_eq!(turn_direction(Direction::Right, Direction::Down), Direction::Down);
    assert_eq!(turn_direction(Direction::Right, Direction::Right), Direction::Right);
    assert_eq!(turn_direction(Direction::Up, Direction::Down), Direction::Up);
    assert_eq!(turn_direction(Direction::Left, Direction::Right), Direction::Left);
    assert_eq!(turn_direction(Direction::Down, Direction::Up), Direction::Down);
}

#[test]
fn direction_vectors() {
    assert_eq!(Direction::Up.vector(), (0, 1));
    assert_eq!(Direction::Down.vector(), (0, -1));
    assert_eq!(Direction::Left.vector(), (-1, 0));
    assert_eq!(Direction::Right.vector(), (1, 0));
    assert_eq!(Direction::Up.reverse(), Direction::Down);
    assert_eq!(cell(3, 4).step(Direction::Left), cell(2, 4));
}

#[test]
fn eating_grows_without_dropping_tail() {
    let mut g = Game::new();
    assert!(g.place_food(cell(1, 0)));
    assert_eq!(g.tick(), TickOutcome::Ate);
    assert_eq!(g.cells(), vec![cell(1, 0), cell(0, 0), cell(-1, 0)]);
    assert_eq!(g.len(), 3);
    assert!(g.eaten());
    assert_eq!(g.food(), None);
    assert!(g.is_alive());
}

#[test]
fn plain_move_drops_tail() {
    let mut g = Game::new();
    assert_eq!(g.tick(), TickOutcome::Moved);
    assert_eq!(g.cells(), vec![cell(1, 0), cell(0, 0)]);
    assert_eq!(g.len(), 2);
    assert!(!g.eaten());
}

#[test]
fn food_elsewhere_is_kept() {
    let mut g = Game::new();
    assert!(g.place_food(cell(5, 5)));
    assert_eq!(g.tick(), TickOutcome::Moved);
    assert_eq!(g.food(), Some(cell(5, 5)));
    assert_eq!(g.cells(), vec![cell(1, 0), cell(0, 0)]);
}

#[test]
fn wall_ends_the_game() {
    let mut g = Game::new();
    for _ in 0..GRID_MAX {
        assert_eq!(g.tick(), TickOutcome::Moved);
    }
    assert_eq!(g.head(), cell(GRID_MAX, 0));
    assert!(g.is_alive());
    assert_eq!(g.tick(), TickOutcome::GameOver);
    assert!(!g.is_alive());
    let after = g.cells();
    assert_eq!(g.tick(), TickOutcome::GameOver);
    assert_eq!(g.cells(), after);
}

#[test]
fn lower_wall_ends_the_game() {
    let mut g = Game::new();
    g.turn(Direction::Down);
    for _ in 0..(-GRID_MIN) {
        assert_eq!(g.tick(), TickOutcome::Moved);
    }
    assert_eq!(g.head(), cell(0, GRID_MIN));
    assert_eq!(g.tick(), TickOutcome::GameOver);
}

#[test]
fn running_into_the_body_ends_the_game() {
    let mut g = Game::new();
    for x in 1..=3 {
        assert!(g.place_food(cell(x, 0)));
        assert_eq!(g.tick(), TickOutcome::Ate);
    }
    assert_eq!(g.len(), 5);
    g.turn(Direction::Up);
    assert_eq!(g.tick(), TickOutcome::Moved);
    g.turn(Direction::Left);
    assert_eq!(g.tick(), TickOutcome::Moved);
    g.turn(Direction::Down);
    assert_eq!(g.tick(), TickOutcome::GameOver);
    assert!(!g.is_alive());
}

#[test]
fn following_the_tail_is_allowed() {
    let mut g = Game::new();
    for x in 1..=2 {
        assert!(g.place_food(cell(x, 0)));
        assert_eq!(g.tick(), TickOutcome::Ate);
    }
    // cells: (2,0) (1,0) (0,0) (-1,0); walk a square back onto the old tail's path
    g.turn(Direction::Up);
    assert_eq!(g.tick(), TickOutcome::Moved);
    g.turn(Direction::Left);
    assert_eq!(g.tick(), TickOutcome::Moved);
    g.turn(Direction::Down);
    assert_eq!(g.tick(), TickOutcome::Moved);
    assert_eq!(g.cells(), vec![cell(1, 0), cell(1, 1), cell(2, 1), cell(2, 0)]);
    assert!(g.is_alive());
}

#[test]
fn length_counts_eaten_food() {
    let mut g = Game::new();
    let mut eaten = 0;
    for t in 1..=8 {
        if t % 2 == 0 {
            assert!(g.place_food(cell(t, 0)));
        }
        let r = g.tick();
        if r == TickOutcome::Ate {
            eaten += 1;
        }
        assert_ne!(r, TickOutcome::GameOver);
    }
    assert_eq!(eaten, 4);
    assert_eq!(g.len(), 2 + eaten);
}

#[test]
fn heads_follow_inputs_only() {
    let inputs = [None, Some(Direction::Up), None, Some(Direction::Left), Some(Direction::Right), Some(Direction::Down)];
    let mut a = Game::new();
    let mut b = Game::new();
    assert!(b.place_food(cell(1, 0)));
    let mut heads_a = Vec::new();
    let mut heads_b = Vec::new();
    for req in inputs {
        if let Some(d) = req {
            a.turn(d);
            b.turn(d);
        }
        a.tick();
        b.tick();
        heads_a.push(a.head());
        heads_b.push(b.head());
    }
    assert_eq!(heads_a, heads_b);
    assert_eq!(heads_a, vec![cell(1, 0), cell(1, 1), cell(1, 2), cell(0, 2), cell(-1, 2), cell(-1, 1)]);
    assert_ne!(a.len(), b.len());
}

#[test]
fn cells_stay_distinct_while_running() {
    let mut g = Game::new();
    let moves = [Direction::Up, Direction::Left, Direction::Down, Direction::Right];
    for k in 0..12 {
        g.spawn_food();
        g.turn(moves[(k / 3) % 4]);
        if g.tick() == TickOutcome::GameOver {
            break;
        }
        let cells = g.cells();
        for i in 0..cells.len() {
            for j in (i + 1)..cells.len() {
                assert_ne!(cells[i], cells[j]);
            }
        }
    }
}

#[test]
fn spawned_food_is_free_and_on_the_board() {
    for _ in 0..50 {
        let mut g = Game::new();
        assert!(g.spawn_food());
        let f = g.food().unwrap();
        assert!(f.is_in_bounds());
        assert!(!g.cells().contains(&f));
    }
}

#[test]
fn spawned_food_varies() {
    let mut seen = Vec::new();
    for _ in 0..20 {
        let mut g = Game::new();
        assert!(g.spawn_food());
        seen.push(g.food().unwrap());
    }
    assert!(seen.iter().any(|c| *c != seen[0]));
}

#[test]
fn spawner_leaves_existing_food() {
    let mut g = Game::new();
    assert!(g.place_food(cell(4, -3)));
    assert!(!g.spawn_food());
    assert_eq!(g.food(), Some(cell(4, -3)));
}

#[test]
fn place_food_rejects_bad_cells() {
    let mut g = Game::new();
    assert!(!g.place_food(cell(0, 0)));
    assert!(!g.place_food(cell(-1, 0)));
    assert!(!g.place_food(cell(GRID_MAX + 1, 0)));
    assert!(!g.place_food(cell(0, GRID_MIN - 1)));
    assert_eq!(g.food(), None);
    assert!(g.place_food(cell(GRID_MIN, GRID_MAX)));
    assert!(!g.place_food(cell(2, 2)));
    assert_eq!(g.food(), Some(cell(GRID_MIN, GRID_MAX)));
}

#[test]
fn free_cell_scans_from_the_corner() {
    let g = Game::new();
    assert_eq!(g.free_cell(), Some(cell(GRID_MIN, GRID_MIN)));
    assert!(FOOD_ATTEMPTS > 0);
}

#[test]
fn segments_are_tagged() {
    let g = Game::new();
    assert_eq!(g.segments(), vec![(cell(0, 0), Role::Head), (cell(-1, 0), Role::Body)]);
}

#[test]
fn chain_grows_and_shrinks() {
    let mut c = Chain::new(cell(0, 0), cell(-1, 0));
    assert_eq!(c.len(), 2);
    let id = c.grow_at_head(cell(1, 0));
    assert!(id < CHAIN_CAPACITY);
    assert_eq!(c.occupied(), vec![cell(1, 0), cell(0, 0), cell(-1, 0)]);
    assert_eq!(c.head_position(), cell(1, 0));
    assert_eq!(c.tail_position(), cell(-1, 0));
    assert_eq!(c.segment_at(1), cell(0, 0));
    assert!(c.occupies(cell(0, 0)));
    assert!(!c.occupies(cell(2, 0)));
    assert!(!c.head_overlaps_body());
    assert_eq!(c.shrink_at_tail(), Ok(cell(-1, 0)));
    assert_eq!(c.shrink_at_tail(), Ok(cell(0, 0)));
    assert_eq!(c.len(), 1);
    assert_eq!(c.shrink_at_tail(), Err(ChainError::EmptyChain));
    assert_eq!(c.occupied(), vec![cell(1, 0)]);
}

#[test]
fn chain_wraps_around_its_arena() {
    let mut c = Chain::new(cell(0, 0), cell(-1, 0));
    for k in 1..=(2 * CHAIN_CAPACITY as i32) {
        c.grow_at_head(cell(k, 0));
        assert_eq!(c.shrink_at_tail(), Ok(cell(k - 2, 0)));
    }
    let n = 2 * CHAIN_CAPACITY as i32;
    assert_eq!(c.occupied(), vec![cell(n, 0), cell(n - 1, 0)]);
}

#[test]
fn chain_fills_its_arena() {
    let mut c = Chain::new(cell(0, 0), cell(-1, 0));
    let mut k: i32 = 1;
    while c.len() < CHAIN_CAPACITY {
        c.grow_at_head(cell(k, 0));
        k += 1;
    }
    assert_eq!(c.len(), GRID_CELLS + 1);
    assert_eq!(c.head_position(), cell(k - 1, 0));
    assert_eq!(c.tail_position(), cell(-1, 0));
    assert!(c.occupies(cell(200, 0)));
}

#[test]
fn ended_game_ignores_turns() {
    let mut g = Game::new();
    for _ in 0..=GRID_MAX {
        g.tick();
    }
    assert!(!g.is_alive());
    g.turn(Direction::Up);
    assert_eq!(g.direction(), Direction::Right);
    assert!(!g.spawn_food());
    assert_eq!(g.food(), None);
}
