use snake_game::game::cell_count;
use snake_game::rules::FOOD_SCORE;
use snake_game::grid::{count_free, occupied, select_free};
use snake_game::{Direction, GameState, Position};

fn at(x: i32, y: i32) -> Position {
    Position { x, y }
}

fn state(snake: Vec<Position>, food: Position, direction: Direction, side: i32) -> GameState {
    GameState {
        snake,
        food,
        direction,
        score: 0,
        game_over: false,
        width: side,
        height: side,
        cell_size: 10,
    }
}

fn on_grid(game: &GameState, p: Position) -> bool {
    0 <= p.x
        && p.x < cell_count(game.width, game.cell_size)
        && 0 <= p.y
        && p.y < cell_count(game.height, game.cell_size)
}

#[test]
fn construction_seeds_the_documented_state() {
    let game = GameState::new(400, 400, 20);
    assert_eq!(cell_count(game.width, game.cell_size), 20);
    assert_eq!(cell_count(game.height, game.cell_size), 20);
    assert_eq!(game.snake, vec![at(5, 5)]);
    assert_eq!(game.direction, Direction::Right);
    assert_eq!(game.score, 0);
    assert!(!game.game_over);
    assert_eq!((game.width, game.height, game.cell_size), (400, 400, 20));
    assert_ne!(game.food, at(5, 5));
    assert!(on_grid(&game, game.food));
}

#[test]
fn construction_never_puts_food_on_the_snake() {
    for _ in 0..200 {
        let game = GameState::new(120, 120, 20);
        assert!(on_grid(&game, game.food));
        assert!(!occupied(&game.snake, game.food));
    }
}

#[test]
fn construction_on_a_small_grid_leaves_the_head_outside() {
    let mut game = GameState::new(100, 100, 20);
    assert_eq!(game.snake, vec![at(5, 5)]);
    assert!(on_grid(&game, game.food));
    assert!(game.is_ready());
    game.update();
    assert!(game.game_over);
    assert_eq!(game.snake, vec![at(5, 5)]);
}

#[test]
fn construction_on_a_single_cell_grid() {
    let game = GameState::new(7, 7, 7);
    assert_eq!(game.food, at(0, 0));
}

#[test]
fn wall_collision_ends_the_game() {
    let mut game = state(vec![at(9, 5)], at(0, 0), Direction::Right, 100);
    assert!(game.is_ready());
    game.update();
    assert!(game.game_over);
    assert_eq!(game.snake, vec![at(9, 5)]);
    assert_eq!(game.food, at(0, 0));
    assert_eq!(game.score, 0);
    assert_eq!(game.direction, Direction::Right);
}

#[test]
fn every_wall_ends_the_game() {
    let cases = [
        (at(0, 5), Direction::Left),
        (at(9, 5), Direction::Right),
        (at(5, 0), Direction::Up),
        (at(5, 9), Direction::Down),
    ];
    for (head, heading) in cases {
        let mut game = state(vec![head], at(3, 3), heading, 100);
        game.update();
        assert!(game.game_over);
        assert_eq!(game.snake, vec![head]);
    }
}

#[test]
fn self_collision_ends_the_game() {
    let body = vec![at(5, 5), at(5, 6), at(6, 6), at(6, 5)];
    let mut game = state(body.clone(), at(0, 0), Direction::Right, 100);
    assert!(game.is_ready());
    game.update();
    assert!(game.game_over);
    assert_eq!(game.snake, body);
    assert_eq!(game.score, 0);
}

#[test]
fn moving_onto_the_tail_cell_counts_as_a_collision() {
    let body = vec![at(1, 1), at(1, 2), at(2, 2), at(2, 1)];
    let mut game = state(body.clone(), at(7, 7), Direction::Right, 100);
    game.update();
    assert!(game.game_over);
    assert_eq!(game.snake, body);
}

#[test]
fn eating_grows_the_snake_and_scores() {
    let mut game = state(vec![at(5, 5)], at(6, 5), Direction::Right, 100);
    assert!(game.is_ready());
    game.update();
    assert_eq!(game.snake, vec![at(6, 5), at(5, 5)]);
    assert_eq!(game.score, 10);
    assert_eq!(FOOD_SCORE, 10);
    assert!(!game.game_over);
    assert!(on_grid(&game, game.food));
    assert_ne!(game.food, at(6, 5));
    assert_ne!(game.food, at(5, 5));
    assert_eq!(game.direction, Direction::Right);
}

#[test]
fn the_last_free_cell_gets_the_food() {
    for _ in 0..50 {
        let mut game = GameState {
            snake: vec![at(0, 0)],
            food: at(1, 0),
            direction: Direction::Right,
            score: 30,
            game_over: false,
            width: 3,
            height: 1,
            cell_size: 1,
        };
        assert!(game.is_ready());
        game.update();
        assert_eq!(game.snake, vec![at(1, 0), at(0, 0)]);
        assert_eq!(game.score, 40);
        assert_eq!(game.food, at(2, 0));
    }
}

#[test]
fn moving_without_eating_keeps_the_length() {
    let mut game = state(vec![at(5, 5), at(4, 5), at(3, 5)], at(0, 0), Direction::Right, 100);
    game.update();
    assert_eq!(game.snake, vec![at(6, 5), at(5, 5), at(4, 5)]);
    assert_eq!(game.score, 0);
    assert_eq!(game.food, at(0, 0));
    assert!(!game.game_over);
}

#[test]
fn each_heading_moves_one_cell() {
    let cases = [
        (Direction::Up, at(5, 4)),
        (Direction::Down, at(5, 6)),
        (Direction::Left, at(4, 5)),
        (Direction::Right, at(6, 5)),
    ];
    for (heading, target) in cases {
        let mut game = state(vec![at(5, 5)], at(0, 0), heading, 100);
        game.update();
        assert!(!game.game_over);
        assert_eq!(game.snake, vec![target]);
    }
}

#[test]
fn a_finished_game_is_frozen() {
    let mut game = state(vec![at(9, 5), at(8, 5)], at(2, 2), Direction::Right, 100);
    game.score = 20;
    game.update();
    assert!(game.game_over);
    for _ in 0..5 {
        assert!(game.is_ready());
        game.update();
        assert!(game.game_over);
        assert_eq!(game.snake, vec![at(9, 5), at(8, 5)]);
        assert_eq!(game.food, at(2, 2));
        assert_eq!(game.score, 20);
    }
    game.change_direction(Direction::Up);
    assert_eq!(game.direction, Direction::Up);
    game.update();
    assert_eq!(game.snake, vec![at(9, 5), at(8, 5)]);
}

#[test]
fn heading_changes_unless_reversed() {
    let all = [Direction::Up, Direction::Down, Direction::Left, Direction::Right];
    let opposite = [Direction::Down, Direction::Up, Direction::Right, Direction::Left];
    for (i, current) in all.iter().enumerate() {
        for wanted in all.iter() {
            let mut game = state(vec![at(5, 5)], at(0, 0), *current, 100);
            game.change_direction(*wanted);
            if *wanted == opposite[i] {
                assert_eq!(game.direction, *current);
            } else {
                assert_eq!(game.direction, *wanted);
            }
            assert_eq!(game.snake, vec![at(5, 5)]);
            assert_eq!(game.food, at(0, 0));
            assert_eq!(game.score, 0);
            assert!(!game.game_over);
        }
    }
}

#[test]
fn food_stays_off_the_snake_through_a_whole_game() {
    for round in 0..20 {
        let mut game = GameState::new(160, 160, 20);
        let turns = [Direction::Down, Direction::Left, Direction::Up, Direction::Right];
        let mut tick: usize = 0;
        while !game.game_over && tick < 400 {
            if (tick + round) % 3 == 0 {
                game.change_direction(turns[(tick / 3 + round) % 4]);
            }
            if !game.is_ready() {
                break;
            }
            let before = game.snake.len();
            let score = game.score;
            game.update();
            if !game.game_over {
                assert!(!occupied(&game.snake, game.food));
                assert!(on_grid(&game, game.food));
                for (i, p) in game.snake.iter().enumerate() {
                    assert!(on_grid(&game, *p));
                    assert!(!game.snake[i + 1..].contains(p));
                }
                if game.score == score {
                    assert_eq!(game.snake.len(), before);
                } else {
                    assert_eq!(game.score, score + 10);
                    assert_eq!(game.snake.len(), before + 1);
                }
            }
            tick += 1;
        }
    }
}

#[test]
fn a_step_past_the_largest_coordinate_ends_the_game() {
    let mut game = state(vec![at(i32::MAX, 0)], at(0, 0), Direction::Right, 100);
    assert!(game.is_ready());
    game.update();
    assert!(game.game_over);
    let mut game = state(vec![at(0, i32::MIN)], at(0, 0), Direction::Up, 100);
    game.update();
    assert!(game.game_over);
}

#[test]
fn a_grid_without_cells_ends_the_game_at_once() {
    let mut game = state(vec![at(0, 0)], at(0, 0), Direction::Right, 100);
    game.cell_size = 0;
    assert!(game.is_ready());
    game.update();
    assert!(game.game_over);
    let mut game = state(vec![at(0, 0)], at(0, 0), Direction::Down, 100);
    game.cell_size = 500;
    game.update();
    assert!(game.game_over);
}

#[test]
fn readiness_needs_a_head_room_to_score_and_a_free_cell() {
    let mut game = state(vec![], at(0, 0), Direction::Right, 100);
    assert!(!game.is_ready());
    game.game_over = true;
    assert!(game.is_ready());

    let mut game = state(vec![at(5, 5)], at(6, 5), Direction::Right, 100);
    game.score = i32::MAX - 9;
    assert!(!game.is_ready());
    game.score = i32::MAX - 10;
    assert!(game.is_ready());
    game.update();
    assert_eq!(game.score, i32::MAX);

    let full = GameState {
        snake: vec![at(0, 0)],
        food: at(1, 0),
        direction: Direction::Right,
        score: 0,
        game_over: false,
        width: 2,
        height: 1,
        cell_size: 1,
    };
    assert!(!full.is_ready());
}

#[test]
fn collision_check_covers_walls_and_body() {
    let game = state(vec![at(5, 5), at(4, 5)], at(0, 0), Direction::Right, 100);
    assert!(game.check_collision(&at(-1, 5)));
    assert!(game.check_collision(&at(10, 5)));
    assert!(game.check_collision(&at(5, -1)));
    assert!(game.check_collision(&at(5, 10)));
    assert!(game.check_collision(&at(5, 5)));
    assert!(game.check_collision(&at(4, 5)));
    assert!(!game.check_collision(&at(0, 0)));
    assert!(!game.check_collision(&at(9, 9)));
    assert!(!game.check_collision(&at(6, 5)));
}

#[test]
fn cell_count_divides_and_degenerates() {
    assert_eq!(cell_count(400, 20), 20);
    assert_eq!(cell_count(7, 2), 3);
    assert_eq!(cell_count(10, 20), 0);
    assert_eq!(cell_count(400, 0), 0);
    assert_eq!(cell_count(0, 20), 0);
    assert_eq!(cell_count(-40, 20), 0);
    assert_eq!(cell_count(400, -20), 0);
    assert_eq!(cell_count(i32::MAX, 1), i32::MAX);
}

#[test]
fn free_cells_are_counted_in_row_major_order() {
    let body = vec![at(0, 0), at(1, 0), at(1, 1)];
    assert_eq!(count_free(&body, 3, 2), 3);
    assert_eq!(select_free(&body, 3, 2, 0), at(2, 0));
    assert_eq!(select_free(&body, 3, 2, 1), at(0, 1));
    assert_eq!(select_free(&body, 3, 2, 2), at(2, 1));
    assert_eq!(count_free(&body, 0, 2), 0);
    assert_eq!(count_free(&body, 3, -1), 0);
    assert_eq!(count_free(&vec![], 4, 5), 20);
    assert_eq!(count_free(&vec![at(9, 9)], 2, 2), 4);
    assert_eq!(select_free(&vec![], 4, 5, 19), at(3, 4));
    assert!(occupied(&body, at(1, 1)));
    assert!(!occupied(&body, at(2, 1)));
}

#[test]
fn place_food_takes_the_chosen_free_cell() {
    let mut game = GameState {
        snake: vec![at(0, 0), at(1, 0)],
        food: at(2, 1),
        direction: Direction::Left,
        score: 50,
        game_over: false,
        width: 30,
        height: 20,
        cell_size: 10,
    };
    game.place_food(0);
    assert_eq!(game.food, at(2, 0));
    game.place_food(1);
    assert_eq!(game.food, at(0, 1));
    game.place_food(3);
    assert_eq!(game.food, at(2, 1));
    assert_eq!(game.snake, vec![at(0, 0), at(1, 0)]);
    assert_eq!(game.score, 50);
    assert_eq!(game.direction, Direction::Left);
    assert!(!game.game_over);
}

#[test]
fn the_draws_select_each_free_cell_once() {
    let body = vec![at(1, 0), at(2, 2), at(0, 3), at(7, 7)];
    let free = count_free(&body, 3, 4);
    assert_eq!(free, 9);
    let mut seen: Vec<Position> = Vec::new();
    for k in 0..free {
        let p = select_free(&body, 3, 4, k);
        assert!(0 <= p.x && p.x < 3 && 0 <= p.y && p.y < 4);
        assert!(!occupied(&body, p));
        assert!(!seen.contains(&p));
        seen.push(p);
    }
    for y in 0..4 {
        for x in 0..3 {
            assert_eq!(seen.contains(&at(x, y)), !body.contains(&at(x, y)));
        }
    }
}
