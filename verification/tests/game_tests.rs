use snake_lets_go::{Cell, Game};

/// Board index of the unique head cell.
fn head_index(game: &Game, size: usize) -> usize {
    let cells = game.cells();
    let mut found = size * size;
    for (k, c) in cells.iter().enumerate() {
        if c.is_head() {
            assert!(found == size * size, "more than one head cell");
            found = k;
        }
    }
    assert!(found < size * size, "no head cell");
    found
}

fn snake_cell_count(game: &Game) -> usize {
    game.cells().iter().filter(|c| c.is_body() || c.is_head()).count()
}

#[test]
fn test_game() {
    let game = Game::new_with_size(18);
    println!("{:?}", game.cells());
    assert_eq!(game.length(), 2);
    assert_eq!(game.buffs(), 0);
    assert_eq!(game.hungers(), 0);
}

#[test]
fn new_game_layout() {
    // head at (size/4, 2) facing +col, one body segment to its left
    let game = Game::new_with_size_at(5, 0);
    assert_eq!(head_index(&game, 5), 1 * 5 + 2);
    assert!(game.cells()[1 * 5 + 1].is_body());
    assert_eq!(snake_cell_count(&game), 2);
}

#[test]
fn paused_tick_changes_nothing() {
    let mut game = Game::new_with_size_at(5, 0);
    let before: Vec<u8> = game.cells().iter().map(|c| c.id()).collect();
    assert!(game.tick_with_now(1_000));
    assert!(game.tick());
    let after: Vec<u8> = game.cells().iter().map(|c| c.id()).collect();
    assert_eq!(before, after);
    assert_eq!(game.length(), 2);
    assert_eq!(game.buffs(), 0);
    assert_eq!(game.hungers(), 0);
    assert_eq!(game.food_positions().len(), 0);
}

#[test]
fn reversal_input_is_rejected() {
    // heading (0,1); an input of (0,-1) must not reverse the snake
    let mut game = Game::new_with_size_at(5, 0);
    game.start();
    game.input(0, -1);
    assert!(game.tick_with_now(300));
    // the head kept moving +col: from (1,2) to (1,3)
    assert_eq!(head_index(&game, 5), 1 * 5 + 3);
}

#[test]
fn dizziness_inverts_turns() {
    let mut game = Game::new_with_size_at(5, 0);
    game.start();
    assert!(game.tick_with_now(300)); // head (1,3)
    assert!(game.tick_with_now(600)); // head (1,4)
    game.input(1, 0);
    // the bump comes after the 3000ms grace window from construction but
    // before the first food refresh is due
    assert!(game.tick_with_now(3100)); // wall bump: dizziness set, (1,0) queued
    assert_eq!(game.buffs(), 2);
    assert!(game.tick_with_now(4000)); // head (2,4), input (1,0) equals heading
    assert_eq!(head_index(&game, 5), 2 * 5 + 4);
    game.input(0, 1);
    // dizzy and turning: (0,1) must be applied as (0,-1)
    assert!(game.tick_with_now(4900)); // head moves by (1,0) to (3,4)
    assert_eq!(head_index(&game, 5), 3 * 5 + 4);
    assert!(game.tick_with_now(5800)); // head moves by the inverted (0,-1)
    assert_eq!(head_index(&game, 5), 3 * 5 + 3);
}

#[test]
fn wall_bump_then_second_bump_is_fatal() {
    let mut game = Game::new_with_size_at(5, 0);
    game.start();
    assert!(game.tick_with_now(300)); // head (1,3)
    assert!(game.tick_with_now(600)); // head (1,4)
    assert_eq!(game.buffs(), 0);
    // first boundary collision (after the grace window from construction):
    // game survives, dizziness set, speed divided by 3
    assert!(game.tick_with_now(3100));
    assert_eq!(game.buffs(), 2);
    assert_eq!(head_index(&game, 5), 1 * 5 + 4);
    assert!(game.cells()[1 * 5 + 4].id() == 13, "unhappy head expected");
    // second collision 900ms later, inside the 3000ms grace window
    assert!(!game.tick_with_now(4000));
}

#[test]
fn two_drugs_in_a_row_end_the_game() {
    let mut game = Game::new_with_size_at(5, 0);
    assert!(game.place_item(1, 3, Cell::DrugLingeringHeal));
    assert!(game.place_item(1, 4, Cell::DrugSplashHeal));
    game.start();
    assert!(game.tick_with_now(300)); // first drug: survives, buffs wiped
    assert_eq!(game.buffs(), 0);
    assert_eq!(game.length(), 2); // drugs never grow the snake
    assert!(!game.tick_with_now(600)); // second consecutive drug is fatal
}

#[test]
fn growth_after_one_good_item() {
    let mut game = Game::new_with_size_at(5, 0);
    assert!(game.place_item(1, 3, Cell::FoodBeef));
    game.start();
    assert_eq!(game.length(), 2);
    assert!(game.tick_with_now(300));
    // length up by exactly 1 and no tail retraction that tick
    assert_eq!(game.length(), 3);
    assert_eq!(snake_cell_count(&game), 3);
    assert!(game.cells()[1 * 5 + 1].is_body(), "tail did not retract");
    assert_eq!(head_index(&game, 5), 1 * 5 + 3);
}

#[test]
fn fruit_makes_the_head_happy() {
    let mut game = Game::new_with_size_at(5, 0);
    assert!(game.place_item(1, 3, Cell::FruitGoldenApple));
    game.start();
    assert!(game.tick_with_now(300));
    assert_eq!(game.length(), 3);
    assert_eq!(game.cells()[1 * 5 + 3].id(), 12, "happy head expected");
}

#[test]
fn snacks_grow_at_half_rate() {
    let mut game = Game::new_with_size_at(7, 0);
    assert!(game.place_item(1, 3, Cell::SnackCookie));
    assert!(game.place_item(1, 4, Cell::SnackCookie));
    game.start();
    assert!(game.tick_with_now(300)); // first snack of the streak: grows
    assert_eq!(game.length(), 3);
    assert!(game.tick_with_now(600)); // second snack: no growth
    assert_eq!(game.length(), 3);
    assert_eq!(snake_cell_count(&game), 3);
}

#[test]
fn even_snack_without_hunger_buff_never_grows() {
    // two good items first, so a good-item count of 2 is left over; with
    // the hunger buff clear that count must not turn an even snack into
    // growth
    let mut game = Game::new_with_size_at(9, 0);
    assert!(game.place_item(2, 3, Cell::FoodBeef));
    assert!(game.place_item(2, 4, Cell::FoodBread));
    assert!(game.place_item(2, 5, Cell::SnackCookie));
    assert!(game.place_item(2, 6, Cell::SnackDriedKelp));
    game.start();
    assert!(game.tick_with_now(300));
    assert!(game.tick_with_now(600));
    assert_eq!(game.length(), 4);
    assert!(game.tick_with_now(900)); // first snack of the streak: grows
    assert_eq!(game.length(), 5);
    assert!(game.tick_with_now(1200)); // second snack, even: no growth
    assert_eq!(game.length(), 5);
    assert_eq!(snake_cell_count(&game), 5);
}

#[test]
fn self_collision_is_fatal() {
    let mut game = Game::new_with_size_at(7, 0);
    assert!(game.place_item(1, 3, Cell::FoodBeef));
    assert!(game.place_item(1, 4, Cell::FoodBread));
    assert!(game.place_item(1, 5, Cell::FoodFish));
    game.start();
    assert!(game.tick_with_now(300)); // eat, length 3
    assert!(game.tick_with_now(600)); // eat, length 4
    game.input(1, 0);
    assert!(game.tick_with_now(900)); // eat, length 5, turn queued
    assert_eq!(game.length(), 5);
    game.input(0, -1);
    assert!(game.tick_with_now(1200)); // head (2,5)
    game.input(-1, 0);
    assert!(game.tick_with_now(1500)); // head (2,4)
    // moving up into (1,4), which is still a body cell
    assert!(!game.tick_with_now(1800));
}

#[test]
fn place_item_rejects_bad_placements() {
    let mut game = Game::new_with_size_at(5, 0);
    assert!(!game.place_item(9, 0, Cell::FoodBeef)); // out of range
    assert!(!game.place_item(1, 2, Cell::FoodBeef)); // head cell, not blank
    assert!(!game.place_item(0, 0, Cell::BodyClay)); // not eatable
    assert!(game.place_item(0, 0, Cell::DrinkMilk));
    assert!(!game.place_item(0, 0, Cell::DrinkMilk)); // no longer blank
}

#[test]
fn food_refresh_places_three_to_five_eatables() {
    let mut game = Game::new_with_size_at(9, 0);
    game.start();
    assert!(game.tick_with_now(4900)); // moves; refresh not yet due
    assert_eq!(game.food_positions().len(), 0);
    assert!(game.tick_with_now(5100)); // refresh due; move gate not passed
    let foods = game.food_positions().clone();
    assert!(3 <= foods.len() && foods.len() <= 5);
    for &pos in foods.iter() {
        assert!(pos < 81);
        assert!(game.cells()[pos].is_eatable());
    }
    // one refresh cycle without feeding: hunger streak at 1
    assert_eq!(game.hungers(), 1);
}
