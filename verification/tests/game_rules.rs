use rusty_invades::alien::{Alien, Army, ArmyDensity, Direction};
use rusty_invades::bullet::{Bullet, Owner};
use rusty_invades::frame::{changed_cells, new_frame, NUM_COLS, NUM_ROWS};
use rusty_invades::game::{Command, Game, Outcome};
use rusty_invades::player::Player;
use rusty_invades::sound::Sound;

const MS: u64 = 1_000_000;

#[test]
fn alien_new_and_fire() {
    let a = Alien::new(5, 7);
    assert_eq!((a.x, a.y), (5, 7));
    let b = a.fire();
    assert_eq!((b.x, b.y), (5, 8));
    assert!(b.alive);
    assert_eq!(b.owner, Owner::Aliens);
    assert_eq!(b.timer.duration_ns, 50 * MS);
    assert_eq!(b.timer.time_left_ns, 50 * MS);
    assert!(!b.timer.ready);
}

#[test]
fn army_even_three_rows() {
    let army = Army::new(ArmyDensity::Even, 3);
    assert_eq!(army.aliens.len(), 54);
    assert_eq!(army.aliens[0], Alien::new(2, 2));
    assert_eq!(army.aliens[1], Alien::new(2, 4));
    assert_eq!(army.aliens[2], Alien::new(2, 6));
    assert_eq!(army.aliens[3], Alien::new(4, 2));
    assert_eq!(army.aliens[53], Alien::new(36, 6));
    assert_eq!(army.move_rate, 2000);
    assert_eq!(army.fire_rate, 2000);
    assert_eq!(army.move_timer.duration_ns, 2000 * MS);
    assert_eq!(army.direction, Direction::Right);
    assert!(army.bullets.is_empty());
}

#[test]
fn army_all_and_odd_densities() {
    let all = Army::new(ArmyDensity::All, 2);
    assert_eq!(all.aliens.len(), 72);
    assert_eq!(all.aliens[0], Alien::new(2, 1));
    assert_eq!(all.aliens[1], Alien::new(2, 2));
    assert_eq!(all.aliens[2], Alien::new(3, 1));
    let odd = Army::new(ArmyDensity::Odd, 1);
    assert_eq!(odd.aliens.len(), 18);
    assert_eq!(odd.aliens[0], Alien::new(3, 1));
    assert_eq!(odd.aliens[17], Alien::new(37, 1));
    let none = Army::new(ArmyDensity::All, 0);
    assert!(none.all_dead());
}

#[test]
fn army_waits_for_its_timers() {
    let mut army = Army::new(ArmyDensity::Even, 3);
    let mut sounds = Vec::new();
    army.update_with_shooter(1000 * MS, 0, &mut sounds);
    assert!(sounds.is_empty());
    assert_eq!(army.aliens[0], Alien::new(2, 2));
    assert_eq!(army.move_timer.time_left_ns, 1000 * MS);
    assert!(army.bullets.is_empty());
}

#[test]
fn army_marches_and_fires() {
    let mut army = Army::new(ArmyDensity::Even, 3);
    let mut sounds = Vec::new();
    army.update_with_shooter(2001 * MS, 1, &mut sounds);
    assert_eq!(sounds, vec![Sound::Move, Sound::Pew(1)]);
    assert_eq!(army.aliens[0], Alien::new(3, 2));
    assert_eq!(army.aliens[1], Alien::new(3, 4));
    assert_eq!(army.fire_rate, 1950);
    assert_eq!(army.fire_timer.duration_ns, 1950 * MS);
    assert_eq!(army.move_timer.time_left_ns, 2000 * MS);
    assert!(!army.move_timer.ready);
    // The shooter at (3, 4) fired from the row below; the bullet moved once.
    assert_eq!(army.bullets.len(), 1);
    assert_eq!((army.bullets[0].x, army.bullets[0].y), (3, 6));
    assert!(army.is_colliding_with_bullet(3, 6));
    assert!(!army.is_colliding_with_bullet(3, 5));
}

#[test]
fn army_turns_at_the_edge() {
    let mut army = Army::new(ArmyDensity::All, 1);
    army.aliens = vec![Alien::new(NUM_COLS - 1, 3), Alien::new(10, 4)];
    let mut sounds = Vec::new();
    army.update_with_shooter(2500 * MS, 0, &mut sounds);
    assert_eq!(army.direction, Direction::Left);
    assert_eq!(army.aliens, vec![Alien::new(NUM_COLS - 1, 4), Alien::new(10, 5)]);
    assert_eq!(army.move_rate, 1750);
    assert_eq!(army.move_timer.duration_ns, 1750 * MS);
    let mut again = Vec::new();
    army.update_with_shooter(1800 * MS, 0, &mut again);
    assert_eq!(army.aliens, vec![Alien::new(NUM_COLS - 2, 4), Alien::new(9, 5)]);
    assert_eq!(army.direction, Direction::Left);
}

#[test]
fn empty_army_turns_without_firing() {
    let mut army = Army::new(ArmyDensity::All, 0);
    let mut sounds = Vec::new();
    army.update_with_shooter(3000 * MS, 0, &mut sounds);
    assert_eq!(sounds, vec![Sound::Move]);
    assert_eq!(army.direction, Direction::Left);
    assert_eq!(army.move_rate, 1750);
    assert!(army.fire_timer.ready);
    assert_eq!(army.fire_rate, 2000);
}

#[test]
fn periods_stop_at_their_least_values() {
    let mut army = Army::new(ArmyDensity::All, 1);
    army.move_rate = 400;
    army.fire_rate = 420;
    army.aliens = vec![Alien::new(0, 3)];
    army.direction = Direction::Left;
    let mut sounds = Vec::new();
    army.update_with_shooter(2500 * MS, 0, &mut sounds);
    assert_eq!(army.move_rate, 250);
    assert_eq!(army.fire_rate, 400);
    assert_eq!(army.direction, Direction::Right);
}

#[test]
fn bullets_leave_at_the_bottom() {
    let mut army = Army::new(ArmyDensity::All, 1);
    army.aliens = vec![Alien::new(5, NUM_ROWS - 3)];
    let mut sounds = Vec::new();
    army.update_with_shooter(2001 * MS, 0, &mut sounds);
    // The alien stepped right and fired into row NUM_ROWS - 2; the bullet
    // reached the bottom row at once, so it is gone.
    assert_eq!(army.aliens, vec![Alien::new(6, NUM_ROWS - 3)]);
    assert!(army.bullets.is_empty());
    assert!(!army.reach_bottom());
}

#[test]
fn army_random_update() {
    let mut army = Army::new(ArmyDensity::Even, 3);
    let mut rng = rand::thread_rng();
    let mut sounds = Vec::new();
    army.update(2001 * MS, &mut sounds, &mut rng);
    assert_eq!(sounds, vec![Sound::Move, Sound::Pew(1)]);
    assert_eq!(army.bullets.len(), 1);
    let b = army.bullets[0];
    assert!(army.aliens.iter().any(|a| a.x == b.x && a.y + 2 == b.y));
}

#[test]
fn killing_aliens() {
    let mut army = Army::new(ArmyDensity::Even, 3);
    assert!(!army.can_kill_alien(3, 3));
    assert_eq!(army.aliens.len(), 54);
    assert!(army.can_kill_alien(2, 4));
    assert_eq!(army.aliens.len(), 53);
    assert_eq!(army.aliens[1], Alien::new(2, 6));
    assert!(!army.can_kill_alien(2, 4));
    army.aliens = vec![Alien::new(1, 1), Alien::new(1, 1)];
    assert!(army.can_kill_alien(1, 1));
    assert_eq!(army.aliens, vec![Alien::new(1, 1)]);
    assert!(army.can_kill_alien(1, 1));
    assert!(army.all_dead());
}

#[test]
fn reaching_the_bottom() {
    let mut army = Army::new(ArmyDensity::Even, 3);
    assert!(!army.reach_bottom());
    army.aliens.push(Alien::new(4, NUM_ROWS - 2));
    assert!(army.reach_bottom());
    army.aliens = vec![];
    assert!(!army.reach_bottom());
}

#[test]
fn bullet_flight_and_explosion() {
    let mut up = Bullet::new(4, 10, Owner::Player);
    up.update(30 * MS);
    assert_eq!(up.y, 10);
    assert_eq!(up.timer.time_left_ns, 20 * MS);
    up.update(20 * MS);
    assert_eq!(up.y, 10);
    assert!(!up.timer.ready);
    up.update(1);
    assert_eq!(up.y, 9);
    assert_eq!(up.timer.time_left_ns, 50 * MS);
    assert!(!up.ready_to_clear());
    up.explode();
    assert!(!up.alive);
    assert_eq!(up.timer.duration_ns, 200 * MS);
    up.update(100 * MS);
    assert!(!up.ready_to_clear());
    up.update(101 * MS);
    assert_eq!(up.y, 9);
    assert!(up.ready_to_clear());

    let mut down = Bullet::new(4, NUM_ROWS - 2, Owner::Aliens);
    assert!(!down.ready_to_clear());
    down.update(51 * MS);
    assert_eq!(down.y, NUM_ROWS - 1);
    assert!(down.ready_to_clear());
    let top = Bullet::new(4, 0, Owner::Player);
    assert!(top.ready_to_clear());
}

#[test]
fn bullet_marks() {
    let mut frame = new_frame();
    let mut b = Bullet::new(3, 4, Owner::Player);
    b.draw(&mut frame);
    assert_eq!(frame[3][4], '|');
    b.explode();
    b.draw(&mut frame);
    assert_eq!(frame[3][4], '*');
}

#[test]
fn player_moves_within_the_field() {
    let mut p = Player::new();
    assert_eq!((p.x, p.y), (NUM_COLS / 2, NUM_ROWS - 2));
    assert_eq!(p.score, 0);
    assert_eq!(p.lives, 3);
    assert!(p.alive);
    p.move_left();
    assert_eq!(p.x, NUM_COLS / 2 - 1);
    p.move_right();
    assert_eq!(p.x, NUM_COLS / 2);
    p.x = 0;
    p.move_left();
    assert_eq!(p.x, 0);
    p.x = NUM_COLS - 1;
    p.move_right();
    assert_eq!(p.x, NUM_COLS - 1);
    assert!(p.can_kill(NUM_COLS - 1, NUM_ROWS - 2));
    assert!(!p.can_kill(NUM_COLS - 2, NUM_ROWS - 2));
    p.kill();
    assert!(!p.alive);
}

#[test]
fn player_shoots_after_reloading() {
    let mut p = Player::new();
    let mut rng = rand::thread_rng();
    let mut sounds = Vec::new();
    p.shot(&mut sounds, &mut rng);
    assert!(p.bullets.is_empty());
    assert!(sounds.is_empty());
    let mut army = Army::new(ArmyDensity::All, 0);
    let score = p.update(201 * MS, &mut army, &mut sounds, &mut rng);
    assert_eq!(score, 0);
    assert!(p.shot_timer.ready);
    p.shot(&mut sounds, &mut rng);
    assert_eq!(p.bullets.len(), 1);
    assert_eq!((p.bullets[0].x, p.bullets[0].y), (NUM_COLS / 2, NUM_ROWS - 3));
    assert_eq!(p.bullets[0].owner, Owner::Player);
    assert!(!p.shot_timer.ready);
    assert_eq!(p.shot_timer.time_left_ns, 200 * MS);
    assert_eq!(sounds.len(), 1);
    assert!(sounds[0] == Sound::Pew(2) || sounds[0] == Sound::Pew(3));
}

#[test]
fn player_bullets_kill_aliens() {
    let mut p = Player::new();
    let mut army = Army::new(ArmyDensity::All, 1);
    army.aliens = vec![Alien::new(7, 5), Alien::new(8, 5)];
    p.bullets = vec![Bullet::new(7, 6, Owner::Player), Bullet::new(9, 6, Owner::Player)];
    let mut rng = rand::thread_rng();
    let mut sounds = vec![Sound::Start];
    let score = p.update(51 * MS, &mut army, &mut sounds, &mut rng);
    assert_eq!(score, 100);
    assert_eq!(p.score, 100);
    assert_eq!(army.aliens, vec![Alien::new(8, 5)]);
    assert_eq!(p.bullets.len(), 2);
    assert!(!p.bullets[0].alive);
    assert!(p.bullets[1].alive);
    assert_eq!(p.bullets[1].y, 5);
    assert_eq!(sounds.len(), 2);
    assert_eq!(sounds[0], Sound::Start);
    assert!(sounds[1] == Sound::Boom(2) || sounds[1] == Sound::Boom(3));
}

#[test]
fn detect_kills_scores_each_hit() {
    let mut p = Player::new();
    let mut army = Army::new(ArmyDensity::All, 1);
    army.aliens = vec![Alien::new(7, 5), Alien::new(7, 5), Alien::new(1, 1)];
    p.bullets = vec![Bullet::new(7, 5, Owner::Player), Bullet::new(7, 5, Owner::Player), Bullet::new(7, 5, Owner::Player)];
    let mut rng = rand::thread_rng();
    let mut sounds = Vec::new();
    p.detect_kills(&mut army, &mut sounds, &mut rng);
    assert_eq!(p.score, 200);
    assert_eq!(army.aliens, vec![Alien::new(1, 1)]);
    assert!(!p.bullets[0].alive && !p.bullets[1].alive && p.bullets[2].alive);
    assert_eq!(sounds.len(), 2);
}

#[test]
fn drawing_the_game() {
    let game = Game::new();
    let frame = game.draw();
    assert_eq!(frame.len(), NUM_COLS);
    assert!(frame.iter().all(|col| col.len() == NUM_ROWS));
    assert_eq!(frame[NUM_COLS / 2][NUM_ROWS - 2], 'A');
    assert_eq!(frame[2][2], 'x');
    assert_eq!(frame[36][6], 'x');
    assert_eq!(frame[3][3], ' ');
    let count = frame.iter().flatten().filter(|c| **c == 'x').count();
    assert_eq!(count, 54);
}

#[test]
fn alien_glyph_changes_halfway() {
    let mut army = Army::new(ArmyDensity::All, 1);
    army.aliens = vec![Alien::new(1, 1)];
    let mut sounds = Vec::new();
    army.update_with_shooter(999 * MS, 0, &mut sounds);
    let mut frame = new_frame();
    army.draw(&mut frame);
    assert_eq!(frame[1][1], 'x');
    army.update_with_shooter(2 * MS, 0, &mut sounds);
    let mut frame = new_frame();
    army.draw(&mut frame);
    assert_eq!(frame[1][1], '+');
}

#[test]
fn game_commands_and_outcome() {
    let mut game = Game::new();
    let mut rng = rand::thread_rng();
    let mut sounds = Vec::new();
    assert_eq!(game.outcome(), Outcome::Playing);
    assert!(game.handle(Command::Left, &mut sounds, &mut rng));
    assert_eq!(game.player.x, NUM_COLS / 2 - 1);
    assert!(game.handle(Command::Right, &mut sounds, &mut rng));
    assert!(game.handle(Command::Nothing, &mut sounds, &mut rng));
    assert_eq!(game.player.x, NUM_COLS / 2);
    assert!(!game.handle(Command::Quit, &mut sounds, &mut rng));
    let score = game.tick(10 * MS, &mut sounds, &mut rng);
    assert_eq!(score, 0);
    assert_eq!(game.outcome(), Outcome::Playing);
    game.player.alive = false;
    assert_eq!(game.outcome(), Outcome::Lost);
    game.army.aliens.clear();
    assert_eq!(game.outcome(), Outcome::Won);
}

#[test]
fn game_player_hit_by_bullet() {
    let mut game = Game::new();
    let mut rng = rand::thread_rng();
    let mut sounds = Vec::new();
    let (x, y) = (game.player.x, game.player.y);
    game.army.bullets.push(Bullet::new(x, y - 1, Owner::Aliens));
    game.tick(51 * MS, &mut sounds, &mut rng);
    assert!(!game.player.alive);
    assert_eq!(sounds, vec![Sound::Boom(3)]);
    assert_eq!(game.outcome(), Outcome::Lost);
}

#[test]
fn changed_cells_of_frames() {
    let previous = new_frame();
    let mut next = new_frame();
    assert!(changed_cells(&previous, &next, false).is_empty());
    assert_eq!(changed_cells(&previous, &next, true).len(), NUM_COLS * NUM_ROWS);
    next[3][4] = 'A';
    next[1][7] = 'x';
    assert_eq!(changed_cells(&previous, &next, false), vec![(1, 7), (3, 4)]);
    let forced = changed_cells(&previous, &next, true);
    assert_eq!(forced[0], (0, 0));
    assert_eq!(forced[1], (0, 1));
}

#[test]
fn step_right_then_left_restores_the_player() {
    let mut p = Player::new();
    p.x = 5;
    p.score = 300;
    p.move_right();
    p.move_left();
    assert_eq!(p.x, 5);
    assert_eq!(p.score, 300);
    assert_eq!(p.y, NUM_ROWS - 2);
    p.x = NUM_COLS - 1;
    p.move_right();
    p.move_left();
    assert_eq!(p.x, NUM_COLS - 2);
}

#[test]
fn new_game_starts_fresh() {
    let game = Game::new();
    assert_eq!(game.player.lives, 3);
    assert_eq!(game.player.shot_timer.duration_ns, 200 * MS);
    assert_eq!(game.army.direction, Direction::Right);
    assert_eq!(game.army.move_rate, 2000);
    assert_eq!(game.army.fire_timer.time_left_ns, 2000 * MS);
}

#[test]
fn tick_moves_the_players_bullets() {
    let mut game = Game::new();
    let mut rng = rand::thread_rng();
    let mut sounds = Vec::new();
    game.player.bullets.push(Bullet::new(0, 10, Owner::Player));
    game.tick(51 * MS, &mut sounds, &mut rng);
    assert_eq!(game.player.bullets.len(), 1);
    assert_eq!(game.player.bullets[0].y, 9);
    assert_eq!(game.player.shot_timer.time_left_ns, 149 * MS);
    assert_eq!(game.player.lives, 3);
}
