use vstd::prelude::*;
use crate::alien::{
    Alien,
    aliens_fit, army_layout, army_marks, army_stepped, army_wf, bullet_wf, lemma_army_layout, Army, ArmyDensity,
};
use crate::frame::{frame_shape, grid, new_frame, paint, Frame, NUM_COLS, NUM_ROWS};
use crate::player::{
    kill_count, lemma_hunted_keeps, lemma_hunted_len, player_marks, player_wf, shot_wf, Player, POINTS_PER_KILL,
};
use crate::bullet::bullets_after;
use crate::sound::Sound;
use rand::rngs::ThreadRng;

verus! {

/// Rows of aliens per column in the army a game starts with.
pub const START_ROWS: usize = 3;

/// What the player asks for.
#[derive(Clone, Copy, Debug, PartialEq, Eq, Structural)]
pub enum Command {
    Quit,
    Left,
    Right,
    Shoot,
    Nothing,
}

/// Where a game stands.
#[derive(Clone, Copy, Debug, PartialEq, Eq, Structural)]
pub enum Outcome {
    Playing,
    Won,
    Lost,
}

/// A game: the player against an army.
pub struct Game {
    pub player: Player,
    pub army: Army,
}

/// No alien has come down to the player's row.
pub open spec fn above_player(aliens: Seq<Alien>) -> bool {
    forall|i: int| 0 <= i < aliens.len() ==> (#[trigger] aliens[i]).y < NUM_ROWS - 2
}

/// What every game keeps: a well-formed player and army, every alien on the
/// field, and room in the score for every alien left.
pub open spec fn game_wf(g: Game) -> bool {
    &&& player_wf(g.player)
    &&& army_wf(g.army)
    &&& forall|i: int| 0 <= i < g.army.aliens@.len() ==> (#[trigger] g.army.aliens@[i]).y < NUM_ROWS - 1
    &&& g.player.score + POINTS_PER_KILL * g.army.aliens@.len() <= u32::MAX
}

/// Where the game stands: won once no alien is left, else lost once an
/// alien reached the player's row or the player was hit.
pub open spec fn outcome_of(g: Game) -> Outcome {
    if g.army.aliens@.len() == 0 {
        Outcome::Won
    } else if !above_player(g.army.aliens@) || !g.player.alive {
        Outcome::Lost
    } else {
        Outcome::Playing
    }
}

/// A game is won exactly when no alien is left; lost exactly when aliens are
/// left and one of them reached the player's row or the player was hit; and
/// still being played otherwise.
pub proof fn lemma_outcome_cases(g: Game)
    ensures
        (outcome_of(g) == Outcome::Won) <==> g.army.aliens@.len() == 0,
        (outcome_of(g) == Outcome::Lost) <==> g.army.aliens@.len() > 0 && ((exists|i: int|
            0 <= i < g.army.aliens@.len() && (#[trigger] g.army.aliens@[i]).y >= NUM_ROWS - 2) || !g.player.alive),
        (outcome_of(g) == Outcome::Playing) <==> g.army.aliens@.len() > 0 && g.player.alive && (forall|i: int|
            0 <= i < g.army.aliens@.len() ==> (#[trigger] g.army.aliens@[i]).y < NUM_ROWS - 2),
{
}

/// The marks a game leaves on the field: the player's, then the army's.
pub open spec fn game_marks(g: Game) -> Seq<(int, int, char)> {
    player_marks(g.player) + army_marks(g.army)
}

/// The player's cannon stands where one of the army's bullets is.
pub open spec fn player_hit(g: Game) -> bool {
    exists|i: int|
        0 <= i < g.army.bullets@.len() && (#[trigger] g.army.bullets@[i]).x == g.player.x && g.army.bullets@[i].y
            == g.player.y
}

impl Game {
    /// A new game: a new player against an army of even density with three
    /// aliens per column.
    pub fn new() -> (g: Self)
        ensures
            g.army.aliens@ == army_layout(ArmyDensity::Even, START_ROWS as int, 2),
            g.player.x == NUM_COLS / 2,
            g.player.y == NUM_ROWS - 2,
            g.player.bullets@.len() == 0,
            g.player.alive,
            g.player.score == 0,
            g.player.lives == crate::player::START_LIVES,
            g.player.shot_timer == crate::timer::fresh_timer(crate::player::RELOAD_MS),
            g.army.bullets@.len() == 0,
            g.army.direction == crate::alien::Direction::Right,
            g.army.move_rate == crate::alien::START_RATE_MS,
            g.army.fire_rate == crate::alien::START_RATE_MS,
            g.army.move_timer == crate::timer::fresh_timer(crate::alien::START_RATE_MS),
            g.army.fire_timer == crate::timer::fresh_timer(crate::alien::START_RATE_MS),
            game_wf(g),
            outcome_of(g) == Outcome::Playing,
    {
        let player = Player::new();
        let army = Army::new(ArmyDensity::Even, START_ROWS);
        proof {
            lemma_army_layout(ArmyDensity::Even, START_ROWS as int, 2);
            reveal_with_fuel(crate::alien::column_layout, 3);
            assert(army_layout(ArmyDensity::Even, START_ROWS as int, 2)[0] == Alien { x: 2, y: 2 });
        }
        Game { player, army }
    }

    /// Carries out a command; returns whether the game goes on, which it
    /// does unless the player quits.
    pub fn handle(&mut self, command: Command, sounds: &mut Vec<Sound>, rng: &mut ThreadRng) -> (go_on: bool)
        requires
            game_wf(*old(self)),
        ensures
            go_on == (command != Command::Quit),
            game_wf(*final(self)),
            final(self).army == old(self).army,
            command == Command::Left ==> final(self).player.x == crate::player::stepped_left(old(self).player.x),
            command == Command::Right ==> final(self).player.x == crate::player::stepped_right(old(self).player.x),
            command != Command::Left && command != Command::Right ==> final(self).player.x == old(self).player.x,
            command != Command::Shoot ==> final(self).player.bullets@ == old(self).player.bullets@ && final(sounds)@
                == old(sounds)@ && final(self).player.shot_timer == old(self).player.shot_timer,
            command == Command::Shoot ==> final(self).player.shot_timer == (if old(self).player.shot_timer.ready {
                crate::timer::timer_reset(old(self).player.shot_timer)
            } else {
                old(self).player.shot_timer
            }),
            command == Command::Shoot && old(self).player.shot_timer.ready ==> final(sounds)@.len() == old(sounds)@.len()
                + 1 && final(sounds)@.drop_last() == old(sounds)@ && crate::player::is_pew(final(sounds)@.last()),
            command == Command::Shoot && !old(self).player.shot_timer.ready ==> final(sounds)@ == old(sounds)@,
            command == Command::Shoot ==> final(self).player.bullets@ == (if old(self).player.shot_timer.ready {
                old(self).player.bullets@.push(crate::player::shot_from(old(self).player.x, old(self).player.y))
            } else {
                old(self).player.bullets@
            }),
            final(self).player.score == old(self).player.score,
            final(self).player.alive == old(self).player.alive,
            final(self).player.y == old(self).player.y,
            final(self).player.lives == old(self).player.lives,
    {
        match command {
            Command::Quit => {
                return false;
            },
            Command::Left => self.player.move_left(),
            Command::Right => self.player.move_right(),
            Command::Shoot => self.player.shot(sounds, rng),
            Command::Nothing => {},
        }
        true
    }

    /// One round of `delta_ns` nanoseconds: the player's side moves and
    /// fires at the army, the army moves and fires, and the player is killed
    /// if one of the army's bullets is at the cannon. Returns the score.
    pub fn tick(&mut self, delta_ns: u64, sounds: &mut Vec<Sound>, rng: &mut ThreadRng) -> (score: u32)
        requires
            game_wf(*old(self)),
            outcome_of(*old(self)) == Outcome::Playing,
        ensures
            game_wf(*final(self)),
            score == final(self).player.score,
            ({
                let moved = bullets_after(old(self).player.bullets@, delta_ns);
                let kills = kill_count(old(self).army.aliens@, moved);
                &&& final(self).player.score == old(self).player.score + POINTS_PER_KILL * kills
                &&& final(self).army.aliens@.len() == old(self).army.aliens@.len() - kills
            }),
            final(self).player.score + POINTS_PER_KILL * final(self).army.aliens@.len() == old(self).player.score
                + POINTS_PER_KILL * old(self).army.aliens@.len(),
            exists|mid: Army, shooter: int|
                #![trigger army_stepped(mid, final(self).army, delta_ns, shooter)]
                {
                    let kills = kill_count(old(self).army.aliens@, bullets_after(old(self).player.bullets@, delta_ns));
                    let start = (old(sounds)@.len() + kills) as int;
                    let step = crate::alien::step_sounds(mid, delta_ns);
                    &&& mid.aliens@ == crate::player::hunted(
                        old(self).army.aliens@,
                        bullets_after(old(self).player.bullets@, delta_ns),
                    )
                    &&& crate::player::only_aliens_changed(old(self).army, mid)
                    &&& army_stepped(mid, final(self).army, delta_ns, shooter)
                    &&& final(sounds)@.len() == start + step.len() + if player_hit(*final(self)) { 1int } else { 0 }
                    &&& final(sounds)@.subrange(start, start + step.len() as int) == step
                    &&& player_hit(*final(self)) ==> final(sounds)@.last() == Sound::Boom(3)
                },
            final(sounds)@.take(old(sounds)@.len() as int) == old(sounds)@,
            forall|k: int|
                old(sounds)@.len() <= k < old(sounds)@.len() + kill_count(
                    old(self).army.aliens@,
                    bullets_after(old(self).player.bullets@, delta_ns),
                ) ==> crate::player::is_boom(#[trigger] final(sounds)@[k]),
            final(self).player.alive == (old(self).player.alive && !player_hit(*final(self))),
            final(self).player.x == old(self).player.x,
            final(self).player.y == old(self).player.y,
            final(self).player.lives == old(self).player.lives,
            final(self).player.shot_timer == crate::timer::timer_after(old(self).player.shot_timer, delta_ns),
            ({
                let moved = bullets_after(old(self).player.bullets@, delta_ns);
                &&& final(self).player.bullets@.len() == moved.len()
                &&& forall|i: int|
                    0 <= i < moved.len() ==> #[trigger] final(self).player.bullets@[i] == if crate::player::hits(
                        old(self).army.aliens@,
                        moved,
                        i,
                    ) {
                        crate::bullet::bullet_exploded(moved[i])
                    } else {
                        moved[i]
                    }
            }),
    {
        let ghost pre = *self;
        let ghost moved = bullets_after(pre.player.bullets@, delta_ns);
        proof {
            lemma_hunted_len(pre.army.aliens@, moved);
        }
        let ghost s0 = sounds@;
        let score = self.player.update(delta_ns, &mut self.army, sounds, rng);
        let ghost mid = self.army;
        let ghost s1 = sounds@;
        proof {
            lemma_hunted_len(pre.army.aliens@, moved);
            lemma_hunted_keeps(pre.army.aliens@, moved, |a: Alien| a.x < NUM_COLS && a.y < NUM_ROWS - 2);
            assert forall|i: int| 0 <= i < pre.army.aliens@.len() implies (#[trigger] pre.army.aliens@[i]).x
                < NUM_COLS && pre.army.aliens@[i].y < NUM_ROWS - 2 by {}
            assert(army_wf(self.army));
            assert(aliens_fit(self.army.aliens@));
        }
        self.army.update(delta_ns, sounds, rng);
        proof {
            let shooter = choose|s: int|
                (mid.aliens@.len() == 0 || 0 <= s < mid.aliens@.len()) && army_stepped(mid, self.army, delta_ns, s);
            assert(army_stepped(mid, self.army, delta_ns, shooter));
            assert forall|i: int| 0 <= i < self.army.aliens@.len() implies (#[trigger] self.army.aliens@[i]).y
                < NUM_ROWS - 1 by {
                assert(mid.aliens@[i].y < NUM_ROWS - 2);
            }
        }
        let ghost s2 = sounds@;
        if self.army.is_colliding_with_bullet(self.player.x, self.player.y) {
            self.player.kill();
            sounds.push(Sound::Boom(3));
        }
        proof {
            let step = crate::alien::step_sounds(mid, delta_ns);
            assert(s2 == s1 + step);
            assert(sounds@.take(s0.len() as int) =~= s0) by {
                assert(s1.take(s0.len() as int) == s0);
            }
            assert(sounds@.subrange(s1.len() as int, (s1.len() + step.len()) as int) =~= step);
            assert forall|k: int| s0.len() <= k < s1.len() implies crate::player::is_boom(#[trigger] sounds@[k]) by {
                assert(sounds@[k] == s1[k]);
            }
        }
        score
    }

    /// Where the game stands.
    pub fn outcome(&self) -> (o: Outcome)
        ensures
            o == outcome_of(*self),
            (o == Outcome::Won) <==> self.army.aliens@.len() == 0,
            (o == Outcome::Lost) <==> self.army.aliens@.len() > 0 && ((exists|i: int|
                0 <= i < self.army.aliens@.len() && (#[trigger] self.army.aliens@[i]).y >= NUM_ROWS - 2)
                || !self.player.alive),
            (o == Outcome::Playing) <==> self.army.aliens@.len() > 0 && self.player.alive && (forall|i: int|
                0 <= i < self.army.aliens@.len() ==> (#[trigger] self.army.aliens@[i]).y < NUM_ROWS - 2),
    {
        if self.army.all_dead() {
            Outcome::Won
        } else if self.army.reach_bottom() || !self.player.alive {
            Outcome::Lost
        } else {
            Outcome::Playing
        }
    }

    /// The field showing the player, then the army, over an empty field.
    pub fn draw(&self) -> (frame: Frame)
        requires
            game_wf(*self),
        ensures
            grid(&frame) == paint(crate::frame::blank_grid(), game_marks(*self)),
            frame_shape(grid(&frame)),
    {
        let mut frame = new_frame();
        let ghost pm = player_marks(self.player);
        let ghost am = army_marks(self.army);
        proof {
            assert forall|i: int| 0 <= i < pm.len() implies crate::frame::on_field((#[trigger] pm[i]).0, pm[i].1) by {
                if i > 0 {
                    assert(shot_wf(self.player.bullets@[i - 1]));
                }
            }
            let na = self.army.aliens@.len() as int;
            assert forall|i: int| 0 <= i < am.len() implies crate::frame::on_field((#[trigger] am[i]).0, am[i].1) by {
                if i >= na {
                    assert(bullet_wf(self.army.bullets@[i - na]));
                    assert(self.army.bullets@[i - na].x < NUM_COLS);
                } else {
                    assert(self.army.aliens@[i].x < NUM_COLS);
                    assert(self.army.aliens@[i].y < NUM_ROWS - 1);
                }
            }
        }
        self.player.draw(&mut frame);
        self.army.draw(&mut frame);
        proof {
            crate::frame::lemma_paint_append(crate::frame::blank_grid(), pm, am);
        }
        frame
    }
}

} // verus!
