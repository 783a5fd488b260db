use vstd::prelude::*;
use crate::alien::{alien_at, shot_at, Alien, Army};
use crate::bullet::{
    advance_all, bullet_after, bullet_exploded, bullet_mark, bullets_after, lemma_kept_bullet, Bullet, Owner, STEP_MS,
};
use crate::frame::{frame_shape, grid, marks_on_field, on_field, paint, put, Frame, NUM_COLS, NUM_ROWS};
use crate::random::random_below;
use crate::sound::Sound;
use crate::timer::{fresh_timer, timer_after, timer_reset, Timer};
use rand::rngs::ThreadRng;

verus! {

/// Milliseconds the cannon needs between two shots.
pub const RELOAD_MS: u64 = 200;

/// Points for each alien shot down.
pub const POINTS_PER_KILL: u32 = 100;

/// Lives a new player starts with.
pub const START_LIVES: u8 = 3;

/// The player's cannon, its bullets and its score.
pub struct Player {
    pub x: usize,
    pub y: usize,
    pub bullets: Vec<Bullet>,
    pub shot_timer: Timer,
    pub alive: bool,
    pub score: u32,
    pub lives: u8,
}

/// A bullet of the player: rising, within the field.
pub open spec fn shot_wf(b: Bullet) -> bool {
    &&& b.owner == Owner::Player
    &&& b.x < NUM_COLS
    &&& 1 <= b.y < NUM_ROWS
}

/// What every player keeps: the cannon on the field below the second row, and
/// only its own rising bullets on the field.
pub open spec fn player_wf(p: Player) -> bool {
    &&& p.x < NUM_COLS
    &&& 2 <= p.y < NUM_ROWS
    &&& forall|i: int| 0 <= i < p.bullets@.len() ==> shot_wf(#[trigger] p.bullets@[i])
}

/// The column after a step left: one less, unless already at the left edge.
pub open spec fn stepped_left(x: usize) -> usize {
    if x > 0 { (x - 1) as usize } else { x }
}

/// The column after a step right: one more, unless already at the right edge.
pub open spec fn stepped_right(x: usize) -> usize {
    if x < NUM_COLS - 1 { (x + 1) as usize } else { x }
}

/// The player after a step left.
pub open spec fn moved_left(p: Player) -> Player {
    Player { x: stepped_left(p.x), ..p }
}

/// The player after a step right.
pub open spec fn moved_right(p: Player) -> Player {
    Player { x: stepped_right(p.x), ..p }
}

/// The bullet the cannon at `(x, y)` fires: one row above it, rising.
pub open spec fn shot_from(x: usize, y: usize) -> Bullet {
    Bullet { x, y: (y - 1) as usize, alive: true, timer: fresh_timer(STEP_MS), owner: Owner::Player }
}

/// The aliens left after the bullets, in order, each shot at their place.
pub open spec fn hunted(aliens: Seq<Alien>, bullets: Seq<Bullet>) -> Seq<Alien>
    decreases bullets.len(),
{
    if bullets.len() == 0 {
        aliens
    } else {
        shot_at(hunted(aliens, bullets.drop_last()), bullets.last().x as int, bullets.last().y as int)
    }
}

/// Bullet `i` hits an alien, after the bullets before it had their turn.
pub open spec fn hits(aliens: Seq<Alien>, bullets: Seq<Bullet>, i: int) -> bool {
    alien_at(hunted(aliens, bullets.take(i)), bullets[i].x as int, bullets[i].y as int)
}

/// How many of the bullets hit an alien.
pub open spec fn kill_count(aliens: Seq<Alien>, bullets: Seq<Bullet>) -> nat
    decreases bullets.len(),
{
    if bullets.len() == 0 {
        0
    } else {
        kill_count(aliens, bullets.drop_last()) + if alien_at(
            hunted(aliens, bullets.drop_last()),
            bullets.last().x as int,
            bullets.last().y as int,
        ) {
            1nat
        } else {
            0nat
        }
    }
}

/// The sound of an explosion, in one of its two louder variants.
pub open spec fn is_boom(s: Sound) -> bool {
    s == Sound::Boom(2) || s == Sound::Boom(3)
}

/// The sound of a shot, in one of its two louder variants.
pub open spec fn is_pew(s: Sound) -> bool {
    s == Sound::Pew(2) || s == Sound::Pew(3)
}

/// The marks a player leaves on the field: the cannon, then its bullets.
pub open spec fn player_marks(p: Player) -> Seq<(int, int, char)> {
    seq![(p.x as int, p.y as int, 'A')] + p.bullets@.map_values(|b: Bullet| (b.x as int, b.y as int, bullet_mark(b)))
}

/// `post` is `pre` after its bullets, in order, were fired at `army`: those
/// that hit exploded, each hit scored, and every other field is untouched.
pub open spec fn kills_detected(pre: Player, post: Player, aliens: Seq<Alien>) -> bool {
    &&& post.bullets@.len() == pre.bullets@.len()
    &&& forall|i: int|
        0 <= i < pre.bullets@.len() ==> #[trigger] post.bullets@[i] == if hits(aliens, pre.bullets@, i) {
            bullet_exploded(pre.bullets@[i])
        } else {
            pre.bullets@[i]
        }
    &&& post.score == pre.score + POINTS_PER_KILL * kill_count(aliens, pre.bullets@)
    &&& post.x == pre.x && post.y == pre.y
    &&& post.shot_timer == pre.shot_timer
    &&& post.alive == pre.alive
    &&& post.lives == pre.lives
}

/// The army is untouched but for its aliens.
pub open spec fn only_aliens_changed(pre: Army, post: Army) -> bool {
    &&& post.bullets@ == pre.bullets@
    &&& post.move_timer == pre.move_timer
    &&& post.move_rate == pre.move_rate
    &&& post.fire_timer == pre.fire_timer
    &&& post.fire_rate == pre.fire_rate
    &&& post.direction == pre.direction
}

/// A step on the field stays on the field.
pub proof fn lemma_steps_stay_on_field(x: usize)
    requires
        x < NUM_COLS,
    ensures
        stepped_left(x) < NUM_COLS,
        stepped_right(x) < NUM_COLS,
{
}

/// A step right is undone by a step left, away from the right wall: the
/// player is as before.
pub proof fn lemma_right_then_left(p: Player)
    requires
        p.x < NUM_COLS - 1,
    ensures
        moved_left(moved_right(p)) == p,
{
}

/// A step left is undone by a step right, away from the left wall: the
/// player is as before.
pub proof fn lemma_left_then_right(p: Player)
    requires
        0 < p.x < NUM_COLS,
    ensures
        moved_right(moved_left(p)) == p,
{
}

/// Each hit takes off exactly one alien: what the bullets leave and what
/// they hit add up to the aliens there were.
pub proof fn lemma_hunted_len(aliens: Seq<Alien>, bullets: Seq<Bullet>)
    ensures
        hunted(aliens, bullets).len() + kill_count(aliens, bullets) == aliens.len(),
    decreases bullets.len(),
{
    if bullets.len() > 0 {
        lemma_hunted_len(aliens, bullets.drop_last());
        crate::alien::lemma_shot_at_len(
            hunted(aliens, bullets.drop_last()),
            bullets.last().x as int,
            bullets.last().y as int,
        );
    }
}

/// Whatever holds of every alien holds of every alien the bullets leave.
pub proof fn lemma_hunted_keeps(aliens: Seq<Alien>, bullets: Seq<Bullet>, p: spec_fn(Alien) -> bool)
    requires
        forall|i: int| 0 <= i < aliens.len() ==> p(#[trigger] aliens[i]),
    ensures
        forall|i: int| 0 <= i < hunted(aliens, bullets).len() ==> p(#[trigger] hunted(aliens, bullets)[i]),
    decreases bullets.len(),
{
    if bullets.len() > 0 {
        let before = hunted(aliens, bullets.drop_last());
        lemma_hunted_keeps(aliens, bullets.drop_last(), p);
        let x = bullets.last().x as int;
        let y = bullets.last().y as int;
        if alien_at(before, x, y) {
            crate::alien::lemma_first_at_exists(before, x, y);
            let k = choose|k: int| crate::alien::first_at(before, x, y, k);
            let after = hunted(aliens, bullets);
            assert(after == before.remove(k));
            assert forall|i: int| 0 <= i < after.len() implies p(#[trigger] after[i]) by {
                if i < k {
                    assert(after[i] == before[i]);
                } else {
                    assert(after[i] == before[i + 1]);
                }
            }
        }
    }
}

/// The first `i` bullets hit no more than all of them.
pub proof fn lemma_kill_count_prefix(aliens: Seq<Alien>, bullets: Seq<Bullet>, i: int)
    requires
        0 <= i <= bullets.len(),
    ensures
        kill_count(aliens, bullets.take(i)) <= kill_count(aliens, bullets),
    decreases bullets.len() - i,
{
    if i < bullets.len() {
        lemma_kill_count_prefix(aliens, bullets, i + 1);
        assert(bullets.take(i + 1).drop_last() =~= bullets.take(i));
    } else {
        assert(bullets.take(i) =~= bullets);
    }
}

impl Player {
    /// A living player in the middle of the second row from the bottom,
    /// with no bullets, a fresh reload timer, no score and three lives.
    pub fn new() -> (p: Self)
        ensures
            p.x == NUM_COLS / 2,
            p.y == NUM_ROWS - 2,
            p.bullets@.len() == 0,
            p.shot_timer == fresh_timer(RELOAD_MS),
            p.alive,
            p.score == 0,
            p.lives == START_LIVES,
            player_wf(p),
    {
        Self {
            x: NUM_COLS / 2,
            y: NUM_ROWS - 2,
            bullets: Vec::new(),
            shot_timer: Timer::from_millis(RELOAD_MS),
            alive: true,
            score: 0,
            lives: START_LIVES,
        }
    }

    /// Moves the cannon one column left, unless it is at the left edge.
    pub fn move_left(&mut self)
        ensures
            *final(self) == moved_left(*old(self)),
            player_wf(*old(self)) ==> player_wf(*final(self)),
    {
        if self.x > 0 {
            self.x = self.x - 1;
        }
    }

    /// Moves the cannon one column right, unless it is at the right edge.
    pub fn move_right(&mut self)
        ensures
            *final(self) == moved_right(*old(self)),
            player_wf(*old(self)) ==> player_wf(*final(self)),
    {
        if self.x < NUM_COLS - 1 {
            self.x = self.x + 1;
        }
    }

    /// Fires, if the cannon has reloaded: a bullet one row above the cannon,
    /// a shot sound of variant 2 or 3 drawn at random, and the reload
    /// timer started over. Otherwise nothing happens.
    pub fn shot(&mut self, sounds: &mut Vec<Sound>, rng: &mut ThreadRng)
        requires
            old(self).shot_timer.ready ==> old(self).y >= 1,
        ensures
            final(self).bullets@ == (if old(self).shot_timer.ready {
                old(self).bullets@.push(shot_from(old(self).x, old(self).y))
            } else {
                old(self).bullets@
            }),
            final(self).shot_timer == (if old(self).shot_timer.ready {
                timer_reset(old(self).shot_timer)
            } else {
                old(self).shot_timer
            }),
            old(self).shot_timer.ready ==> final(sounds)@.len() == old(sounds)@.len() + 1
                && final(sounds)@.drop_last() == old(sounds)@ && is_pew(final(sounds)@.last()),
            !old(self).shot_timer.ready ==> final(sounds)@ == old(sounds)@,
            final(self).x == old(self).x,
            final(self).y == old(self).y,
            final(self).alive == old(self).alive,
            final(self).score == old(self).score,
            final(self).lives == old(self).lives,
            player_wf(*old(self)) ==> player_wf(*final(self)),
    {
        if self.shot_timer.ready {
            self.bullets.push(Bullet::new(self.x, self.y - 1, Owner::Player));
            let variant = random_below(rng, 2, 4);
            sounds.push(Sound::Pew(variant as u8));
            self.shot_timer.reset();
            proof {
                assert(sounds@.drop_last() =~= old(sounds)@);
            }
        }
    }

    /// Whether the cannon is at `(x, y)`.
    pub fn can_kill(&self, x: usize, y: usize) -> (r: bool)
        ensures
            r == (self.x == x && self.y == y),
    {
        self.x == x && self.y == y
    }

    /// Fires every bullet, in order, at the army: a bullet at the place of an
    /// alien shoots down the first alien there, explodes, scores, and asks for
    /// an explosion sound of variant 2 or 3 drawn at random.
    pub fn detect_kills(&mut self, army: &mut Army, sounds: &mut Vec<Sound>, rng: &mut ThreadRng)
        requires
            old(self).score + POINTS_PER_KILL * kill_count(old(army).aliens@, old(self).bullets@) <= u32::MAX,
        ensures
            kills_detected(*old(self), *final(self), old(army).aliens@),
            final(army).aliens@ == hunted(old(army).aliens@, old(self).bullets@),
            only_aliens_changed(*old(army), *final(army)),
            final(sounds)@.len() == old(sounds)@.len() + kill_count(old(army).aliens@, old(self).bullets@),
            final(sounds)@.take(old(sounds)@.len() as int) == old(sounds)@,
            forall|k: int| old(sounds)@.len() <= k < final(sounds)@.len() ==> is_boom(#[trigger] final(sounds)@[k]),
    {
        let ghost pre = *self;
        let ghost pre_army = *army;
        let ghost pre_sounds = sounds@;
        let ghost shots = self.bullets@;
        let n = self.bullets.len();
        let mut i: usize = 0;
        while i < n
            invariant
                n == shots.len(),
                pre == *old(self),
                pre_army == *old(army),
                pre_sounds == old(sounds)@,
                shots == pre.bullets@,
                i <= n,
                self.bullets@.len() == n,
                forall|k: int| 0 <= k < i ==> #[trigger] self.bullets@[k] == if hits(pre_army.aliens@, shots, k) {
                    bullet_exploded(shots[k])
                } else {
                    shots[k]
                },
                forall|k: int| i <= k < n ==> #[trigger] self.bullets@[k] == shots[k],
                self.score == pre.score + POINTS_PER_KILL * kill_count(pre_army.aliens@, shots.take(i as int)),
                kill_count(pre_army.aliens@, shots.take(i as int)) <= kill_count(pre_army.aliens@, shots),
                self.x == pre.x && self.y == pre.y,
                self.shot_timer == pre.shot_timer,
                self.alive == pre.alive,
                self.lives == pre.lives,
                pre.score + POINTS_PER_KILL * kill_count(pre_army.aliens@, shots) <= u32::MAX,
                army.aliens@ == hunted(pre_army.aliens@, shots.take(i as int)),
                only_aliens_changed(pre_army, *army),
                sounds@.len() == pre_sounds.len() + kill_count(pre_army.aliens@, shots.take(i as int)),
                sounds@.take(pre_sounds.len() as int) == pre_sounds,
                forall|k: int| pre_sounds.len() <= k < sounds@.len() ==> is_boom(#[trigger] sounds@[k]),
            decreases n - i,
        {
            let ghost before = shots.take(i as int);
            proof {
                lemma_kill_count_prefix(pre_army.aliens@, shots, i + 1);
                assert(shots.take(i + 1).drop_last() =~= before);
                assert(shots.take(i + 1).last() == shots[i as int]);
            }
            let bx = self.bullets[i].x;
            let by = self.bullets[i].y;
            let ghost sounds_before = sounds@;
            if army.can_kill_alien(bx, by) {
                let mut b = self.bullets[i];
                b.explode();
                self.bullets.set(i, b);
                let variant = random_below(rng, 2, 4);
                sounds.push(Sound::Boom(variant as u8));
                self.score = self.score + POINTS_PER_KILL;
                proof {
                    assert(sounds@.take(pre_sounds.len() as int) =~= sounds_before.take(pre_sounds.len() as int));
                }
            }
            proof {
                assert(hits(pre_army.aliens@, shots, i as int) == alien_at(
                    hunted(pre_army.aliens@, before),
                    bx as int,
                    by as int,
                ));
            }
            i = i + 1;
        }
        proof {
            assert(shots.take(n as int) =~= shots);
        }
    }

    /// Lets `delta_ns` nanoseconds go by: the cannon reloads, its bullets move
    /// and those done are taken off, then the bullets are fired at the army.
    /// Returns the score.
    pub fn update(&mut self, delta_ns: u64, army: &mut Army, sounds: &mut Vec<Sound>, rng: &mut ThreadRng) -> (score: u32)
        requires
            forall|i: int|
                0 <= i < old(self).bullets@.len() ==> crate::bullet::can_advance(#[trigger] old(self).bullets@[i], delta_ns),
            old(self).score + POINTS_PER_KILL * kill_count(old(army).aliens@, bullets_after(old(self).bullets@, delta_ns))
                <= u32::MAX,
        ensures
            ({
                let moved = bullets_after(old(self).bullets@, delta_ns);
                &&& final(self).shot_timer == timer_after(old(self).shot_timer, delta_ns)
                &&& final(self).bullets@.len() == moved.len()
                &&& forall|i: int|
                    0 <= i < moved.len() ==> #[trigger] final(self).bullets@[i] == if hits(old(army).aliens@, moved, i) {
                        bullet_exploded(moved[i])
                    } else {
                        moved[i]
                    }
                &&& final(self).score == old(self).score + POINTS_PER_KILL * kill_count(old(army).aliens@, moved)
                &&& final(army).aliens@ == hunted(old(army).aliens@, moved)
                &&& final(sounds)@.len() == old(sounds)@.len() + kill_count(old(army).aliens@, moved)
            }),
            final(self).x == old(self).x,
            final(self).y == old(self).y,
            final(self).alive == old(self).alive,
            final(self).lives == old(self).lives,
            only_aliens_changed(*old(army), *final(army)),
            final(sounds)@.take(old(sounds)@.len() as int) == old(sounds)@,
            forall|k: int| old(sounds)@.len() <= k < final(sounds)@.len() ==> is_boom(#[trigger] final(sounds)@[k]),
            player_wf(*old(self)) ==> player_wf(*final(self)),
            score == final(self).score,
    {
        self.shot_timer.update(delta_ns);
        let ghost before = self.bullets@;
        self.bullets = advance_all(&self.bullets, delta_ns);
        proof {
            assert forall|k: int| 0 <= k < self.bullets@.len() && player_wf(*old(self)) implies shot_wf(
                #[trigger] self.bullets@[k],
            ) by {
                lemma_kept_bullet(before, delta_ns, k);
                let j = choose|j: int| 0 <= j < before.len() && self.bullets@[k] == bullet_after(#[trigger] before[j], delta_ns);
                assert(shot_wf(before[j]));
            }
        }
        self.detect_kills(army, sounds, rng);
        self.score
    }
}

impl Player {
    /// The player is hit.
    pub fn kill(&mut self)
        ensures
            !final(self).alive,
            final(self).x == old(self).x,
            final(self).y == old(self).y,
            final(self).bullets@ == old(self).bullets@,
            final(self).shot_timer == old(self).shot_timer,
            final(self).score == old(self).score,
            final(self).lives == old(self).lives,
            player_wf(*old(self)) ==> player_wf(*final(self)),
    {
        self.alive = false;
    }

    /// Draws the cannon as `A`, then its bullets, on the field.
    pub fn draw(&self, frame: &mut Frame)
        requires
            frame_shape(grid(old(frame))),
            marks_on_field(player_marks(*self)),
        ensures
            grid(final(frame)) == paint(grid(old(frame)), player_marks(*self)),
            frame_shape(grid(final(frame))),
    {
        let ghost start = grid(frame);
        let ghost marks = player_marks(*self);
        proof {
            assert(marks[0] == (self.x as int, self.y as int, 'A'));
            assert(on_field(marks[0].0, marks[0].1));
            assert(marks.take(1).drop_last() =~= marks.take(0));
            assert(paint(start, marks.take(0)) == start);
        }
        put(frame, self.x, self.y, 'A');
        let m = self.bullets.len();
        let mut j: usize = 0;
        while j < m
            invariant
                m == self.bullets@.len(),
                j <= m,
                marks == player_marks(*self),
                marks.len() == 1 + m,
                marks_on_field(marks),
                frame_shape(grid(frame)),
                grid(frame) == paint(start, marks.take(1 + j)),
            decreases m - j,
        {
            let b = self.bullets[j];
            proof {
                assert(marks[1 + j] == (b.x as int, b.y as int, bullet_mark(b)));
                assert(on_field(marks[1 + j].0, marks[1 + j].1));
                assert(marks.take(1 + j + 1).drop_last() =~= marks.take(1 + j));
            }
            b.draw(frame);
            j = j + 1;
        }
        assert(marks.take(1 + m) =~= marks);
    }
}

} // verus!
