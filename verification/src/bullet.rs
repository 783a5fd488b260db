use vstd::prelude::*;
use crate::frame::{frame_set, frame_shape, grid, on_field, put, Frame, NUM_ROWS};
use crate::timer::{fresh_timer, timer_after, timer_reset, Timer};

verus! {

/// Milliseconds between two steps of a flying bullet.
pub const STEP_MS: u64 = 50;

/// Milliseconds an explosion stays on the field.
pub const EXPLOSION_MS: u64 = 200;

/// Who fired a bullet: the player's bullets fly up, the aliens' fly down.
#[derive(Clone, Copy, Debug, PartialEq, Eq, Structural)]
pub enum Owner {
    Player,
    Aliens,
}

/// A bullet on the field; once it has hit something it stays in place as an
/// explosion until its timer runs out.
#[derive(Clone, Copy, Debug)]
pub struct Bullet {
    pub x: usize,
    pub y: usize,
    pub alive: bool,
    pub timer: Timer,
    pub owner: Owner,
}

/// The row the bullet moves to in one step.
pub open spec fn next_row(y: int, owner: Owner) -> int {
    match owner {
        Owner::Player => y - 1,
        Owner::Aliens => y + 1,
    }
}

/// The one-step move that `delta_ns` would trigger stays within `usize`.
pub open spec fn can_advance(b: Bullet, delta_ns: u64) -> bool {
    (b.alive && timer_after(b.timer, delta_ns).ready) ==> 0 <= next_row(b.y as int, b.owner) <= usize::MAX
}

/// The bullet after `delta_ns` nanoseconds: its timer runs; when the timer
/// is ready and the bullet still flies, it moves one row and its timer
/// starts over.
pub open spec fn bullet_after(b: Bullet, delta_ns: u64) -> Bullet {
    let t = timer_after(b.timer, delta_ns);
    if t.ready && b.alive {
        Bullet { y: next_row(b.y as int, b.owner) as usize, timer: timer_reset(t), ..b }
    } else {
        Bullet { timer: t, ..b }
    }
}

/// The bullet turned into an explosion at the same place.
pub open spec fn bullet_exploded(b: Bullet) -> Bullet {
    Bullet { alive: false, timer: fresh_timer(EXPLOSION_MS), ..b }
}

/// The bullet can be taken off the field: its explosion is over, or it
/// reached the top (the player's) or the bottom (the aliens').
pub open spec fn clearable(b: Bullet) -> bool {
    match b.owner {
        Owner::Player => (!b.alive && b.timer.ready) || b.y <= 0,
        Owner::Aliens => (!b.alive && b.timer.ready) || b.y >= NUM_ROWS - 1,
    }
}

/// The mark a bullet leaves on the field.
pub open spec fn bullet_mark(b: Bullet) -> char {
    if b.alive { '|' } else { '*' }
}

/// An explosion stays where it is, and can be taken off the field after an
/// update in which more than its duration goes by.
pub proof fn lemma_explosion_clears(b: Bullet, delta_ns: u64)
    ensures
        delta_ns > EXPLOSION_MS * crate::timer::NANOS_PER_MILLI ==> clearable(bullet_after(bullet_exploded(b), delta_ns)),
        bullet_after(bullet_exploded(b), delta_ns).x == b.x,
        bullet_after(bullet_exploded(b), delta_ns).y == b.y,
{
}

/// A flying bullet that is not taken off moves exactly one row per step,
/// up for the player's, down for the aliens'; one that has exploded stays.
pub proof fn lemma_bullet_moves_one_row(b: Bullet, delta_ns: u64)
    ensures
        bullet_after(b, delta_ns).x == b.x,
        bullet_after(b, delta_ns).owner == b.owner,
        bullet_after(b, delta_ns).alive == b.alive,
        !b.alive ==> bullet_after(b, delta_ns).y == b.y,
        b.alive && can_advance(b, delta_ns) ==> bullet_after(b, delta_ns).y == b.y
            || bullet_after(b, delta_ns).y == next_row(b.y as int, b.owner),
{
}

impl Bullet {
    /// A flying bullet at `(x, y)` with a fresh step timer.
    pub fn new(x: usize, y: usize, owner: Owner) -> (b: Self)
        ensures
            b == (Bullet { x, y, alive: true, timer: fresh_timer(STEP_MS), owner }),
    {
        Self { x, y, alive: true, timer: Timer::from_millis(STEP_MS), owner }
    }

    /// Lets `delta_ns` nanoseconds go by.
    pub fn update(&mut self, delta_ns: u64)
        requires
            can_advance(*old(self), delta_ns),
        ensures
            *final(self) == bullet_after(*old(self), delta_ns),
    {
        self.timer.update(delta_ns);
        if self.timer.ready && self.alive {
            match self.owner {
                Owner::Player => self.y = self.y - 1,
                Owner::Aliens => self.y = self.y + 1,
            }
            self.timer.reset();
        }
    }

    /// Turns the bullet into an explosion.
    pub fn explode(&mut self)
        ensures
            *final(self) == bullet_exploded(*old(self)),
    {
        self.alive = false;
        self.timer = Timer::from_millis(EXPLOSION_MS);
    }

    /// Whether the bullet can be taken off the field.
    pub fn ready_to_clear(&self) -> (r: bool)
        ensures
            r == clearable(*self),
    {
        match self.owner {
            Owner::Player => (!self.alive && self.timer.ready) || self.y <= 0,
            Owner::Aliens => (!self.alive && self.timer.ready) || self.y >= NUM_ROWS - 1,
        }
    }

    /// Marks the bullet on the field: `|` while it flies, `*` once exploded.
    pub fn draw(&self, frame: &mut Frame)
        requires
            frame_shape(grid(old(frame))),
            on_field(self.x as int, self.y as int),
        ensures
            grid(final(frame)) == frame_set(grid(old(frame)), self.x as int, self.y as int, bullet_mark(*self)),
            frame_shape(grid(final(frame))),
    {
        put(frame, self.x, self.y, if self.alive { '|' } else { '*' });
    }
}

/// The bullets after `delta_ns` nanoseconds, in order, those that can be
/// cleared taken off.
pub open spec fn bullets_after(bullets: Seq<Bullet>, delta_ns: u64) -> Seq<Bullet> {
    bullets.map_values(|b: Bullet| bullet_after(b, delta_ns)).filter(|b: Bullet| !clearable(b))
}

/// A bullet kept after `delta_ns` nanoseconds cannot be cleared, and is one
/// of the bullets after that time.
pub proof fn lemma_kept_bullet(bullets: Seq<Bullet>, delta_ns: u64, k: int)
    requires
        0 <= k < bullets_after(bullets, delta_ns).len(),
    ensures
        !clearable(bullets_after(bullets, delta_ns)[k]),
        exists|j: int|
            0 <= j < bullets.len() && bullets_after(bullets, delta_ns)[k] == bullet_after(#[trigger] bullets[j], delta_ns),
{
    broadcast use vstd::seq_lib::group_filter_ensures;

    let mapped = bullets.map_values(|b: Bullet| bullet_after(b, delta_ns));
    let keep = |b: Bullet| !clearable(b);
    let kept = mapped.filter(keep);
    assert(kept.contains(kept[k]));
    mapped.lemma_filter_contains_rev(keep, kept[k]);
    let j = choose|j: int| 0 <= j < mapped.len() && mapped[j] == kept[k];
    assert(mapped[j] == bullet_after(bullets[j], delta_ns));
}

/// No bullets appear when time goes by.
pub proof fn lemma_bullets_after_len(bullets: Seq<Bullet>, delta_ns: u64)
    ensures
        bullets_after(bullets, delta_ns).len() <= bullets.len(),
{
    broadcast use vstd::seq_lib::group_filter_ensures;

}

/// Lets `delta_ns` nanoseconds go by for every bullet, then keeps, in
/// order, those that cannot be cleared yet.
pub fn advance_all(bullets: &Vec<Bullet>, delta_ns: u64) -> (kept: Vec<Bullet>)
    requires
        forall|i: int| 0 <= i < bullets@.len() ==> can_advance(#[trigger] bullets@[i], delta_ns),
    ensures
        kept@ == bullets_after(bullets@, delta_ns),
{
    let ghost mapped = bullets@.map_values(|b: Bullet| bullet_after(b, delta_ns));
    let ghost keep = |b: Bullet| !clearable(b);
    let mut kept: Vec<Bullet> = Vec::new();
    let mut i: usize = 0;
    while i < bullets.len()
        invariant
            i <= bullets@.len(),
            mapped == bullets@.map_values(|b: Bullet| bullet_after(b, delta_ns)),
            keep == (|b: Bullet| !clearable(b)),
            forall|k: int| 0 <= k < bullets@.len() ==> can_advance(#[trigger] bullets@[k], delta_ns),
            kept@ == mapped.take(i as int).filter(keep),
        decreases bullets@.len() - i,
    {
        let mut b = bullets[i];
        b.update(delta_ns);
        proof {
            reveal_with_fuel(Seq::filter, 1);
            assert(mapped.take(i + 1).drop_last() =~= mapped.take(i as int));
            assert(mapped.take(i + 1).last() == b);
        }
        if !b.ready_to_clear() {
            kept.push(b);
        }
        i = i + 1;
    }
    assert(mapped.take(bullets@.len() as int) =~= mapped);
    kept
}

} // verus!
