use vstd::prelude::*;
use crate::bullet::{advance_all, bullet_after, bullets_after, can_advance, lemma_kept_bullet, bullet_mark, Bullet, Owner, STEP_MS};
use crate::frame::{frame_shape, grid, marks_on_field, on_field, paint, put, Frame, NUM_COLS, NUM_ROWS};
use crate::random::random_below;
use crate::sound::Sound;
use crate::timer::{fresh_timer, timer_after, timer_reset, Timer, NANOS_PER_MILLI};
use rand::rngs::ThreadRng;

verus! {

/// Milliseconds between two marches of a new army, and between two of its shots.
pub const START_RATE_MS: u64 = 2000;

/// The march period never drops below this many milliseconds.
pub const MIN_MOVE_RATE_MS: u64 = 250;

/// By how much the march period shrinks each time the army turns.
pub const MOVE_RATE_STEP_MS: u64 = 250;

/// The firing period never drops below this many milliseconds.
pub const MIN_FIRE_RATE_MS: u64 = 400;

/// By how much the firing period shrinks with each shot.
pub const FIRE_RATE_STEP_MS: u64 = 50;

/// One alien.
#[derive(Clone, Copy, Debug, PartialEq, Eq, Structural)]
pub struct Alien {
    pub x: usize,
    pub y: usize,
}

/// How densely a new army fills its part of the field.
#[derive(Clone, Copy, Debug, PartialEq, Eq, Structural)]
pub enum ArmyDensity {
    /// Every cell.
    All,
    /// The cells whose column and row are both odd.
    Odd,
    /// The cells whose column and row are both even.
    Even,
}

/// Where the army marches.
#[derive(Clone, Copy, Debug, PartialEq, Eq, Structural)]
pub enum Direction {
    Left,
    Right,
}

/// The aliens, their bullets, and the timers that pace their march and fire.
pub struct Army {
    pub aliens: Vec<Alien>,
    pub bullets: Vec<Bullet>,
    pub move_timer: Timer,
    pub move_rate: u64,
    pub fire_timer: Timer,
    pub fire_rate: u64,
    pub direction: Direction,
}

/// The bullet an alien at `a` fires: one row below it, falling.
pub open spec fn fired_from(a: Alien) -> Bullet {
    Bullet { x: a.x, y: (a.y + 1) as usize, alive: true, timer: fresh_timer(STEP_MS), owner: Owner::Aliens }
}

impl Alien {
    /// An alien at `(x, y)`.
    pub fn new(x: usize, y: usize) -> (a: Self)
        ensures
            a == (Alien { x, y }),
    {
        Self { x, y }
    }

    /// The bullet this alien fires.
    pub fn fire(&self) -> (b: Bullet)
        requires
            self.y < usize::MAX,
        ensures
            b == fired_from(*self),
    {
        Bullet::new(self.x, self.y + 1, Owner::Aliens)
    }
}

// ---------------------------------------------------------------------------
// Forming an army

/// Whether a new army of the given density may place an alien at `(x, y)`.
pub open spec fn eligible(density: ArmyDensity, x: int, y: int) -> bool {
    match density {
        ArmyDensity::All => true,
        ArmyDensity::Odd => y % 2 == 1 && x % 2 == 1,
        ArmyDensity::Even => y % 2 == 0 && x % 2 == 0,
    }
}

/// The aliens placed in column `x` from row `y` down, top to bottom, when
/// `left` more may still go into that column.
pub open spec fn column_layout(density: ArmyDensity, x: int, y: int, left: int) -> Seq<Alien>
    decreases NUM_ROWS - y,
{
    if y >= NUM_ROWS || left <= 0 || y < 0 {
        Seq::empty()
    } else if eligible(density, x, y) {
        seq![Alien { x: x as usize, y: y as usize }] + column_layout(density, x, y + 1, left - 1)
    } else {
        column_layout(density, x, y + 1, left)
    }
}

/// The aliens of a new army from column `x` rightwards, column by column:
/// the columns `2 .. NUM_COLS - 2` each hold the first `rows` cells, from
/// row 1 down, that the density allows.
pub open spec fn army_layout(density: ArmyDensity, rows: int, x: int) -> Seq<Alien>
    decreases NUM_COLS - 2 - x,
{
    if x >= NUM_COLS - 2 || x < 0 {
        Seq::empty()
    } else {
        column_layout(density, x, 1, rows) + army_layout(density, rows, x + 1)
    }
}

/// A column whose cells the density never allows stays empty.
proof fn lemma_column_empty(density: ArmyDensity, x: int, y: int, left: int)
    requires
        forall|r: int| y <= r ==> !#[trigger] eligible(density, x, r),
    ensures
        column_layout(density, x, y, left) == Seq::<Alien>::empty(),
    decreases NUM_ROWS - y,
{
    if !(y >= NUM_ROWS || left <= 0 || y < 0) {
        assert(!eligible(density, x, y));
        lemma_column_empty(density, x, y + 1, left);
    }
}

/// The aliens a column gets lie in that column, in allowed cells of the
/// field from row `y` down, each less than `2 * left` rows below `y`, and
/// there are at most `left` of them.
pub proof fn lemma_column_layout(density: ArmyDensity, x: int, y: int, left: int)
    requires
        0 <= x < NUM_COLS,
        0 <= y,
    ensures
        column_layout(density, x, y, left).len() <= if left < 0 { 0 } else { left },
        column_layout(density, x, y, left).len() == 0 || column_layout(density, x, y, left).len() + y <= NUM_ROWS,
        forall|i: int|
            0 <= i < column_layout(density, x, y, left).len() ==> {
                let a = #[trigger] column_layout(density, x, y, left)[i];
                &&& a.x == x
                &&& y <= a.y < y + 2 * left
                &&& a.y < NUM_ROWS
                &&& eligible(density, x, a.y as int)
            },
    decreases NUM_ROWS - y,
{
    let col = column_layout(density, x, y, left);
    if y >= NUM_ROWS || left <= 0 || y < 0 {
    } else if eligible(density, x, y) {
        lemma_column_layout(density, x, y + 1, left - 1);
        let rest = column_layout(density, x, y + 1, left - 1);
        assert forall|i: int| 0 < i < col.len() implies col[i] == rest[i - 1] by {}
    } else {
        match density {
            ArmyDensity::All => {},
            ArmyDensity::Odd => {
                if x % 2 != 1 {
                    lemma_column_empty(density, x, y, left);
                } else {
                    lemma_column_odd_even_step(density, x, y, left);
                }
            },
            ArmyDensity::Even => {
                if x % 2 != 0 {
                    lemma_column_empty(density, x, y, left);
                } else {
                    lemma_column_odd_even_step(density, x, y, left);
                }
            },
        }
    }
}

/// In a column whose parity the density allows, a row it skips is followed
/// by a row it allows.
proof fn lemma_column_odd_even_step(density: ArmyDensity, x: int, y: int, left: int)
    requires
        0 <= x < NUM_COLS,
        0 <= y < NUM_ROWS,
        left > 0,
        !eligible(density, x, y),
        density == ArmyDensity::Odd ==> x % 2 == 1,
        density == ArmyDensity::Even ==> x % 2 == 0,
        density != ArmyDensity::All,
    ensures
        column_layout(density, x, y, left).len() <= left,
        column_layout(density, x, y, left).len() == 0 || column_layout(density, x, y, left).len() + y <= NUM_ROWS,
        forall|i: int|
            0 <= i < column_layout(density, x, y, left).len() ==> {
                let a = #[trigger] column_layout(density, x, y, left)[i];
                &&& a.x == x
                &&& y <= a.y < y + 2 * left
                &&& a.y < NUM_ROWS
                &&& eligible(density, x, a.y as int)
            },
    decreases NUM_ROWS - y, 0int,
{
    let col = column_layout(density, x, y, left);
    assert(col == column_layout(density, x, y + 1, left));
    if y + 1 < NUM_ROWS {
        assert(eligible(density, x, y + 1));
        lemma_column_layout(density, x, y + 2, left - 1);
        let rest = column_layout(density, x, y + 2, left - 1);
        assert(col == seq![Alien { x: x as usize, y: (y + 1) as usize }] + rest);
        assert forall|i: int| 0 < i < col.len() implies col[i] == rest[i - 1] by {}
    }
}

/// Every alien of a new army lies in the columns `x .. NUM_COLS - 2` and
/// in a cell the density allows, in a row from 1 down to less than
/// `1 + 2 * rows`.
pub proof fn lemma_army_layout(density: ArmyDensity, rows: int, x: int)
    requires
        2 <= x,
    ensures
        army_layout(density, rows, x).len() <= NUM_ROWS * (if x < NUM_COLS - 2 { NUM_COLS - 2 - x } else { 0 }),
        forall|i: int|
            0 <= i < army_layout(density, rows, x).len() ==> {
                let a = #[trigger] army_layout(density, rows, x)[i];
                &&& x <= a.x < NUM_COLS - 2
                &&& 1 <= a.y < 1 + 2 * rows
                &&& a.y < NUM_ROWS
                &&& eligible(density, a.x as int, a.y as int)
            },
    decreases NUM_COLS - 2 - x,
{
    if x < NUM_COLS - 2 {
        lemma_column_layout(density, x, 1, rows);
        lemma_army_layout(density, rows, x + 1);
        let col = column_layout(density, x, 1, rows);
        let rest = army_layout(density, rows, x + 1);
        assert forall|i: int| 0 <= i < army_layout(density, rows, x).len() implies {
            let a = #[trigger] army_layout(density, rows, x)[i];
            &&& x <= a.x < NUM_COLS - 2
            &&& 1 <= a.y < 1 + 2 * rows
            &&& a.y < NUM_ROWS
            &&& eligible(density, a.x as int, a.y as int)
        } by {
            if i < col.len() {
                assert(army_layout(density, rows, x)[i] == col[i]);
            } else {
                assert(army_layout(density, rows, x)[i] == rest[i - col.len()]);
            }
        }
    }
}

/// Which rows, from row `y` down, column `x` of a new army holds when
/// `left` aliens may still go in: every row from `y` for the full density;
/// for the odd and even densities only a column of that parity, and in it
/// only the rows of that parity, from the first such row at or after `y`.
pub open spec fn column_holds(density: ArmyDensity, x: int, y: int, left: int, r: int) -> bool {
    &&& y <= r < NUM_ROWS
    &&& match density {
        ArmyDensity::All => r < y + left,
        ArmyDensity::Odd => x % 2 == 1 && r % 2 == 1 && r < y + (1 - y % 2) + 2 * left,
        ArmyDensity::Even => x % 2 == 0 && r % 2 == 0 && r < y + y % 2 + 2 * left,
    }
}

/// Column `x`, filled from row `y` down with at most `left` aliens, holds an
/// alien at exactly the rows `column_holds` gives, top to bottom.
pub proof fn lemma_column_exact(density: ArmyDensity, x: int, y: int, left: int)
    requires
        0 <= x < NUM_COLS,
        0 <= y,
    ensures
        forall|a: Alien|
            #[trigger] column_layout(density, x, y, left).contains(a) <==> a.x == x && column_holds(
                density,
                x,
                y,
                left,
                a.y as int,
            ),
        forall|i: int, j: int|
            0 <= i < j < column_layout(density, x, y, left).len() ==> (#[trigger] column_layout(density, x, y, left)[i]).y
                < (#[trigger] column_layout(density, x, y, left)[j]).y,
        forall|i: int|
            0 <= i < column_layout(density, x, y, left).len() ==> y <= (#[trigger] column_layout(density, x, y, left)[i]).y,
    decreases NUM_ROWS - y,
{
    let col = column_layout(density, x, y, left);
    if y >= NUM_ROWS || left <= 0 {
        assert forall|a: Alien| !column_holds(density, x, y, left, a.y as int) by {}
    } else if eligible(density, x, y) {
        lemma_column_exact(density, x, y + 1, left - 1);
        let rest = column_layout(density, x, y + 1, left - 1);
        let head = Alien { x: x as usize, y: y as usize };
        assert(col == seq![head] + rest);
        assert forall|a: Alien| #[trigger] col.contains(a) <==> a.x == x && column_holds(density, x, y, left, a.y as int) by {
            if col.contains(a) && a != head {
                let i = choose|i: int| 0 <= i < col.len() && col[i] == a;
                assert(rest[i - 1] == a);
                assert(rest.contains(a));
            }
            if rest.contains(a) {
                let i = choose|i: int| 0 <= i < rest.len() && rest[i] == a;
                assert(col[i + 1] == a);
            }
            if a == head {
                assert(col[0] == a);
            }
        }
        assert forall|i: int, j: int| 0 <= i < j < col.len() implies (#[trigger] col[i]).y < (#[trigger] col[j]).y by {
            assert(col[j] == rest[j - 1]);
            if i > 0 {
                assert(col[i] == rest[i - 1]);
            }
        }
        assert forall|i: int| 0 <= i < col.len() implies y <= (#[trigger] col[i]).y by {
            if i > 0 {
                assert(col[i] == rest[i - 1]);
            }
        }
    } else {
        lemma_column_exact(density, x, y + 1, left);
        assert(col == column_layout(density, x, y + 1, left));
        assert forall|a: Alien| #[trigger] col.contains(a) <==> a.x == x && column_holds(density, x, y, left, a.y as int) by {
            assert(column_holds(density, x, y, left, a.y as int) <==> column_holds(density, x, y + 1, left, a.y as int));
        }
    }
}

/// A new army holds an alien at `(x, y)` exactly when the column is one of
/// `2 .. NUM_COLS - 2` and the row is on the field and among the first
/// `rows` rows from row 1 down that the density allows: any row for the full
/// density, odd rows of odd columns for the odd density, even rows of even
/// columns for the even density. The aliens come column by column, top to
/// bottom within a column.
pub proof fn lemma_formation_exact(density: ArmyDensity, rows: int, x0: int)
    requires
        2 <= x0,
    ensures
        forall|a: Alien|
            #[trigger] army_layout(density, rows, x0).contains(a) <==> {
                &&& x0 <= a.x < NUM_COLS - 2
                &&& 1 <= a.y < NUM_ROWS
                &&& match density {
                    ArmyDensity::All => a.y <= rows,
                    ArmyDensity::Odd => a.x % 2 == 1 && a.y % 2 == 1 && a.y < 2 * rows,
                    ArmyDensity::Even => a.x % 2 == 0 && a.y % 2 == 0 && a.y <= 2 * rows,
                }
            },
        forall|i: int, j: int|
            0 <= i < j < army_layout(density, rows, x0).len() ==> {
                let a = #[trigger] army_layout(density, rows, x0)[i];
                let b = #[trigger] army_layout(density, rows, x0)[j];
                a.x < b.x || (a.x == b.x && a.y < b.y)
            },
        forall|i: int| 0 <= i < army_layout(density, rows, x0).len() ==> x0 <= (#[trigger] army_layout(density, rows, x0)[i]).x,
    decreases NUM_COLS - 2 - x0,
{
    let all = army_layout(density, rows, x0);
    if x0 < NUM_COLS - 2 {
        lemma_column_exact(density, x0, 1, rows);
        lemma_formation_exact(density, rows, x0 + 1);
        let col = column_layout(density, x0, 1, rows);
        let rest = army_layout(density, rows, x0 + 1);
        assert(all == col + rest);
        assert forall|a: Alien| #[trigger] all.contains(a) <==> {
            &&& x0 <= a.x < NUM_COLS - 2
            &&& 1 <= a.y < NUM_ROWS
            &&& match density {
                ArmyDensity::All => a.y <= rows,
                ArmyDensity::Odd => a.x % 2 == 1 && a.y % 2 == 1 && a.y < 2 * rows,
                ArmyDensity::Even => a.x % 2 == 0 && a.y % 2 == 0 && a.y <= 2 * rows,
            }
        } by {
            if all.contains(a) {
                let i = choose|i: int| 0 <= i < all.len() && all[i] == a;
                if i < col.len() {
                    assert(col[i] == a);
                    assert(col.contains(a));
                } else {
                    assert(rest[i - col.len()] == a);
                    assert(rest.contains(a));
                }
            }
            if a.x == x0 && col.contains(a) {
                let i = choose|i: int| 0 <= i < col.len() && col[i] == a;
                assert(all[i] == a);
            }
            if a.x > x0 && rest.contains(a) {
                let i = choose|i: int| 0 <= i < rest.len() && rest[i] == a;
                assert(all[col.len() + i] == a);
            }
        }
        assert forall|i: int, j: int| 0 <= i < j < all.len() implies {
            let a = #[trigger] all[i];
            let b = #[trigger] all[j];
            a.x < b.x || (a.x == b.x && a.y < b.y)
        } by {
            if j < col.len() {
                assert(all[i] == col[i] && all[j] == col[j]);
                assert(col.contains(col[i]) && col.contains(col[j]));
            } else if i < col.len() {
                assert(all[i] == col[i] && all[j] == rest[j - col.len()]);
                assert(col.contains(col[i]));
            } else {
                assert(all[i] == rest[i - col.len()] && all[j] == rest[j - col.len()]);
            }
        }
        assert forall|i: int| 0 <= i < all.len() implies x0 <= (#[trigger] all[i]).x by {
            if i < col.len() {
                assert(all[i] == col[i]);
                assert(col.contains(col[i]));
            } else {
                assert(all[i] == rest[i - col.len()]);
            }
        }
    }
}

// ---------------------------------------------------------------------------
// Marching

/// The army must turn and step down instead of marching on: no alien can go
/// further in the direction of march (an empty army always turns).
pub open spec fn must_turn(aliens: Seq<Alien>, dir: Direction) -> bool {
    match dir {
        Direction::Left => aliens.len() == 0 || exists|i: int| 0 <= i < aliens.len() && #[trigger] aliens[i].x == 0,
        Direction::Right => aliens.len() == 0 || exists|i: int|
            0 <= i < aliens.len() && #[trigger] aliens[i].x >= NUM_COLS - 1,
    }
}

/// The opposite direction.
pub open spec fn turned(dir: Direction) -> Direction {
    match dir {
        Direction::Left => Direction::Right,
        Direction::Right => Direction::Left,
    }
}

/// An alien after one march: a row down when the army turns, else one
/// column in the direction of march.
pub open spec fn alien_marched(a: Alien, down: bool, dir: Direction) -> Alien {
    if down {
        Alien { x: a.x, y: (a.y + 1) as usize }
    } else {
        match dir {
            Direction::Left => Alien { x: (a.x - 1) as usize, y: a.y },
            Direction::Right => Alien { x: (a.x + 1) as usize, y: a.y },
        }
    }
}

/// The march period after the army turned.
pub open spec fn quickened_move_rate(rate: u64) -> u64 {
    if rate - MOVE_RATE_STEP_MS >= MIN_MOVE_RATE_MS { (rate - MOVE_RATE_STEP_MS) as u64 } else { MIN_MOVE_RATE_MS }
}

/// The firing period after a shot.
pub open spec fn quickened_fire_rate(rate: u64) -> u64 {
    if rate - FIRE_RATE_STEP_MS >= MIN_FIRE_RATE_MS { (rate - FIRE_RATE_STEP_MS) as u64 } else { MIN_FIRE_RATE_MS }
}

/// The army marches in this update.
pub open spec fn marches(pre: Army, delta_ns: u64) -> bool {
    timer_after(pre.move_timer, delta_ns).ready
}

/// The army turns and steps down in this update.
pub open spec fn turns(pre: Army, delta_ns: u64) -> bool {
    marches(pre, delta_ns) && must_turn(pre.aliens@, pre.direction)
}

/// The aliens after the march phase of an update.
pub open spec fn aliens_after(pre: Army, delta_ns: u64) -> Seq<Alien> {
    if marches(pre, delta_ns) {
        pre.aliens@.map_values(|a: Alien| alien_marched(a, turns(pre, delta_ns), pre.direction))
    } else {
        pre.aliens@
    }
}

/// An alien fires in this update.
pub open spec fn fires(pre: Army, delta_ns: u64) -> bool {
    timer_after(pre.fire_timer, delta_ns).ready && pre.aliens@.len() > 0
}

/// The sounds an update asks for: the march, then a shot.
pub open spec fn step_sounds(pre: Army, delta_ns: u64) -> Seq<Sound> {
    (if marches(pre, delta_ns) { seq![Sound::Move] } else { Seq::empty() })
        + (if fires(pre, delta_ns) { seq![Sound::Pew(1)] } else { Seq::empty() })
}

/// `post` is `pre` after the march phase of an update of `delta_ns`
/// nanoseconds; the firing timer, period and bullets are untouched.
pub open spec fn army_marched(pre: Army, post: Army, delta_ns: u64) -> bool {
    let mt = timer_after(pre.move_timer, delta_ns);
    let down = turns(pre, delta_ns);
    &&& post.aliens@ == aliens_after(pre, delta_ns)
    &&& post.direction == (if down { turned(pre.direction) } else { pre.direction })
    &&& post.move_rate == (if down { quickened_move_rate(pre.move_rate) } else { pre.move_rate })
    &&& post.move_timer == (if !marches(pre, delta_ns) {
        mt
    } else if down {
        fresh_timer(post.move_rate)
    } else {
        timer_reset(mt)
    })
    &&& post.fire_rate == pre.fire_rate
    &&& post.fire_timer == pre.fire_timer
    &&& post.bullets@ == pre.bullets@
}

/// `post` is `pre` after an update of `delta_ns` nanoseconds in which, if an
/// alien fires, it is the one at index `shooter`.
pub open spec fn army_stepped(pre: Army, post: Army, delta_ns: u64, shooter: int) -> bool {
    let mt = timer_after(pre.move_timer, delta_ns);
    let ft = timer_after(pre.fire_timer, delta_ns);
    let down = turns(pre, delta_ns);
    let moved = aliens_after(pre, delta_ns);
    &&& post.aliens@ == moved
    &&& post.direction == (if down { turned(pre.direction) } else { pre.direction })
    &&& post.move_rate == (if down { quickened_move_rate(pre.move_rate) } else { pre.move_rate })
    &&& post.move_timer == (if !marches(pre, delta_ns) {
        mt
    } else if down {
        fresh_timer(post.move_rate)
    } else {
        timer_reset(mt)
    })
    &&& post.fire_rate == (if fires(pre, delta_ns) { quickened_fire_rate(pre.fire_rate) } else { pre.fire_rate })
    &&& post.fire_timer == (if fires(pre, delta_ns) { fresh_timer(post.fire_rate) } else { ft })
    &&& post.bullets@ == bullets_after(
        pre.bullets@ + (if fires(pre, delta_ns) { seq![fired_from(moved[shooter])] } else { Seq::empty() }),
        delta_ns,
    )
}

/// What every army keeps of its own state, whatever its aliens: its periods
/// within bounds, and only its own falling bullets above the bottom row.
pub open spec fn army_core_wf(army: Army) -> bool {
    &&& MIN_MOVE_RATE_MS <= army.move_rate <= START_RATE_MS
    &&& MIN_FIRE_RATE_MS <= army.fire_rate <= START_RATE_MS
    &&& forall|i: int| 0 <= i < army.bullets@.len() ==> bullet_wf(#[trigger] army.bullets@[i])
}

/// What an army keeps while its aliens are in the field's columns: besides
/// its own state, its aliens and bullets stay in those columns.
pub open spec fn army_wf(army: Army) -> bool {
    &&& army_core_wf(army)
    &&& forall|i: int| 0 <= i < army.aliens@.len() ==> (#[trigger] army.aliens@[i]).x < NUM_COLS
    &&& forall|i: int| 0 <= i < army.bullets@.len() ==> (#[trigger] army.bullets@[i]).x < NUM_COLS
}

/// A bullet of the army: falling, above the bottom row.
pub open spec fn bullet_wf(b: Bullet) -> bool {
    &&& b.owner == Owner::Aliens
    &&& b.alive
    &&& b.y < NUM_ROWS - 1
}

/// No alien is so low that marching down and firing would leave `usize`.
pub open spec fn aliens_fit(aliens: Seq<Alien>) -> bool {
    forall|i: int| 0 <= i < aliens.len() ==> (#[trigger] aliens[i]).y + 3 <= usize::MAX
}

/// The first alien at `(x, y)` has index `k`.
pub open spec fn first_at(aliens: Seq<Alien>, x: int, y: int, k: int) -> bool {
    &&& 0 <= k < aliens.len()
    &&& aliens[k].x == x && aliens[k].y == y
    &&& forall|j: int| 0 <= j < k ==> !(aliens[j].x == x && aliens[j].y == y)
}

/// Some alien is at `(x, y)`.
pub open spec fn alien_at(aliens: Seq<Alien>, x: int, y: int) -> bool {
    exists|i: int| 0 <= i < aliens.len() && (#[trigger] aliens[i]).x == x && aliens[i].y == y
}

/// The aliens after a shot at `(x, y)`: the first alien there, if any, removed.
pub open spec fn shot_at(aliens: Seq<Alien>, x: int, y: int) -> Seq<Alien> {
    if alien_at(aliens, x, y) {
        aliens.remove(choose|k: int| first_at(aliens, x, y, k))
    } else {
        aliens
    }
}

/// When some alien is at `(x, y)`, there is a first one.
pub proof fn lemma_first_at_exists(aliens: Seq<Alien>, x: int, y: int)
    requires
        alien_at(aliens, x, y),
    ensures
        exists|k: int| first_at(aliens, x, y, k),
    decreases aliens.len(),
{
    let rest = aliens.drop_last();
    if alien_at(rest, x, y) {
        lemma_first_at_exists(rest, x, y);
        let k = choose|k: int| first_at(rest, x, y, k);
        assert forall|j: int| 0 <= j < k implies !(aliens[j].x == x && aliens[j].y == y) by {
            assert(rest[j] == aliens[j]);
        }
        assert(first_at(aliens, x, y, k));
    } else {
        let n = aliens.len() - 1;
        let i = choose|i: int| 0 <= i < aliens.len() && (#[trigger] aliens[i]).x == x && aliens[i].y == y;
        if i < n {
            assert(rest[i] == aliens[i]);
        }
        assert forall|j: int| 0 <= j < n implies !(aliens[j].x == x && aliens[j].y == y) by {
            assert(rest[j] == aliens[j]);
        }
        assert(first_at(aliens, x, y, n));
    }
}

/// A shot at `(x, y)` takes off one alien when one is there, none otherwise.
pub proof fn lemma_shot_at_len(aliens: Seq<Alien>, x: int, y: int)
    ensures
        shot_at(aliens, x, y).len() == if alien_at(aliens, x, y) { aliens.len() - 1 } else { aliens.len() as int },
{
    if alien_at(aliens, x, y) {
        lemma_first_at_exists(aliens, x, y);
    }
}

/// An update moves the whole army alike: no alien is lost or gained, and
/// every alien keeps its place relative to every other.
pub proof fn lemma_formation_kept(pre: Army, post: Army, delta_ns: u64, shooter: int)
    requires
        army_stepped(pre, post, delta_ns, shooter),
        aliens_fit(pre.aliens@),
    ensures
        post.aliens@.len() == pre.aliens@.len(),
        forall|i: int, j: int|
            0 <= i < pre.aliens@.len() && 0 <= j < pre.aliens@.len() ==> post.aliens@[i].x - post.aliens@[j].x
                == pre.aliens@[i].x - pre.aliens@[j].x && post.aliens@[i].y - post.aliens@[j].y == pre.aliens@[i].y
                - pre.aliens@[j].y,
{
    let n = pre.aliens@.len();
    if marches(pre, delta_ns) && !turns(pre, delta_ns) {
        match pre.direction {
            Direction::Left => {
                assert forall|i: int| 0 <= i < n implies (#[trigger] pre.aliens@[i]).x >= 1 by {
                    if pre.aliens@[i].x == 0 {
                        assert(must_turn(pre.aliens@, pre.direction));
                    }
                }
            },
            Direction::Right => {
                assert forall|i: int| 0 <= i < n implies (#[trigger] pre.aliens@[i]).x < NUM_COLS - 1 by {
                    if pre.aliens@[i].x >= NUM_COLS - 1 {
                        assert(must_turn(pre.aliens@, pre.direction));
                    }
                }
            },
        }
    }
}

/// The army only ever speeds up: an update never lengthens the march or
/// firing period, and never takes them below their least values.
pub proof fn lemma_periods_shrink(pre: Army, post: Army, delta_ns: u64, shooter: int)
    requires
        army_stepped(pre, post, delta_ns, shooter),
        army_core_wf(pre),
    ensures
        MIN_MOVE_RATE_MS <= post.move_rate <= pre.move_rate,
        MIN_FIRE_RATE_MS <= post.fire_rate <= pre.fire_rate,
{
}

/// A shot at `(x, y)` hits exactly when some alien stands at that very
/// column and row; it then takes off the first such alien and keeps the
/// others in order, and otherwise leaves the aliens as they are.
pub proof fn lemma_shot_at_exact(aliens: Seq<Alien>, x: int, y: int)
    ensures
        alien_at(aliens, x, y) <==> exists|i: int|
            0 <= i < aliens.len() && (#[trigger] aliens[i]).x as int == x && aliens[i].y as int == y,
        (forall|i: int| 0 <= i < aliens.len() ==> !((#[trigger] aliens[i]).x as int == x && aliens[i].y as int == y))
            ==> shot_at(aliens, x, y) == aliens,
        alien_at(aliens, x, y) ==> exists|k: int|
            0 <= k < aliens.len() && (#[trigger] aliens[k]).x as int == x && aliens[k].y as int == y && (forall|j: int|
                0 <= j < k ==> !((#[trigger] aliens[j]).x as int == x && aliens[j].y as int == y)) && shot_at(aliens, x, y)
                == aliens.remove(k),
{
    if alien_at(aliens, x, y) {
        lemma_first_at_exists(aliens, x, y);
        let k = choose|k: int| first_at(aliens, x, y, k);
        assert(shot_at(aliens, x, y) == aliens.remove(k));
    }
}

/// How an alien is drawn: `x` during the first half of the march period
/// that is left, `+` after.
pub open spec fn alien_glyph(army: Army) -> char {
    if 2 * (army.move_timer.time_left_ns / NANOS_PER_MILLI) >= army.move_rate { 'x' } else { '+' }
}

/// The marks an army leaves on the field: its aliens, then its bullets.
pub open spec fn army_marks(army: Army) -> Seq<(int, int, char)> {
    army.aliens@.map_values(|a: Alien| (a.x as int, a.y as int, alien_glyph(army)))
        + army.bullets@.map_values(|b: Bullet| (b.x as int, b.y as int, bullet_mark(b)))
}

/// The largest column of an alien, or the last column when there is none.
fn max_x(aliens: &Vec<Alien>) -> (m: usize)
    ensures
        aliens@.len() == 0 ==> m == NUM_COLS - 1,
        aliens@.len() > 0 ==> exists|i: int| 0 <= i < aliens@.len() && aliens@[i].x == m,
        forall|i: int| 0 <= i < aliens@.len() ==> aliens@[i].x <= m,
{
    if aliens.len() == 0 {
        return NUM_COLS - 1;
    }
    let mut m: usize = aliens[0].x;
    let mut i: usize = 1;
    while i < aliens.len()
        invariant
            1 <= i <= aliens@.len(),
            exists|k: int| 0 <= k < i && aliens@[k].x == m,
            forall|k: int| 0 <= k < i ==> aliens@[k].x <= m,
        decreases aliens@.len() - i,
    {
        if aliens[i].x > m {
            m = aliens[i].x;
        }
        i = i + 1;
    }
    m
}

/// The smallest column of an alien, or 0 when there is none.
fn min_x(aliens: &Vec<Alien>) -> (m: usize)
    ensures
        aliens@.len() == 0 ==> m == 0,
        aliens@.len() > 0 ==> exists|i: int| 0 <= i < aliens@.len() && aliens@[i].x == m,
        forall|i: int| 0 <= i < aliens@.len() ==> m <= aliens@[i].x,
{
    if aliens.len() == 0 {
        return 0;
    }
    let mut m: usize = aliens[0].x;
    let mut i: usize = 1;
    while i < aliens.len()
        invariant
            1 <= i <= aliens@.len(),
            exists|k: int| 0 <= k < i && aliens@[k].x == m,
            forall|k: int| 0 <= k < i ==> m <= aliens@[k].x,
        decreases aliens@.len() - i,
    {
        if aliens[i].x < m {
            m = aliens[i].x;
        }
        i = i + 1;
    }
    m
}

/// The lowest row of an alien, or 0 when there is none.
fn max_y(aliens: &Vec<Alien>) -> (m: usize)
    ensures
        aliens@.len() == 0 ==> m == 0,
        aliens@.len() > 0 ==> exists|i: int| 0 <= i < aliens@.len() && aliens@[i].y == m,
        forall|i: int| 0 <= i < aliens@.len() ==> aliens@[i].y <= m,
{
    if aliens.len() == 0 {
        return 0;
    }
    let mut m: usize = aliens[0].y;
    let mut i: usize = 1;
    while i < aliens.len()
        invariant
            1 <= i <= aliens@.len(),
            exists|k: int| 0 <= k < i && aliens@[k].y == m,
            forall|k: int| 0 <= k < i ==> aliens@[k].y <= m,
        decreases aliens@.len() - i,
    {
        if aliens[i].y > m {
            m = aliens[i].y;
        }
        i = i + 1;
    }
    m
}

impl Army {
    /// A new army: per column `2 .. NUM_COLS - 2`, the first `rows` cells
    /// from row 1 down that `density` allows; marching right, with no
    /// bullets and both periods at their start value.
    pub fn new(density: ArmyDensity, rows: usize) -> (army: Self)
        ensures
            army.aliens@ == army_layout(density, rows as int, 2),
            forall|a: Alien|
                #[trigger] army.aliens@.contains(a) <==> {
                    &&& 2 <= a.x < NUM_COLS - 2
                    &&& 1 <= a.y < NUM_ROWS
                    &&& match density {
                        ArmyDensity::All => a.y <= rows,
                        ArmyDensity::Odd => a.x % 2 == 1 && a.y % 2 == 1 && a.y < 2 * rows,
                        ArmyDensity::Even => a.x % 2 == 0 && a.y % 2 == 0 && a.y <= 2 * rows,
                    }
                },
            forall|i: int, j: int|
                0 <= i < j < army.aliens@.len() ==> (#[trigger] army.aliens@[i]).x < (#[trigger] army.aliens@[j]).x || (
                army.aliens@[i].x == army.aliens@[j].x && army.aliens@[i].y < army.aliens@[j].y),
            army.bullets@.len() == 0,
            army.move_rate == START_RATE_MS,
            army.fire_rate == START_RATE_MS,
            army.move_timer == fresh_timer(START_RATE_MS),
            army.fire_timer == fresh_timer(START_RATE_MS),
            army.direction == Direction::Right,
            army_wf(army),
    {
        let mut aliens: Vec<Alien> = Vec::new();
        let mut x: usize = 2;
        while x < NUM_COLS - 2
            invariant
                2 <= x <= NUM_COLS - 2,
                aliens@ + army_layout(density, rows as int, x as int) == army_layout(density, rows as int, 2),
                forall|i: int| 0 <= i < aliens@.len() ==> (#[trigger] aliens@[i]).x < NUM_COLS,
            decreases NUM_COLS - 2 - x,
        {
            let ghost outer = aliens@;
            let mut left: usize = rows;
            let mut y: usize = 1;
            assert(army_layout(density, rows as int, x as int) == column_layout(density, x as int, 1, rows as int)
                + army_layout(density, rows as int, x + 1));
            while y < NUM_ROWS
                invariant
                    2 <= x < NUM_COLS - 2,
                    1 <= y <= NUM_ROWS,
                    left <= rows,
                    aliens@ + column_layout(density, x as int, y as int, left as int)
                        == outer + column_layout(density, x as int, 1, rows as int),
                    forall|i: int| 0 <= i < aliens@.len() ==> (#[trigger] aliens@[i]).x < NUM_COLS,
                ensures
                    column_layout(density, x as int, y as int, left as int) == Seq::<Alien>::empty(),
                decreases NUM_ROWS - y,
            {
                if left == 0 {
                    break;
                }
                let ghost before = aliens@;
                match density {
                    ArmyDensity::All => {
                        if left > 0 {
                            aliens.push(Alien::new(x, y));
                            left = left - 1;
                        }
                    },
                    ArmyDensity::Odd => {
                        if (left > 0) && (y % 2 == 1) && (x % 2 == 1) {
                            aliens.push(Alien::new(x, y));
                            left = left - 1;
                        }
                    },
                    ArmyDensity::Even => {
                        if (left > 0) && (y % 2 == 0) && (x % 2 == 0) {
                            aliens.push(Alien::new(x, y));
                            left = left - 1;
                        }
                    },
                }
                proof {
                    if eligible(density, x as int, y as int) {
                        assert(aliens@ == before.push(Alien { x, y }));
                        assert(before + column_layout(density, x as int, y as int, left + 1) =~= aliens@
                            + column_layout(density, x as int, y + 1, left as int));
                    } else {
                        assert(aliens@ == before);
                    }
                }
                y = y + 1;
            }
            assert(aliens@ =~= outer + column_layout(density, x as int, 1, rows as int));
            assert(aliens@ + army_layout(density, rows as int, x + 1) =~= outer + army_layout(
                density,
                rows as int,
                x as int,
            ));
            x = x + 1;
        }
        assert(aliens@ =~= army_layout(density, rows as int, 2));
        proof {
            lemma_formation_exact(density, rows as int, 2);
        }
        Self {
            aliens,
            bullets: Vec::new(),
            move_timer: Timer::from_millis(START_RATE_MS),
            move_rate: START_RATE_MS,
            fire_timer: Timer::from_millis(START_RATE_MS),
            fire_rate: START_RATE_MS,
            direction: Direction::Right,
        }
    }
}

impl Army {
    /// The march phase of an update.
    fn march(&mut self, delta_ns: u64, sounds: &mut Vec<Sound>)
        requires
            army_core_wf(*old(self)),
            aliens_fit(old(self).aliens@),
        ensures
            army_marched(*old(self), *final(self), delta_ns),
            final(sounds)@ == old(sounds)@ + (if marches(*old(self), delta_ns) {
                seq![Sound::Move]
            } else {
                Seq::empty()
            }),
    {
        let ghost pre = *self;
        self.move_timer.update(delta_ns);
        if self.move_timer.ready {
            self.move_timer.reset();
            sounds.push(Sound::Move);
            let mut down = false;
            match self.direction {
                Direction::Left => {
                    let min = min_x(&self.aliens);
                    if min <= 0 {
                        self.direction = Direction::Right;
                        down = true;
                    }
                },
                Direction::Right => {
                    let max = max_x(&self.aliens);
                    if max >= NUM_COLS - 1 {
                        self.direction = Direction::Left;
                        down = true;
                    }
                },
            }
            assert(down == must_turn(pre.aliens@, pre.direction));
            if down {
                self.move_rate = if self.move_rate - MOVE_RATE_STEP_MS >= MIN_MOVE_RATE_MS {
                    self.move_rate - MOVE_RATE_STEP_MS
                } else {
                    MIN_MOVE_RATE_MS
                };
                self.move_timer = Timer::from_millis(self.move_rate);
            }
            let ghost dir = pre.direction;
            let ghost marched_dir = self.direction;
            let ghost marched_rate = self.move_rate;
            let ghost marched_timer = self.move_timer;
            let mut i: usize = 0;
            while i < self.aliens.len()
                invariant
                    i <= self.aliens@.len(),
                    self.aliens@.len() == pre.aliens@.len(),
                    aliens_fit(pre.aliens@),
                    !down && dir == Direction::Left ==> forall|k: int|
                        0 <= k < pre.aliens@.len() ==> (#[trigger] pre.aliens@[k]).x >= 1,
                    !down && dir == Direction::Right ==> forall|k: int|
                        0 <= k < pre.aliens@.len() ==> (#[trigger] pre.aliens@[k]).x < NUM_COLS - 1,
                    !down ==> self.direction == dir,
                    self.direction == marched_dir,
                    self.move_rate == marched_rate,
                    self.move_timer == marched_timer,
                    self.fire_rate == pre.fire_rate,
                    self.fire_timer == pre.fire_timer,
                    self.bullets@ == pre.bullets@,
                    forall|k: int| 0 <= k < i ==> self.aliens@[k] == alien_marched(#[trigger] pre.aliens@[k], down, dir),
                    forall|k: int| i <= k < self.aliens@.len() ==> self.aliens@[k] == #[trigger] pre.aliens@[k],
                decreases self.aliens@.len() - i,
            {
                let a = self.aliens[i];
                assert(a == pre.aliens@[i as int]);
                let moved = if down {
                    Alien { x: a.x, y: a.y + 1 }
                } else {
                    match self.direction {
                        Direction::Left => Alien { x: a.x - 1, y: a.y },
                        Direction::Right => Alien { x: a.x + 1, y: a.y },
                    }
                };
                self.aliens.set(i, moved);
                i = i + 1;
            }
            assert(self.aliens@ =~= aliens_after(pre, delta_ns));
        }
    }

    /// One update of `delta_ns` nanoseconds, in which the alien at index
    /// `shooter` is the one that fires, if one does.
    ///
    /// When the march timer is ready the army marches: a column in its
    /// direction, or, when no alien can go further that way, a row down,
    /// turning round and marching quicker from then on. When the firing timer
    /// is ready and aliens are left, one fires and the army fires quicker
    /// from then on. Then every bullet moves, and those that are done are
    /// taken off.
    pub fn update_with_shooter(&mut self, delta_ns: u64, shooter: usize, sounds: &mut Vec<Sound>)
        requires
            army_core_wf(*old(self)),
            aliens_fit(old(self).aliens@),
            old(self).aliens@.len() > 0 ==> shooter < old(self).aliens@.len(),
        ensures
            army_stepped(*old(self), *final(self), delta_ns, shooter as int),
            army_core_wf(*final(self)),
            army_wf(*old(self)) ==> army_wf(*final(self)),
            final(sounds)@ == old(sounds)@ + step_sounds(*old(self), delta_ns),
    {
        let ghost pre = *self;
        let ghost sounds_before = sounds@;
        self.march(delta_ns, sounds);
        let ghost moved = self.aliens@;
        proof {
            assert forall|k: int| 0 <= k < moved.len() implies (army_wf(pre) ==> (#[trigger] moved[k]).x < NUM_COLS)
                && moved[k].y + 2 <= usize::MAX by {
                assert(pre.aliens@[k].y + 3 <= usize::MAX);
                if marches(pre, delta_ns) {
                    if !turns(pre, delta_ns) {
                        if pre.direction == Direction::Right {
                            assert(pre.aliens@[k].x < NUM_COLS - 1);
                        }
                    }
                }
            }
        }
        self.fire_timer.update(delta_ns);
        if self.fire_timer.ready && self.aliens.len() > 0 {
            self.fire_rate = if self.fire_rate - FIRE_RATE_STEP_MS >= MIN_FIRE_RATE_MS {
                self.fire_rate - FIRE_RATE_STEP_MS
            } else {
                MIN_FIRE_RATE_MS
            };
            self.fire_timer = Timer::from_millis(self.fire_rate);
            let new_bullet = self.aliens[shooter].fire();
            self.bullets.push(new_bullet);
            sounds.push(Sound::Pew(1));
        }
        let ghost all = self.bullets@;
        proof {
            if fires(pre, delta_ns) {
                assert(all =~= pre.bullets@ + seq![fired_from(moved[shooter as int])]);
            } else {
                assert(all =~= pre.bullets@ + Seq::<Bullet>::empty());
            }
            assert forall|k: int| 0 <= k < all.len() implies {
                &&& can_advance(#[trigger] all[k], delta_ns)
                &&& all[k].owner == Owner::Aliens
                &&& all[k].alive
                &&& army_wf(pre) ==> all[k].x < NUM_COLS
            } by {
                if k < pre.bullets@.len() {
                    assert(bullet_wf(pre.bullets@[k]));
                }
            }
        }
        self.bullets = advance_all(&self.bullets, delta_ns);
        proof {
            assert forall|k: int| 0 <= k < self.bullets@.len() implies bullet_wf(#[trigger] self.bullets@[k]) && (army_wf(
                pre,
            ) ==> self.bullets@[k].x < NUM_COLS) by {
                lemma_kept_bullet(all, delta_ns, k);
                let j = choose|j: int| 0 <= j < all.len() && self.bullets@[k] == bullet_after(#[trigger] all[j], delta_ns);
                assert(all[j].owner == Owner::Aliens);
            }
            assert(sounds@ =~= sounds_before + step_sounds(pre, delta_ns));
        }
    }
}

impl Army {
    /// One update of `delta_ns` nanoseconds; the alien that fires, if one
    /// does, is drawn at random.
    pub fn update(&mut self, delta_ns: u64, sounds: &mut Vec<Sound>, rng: &mut ThreadRng)
        requires
            army_core_wf(*old(self)),
            aliens_fit(old(self).aliens@),
        ensures
            exists|shooter: int|
                (old(self).aliens@.len() == 0 || 0 <= shooter < old(self).aliens@.len()) && army_stepped(
                    *old(self),
                    *final(self),
                    delta_ns,
                    shooter,
                ),
            army_core_wf(*final(self)),
            army_wf(*old(self)) ==> army_wf(*final(self)),
            final(sounds)@ == old(sounds)@ + step_sounds(*old(self), delta_ns),
    {
        let mut probe = self.fire_timer;
        probe.update(delta_ns);
        let shooter = if probe.ready && self.aliens.len() > 0 {
            random_below(rng, 0, self.aliens.len())
        } else {
            0
        };
        self.update_with_shooter(delta_ns, shooter, sounds);
    }

    /// Whether no alien is left.
    pub fn all_dead(&self) -> (r: bool)
        ensures
            r == (self.aliens@.len() == 0),
    {
        self.aliens.len() == 0
    }

    /// Whether some alien has come down to the player's row or below.
    pub fn reach_bottom(&self) -> (r: bool)
        ensures
            r == exists|i: int| 0 <= i < self.aliens@.len() && (#[trigger] self.aliens@[i]).y >= NUM_ROWS - 2,
    {
        max_y(&self.aliens) >= NUM_ROWS - 2
    }

    /// Shoots at `(x, y)`: the first alien there, if any, is removed, and
    /// whether there was one is returned.
    pub fn can_kill_alien(&mut self, x: usize, y: usize) -> (killed: bool)
        ensures
            killed == alien_at(old(self).aliens@, x as int, y as int),
            final(self).aliens@ == shot_at(old(self).aliens@, x as int, y as int),
            killed ==> exists|k: int|
                first_at(old(self).aliens@, x as int, y as int, k) && final(self).aliens@ == old(self).aliens@.remove(k),
            !killed ==> final(self).aliens@ == old(self).aliens@,
            killed <==> exists|i: int|
                0 <= i < old(self).aliens@.len() && (#[trigger] old(self).aliens@[i]).x == x && old(self).aliens@[i].y == y,
            killed ==> exists|k: int|
                0 <= k < old(self).aliens@.len() && (#[trigger] old(self).aliens@[k]).x == x && old(self).aliens@[k].y == y
                    && (forall|j: int|
                    0 <= j < k ==> !((#[trigger] old(self).aliens@[j]).x == x && old(self).aliens@[j].y == y))
                    && final(self).aliens@ == old(self).aliens@.remove(k),
            final(self).bullets@ == old(self).bullets@,
            final(self).move_timer == old(self).move_timer,
            final(self).move_rate == old(self).move_rate,
            final(self).fire_timer == old(self).fire_timer,
            final(self).fire_rate == old(self).fire_rate,
            final(self).direction == old(self).direction,
    {
        let ghost pre = self.aliens@;
        let ghost army = *self;
        let mut i: usize = 0;
        while i < self.aliens.len()
            invariant
                self.aliens@ == pre,
                pre == old(self).aliens@,
                army == *old(self),
                self.bullets@ == army.bullets@,
                self.move_timer == army.move_timer,
                self.move_rate == army.move_rate,
                self.fire_timer == army.fire_timer,
                self.fire_rate == army.fire_rate,
                self.direction == army.direction,
                i <= pre.len(),
                forall|j: int| 0 <= j < i ==> !((#[trigger] pre[j]).x == x && pre[j].y == y),
            decreases pre.len() - i,
        {
            if self.aliens[i].x == x && self.aliens[i].y == y {
                proof {
                    assert(pre[i as int].x == x && pre[i as int].y == y);
                    assert(first_at(pre, x as int, y as int, i as int));
                    let k = choose|k: int| first_at(pre, x as int, y as int, k);
                    if k < i {
                        assert(!(pre[k].x == x && pre[k].y == y));
                    }
                    if i < k {
                        assert(!(pre[i as int].x == x && pre[i as int].y == y));
                    }
                }
                self.aliens.remove(i);
                return true;
            }
            i = i + 1;
        }
        false
    }

    /// Whether one of the army's bullets is at `(x, y)`.
    pub fn is_colliding_with_bullet(&self, x: usize, y: usize) -> (r: bool)
        ensures
            r == exists|i: int|
                0 <= i < self.bullets@.len() && (#[trigger] self.bullets@[i]).x == x && self.bullets@[i].y == y,
    {
        let mut i: usize = 0;
        while i < self.bullets.len()
            invariant
                i <= self.bullets@.len(),
                forall|j: int| 0 <= j < i ==> !((#[trigger] self.bullets@[j]).x == x && self.bullets@[j].y == y),
            decreases self.bullets@.len() - i,
        {
            if self.bullets[i].x == x && self.bullets[i].y == y {
                return true;
            }
            i = i + 1;
        }
        false
    }
}

impl Army {
    /// Draws the aliens, then the bullets, on the field. An alien shows as
    /// `x` while at least half of the march period is left, else as `+`.
    pub fn draw(&self, frame: &mut Frame)
        requires
            frame_shape(grid(old(frame))),
            marks_on_field(army_marks(*self)),
        ensures
            grid(final(frame)) == paint(grid(old(frame)), army_marks(*self)),
            frame_shape(grid(final(frame))),
    {
        let ghost start = grid(frame);
        let ghost marks = army_marks(*self);
        // The millisecond count of what is left, over the march period, is at
        // least one half exactly when twice that count reaches the period.
        let glyph = if (self.move_timer.time_left_ns / NANOS_PER_MILLI) * 2 >= self.move_rate {
            'x'
        } else {
            '+'
        };
        assert(glyph == alien_glyph(*self));
        let n = self.aliens.len();
        let mut i: usize = 0;
        while i < n
            invariant
                n == self.aliens@.len(),
                i <= n,
                marks == army_marks(*self),
                marks_on_field(marks),
                glyph == alien_glyph(*self),
                frame_shape(grid(frame)),
                grid(frame) == paint(start, marks.take(i as int)),
            decreases n - i,
        {
            let a = self.aliens[i];
            proof {
                assert(marks[i as int] == (a.x as int, a.y as int, glyph));
                assert(on_field(marks[i as int].0, marks[i as int].1));
                assert(marks.take(i + 1).drop_last() =~= marks.take(i as int));
            }
            put(frame, a.x, a.y, glyph);
            i = i + 1;
        }
        let m = self.bullets.len();
        let mut j: usize = 0;
        while j < m
            invariant
                n == self.aliens@.len(),
                m == self.bullets@.len(),
                j <= m,
                marks == army_marks(*self),
                marks.len() == n + m,
                marks_on_field(marks),
                frame_shape(grid(frame)),
                grid(frame) == paint(start, marks.take(n + j)),
            decreases m - j,
        {
            let b = self.bullets[j];
            proof {
                assert(marks[n + j] == (b.x as int, b.y as int, bullet_mark(b)));
                assert(on_field(marks[n + j].0, marks[n + j].1));
                assert(marks.take(n + j + 1).drop_last() =~= marks.take(n + j));
            }
            b.draw(frame);
            j = j + 1;
        }
        assert(marks.take(n + m) =~= marks);
    }
}

} // verus!
