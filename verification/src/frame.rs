use vstd::prelude::*;

verus! {

/// Number of rows of the playing field.
pub const NUM_ROWS: usize = 20;

/// Number of columns of the playing field.
pub const NUM_COLS: usize = 40;

/// The playing field as columns of cells: `frame[x][y]` is the cell in
/// column `x` and row `y`.
pub type Frame = Vec<Vec<char>>;

/// The frame's cells: `grid(frame)[x][y]` is the cell in column `x`, row `y`.
pub open spec fn grid(frame: &Frame) -> Seq<Seq<char>> {
    frame@.map_values(|col: Vec<char>| col@)
}

/// The cell value of an empty position.
pub const BLANK: char = ' ';

/// The frame has `NUM_COLS` columns of `NUM_ROWS` cells each.
pub open spec fn frame_shape(frame: Seq<Seq<char>>) -> bool {
    &&& frame.len() == NUM_COLS
    &&& forall|x: int| 0 <= x < NUM_COLS ==> (#[trigger] frame[x]).len() == NUM_ROWS
}

/// The position `(x, y)` lies on the playing field.
pub open spec fn on_field(x: int, y: int) -> bool {
    0 <= x < NUM_COLS && 0 <= y < NUM_ROWS
}

/// The frame after the cell at `(x, y)` has been set to `c`.
pub open spec fn frame_set(frame: Seq<Seq<char>>, x: int, y: int, c: char) -> Seq<Seq<char>> {
    frame.update(x, frame[x].update(y, c))
}

/// The grid after each mark `(x, y, c)` of `marks` has been set, in order.
pub open spec fn paint(g: Seq<Seq<char>>, marks: Seq<(int, int, char)>) -> Seq<Seq<char>>
    decreases marks.len(),
{
    if marks.len() == 0 {
        g
    } else {
        let m = marks.last();
        frame_set(paint(g, marks.drop_last()), m.0, m.1, m.2)
    }
}

/// Every mark lies on the playing field.
pub open spec fn marks_on_field(marks: Seq<(int, int, char)>) -> bool {
    forall|i: int| 0 <= i < marks.len() ==> on_field((#[trigger] marks[i]).0, marks[i].1)
}

/// The cell at `(x, y)`.
pub open spec fn cell(frame: Seq<Seq<char>>, x: int, y: int) -> char {
    frame[x][y]
}

/// The empty playing field.
pub open spec fn blank_grid() -> Seq<Seq<char>> {
    Seq::new(NUM_COLS as nat, |x: int| Seq::new(NUM_ROWS as nat, |y: int| BLANK))
}

/// Painting marks one after the other is painting them all at once.
pub proof fn lemma_paint_append(g: Seq<Seq<char>>, a: Seq<(int, int, char)>, b: Seq<(int, int, char)>)
    ensures
        paint(g, a + b) == paint(paint(g, a), b),
    decreases b.len(),
{
    if b.len() == 0 {
        assert(a + b =~= a);
    } else {
        assert((a + b).drop_last() =~= a + b.drop_last());
        assert((a + b).last() == b.last());
        lemma_paint_append(g, a, b.drop_last());
    }
}

/// A new, empty playing field.
pub fn new_frame() -> (frame: Frame)
    ensures
        grid(&frame) == blank_grid(),
        frame_shape(grid(&frame)),
        forall|x: int, y: int| on_field(x, y) ==> #[trigger] cell(grid(&frame), x, y) == BLANK,
{
    let mut cols: Vec<Vec<char>> = Vec::new();
    let mut x: usize = 0;
    while x < NUM_COLS
        invariant
            x <= NUM_COLS,
            cols@.len() == x,
            forall|i: int| 0 <= i < x ==> (#[trigger] cols@[i])@.len() == NUM_ROWS,
            forall|i: int, j: int| 0 <= i < x && 0 <= j < NUM_ROWS ==> #[trigger] cols@[i]@[j] == BLANK,
        decreases NUM_COLS - x,
    {
        let mut col: Vec<char> = Vec::new();
        let mut y: usize = 0;
        while y < NUM_ROWS
            invariant
                y <= NUM_ROWS,
                col@.len() == y,
                forall|j: int| 0 <= j < y ==> #[trigger] col@[j] == BLANK,
            decreases NUM_ROWS - y,
        {
            col.push(BLANK);
            y = y + 1;
        }
        cols.push(col);
        x = x + 1;
    }
    proof {
        assert forall|i: int| 0 <= i < NUM_COLS implies grid(&cols)[i] == blank_grid()[i] by {
            assert(grid(&cols)[i] =~= blank_grid()[i]);
        }
        assert(grid(&cols) =~= blank_grid());
    }
    cols
}

/// Sets the cell at `(x, y)` to `c`.
pub fn put(frame: &mut Frame, x: usize, y: usize, c: char)
    requires
        frame_shape(grid(old(frame))),
        on_field(x as int, y as int),
    ensures
        grid(final(frame)) == frame_set(grid(old(frame)), x as int, y as int, c),
        frame_shape(grid(final(frame))),
{
    assert(grid(frame)[x as int].len() == NUM_ROWS);
    let mut col = frame[x].clone();
    assert(col@ =~= frame@[x as int]@);
    col.set(y, c);
    frame.set(x, col);
    assert(grid(frame) =~= frame_set(grid(old(frame)), x as int, y as int, c));
}

/// The positions `(x, y)`, column by column and top to bottom within a
/// column, among the first `cols` columns, whose cell must be written out to
/// go from showing `previous` to showing `next`: every position when `force`,
/// else those whose cells differ.
pub open spec fn changed_among(previous: Seq<Seq<char>>, next: Seq<Seq<char>>, force: bool, cols: int) -> Seq<(usize, usize)>
    decreases cols,
{
    if cols <= 0 {
        Seq::empty()
    } else {
        changed_among(previous, next, force, cols - 1) + changed_in_column(previous, next, force, cols - 1, next[cols - 1].len() as int)
    }
}

/// The positions among the first `rows` cells of column `x` whose cell must
/// be written out.
pub open spec fn changed_in_column(previous: Seq<Seq<char>>, next: Seq<Seq<char>>, force: bool, x: int, rows: int) -> Seq<(usize, usize)>
    decreases rows,
{
    if rows <= 0 {
        Seq::empty()
    } else {
        let rest = changed_in_column(previous, next, force, x, rows - 1);
        if force || next[x][rows - 1] != previous[x][rows - 1] {
            rest.push((x as usize, (rows - 1) as usize))
        } else {
            rest
        }
    }
}

/// Position `a` comes before position `b`: in an earlier column, or higher up
/// in the same column.
pub open spec fn before(a: (usize, usize), b: (usize, usize)) -> bool {
    a.0 < b.0 || (a.0 == b.0 && a.1 < b.1)
}

/// Within column `x`, the first `rows` cells are written out exactly when
/// forced or when the new cell differs from the old one, top to bottom.
pub proof fn lemma_column_changed_exactly(previous: Seq<Seq<char>>, next: Seq<Seq<char>>, force: bool, x: int, rows: int)
    requires
        0 <= x <= usize::MAX,
        rows <= usize::MAX + 1,
    ensures
        forall|a: usize, b: usize|
            #[trigger] changed_in_column(previous, next, force, x, rows).contains((a, b)) <==> a == x && b < rows && (
            force || next[x][b as int] != previous[x][b as int]),
        forall|i: int|
            0 <= i < changed_in_column(previous, next, force, x, rows).len() ==> (#[trigger] changed_in_column(
                previous,
                next,
                force,
                x,
                rows,
            )[i]).0 == x && changed_in_column(previous, next, force, x, rows)[i].1 < rows,
        forall|i: int, j: int|
            0 <= i < j < changed_in_column(previous, next, force, x, rows).len() ==> (#[trigger] changed_in_column(
                previous,
                next,
                force,
                x,
                rows,
            )[i]).1 < (#[trigger] changed_in_column(previous, next, force, x, rows)[j]).1,
    decreases rows,
{
    if rows > 0 {
        lemma_column_changed_exactly(previous, next, force, x, rows - 1);
        let rest = changed_in_column(previous, next, force, x, rows - 1);
        let all = changed_in_column(previous, next, force, x, rows);
        let here = (x as usize, (rows - 1) as usize);
        assert forall|a: usize, b: usize| #[trigger] all.contains((a, b)) <==> a == x && b < rows && (force
            || next[x][b as int] != previous[x][b as int]) by {
            if force || next[x][rows - 1] != previous[x][rows - 1] {
                assert(all == rest.push(here));
                if a == x && b == rows - 1 {
                    assert(all[rest.len() as int] == (a, b));
                }
                if all.contains((a, b)) && !rest.contains((a, b)) {
                    let i = choose|i: int| 0 <= i < all.len() && all[i] == (a, b);
                    if i < rest.len() {
                        assert(rest[i] == all[i]);
                    }
                }
                if rest.contains((a, b)) {
                    let i = choose|i: int| 0 <= i < rest.len() && rest[i] == (a, b);
                    assert(all[i] == rest[i]);
                }
            }
        }
    }
}

/// Among the first `cols` columns, a position `(x, y)` of `next` is written
/// out exactly when forced or when its cell differs from the old one, and
/// the positions come column by column, top to bottom within a column.
pub proof fn lemma_changed_exactly(previous: Seq<Seq<char>>, next: Seq<Seq<char>>, force: bool, cols: int)
    requires
        0 <= cols <= next.len(),
        cols <= usize::MAX + 1,
        forall|x: int| 0 <= x < cols ==> (#[trigger] next[x]).len() <= usize::MAX + 1,
    ensures
        forall|x: usize, y: usize|
            #[trigger] changed_among(previous, next, force, cols).contains((x, y)) <==> x < cols && y < next[x as int].len() && (
            force || next[x as int][y as int] != previous[x as int][y as int]),
        forall|i: int| 0 <= i < changed_among(previous, next, force, cols).len() ==> (#[trigger] changed_among(previous, next, force, cols)[i]).0 < cols,
        forall|i: int, j: int|
            0 <= i < j < changed_among(previous, next, force, cols).len() ==> before(
                #[trigger] changed_among(previous, next, force, cols)[i],
                #[trigger] changed_among(previous, next, force, cols)[j],
            ),
    decreases cols,
{
    if cols > 0 {
        lemma_changed_exactly(previous, next, force, cols - 1);
        let x = cols - 1;
        let rows = next[x].len() as int;
        lemma_column_changed_exactly(previous, next, force, x, rows);
        let left = changed_among(previous, next, force, cols - 1);
        let col = changed_in_column(previous, next, force, x, rows);
        let all = changed_among(previous, next, force, cols);
        assert(all == left + col);
        assert forall|a: usize, b: usize| #[trigger] all.contains((a, b)) <==> a < cols && b < next[a as int].len() && (
        force || next[a as int][b as int] != previous[a as int][b as int]) by {
            if all.contains((a, b)) {
                let i = choose|i: int| 0 <= i < all.len() && all[i] == (a, b);
                if i < left.len() {
                    assert(left[i] == all[i]);
                    assert(left.contains((a, b)));
                } else {
                    assert(col[i - left.len()] == all[i]);
                    assert(col.contains((a, b)));
                }
            }
            if a < cols - 1 && left.contains((a, b)) {
                let i = choose|i: int| 0 <= i < left.len() && left[i] == (a, b);
                assert(all[i] == left[i]);
            }
            if a == cols - 1 && col.contains((a, b)) {
                let i = choose|i: int| 0 <= i < col.len() && col[i] == (a, b);
                assert(all[left.len() + i] == col[i]);
            }
        }
        assert forall|i: int| 0 <= i < all.len() implies (#[trigger] all[i]).0 < cols by {
            if i < left.len() {
                assert(all[i] == left[i]);
            } else {
                assert(all[i] == col[i - left.len()]);
            }
        }
        assert forall|i: int, j: int| 0 <= i < j < all.len() implies before(#[trigger] all[i], #[trigger] all[j]) by {
            if j < left.len() {
                assert(all[i] == left[i] && all[j] == left[j]);
            } else if i < left.len() {
                assert(all[i] == left[i] && all[j] == col[j - left.len()]);
            } else {
                assert(all[i] == col[i - left.len()] && all[j] == col[j - left.len()]);
            }
        }
    }
}

/// Every cell of `next` has a cell at the same position in `previous`.
pub open spec fn covers(previous: Seq<Seq<char>>, next: Seq<Seq<char>>) -> bool {
    &&& next.len() <= previous.len()
    &&& forall|x: int| 0 <= x < next.len() ==> (#[trigger] next[x]).len() <= previous[x].len()
}

/// Nothing needs writing out when the screen already shows the frame,
/// unless the write is forced.
pub proof fn lemma_same_frame_nothing_changed(g: Seq<Seq<char>>, cols: int)
    ensures
        changed_among(g, g, false, cols) == Seq::<(usize, usize)>::empty(),
    decreases cols,
{
    if cols > 0 {
        lemma_same_frame_nothing_changed(g, cols - 1);
        lemma_same_column_nothing_changed(g, cols - 1, g[cols - 1].len() as int);
    }
}

proof fn lemma_same_column_nothing_changed(g: Seq<Seq<char>>, x: int, rows: int)
    ensures
        changed_in_column(g, g, false, x, rows) == Seq::<(usize, usize)>::empty(),
    decreases rows,
{
    if rows > 0 {
        lemma_same_column_nothing_changed(g, x, rows - 1);
    }
}

/// A forced write writes out every cell of a full frame.
pub proof fn lemma_forced_writes_all(previous: Seq<Seq<char>>, next: Seq<Seq<char>>, cols: int)
    requires
        frame_shape(next),
        0 <= cols <= NUM_COLS,
    ensures
        changed_among(previous, next, true, cols).len() == cols * NUM_ROWS,
    decreases cols,
{
    if cols > 0 {
        lemma_forced_writes_all(previous, next, cols - 1);
        lemma_forced_column(previous, next, cols - 1, next[cols - 1].len() as int);
        assert(next[cols - 1].len() == NUM_ROWS);
    }
}

proof fn lemma_forced_column(previous: Seq<Seq<char>>, next: Seq<Seq<char>>, x: int, rows: int)
    requires
        rows >= 0,
    ensures
        changed_in_column(previous, next, true, x, rows).len() == rows,
    decreases rows,
{
    if rows > 0 {
        lemma_forced_column(previous, next, x, rows - 1);
    }
}

/// The positions of `next` to write out when the screen shows `previous`:
/// all of them when `force`, else those whose cells changed.
pub fn changed_cells(previous: &Frame, next: &Frame, force: bool) -> (cells: Vec<(usize, usize)>)
    requires
        covers(grid(&previous), grid(&next)),
    ensures
        cells@ == changed_among(grid(&previous), grid(&next), force, grid(&next).len() as int),
        !force && grid(&previous) == grid(&next) ==> cells@.len() == 0,
        forall|x: usize, y: usize|
            #[trigger] cells@.contains((x, y)) <==> x < next@.len() && y < next@[x as int]@.len() && (force
                || next@[x as int]@[y as int] != previous@[x as int]@[y as int]),
        forall|i: int, j: int| 0 <= i < j < cells@.len() ==> before(#[trigger] cells@[i], #[trigger] cells@[j]),
{
    let mut cells: Vec<(usize, usize)> = Vec::new();
    let mut x: usize = 0;
    while x < next.len()
        invariant
            x <= grid(&next).len(),
            covers(grid(&previous), grid(&next)),
            cells@ == changed_among(grid(&previous), grid(&next), force, x as int),
            forall|k: int| 0 <= k < x ==> (#[trigger] grid(&next)[k]).len() <= usize::MAX,
        decreases grid(&next).len() - x,
    {
        let col = &next[x];
        let prev_col = &previous[x];
        let ghost before = cells@;
        assert(grid(&next)[x as int].len() <= grid(&previous)[x as int].len());
        let mut y: usize = 0;
        while y < col.len()
            invariant
                x < grid(&next).len(),
                col@ == grid(&next)[x as int],
                prev_col@ == grid(&previous)[x as int],
                col@.len() <= prev_col@.len(),
                y <= col@.len(),
                cells@ == before + changed_in_column(grid(&previous), grid(&next), force, x as int, y as int),
            decreases col@.len() - y,
        {
            if force || col[y] != prev_col[y] {
                cells.push((x, y));
            }
            y = y + 1;
        }
        x = x + 1;
    }
    proof {
        lemma_changed_exactly(grid(&previous), grid(&next), force, grid(&next).len() as int);
        if !force && grid(&previous) == grid(&next) {
            lemma_same_frame_nothing_changed(grid(&next), grid(&next).len() as int);
        }
    }
    cells
}

} // verus!
