//! The rules of Reversi on an 8x8 grid: which placements are legal, which
//! disks a placement captures, and how many disks each side holds.
//!
//! A grid is indexed `[y][x]`. The mathematical model of a grid is a
//! sequence of rows, each a sequence of cells; all rules are stated on that
//! model and the executable functions are proved against it.

use crate::sequences::lemma_filter_step;
use vstd::prelude::*;

verus! {

/// Number of rows, and of columns, of the board.
pub const BOARD_SIZE: usize = 8;

/// The colour of a disk, and so of the player who owns it.
#[derive(Clone, Copy, Debug, PartialEq, Eq, Structural)]
pub enum DiskColor {
    Black,
    White,
}

impl DiskColor {
    /// The other colour.
    pub open spec fn flipped(self) -> DiskColor {
        match self {
            DiskColor::Black => DiskColor::White,
            DiskColor::White => DiskColor::Black,
        }
    }

    /// The lower-case name under which the colour travels on the wire.
    pub open spec fn name(self) -> Seq<char> {
        match self {
            DiskColor::Black => "black"@,
            DiskColor::White => "white"@,
        }
    }

    /// The wire name of the colour: `"black"` or `"white"`.
    pub fn to_string(&self) -> (text: String)
        ensures
            text@ == self.name(),
    {
        match self {
            DiskColor::Black => "black".to_string(),
            DiskColor::White => "white".to_string(),
        }
    }

    /// The other colour; taking it twice gives the colour back.
    pub fn opposite(&self) -> (other: DiskColor)
        ensures
            other == self.flipped(),
            other != *self,
            other.flipped() == *self,
    {
        match self {
            DiskColor::Black => DiskColor::White,
            DiskColor::White => DiskColor::Black,
        }
    }
}

/// The model of a board: rows of cells, a cell being empty or holding a disk.
pub type Grid = Seq<Seq<Option<DiskColor>>>;

/// The cells that a board stored as nested vectors holds.
pub open spec fn grid_of(board: &Vec<Vec<Option<DiskColor>>>) -> Grid {
    Seq::new(board@.len(), |y: int| board@[y]@)
}

/// A grid is well formed when it has eight rows of eight cells.
pub open spec fn well_formed(g: Grid) -> bool {
    &&& g.len() == 8
    &&& forall|y: int| 0 <= y < 8 ==> (#[trigger] g[y]).len() == 8
}

/// Whether column `x`, row `y` lies on the board.
pub open spec fn on_board(x: int, y: int) -> bool {
    0 <= x < 8 && 0 <= y < 8
}

/// One of the eight unit steps: horizontal, vertical or diagonal.
pub open spec fn is_direction(dx: int, dy: int) -> bool {
    -1 <= dx <= 1 && -1 <= dy <= 1 && (dx != 0 || dy != 0)
}

/// The eight directions in the order in which the engine walks them.
pub open spec fn direction_at(d: int) -> (int, int) {
    if d == 0 {
        (-1, -1)
    } else if d == 1 {
        (-1, 0)
    } else if d == 2 {
        (-1, 1)
    } else if d == 3 {
        (0, -1)
    } else if d == 4 {
        (0, 1)
    } else if d == 5 {
        (1, -1)
    } else if d == 6 {
        (1, 0)
    } else {
        (1, 1)
    }
}

/// The coordinate reached from `from` after `j` steps of `delta`.
pub open spec fn step(from: int, delta: int, j: int) -> int {
    from + j * delta
}

/// What is seen `j` steps away from `(x, y)` in direction `(dx, dy)`: the
/// disk of that cell, or nothing where the cell is empty or off the board.
pub open spec fn ray_disk(g: Grid, x: int, y: int, dx: int, dy: int, j: int) -> Option<DiskColor> {
    if on_board(step(x, dx, j), step(y, dy, j)) {
        g[step(y, dy, j)][step(x, dx, j)]
    } else {
        None
    }
}

/// The first `k` cells of the ray all hold the opponent's colour.
pub open spec fn run_of_opponents(
    g: Grid,
    x: int,
    y: int,
    dx: int,
    dy: int,
    color: DiskColor,
    k: int,
) -> bool {
    forall|j: int| 1 <= j <= k ==> #[trigger] ray_disk(g, x, y, dx, dy, j) == Some(color.flipped())
}

/// A non-empty run of exactly `k` opposing disks, closed by a disk of `color`.
pub open spec fn brackets(
    g: Grid,
    x: int,
    y: int,
    dx: int,
    dy: int,
    color: DiskColor,
    k: int,
) -> bool {
    &&& k >= 1
    &&& run_of_opponents(g, x, y, dx, dy, color, k)
    &&& ray_disk(g, x, y, dx, dy, k + 1) == Some(color)
}

/// A disk of `color` at `(x, y)` would capture along `(dx, dy)`.
pub open spec fn captures(g: Grid, x: int, y: int, dx: int, dy: int, color: DiskColor) -> bool {
    exists|k: int| brackets(g, x, y, dx, dy, color, k)
}

/// How many disks a disk of `color` at `(x, y)` captures along `(dx, dy)`;
/// zero when the ray is not closed by a disk of `color`.
pub open spec fn capture_length(
    g: Grid,
    x: int,
    y: int,
    dx: int,
    dy: int,
    color: DiskColor,
) -> int {
    if captures(g, x, y, dx, dy, color) {
        choose|k: int| brackets(g, x, y, dx, dy, color, k)
    } else {
        0
    }
}

/// A placement is legal when the cell is an empty cell of the board and the
/// new disk captures in at least one direction.
pub open spec fn valid_move(g: Grid, x: int, y: int, color: DiskColor) -> bool {
    &&& on_board(x, y)
    &&& g[y][x] is None
    &&& exists|dx: int, dy: int| is_direction(dx, dy) && captures(g, x, y, dx, dy, color)
}

/// The player of `color` has at least one legal placement.
pub open spec fn can_move(g: Grid, color: DiskColor) -> bool {
    exists|x: int, y: int| valid_move(g, x, y, color)
}

/// Cell `(cx, cy)` belongs to the flip set of a disk of `color` at `(x, y)`.
pub open spec fn is_flipped(g: Grid, x: int, y: int, color: DiskColor, cx: int, cy: int) -> bool {
    exists|dx: int, dy: int, k: int, j: int|
        is_direction(dx, dy) && #[trigger] brackets(g, x, y, dx, dy, color, k) && 1 <= j <= k
            && cx == #[trigger] step(x, dx, j) && cy == step(y, dy, j)
}

/// The grid after a disk of `color` was placed at `(x, y)`: the played cell
/// and its flip set hold `color`, every other cell is as before.
pub open spec fn after_move(g: Grid, x: int, y: int, color: DiskColor) -> Grid {
    Seq::new(
        8,
        |cy: int|
            Seq::new(
                8,
                |cx: int|
                    if (cx == x && cy == y) || is_flipped(g, x, y, color, cx, cy) {
                        Some(color)
                    } else {
                        g[cy][cx]
                    },
            ),
    )
}

/// The grid with one cell replaced.
pub open spec fn with_disk(g: Grid, x: int, y: int, color: DiskColor) -> Grid {
    g.update(y, g[y].update(x, Some(color)))
}

/// Every direction is one of the eight that `direction_at` lists.
pub proof fn lemma_directions_listed(dx: int, dy: int)
    requires
        is_direction(dx, dy),
    ensures
        exists|d: int| 0 <= d < 8 && #[trigger] direction_at(d) == (dx, dy),
{
    let d: int = if dx == -1 {
        dy + 1
    } else if dx == 0 {
        if dy == -1 { 3 } else { 4 }
    } else {
        dy + 6
    };
    assert(direction_at(d) == (dx, dy));
}

/// Where a run of `n` opposing disks is followed by anything but another
/// opposing disk, the ray captures exactly when that cell holds `color`,
/// and then it captures `n` disks and no other number.
pub proof fn lemma_capture_decided(
    g: Grid,
    x: int,
    y: int,
    dx: int,
    dy: int,
    color: DiskColor,
    n: int,
)
    requires
        n >= 0,
        run_of_opponents(g, x, y, dx, dy, color, n),
        ray_disk(g, x, y, dx, dy, n + 1) != Some(color.flipped()),
    ensures
        captures(g, x, y, dx, dy, color) <==> (n >= 1 && ray_disk(g, x, y, dx, dy, n + 1) == Some(
            color,
        )),
        captures(g, x, y, dx, dy, color) ==> capture_length(g, x, y, dx, dy, color) == n,
        !captures(g, x, y, dx, dy, color) ==> capture_length(g, x, y, dx, dy, color) == 0,
        forall|k: int| brackets(g, x, y, dx, dy, color, k) ==> k == n,
{
    assert forall|k: int| brackets(g, x, y, dx, dy, color, k) implies k == n by {
        if k < n {
            assert(ray_disk(g, x, y, dx, dy, k + 1) == Some(color.flipped()));
        } else if k > n {
            assert(ray_disk(g, x, y, dx, dy, n + 1) == Some(color.flipped()));
        }
    }
    if n >= 1 && ray_disk(g, x, y, dx, dy, n + 1) == Some(color) {
        assert(brackets(g, x, y, dx, dy, color, n));
    }
}

/// The `d`-th of the eight directions.
fn direction(d: usize) -> (delta: (i32, i32))
    requires
        d < 8,
    ensures
        (delta.0 as int, delta.1 as int) == direction_at(d as int),
        is_direction(delta.0 as int, delta.1 as int),
{
    if d == 0 {
        (-1, -1)
    } else if d == 1 {
        (-1, 0)
    } else if d == 2 {
        (-1, 1)
    } else if d == 3 {
        (0, -1)
    } else if d == 4 {
        (0, 1)
    } else if d == 5 {
        (1, -1)
    } else if d == 6 {
        (1, 0)
    } else {
        (1, 1)
    }
}

/// How far a walk from coordinate `at` in steps of `delta` is from leaving
/// the board; the walk along a ray terminates because this shrinks.
spec fn room(at: int, delta: int) -> int {
    if delta > 0 {
        8 - at
    } else if delta < 0 {
        at + 1
    } else {
        0
    }
}

/// Walks from `(x, y)` along `(dx, dy)` and counts the opposing disks that a
/// disk of `color` at `(x, y)` would capture there.
fn captured_along(
    board: &Vec<Vec<Option<DiskColor>>>,
    x: usize,
    y: usize,
    dx: i32,
    dy: i32,
    color: DiskColor,
) -> (count: usize)
    requires
        well_formed(grid_of(board)),
        x < 8,
        y < 8,
        is_direction(dx as int, dy as int),
    ensures
        count == capture_length(grid_of(board), x as int, y as int, dx as int, dy as int, color),
        count > 0 <==> captures(grid_of(board), x as int, y as int, dx as int, dy as int, color),
        count <= 16,
{
    let ghost g = grid_of(board);
    let mut nx: i32 = x as i32 + dx;
    let mut ny: i32 = y as i32 + dy;
    let mut seen: usize = 0;
    assert(nx == step(x as int, dx as int, 1) && ny == step(y as int, dy as int, 1)) by {
        assert(1 * (dx as int) == dx as int && 1 * (dy as int) == dy as int);
    }
    while 0 <= nx && nx < 8 && 0 <= ny && ny < 8
        invariant
            g == grid_of(board),
            well_formed(g),
            x < 8,
            y < 8,
            is_direction(dx as int, dy as int),
            -1 <= nx <= 8,
            -1 <= ny <= 8,
            nx == step(x as int, dx as int, seen + 1),
            ny == step(y as int, dy as int, seen + 1),
            run_of_opponents(g, x as int, y as int, dx as int, dy as int, color, seen as int),
            on_board(nx as int, ny as int) ==> seen + room(nx as int, dx as int) + room(
                ny as int,
                dy as int,
            ) <= 16,
            seen <= 16,
        decreases room(nx as int, dx as int) + room(ny as int, dy as int) + 2,
    {
        assert(ray_disk(g, x as int, y as int, dx as int, dy as int, seen + 1)
            == g[ny as int][nx as int]);
        assert(g[ny as int][nx as int] == board@[ny as int]@[nx as int]);
        match board[ny as usize][nx as usize] {
            Some(c) => {
                if c == color {
                    proof {
                        lemma_capture_decided(
                            g,
                            x as int,
                            y as int,
                            dx as int,
                            dy as int,
                            color,
                            seen as int,
                        );
                    }
                    return seen;
                }
                assert((seen + 2) * (dx as int) == (seen + 1) * (dx as int) + dx as int)
                    by (nonlinear_arith);
                assert((seen + 2) * (dy as int) == (seen + 1) * (dy as int) + dy as int)
                    by (nonlinear_arith);
                seen += 1;
                nx += dx;
                ny += dy;
            },
            None => {
                proof {
                    lemma_capture_decided(
                        g,
                        x as int,
                        y as int,
                        dx as int,
                        dy as int,
                        color,
                        seen as int,
                    );
                }
                return 0;
            },
        }
    }
    proof {
        assert(ray_disk(g, x as int, y as int, dx as int, dy as int, seen + 1) is None);
        lemma_capture_decided(g, x as int, y as int, dx as int, dy as int, color, seen as int);
    }
    0
}

/// Whether placing a disk of `color` at column `x`, row `y` is legal.
pub fn is_valid_move(
    board: &Vec<Vec<Option<DiskColor>>>,
    x: usize,
    y: usize,
    color: &DiskColor,
) -> (legal: bool)
    requires
        well_formed(grid_of(board)),
        x < 8,
        y < 8,
    ensures
        legal == valid_move(grid_of(board), x as int, y as int, *color),
{
    let ghost g = grid_of(board);
    assert(g[y as int] == board@[y as int]@);
    if board[y][x].is_some() {
        return false;
    }
    let mut d: usize = 0;
    while d < 8
        invariant
            d <= 8,
            g == grid_of(board),
            well_formed(g),
            x < 8,
            y < 8,
            g[y as int][x as int] is None,
            forall|e: int|
                0 <= e < d ==> !captures(
                    g,
                    x as int,
                    y as int,
                    (#[trigger] direction_at(e)).0,
                    direction_at(e).1,
                    *color,
                ),
        decreases 8 - d,
    {
        let (dx, dy) = direction(d);
        if captured_along(board, x, y, dx, dy, *color) > 0 {
            assert(is_direction(dx as int, dy as int) && captures(
                g,
                x as int,
                y as int,
                dx as int,
                dy as int,
                *color,
            ));
            return true;
        }
        d += 1;
    }
    assert forall|dx: int, dy: int| is_direction(dx, dy) implies !captures(
        g,
        x as int,
        y as int,
        dx,
        dy,
        *color,
    ) by {
        lemma_directions_listed(dx, dy);
        let e = choose|e: int| 0 <= e < 8 && #[trigger] direction_at(e) == (dx, dy);
        assert(direction_at(e).0 == dx && direction_at(e).1 == dy);
    }
    false
}

/// Whether the player of `color` has any legal placement on the board.
pub fn has_valid_move(board: &Vec<Vec<Option<DiskColor>>>, color: &DiskColor) -> (any: bool)
    requires
        well_formed(grid_of(board)),
    ensures
        any == can_move(grid_of(board), *color),
{
    let ghost g = grid_of(board);
    let mut y: usize = 0;
    while y < 8
        invariant
            y <= 8,
            g == grid_of(board),
            well_formed(g),
            forall|cx: int, cy: int| 0 <= cy < y ==> !#[trigger] valid_move(g, cx, cy, *color),
        decreases 8 - y,
    {
        let mut x: usize = 0;
        while x < 8
            invariant
                x <= 8,
                y < 8,
                g == grid_of(board),
                well_formed(g),
                forall|cx: int, cy: int| 0 <= cy < y ==> !#[trigger] valid_move(g, cx, cy, *color),
                forall|cx: int| 0 <= cx < x ==> !#[trigger] valid_move(g, cx, y as int, *color),
            decreases 8 - x,
        {
            if is_valid_move(board, x, y, color) {
                return true;
            }
            x += 1;
        }
        y += 1;
    }
    false
}

/// The `i`-th cell of the board in row-major order, as `(x, y)`.
pub open spec fn cell_at(i: int) -> (usize, usize) {
    ((i % 8) as usize, (i / 8) as usize)
}

/// The 64 cells of the board, row by row and, within a row, column by
/// column.
pub open spec fn all_cells() -> Seq<(usize, usize)> {
    Seq::new(64, |i: int| cell_at(i))
}

/// Whether a cell is a legal placement of `color`.
pub open spec fn is_move_of(g: Grid, color: DiskColor) -> spec_fn((usize, usize)) -> bool {
    |cell: (usize, usize)| valid_move(g, cell.0 as int, cell.1 as int, color)
}

/// The legal placements of `color`, in row-major order.
pub open spec fn valid_moves_of(g: Grid, color: DiskColor) -> Seq<(usize, usize)> {
    all_cells().filter(is_move_of(g, color))
}

/// All legal placements of `current_player`, as `(x, y)` pairs in row-major
/// order.
pub fn calculate_valid_moves(
    board: &Vec<Vec<Option<DiskColor>>>,
    current_player: &DiskColor,
) -> (valid_moves: Vec<(usize, usize)>)
    requires
        well_formed(grid_of(board)),
    ensures
        valid_moves@ == valid_moves_of(grid_of(board), *current_player),
{
    let ghost g = grid_of(board);
    let ghost legal = is_move_of(g, *current_player);
    let ghost cells = all_cells();
    let mut valid_moves: Vec<(usize, usize)> = Vec::new();
    let mut y: usize = 0;
    proof {
        reveal(Seq::filter);
        assert(cells.take(0) =~= Seq::<(usize, usize)>::empty());
    }
    while y < 8
        invariant
            y <= 8,
            g == grid_of(board),
            legal == is_move_of(g, *current_player),
            cells == all_cells(),
            well_formed(g),
            valid_moves@ == cells.take(8 * y).filter(legal),
        decreases 8 - y,
    {
        let mut x: usize = 0;
        while x < 8
            invariant
                x <= 8,
                y < 8,
                g == grid_of(board),
                legal == is_move_of(g, *current_player),
                cells == all_cells(),
                well_formed(g),
                valid_moves@ == cells.take(8 * y + x).filter(legal),
            decreases 8 - x,
        {
            proof {
                lemma_filter_step(cells, legal, 8 * y + x);
                assert(cells[8 * y + x] == (x, y));
            }
            if is_valid_move(board, x, y, current_player) {
                valid_moves.push((x, y));
            }
            x += 1;
        }
        y += 1;
    }
    assert(cells.take(64) =~= cells);
    valid_moves
}

/// With a unit step the `j`-th coordinate is `from`, `from + j` or `from - j`.
pub proof fn lemma_step_unit(from: int, delta: int, j: int)
    requires
        -1 <= delta <= 1,
    ensures
        step(from, delta, j) == if delta == 0 {
            from
        } else if delta == 1 {
            from + j
        } else {
            from - j
        },
{
    assert(j * delta == if delta == 0 {
        0
    } else if delta == 1 {
        j
    } else {
        -j
    }) by (nonlinear_arith)
        requires
            -1 <= delta <= 1,
    ;
}

/// Two rays from the same cell in different directions share no cell, and
/// no ray comes back to the cell it starts from.
pub proof fn lemma_rays_apart(x: int, y: int, dx: int, dy: int, ex: int, ey: int, j: int, i: int)
    requires
        is_direction(dx, dy),
        is_direction(ex, ey),
        j >= 1,
        i >= 1,
    ensures
        step(x, dx, j) != x || step(y, dy, j) != y,
        (dx != ex || dy != ey) ==> step(x, dx, j) != step(x, ex, i) || step(y, dy, j) != step(
            y,
            ey,
            i,
        ),
{
    lemma_step_unit(x, dx, j);
    lemma_step_unit(y, dy, j);
    lemma_step_unit(x, ex, i);
    lemma_step_unit(y, ey, i);
}

/// A ray that brackets `k` disks captures exactly `k`.
pub proof fn lemma_bracket_is_capture_length(
    g: Grid,
    x: int,
    y: int,
    dx: int,
    dy: int,
    color: DiskColor,
    k: int,
)
    requires
        brackets(g, x, y, dx, dy, color, k),
    ensures
        captures(g, x, y, dx, dy, color),
        capture_length(g, x, y, dx, dy, color) == k,
{
    lemma_capture_decided(g, x, y, dx, dy, color, k);
}

/// Cell `(cx, cy)` is captured along one of the first `d` directions, or
/// within the first `upto` cells of direction `d` itself.
pub open spec fn flipped_so_far(
    g: Grid,
    x: int,
    y: int,
    color: DiskColor,
    cx: int,
    cy: int,
    d: int,
    upto: int,
) -> bool {
    exists|e: int, j: int|
        0 <= e <= d && e < 8 && 1 <= j <= capture_length(
            g,
            x,
            y,
            (#[trigger] direction_at(e)).0,
            direction_at(e).1,
            color,
        ) && (e == d ==> j <= upto) && cx == #[trigger] step(x, direction_at(e).0, j) && cy
            == step(y, direction_at(e).1, j)
}

/// The grid in which the cells captured so far hold `color`.
pub open spec fn flips_so_far(g: Grid, x: int, y: int, color: DiskColor, d: int, upto: int) -> Grid {
    Seq::new(
        8,
        |cy: int|
            Seq::new(
                8,
                |cx: int|
                    if flipped_so_far(g, x, y, color, cx, cy, d, upto) {
                        Some(color)
                    } else {
                        g[cy][cx]
                    },
            ),
    )
}

/// The grid after every disk that the disk at `(x, y)` captures was turned.
pub open spec fn flips_applied(g: Grid, x: int, y: int, color: DiskColor) -> Grid {
    Seq::new(
        8,
        |cy: int|
            Seq::new(
                8,
                |cx: int|
                    if is_flipped(g, x, y, color, cx, cy) {
                        Some(color)
                    } else {
                        g[cy][cx]
                    },
            ),
    )
}

/// Once all eight directions are done, the cells captured so far are the
/// flip set.
pub proof fn lemma_all_directions_flip_set(g: Grid, x: int, y: int, color: DiskColor)
    ensures
        forall|cx: int, cy: int|
            flipped_so_far(g, x, y, color, cx, cy, 8, 0) <==> is_flipped(g, x, y, color, cx, cy),
        flips_so_far(g, x, y, color, 8, 0) == flips_applied(g, x, y, color),
{
    assert forall|cx: int, cy: int|
        flipped_so_far(g, x, y, color, cx, cy, 8, 0) <==> is_flipped(g, x, y, color, cx, cy) by {
        if flipped_so_far(g, x, y, color, cx, cy, 8, 0) {
            let (e, j) = choose|e: int, j: int|
                0 <= e <= 8 && e < 8 && 1 <= j <= capture_length(
                    g,
                    x,
                    y,
                    (#[trigger] direction_at(e)).0,
                    direction_at(e).1,
                    color,
                ) && (e == 8 ==> j <= 0) && cx == #[trigger] step(x, direction_at(e).0, j) && cy
                    == step(y, direction_at(e).1, j);
            let dx = direction_at(e).0;
            let dy = direction_at(e).1;
            let k = capture_length(g, x, y, dx, dy, color);
            assert(captures(g, x, y, dx, dy, color));
            assert(brackets(g, x, y, dx, dy, color, k));
            assert(is_direction(dx, dy));
            assert(cx == step(x, dx, j));
        }
        if is_flipped(g, x, y, color, cx, cy) {
            let (dx, dy, k, j) = choose|dx: int, dy: int, k: int, j: int|
                is_direction(dx, dy) && #[trigger] brackets(g, x, y, dx, dy, color, k) && 1 <= j
                    <= k && cx == #[trigger] step(x, dx, j) && cy == step(y, dy, j);
            lemma_directions_listed(dx, dy);
            let e = choose|e: int| 0 <= e < 8 && #[trigger] direction_at(e) == (dx, dy);
            lemma_bracket_is_capture_length(g, x, y, dx, dy, color, k);
            assert(direction_at(e).0 == dx && direction_at(e).1 == dy);
            assert(cx == step(x, direction_at(e).0, j));
        }
    }
    assert(flips_so_far(g, x, y, color, 8, 0) =~~= flips_applied(g, x, y, color));
}

/// Puts a disk of `color` on column `x`, row `y`.
pub fn set_disk(board: &mut Vec<Vec<Option<DiskColor>>>, x: usize, y: usize, color: DiskColor)
    requires
        well_formed(grid_of(old(board))),
        x < 8,
        y < 8,
    ensures
        grid_of(final(board)) == with_disk(grid_of(old(board)), x as int, y as int, color),
        well_formed(grid_of(final(board))),
{
    assert(grid_of(board)[y as int] == board@[y as int]@);
    board[y][x] = Some(color);
    assert(grid_of(board) =~~= with_disk(grid_of(old(board)), x as int, y as int, color));
}

/// Turns over every disk that the disk of `color` at `(x, y)` captures,
/// direction by direction.
pub fn flip_disks(board: &mut Vec<Vec<Option<DiskColor>>>, x: usize, y: usize, color: &DiskColor)
    requires
        well_formed(grid_of(old(board))),
        x < 8,
        y < 8,
    ensures
        grid_of(final(board)) == flips_applied(
            grid_of(old(board)),
            x as int,
            y as int,
            *color,
        ),
        well_formed(grid_of(final(board))),
{
    let ghost g = grid_of(board);
    let ghost c = *color;
    let ghost xi = x as int;
    let ghost yi = y as int;
    assert(grid_of(board) =~~= flips_so_far(g, xi, yi, c, 0, 0)) by {
        assert forall|cx: int, cy: int| !flipped_so_far(g, xi, yi, c, cx, cy, 0, 0) by {
            if flipped_so_far(g, xi, yi, c, cx, cy, 0, 0) {
                let (e, j) = choose|e: int, j: int|
                    0 <= e <= 0 && e < 8 && 1 <= j <= capture_length(
                        g,
                        xi,
                        yi,
                        (#[trigger] direction_at(e)).0,
                        direction_at(e).1,
                        c,
                    ) && (e == 0 ==> j <= 0) && cx == #[trigger] step(xi, direction_at(e).0, j)
                        && cy == step(yi, direction_at(e).1, j);
            }
        }
    }
    let mut d: usize = 0;
    while d < 8
        invariant
            d <= 8,
            x < 8,
            y < 8,
            xi == x as int,
            yi == y as int,
            c == *color,
            well_formed(g),
            grid_of(board) == flips_so_far(g, xi, yi, c, d as int, 0),
        decreases 8 - d,
    {
        let (dx, dy) = direction(d);
        let ghost now = grid_of(board);
        let count = captured_along(board, x, y, dx, dy, *color);
        proof {
            lemma_ray_untouched(g, xi, yi, c, d as int);
            lemma_same_ray_same_capture(g, now, xi, yi, dx as int, dy as int, c);
        }
        let mut j: usize = 0;
        while j < count
            invariant
                j <= count,
                count <= 16,
                d < 8,
                x < 8,
                y < 8,
                xi == x as int,
                yi == y as int,
                c == *color,
                well_formed(g),
                (dx as int, dy as int) == direction_at(d as int),
                is_direction(dx as int, dy as int),
                count == capture_length(g, xi, yi, dx as int, dy as int, c),
                grid_of(board) == flips_so_far(g, xi, yi, c, d as int, j as int),
            decreases count - j,
        {
            proof {
                let k = count as int;
                assert(captures(g, xi, yi, dx as int, dy as int, c));
                assert(brackets(g, xi, yi, dx as int, dy as int, c, k));
                assert(ray_disk(g, xi, yi, dx as int, dy as int, j + 1) == Some(c.flipped()));
                lemma_step_unit(xi, dx as int, j + 1);
                lemma_step_unit(yi, dy as int, j + 1);
            }
            let fx: usize = (x as i32 + (j as i32 + 1) * dx) as usize;
            let fy: usize = (y as i32 + (j as i32 + 1) * dy) as usize;
            assert(fx == step(xi, dx as int, j + 1) && fy == step(yi, dy as int, j + 1)) by {
                assert((j as i32 + 1) * dx == (j + 1) * (dx as int)) by (nonlinear_arith)
                    requires
                        -1 <= dx <= 1,
                        0 <= j <= 16,
                ;
                assert((j as i32 + 1) * dy == (j + 1) * (dy as int)) by (nonlinear_arith)
                    requires
                        -1 <= dy <= 1,
                        0 <= j <= 16,
                ;
            }
            let ghost before = grid_of(board);
            set_disk(board, fx, fy, *color);
            proof {
                lemma_one_more_flip(g, xi, yi, c, d as int, j as int, before, grid_of(board));
            }
            j += 1;
        }
        proof {
            lemma_direction_done(g, xi, yi, c, d as int);
        }
        d += 1;
    }
    proof {
        lemma_all_directions_flip_set(g, xi, yi, c);
    }
}

/// While the directions before `d` are flipped, the ray of direction `d`
/// still shows what it showed on the grid `g` that the flipping started from.
proof fn lemma_ray_untouched(g: Grid, x: int, y: int, color: DiskColor, d: int)
    requires
        well_formed(g),
        0 <= d < 8,
    ensures
        forall|j: int|
            j >= 1 ==> #[trigger] ray_disk(
                flips_so_far(g, x, y, color, d, 0),
                x,
                y,
                direction_at(d).0,
                direction_at(d).1,
                j,
            ) == ray_disk(g, x, y, direction_at(d).0, direction_at(d).1, j),
{
    let now = flips_so_far(g, x, y, color, d, 0);
    let dx = direction_at(d).0;
    let dy = direction_at(d).1;
    assert forall|j: int| j >= 1 implies #[trigger] ray_disk(now, x, y, dx, dy, j) == ray_disk(
        g,
        x,
        y,
        dx,
        dy,
        j,
    ) by {
        let cx = step(x, dx, j);
        let cy = step(y, dy, j);
        if on_board(cx, cy) {
            if flipped_so_far(g, x, y, color, cx, cy, d, 0) {
                let (e, i) = choose|e: int, i: int|
                    0 <= e <= d && e < 8 && 1 <= i <= capture_length(
                        g,
                        x,
                        y,
                        (#[trigger] direction_at(e)).0,
                        direction_at(e).1,
                        color,
                    ) && (e == d ==> i <= 0) && cx == #[trigger] step(x, direction_at(e).0, i)
                        && cy == step(y, direction_at(e).1, i);
                lemma_rays_apart(x, y, dx, dy, direction_at(e).0, direction_at(e).1, j, i);
            }
        }
    }
}

/// Two grids that show the same along a ray capture the same along it.
proof fn lemma_same_ray_same_capture(
    g: Grid,
    h: Grid,
    x: int,
    y: int,
    dx: int,
    dy: int,
    color: DiskColor,
)
    requires
        forall|j: int|
            j >= 1 ==> #[trigger] ray_disk(h, x, y, dx, dy, j) == ray_disk(g, x, y, dx, dy, j),
    ensures
        captures(h, x, y, dx, dy, color) == captures(g, x, y, dx, dy, color),
        capture_length(h, x, y, dx, dy, color) == capture_length(g, x, y, dx, dy, color),
{
    assert forall|k: int| brackets(h, x, y, dx, dy, color, k) == brackets(
        g,
        x,
        y,
        dx,
        dy,
        color,
        k,
    ) by {
        if k >= 1 {
            assert(ray_disk(h, x, y, dx, dy, k + 1) == ray_disk(g, x, y, dx, dy, k + 1));
            if run_of_opponents(g, x, y, dx, dy, color, k) {
                assert forall|j: int| 1 <= j <= k implies #[trigger] ray_disk(
                    h,
                    x,
                    y,
                    dx,
                    dy,
                    j,
                ) == Some(color.flipped()) by {
                    assert(ray_disk(g, x, y, dx, dy, j) == Some(color.flipped()));
                }
            }
            if run_of_opponents(h, x, y, dx, dy, color, k) {
                assert forall|j: int| 1 <= j <= k implies #[trigger] ray_disk(
                    g,
                    x,
                    y,
                    dx,
                    dy,
                    j,
                ) == Some(color.flipped()) by {
                    assert(ray_disk(h, x, y, dx, dy, j) == Some(color.flipped()));
                }
            }
        }
    }
    if captures(g, x, y, dx, dy, color) {
        let k = capture_length(g, x, y, dx, dy, color);
        assert(brackets(g, x, y, dx, dy, color, k));
        assert(brackets(h, x, y, dx, dy, color, k));
        lemma_bracket_is_capture_length(h, x, y, dx, dy, color, k);
    }
    if captures(h, x, y, dx, dy, color) {
        let k = capture_length(h, x, y, dx, dy, color);
        assert(brackets(h, x, y, dx, dy, color, k));
        assert(brackets(g, x, y, dx, dy, color, k));
        lemma_bracket_is_capture_length(g, x, y, dx, dy, color, k);
    }
}

/// Turning the next captured disk of direction `d` moves the flipping one
/// cell on.
proof fn lemma_one_more_flip(
    g: Grid,
    x: int,
    y: int,
    color: DiskColor,
    d: int,
    j: int,
    before: Grid,
    after: Grid,
)
    requires
        well_formed(g),
        0 <= d < 8,
        0 <= j < capture_length(g, x, y, direction_at(d).0, direction_at(d).1, color),
        on_board(step(x, direction_at(d).0, j + 1), step(y, direction_at(d).1, j + 1)),
        before == flips_so_far(g, x, y, color, d, j),
        after == with_disk(
            before,
            step(x, direction_at(d).0, j + 1),
            step(y, direction_at(d).1, j + 1),
            color,
        ),
    ensures
        after == flips_so_far(g, x, y, color, d, j + 1),
{
    let fx = step(x, direction_at(d).0, j + 1);
    let fy = step(y, direction_at(d).1, j + 1);
    let goal = flips_so_far(g, x, y, color, d, j + 1);
    assert forall|cx: int, cy: int| on_board(cx, cy) implies after[cy][cx] == goal[cy][cx] by {
        let was = flipped_so_far(g, x, y, color, cx, cy, d, j);
        let is = flipped_so_far(g, x, y, color, cx, cy, d, j + 1);
        if was {
            let (e, i) = choose|e: int, i: int|
                0 <= e <= d && e < 8 && 1 <= i <= capture_length(
                    g,
                    x,
                    y,
                    (#[trigger] direction_at(e)).0,
                    direction_at(e).1,
                    color,
                ) && (e == d ==> i <= j) && cx == #[trigger] step(x, direction_at(e).0, i) && cy
                    == step(y, direction_at(e).1, i);
            assert(cx == step(x, direction_at(e).0, i));
            assert(is);
        }
        if cx == fx && cy == fy {
            assert(cx == step(x, direction_at(d).0, j + 1));
            assert(is);
        }
        if is && !was {
            let (e, i) = choose|e: int, i: int|
                0 <= e <= d && e < 8 && 1 <= i <= capture_length(
                    g,
                    x,
                    y,
                    (#[trigger] direction_at(e)).0,
                    direction_at(e).1,
                    color,
                ) && (e == d ==> i <= j + 1) && cx == #[trigger] step(x, direction_at(e).0, i)
                    && cy == step(y, direction_at(e).1, i);
            assert(cx == step(x, direction_at(e).0, i));
            assert(e == d && i == j + 1);
        }
    }
    assert(after =~~= goal);
}

/// When direction `d` is flipped to its end, the flipping stands at the
/// start of direction `d + 1`.
proof fn lemma_direction_done(g: Grid, x: int, y: int, color: DiskColor, d: int)
    requires
        0 <= d < 8,
    ensures
        flips_so_far(
            g,
            x,
            y,
            color,
            d,
            capture_length(g, x, y, direction_at(d).0, direction_at(d).1, color),
        ) == flips_so_far(g, x, y, color, d + 1, 0),
{
    let k = capture_length(g, x, y, direction_at(d).0, direction_at(d).1, color);
    assert forall|cx: int, cy: int|
        flipped_so_far(g, x, y, color, cx, cy, d, k) == flipped_so_far(
            g,
            x,
            y,
            color,
            cx,
            cy,
            d + 1,
            0,
        ) by {
        if flipped_so_far(g, x, y, color, cx, cy, d, k) {
            let (e, i) = choose|e: int, i: int|
                0 <= e <= d && e < 8 && 1 <= i <= capture_length(
                    g,
                    x,
                    y,
                    (#[trigger] direction_at(e)).0,
                    direction_at(e).1,
                    color,
                ) && (e == d ==> i <= k) && cx == #[trigger] step(x, direction_at(e).0, i) && cy
                    == step(y, direction_at(e).1, i);
            assert(cx == step(x, direction_at(e).0, i));
        }
        if flipped_so_far(g, x, y, color, cx, cy, d + 1, 0) {
            let (e, i) = choose|e: int, i: int|
                0 <= e <= d + 1 && e < 8 && 1 <= i <= capture_length(
                    g,
                    x,
                    y,
                    (#[trigger] direction_at(e)).0,
                    direction_at(e).1,
                    color,
                ) && (e == d + 1 ==> i <= 0) && cx == #[trigger] step(x, direction_at(e).0, i)
                    && cy == step(y, direction_at(e).1, i);
            assert(cx == step(x, direction_at(e).0, i));
        }
    }
    assert(flips_so_far(g, x, y, color, d, k) =~~= flips_so_far(g, x, y, color, d + 1, 0));
}

/// Placing the disk first and turning the captured disks afterwards gives
/// the grid that `after_move` describes.
pub proof fn lemma_place_then_flip(g: Grid, x: int, y: int, color: DiskColor)
    requires
        well_formed(g),
        on_board(x, y),
    ensures
        flips_applied(with_disk(g, x, y, color), x, y, color) == after_move(g, x, y, color),
{
    let placed = with_disk(g, x, y, color);
    assert forall|dx: int, dy: int, k: int| is_direction(dx, dy) implies brackets(
        placed,
        x,
        y,
        dx,
        dy,
        color,
        k,
    ) == brackets(g, x, y, dx, dy, color, k) by {
        assert forall|j: int| j >= 1 implies #[trigger] ray_disk(placed, x, y, dx, dy, j)
            == ray_disk(g, x, y, dx, dy, j) by {
            lemma_rays_apart(x, y, dx, dy, dx, dy, j, j);
        }
        if k >= 1 {
            assert(ray_disk(placed, x, y, dx, dy, k + 1) == ray_disk(g, x, y, dx, dy, k + 1));
            if run_of_opponents(g, x, y, dx, dy, color, k) {
                assert forall|j: int| 1 <= j <= k implies #[trigger] ray_disk(
                    placed,
                    x,
                    y,
                    dx,
                    dy,
                    j,
                ) == Some(color.flipped()) by {
                    assert(ray_disk(g, x, y, dx, dy, j) == Some(color.flipped()));
                }
            }
            if run_of_opponents(placed, x, y, dx, dy, color, k) {
                assert forall|j: int| 1 <= j <= k implies #[trigger] ray_disk(
                    g,
                    x,
                    y,
                    dx,
                    dy,
                    j,
                ) == Some(color.flipped()) by {
                    assert(ray_disk(placed, x, y, dx, dy, j) == Some(color.flipped()));
                }
            }
        }
    }
    assert forall|cx: int, cy: int|
        is_flipped(placed, x, y, color, cx, cy) == is_flipped(g, x, y, color, cx, cy) by {
        if is_flipped(placed, x, y, color, cx, cy) {
            let (dx, dy, k, j) = choose|dx: int, dy: int, k: int, j: int|
                is_direction(dx, dy) && #[trigger] brackets(placed, x, y, dx, dy, color, k) && 1
                    <= j <= k && cx == #[trigger] step(x, dx, j) && cy == step(y, dy, j);
            assert(brackets(g, x, y, dx, dy, color, k));
            assert(cx == step(x, dx, j));
        }
        if is_flipped(g, x, y, color, cx, cy) {
            let (dx, dy, k, j) = choose|dx: int, dy: int, k: int, j: int|
                is_direction(dx, dy) && #[trigger] brackets(g, x, y, dx, dy, color, k) && 1 <= j
                    <= k && cx == #[trigger] step(x, dx, j) && cy == step(y, dy, j);
            assert(brackets(placed, x, y, dx, dy, color, k));
            assert(cx == step(x, dx, j));
        }
    }
    assert(flips_applied(placed, x, y, color) =~~= after_move(g, x, y, color));
}

/// What a legal move does to the board: the played cell holds the mover's
/// colour; every disk of the mover stays; an empty cell other than the
/// played one stays empty; and a cell other than the played one changes only
/// from the opponent's colour to the mover's.
pub proof fn lemma_move_only_turns_opponents(g: Grid, x: int, y: int, color: DiskColor)
    requires
        well_formed(g),
        valid_move(g, x, y, color),
    ensures
        well_formed(after_move(g, x, y, color)),
        after_move(g, x, y, color)[y][x] == Some(color),
        forall|cx: int, cy: int|
            on_board(cx, cy) && g[cy][cx] == Some(color) ==> #[trigger] after_move(
                g,
                x,
                y,
                color,
            )[cy][cx] == Some(color),
        forall|cx: int, cy: int|
            on_board(cx, cy) && !(cx == x && cy == y) && #[trigger] after_move(
                g,
                x,
                y,
                color,
            )[cy][cx] != g[cy][cx] ==> g[cy][cx] == Some(color.flipped()) && after_move(
                g,
                x,
                y,
                color,
            )[cy][cx] == Some(color),
        exists|cx: int, cy: int|
            on_board(cx, cy) && g[cy][cx] == Some(color.flipped()) && #[trigger] after_move(
                g,
                x,
                y,
                color,
            )[cy][cx] == Some(color),
{
    let after = after_move(g, x, y, color);
    assert forall|cx: int, cy: int|
        on_board(cx, cy) && is_flipped(g, x, y, color, cx, cy) implies g[cy][cx] == Some(
        color.flipped(),
    ) by {
        let (dx, dy, k, j) = choose|dx: int, dy: int, k: int, j: int|
            is_direction(dx, dy) && #[trigger] brackets(g, x, y, dx, dy, color, k) && 1 <= j <= k
                && cx == #[trigger] step(x, dx, j) && cy == step(y, dy, j);
        assert(ray_disk(g, x, y, dx, dy, j) == Some(color.flipped()));
    }
    assert forall|cx: int, cy: int|
        on_board(cx, cy) && !(cx == x && cy == y) && #[trigger] after[cy][cx]
            != g[cy][cx] implies g[cy][cx] == Some(color.flipped()) && after[cy][cx] == Some(
        color,
    ) by {
        assert(is_flipped(g, x, y, color, cx, cy));
    }
    let (dx, dy) = choose|dx: int, dy: int|
        is_direction(dx, dy) && captures(g, x, y, dx, dy, color);
    let k = choose|k: int| brackets(g, x, y, dx, dy, color, k);
    assert(ray_disk(g, x, y, dx, dy, 1) == Some(color.flipped()));
    let cx = step(x, dx, 1);
    let cy = step(y, dy, 1);
    assert(is_flipped(g, x, y, color, cx, cy));
    assert(on_board(cx, cy) && g[cy][cx] == Some(color.flipped()) && after[cy][cx] == Some(color));
}

/// How many of the cells of a row hold a disk of `color`.
pub open spec fn count_in_row(row: Seq<Option<DiskColor>>, color: DiskColor) -> nat
    decreases row.len(),
{
    if row.len() == 0 {
        0
    } else {
        count_in_row(row.drop_last(), color) + if row.last() == Some(color) {
            1nat
        } else {
            0nat
        }
    }
}

/// How many disks of `color` the grid holds.
pub open spec fn disk_count(g: Grid, color: DiskColor) -> nat
    decreases g.len(),
{
    if g.len() == 0 {
        0
    } else {
        disk_count(g.drop_last(), color) + count_in_row(g.last(), color)
    }
}

/// The number of cells of a grid.
pub open spec fn cell_count(g: Grid) -> nat
    decreases g.len(),
{
    if g.len() == 0 {
        0
    } else {
        cell_count(g.drop_last()) + g.last().len()
    }
}

/// A row has at most as many disks as cells.
pub proof fn lemma_row_counts_bounded(row: Seq<Option<DiskColor>>)
    ensures
        count_in_row(row, DiskColor::Black) + count_in_row(row, DiskColor::White) <= row.len(),
    decreases row.len(),
{
    if row.len() > 0 {
        lemma_row_counts_bounded(row.drop_last());
    }
}

/// A grid has at most as many disks as cells.
pub proof fn lemma_counts_bounded(g: Grid)
    ensures
        disk_count(g, DiskColor::Black) + disk_count(g, DiskColor::White) <= cell_count(g),
    decreases g.len(),
{
    if g.len() > 0 {
        lemma_counts_bounded(g.drop_last());
        lemma_row_counts_bounded(g.last());
    }
}

/// The first `n` rows of a well-formed grid hold `8 * n` cells.
pub proof fn lemma_cells_of_rows(g: Grid, n: int)
    requires
        well_formed(g),
        0 <= n <= 8,
    ensures
        cell_count(g.take(n)) == 8 * n,
    decreases n,
{
    if n > 0 {
        lemma_cells_of_rows(g, n - 1);
        assert(g.take(n).drop_last() =~= g.take(n - 1));
        assert(g.take(n).last() == g[n - 1]);
    }
}

/// Black and white together hold at most 64 disks on a well-formed grid.
pub proof fn lemma_at_most_64_disks(g: Grid)
    requires
        well_formed(g),
    ensures
        disk_count(g, DiskColor::Black) + disk_count(g, DiskColor::White) <= 64,
{
    lemma_counts_bounded(g);
    lemma_cells_of_rows(g, 8);
    assert(g.take(8) =~= g);
}

/// Counts the black and the white disks on the board.
pub fn count_disks(board: &Vec<Vec<Option<DiskColor>>>) -> (counts: (usize, usize))
    requires
        well_formed(grid_of(board)),
    ensures
        counts.0 == disk_count(grid_of(board), DiskColor::Black),
        counts.1 == disk_count(grid_of(board), DiskColor::White),
        counts.0 + counts.1 <= 64,
{
    let ghost g = grid_of(board);
    let mut black: usize = 0;
    let mut white: usize = 0;
    let mut y: usize = 0;
    assert(g.take(0) =~= Seq::<Seq<Option<DiskColor>>>::empty());
    while y < 8
        invariant
            y <= 8,
            g == grid_of(board),
            well_formed(g),
            black == disk_count(g.take(y as int), DiskColor::Black),
            white == disk_count(g.take(y as int), DiskColor::White),
            black + white <= 8 * y,
        decreases 8 - y,
    {
        let ghost row = g[y as int];
        assert(row == board@[y as int]@);
        let mut row_black: usize = 0;
        let mut row_white: usize = 0;
        let mut x: usize = 0;
        assert(row.take(0) =~= Seq::<Option<DiskColor>>::empty());
        while x < 8
            invariant
                x <= 8,
                y < 8,
                g == grid_of(board),
                well_formed(g),
                row == g[y as int],
                row == board@[y as int]@,
                row_black == count_in_row(row.take(x as int), DiskColor::Black),
                row_white == count_in_row(row.take(x as int), DiskColor::White),
                row_black + row_white <= x,
            decreases 8 - x,
        {
            assert(row.take(x + 1).drop_last() =~= row.take(x as int));
            assert(row.take(x + 1).last() == row[x as int]);
            match board[y][x] {
                Some(DiskColor::Black) => {
                    row_black += 1;
                },
                Some(DiskColor::White) => {
                    row_white += 1;
                },
                None => {},
            }
            x += 1;
        }
        assert(row.take(8) =~= row);
        assert(g.take(y + 1).drop_last() =~= g.take(y as int));
        assert(g.take(y + 1).last() == row);
        black += row_black;
        white += row_white;
        y += 1;
    }
    assert(g.take(8) =~= g);
    (black, white)
}

} // verus!
