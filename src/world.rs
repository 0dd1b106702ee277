use vstd::prelude::*;

use crate::action::Action;
use crate::object::Object;
use crate::random::{draw_between, Gen};
use crate::state::State;

verus! {

/// A rectangular grid of cells stored row by row: cell `(r, c)` is
/// `cells[r * cols + c]`.
#[derive(Clone, Debug)]
pub struct World {
    pub rows: usize,
    pub cols: usize,
    pub cells: Vec<Object>,
}

/// The mathematical grid: dimensions and the cells in row-major order.
pub struct Grid {
    pub rows: nat,
    pub cols: nat,
    pub cells: Seq<Object>,
}

/// A location as a pair of integers (row, column).
pub open spec fn pos(l: (usize, usize)) -> (int, int) {
    (l.0 as int, l.1 as int)
}

/// The cell next to `l` in the direction of a move; `l` itself for the
/// actions that do not move.
pub open spec fn neighbor(l: (int, int), a: Action) -> (int, int) {
    match a {
        Action::MoveUp => (l.0 - 1, l.1),
        Action::MoveDown => (l.0 + 1, l.1),
        Action::MoveLeft => (l.0, l.1 - 1),
        Action::MoveRight => (l.0, l.1 + 1),
        _ => l,
    }
}

/// How many times `o` occurs in `s`.
pub open spec fn count(s: Seq<Object>, o: Object) -> nat
    decreases s.len(),
{
    if s.len() == 0 {
        0
    } else {
        count(s.drop_last(), o) + if s.last() == o {
            1nat
        } else {
            0nat
        }
    }
}

impl View for World {
    type V = Grid;

    open spec fn view(&self) -> Grid {
        Grid { rows: self.rows as nat, cols: self.cols as nat, cells: self.cells@ }
    }
}

impl Grid {
    pub open spec fn index(self, l: (int, int)) -> int {
        l.0 * self.cols + l.1
    }

    pub open spec fn cell(self, l: (int, int)) -> Object {
        self.cells[self.index(l)]
    }

    pub open spec fn in_bounds(self, l: (int, int)) -> bool {
        0 <= l.0 < self.rows && 0 <= l.1 < self.cols
    }

    pub open spec fn on_border(self, l: (int, int)) -> bool {
        l.0 == 0 || l.0 == self.rows - 1 || l.1 == 0 || l.1 == self.cols - 1
    }

    pub open spec fn interior(self, l: (int, int)) -> bool {
        0 < l.0 < self.rows - 1 && 0 < l.1 < self.cols - 1
    }

    /// At least two interior rows and columns, and a cell for each location.
    pub open spec fn shaped(self) -> bool {
        &&& self.rows >= 4
        &&& self.cols >= 4
        &&& self.cells.len() == self.rows * self.cols
    }

    /// Walls on the border and nowhere else.
    pub open spec fn wf(self) -> bool {
        &&& self.shaped()
        &&& forall|l: (int, int)|
            self.in_bounds(l) ==> (#[trigger] self.cell(l) == Object::Wall <==> self.on_border(l))
    }

    /// Number of goals on the grid.
    pub open spec fn goals(self) -> nat {
        count(self.cells, Object::Goal)
    }

    /// Number of interior cells.
    pub open spec fn interior_size(self) -> int {
        (self.rows - 2) * (self.cols - 2)
    }

    /// What the agent at `l` sees.
    pub open spec fn state_at(self, l: (int, int)) -> State {
        State {
            up: self.cell((l.0 - 1, l.1)),
            down: self.cell((l.0 + 1, l.1)),
            left: self.cell((l.0, l.1 - 1)),
            right: self.cell((l.0, l.1 + 1)),
            center: self.cell(l),
        }
    }

    /// Where action `a` taken at `l` leads: into the neighbouring cell for a
    /// move, unless that cell is a wall; nowhere for the other actions.
    pub open spec fn next_location(self, l: (int, int), a: Action) -> (int, int) {
        if a.is_direction() && self.cell(neighbor(l, a)) != Object::Wall {
            neighbor(l, a)
        } else {
            l
        }
    }

    /// The reward of action `a` at `l`: one for picking up a goal.
    pub open spec fn reward(self, l: (int, int), a: Action) -> nat {
        if a == Action::PickUp && self.cell(l) == Object::Goal {
            1
        } else {
            0
        }
    }

    /// The grid after action `a` at `l`: a goal picked up leaves an empty cell.
    pub open spec fn after(self, l: (int, int), a: Action) -> Grid {
        if self.reward(l, a) == 1 {
            Grid { cells: self.cells.update(self.index(l), Object::Empty), ..self }
        } else {
            self
        }
    }
}

/// Moving up into a wall leaves the agent where it is; moving up into any
/// other cell takes it one row up in the same column.
pub proof fn lemma_move_up(g: Grid, l: (int, int))
    requires
        g.wf(),
        g.interior(l),
    ensures
        g.cell((l.0 - 1, l.1)) == Object::Wall ==> g.next_location(l, Action::MoveUp) == l,
        g.cell((l.0 - 1, l.1)) != Object::Wall ==> g.next_location(l, Action::MoveUp) == (
            l.0 - 1,
            l.1,
        ),
        g.reward(l, Action::MoveUp) == 0,
        g.after(l, Action::MoveUp) == g,
{
}

/// Picking up a goal empties its cell and earns one; picking up again at
/// the same place earns nothing and changes nothing.
pub proof fn lemma_pick_up_twice(g: Grid, l: (int, int))
    requires
        g.wf(),
        g.interior(l),
        g.cell(l) == Object::Goal,
    ensures
        g.reward(l, Action::PickUp) == 1,
        g.after(l, Action::PickUp).cell(l) == Object::Empty,
        g.after(l, Action::PickUp).goals() + 1 == g.goals(),
        g.after(l, Action::PickUp).reward(l, Action::PickUp) == 0,
        g.after(l, Action::PickUp).after(l, Action::PickUp) == g.after(l, Action::PickUp),
{
    lemma_index_bound(l.0, l.1, g.rows as int, g.cols as int);
    lemma_count_update(g.cells, g.index(l), Object::Empty, Object::Goal);
}

/// Bounds of a row-major index.
pub proof fn lemma_index_bound(r: int, c: int, rows: int, cols: int)
    requires
        0 <= r < rows,
        0 <= c < cols,
    ensures
        0 <= r * cols + c < rows * cols,
        r * cols + cols <= rows * cols,
{
    assert((r + 1) * cols <= rows * cols) by (nonlinear_arith)
        requires
            r + 1 <= rows,
            cols >= 0,
    ;
    assert((r + 1) * cols == r * cols + cols) by (nonlinear_arith);
    assert(r * cols >= 0) by (nonlinear_arith)
        requires
            r >= 0,
            cols >= 0,
    ;
}

/// The indices of the four neighbours of an interior cell.
proof fn lemma_neighbor_index(g: Grid, l: (int, int))
    requires
        g.shaped(),
        g.interior(l),
    ensures
        g.index((l.0 - 1, l.1)) == g.index(l) - g.cols,
        g.index((l.0 + 1, l.1)) == g.index(l) + g.cols,
        g.index((l.0, l.1 - 1)) == g.index(l) - 1,
        g.index((l.0, l.1 + 1)) == g.index(l) + 1,
        0 <= g.index(l) - g.cols,
        g.index(l) + g.cols < g.cells.len(),
{
    let r = l.0;
    let c = l.1;
    let cols = g.cols as int;
    assert((r - 1) * cols + c == r * cols + c - cols && (r + 1) * cols + c == r * cols + c
        + cols) by (nonlinear_arith);
    lemma_index_bound(r + 1, c, g.rows as int, cols);
    lemma_index_bound(r - 1, c, g.rows as int, cols);
}

/// Counting after appending one object.
pub proof fn lemma_count_push(s: Seq<Object>, x: Object, o: Object)
    ensures
        count(s.push(x), o) == count(s, o) + if x == o {
            1nat
        } else {
            0nat
        },
{
    assert(s.push(x).drop_last() =~= s);
}

/// Counting after replacing one object.
pub proof fn lemma_count_update(s: Seq<Object>, i: int, x: Object, o: Object)
    requires
        0 <= i < s.len(),
    ensures
        count(s.update(i, x), o) + (if s[i] == o {
            1nat
        } else {
            0nat
        }) == count(s, o) + if x == o {
            1nat
        } else {
            0nat
        },
    decreases s.len(),
{
    let t = s.update(i, x);
    if i == s.len() - 1 {
        assert(t.drop_last() =~= s.drop_last());
    } else {
        assert(t.drop_last() =~= s.drop_last().update(i, x));
        lemma_count_update(s.drop_last(), i, x, o);
    }
}

/// An object that is counted occurs somewhere.
pub proof fn lemma_count_witness(s: Seq<Object>, o: Object)
    requires
        count(s, o) > 0,
    ensures
        exists|i: int| 0 <= i < s.len() && s[i] == o,
    decreases s.len(),
{
    if s.last() != o {
        lemma_count_witness(s.drop_last(), o);
        let i = choose|i: int| 0 <= i < s.drop_last().len() && s.drop_last()[i] == o;
        assert(s[i] == o);
    } else {
        assert(s[s.len() - 1] == o);
    }
}

/// An interior cell of a well-formed grid is no wall, and the agent there
/// never sees walls on two opposite sides.
pub proof fn lemma_interior_state_reachable(g: Grid, l: (int, int))
    requires
        g.wf(),
        g.interior(l),
    ensures
        g.state_at(l).reachable(),
        g.state_at(l).center != Object::Wall,
{
    assert(g.in_bounds(l));
    assert(g.in_bounds((l.0 - 1, l.1)));
    assert(g.in_bounds((l.0 + 1, l.1)));
    assert(g.in_bounds((l.0, l.1 - 1)));
    assert(g.in_bounds((l.0, l.1 + 1)));
}

/// Replacing a cell that is no wall by another that is no wall keeps the
/// grid well formed.
pub proof fn lemma_replace_open_cell(g: Grid, i: int, x: Object)
    requires
        g.wf(),
        0 <= i < g.cells.len(),
        g.cells[i] != Object::Wall,
        x != Object::Wall,
    ensures
        (Grid { cells: g.cells.update(i, x), ..g }).wf(),
{
    let h = Grid { cells: g.cells.update(i, x), ..g };
    assert forall|l: (int, int)| h.in_bounds(l) implies (#[trigger] h.cell(l) == Object::Wall
        <==> h.on_border(l)) by {
        assert(g.in_bounds(l));
        lemma_index_bound(l.0, l.1, g.rows as int, g.cols as int);
        assert(g.cell(l) == Object::Wall <==> g.on_border(l));
    }
}

/// Putting a goal on an empty cell keeps the grid well formed, adds one goal
/// and takes away one empty cell.
pub proof fn lemma_place_goal(g: Grid, i: int)
    requires
        g.wf(),
        0 <= i < g.cells.len(),
        g.cells[i] == Object::Empty,
    ensures
        (Grid { cells: g.cells.update(i, Object::Goal), ..g }).wf(),
        count(g.cells.update(i, Object::Goal), Object::Goal) == g.goals() + 1,
        count(g.cells.update(i, Object::Goal), Object::Empty) + 1 == count(g.cells, Object::Empty),
{
    lemma_replace_open_cell(g, i, Object::Goal);
    lemma_count_update(g.cells, i, Object::Goal, Object::Goal);
    lemma_count_update(g.cells, i, Object::Goal, Object::Empty);
}

/// The object at location `l` of row-major cells with `cols` columns.
pub open spec fn cell_of(cells: Seq<Object>, cols: nat, l: (int, int)) -> Object {
    cells[l.0 * cols + l.1]
}

/// Interior rows among the first `r` rows of a grid with `rows` rows.
pub open spec fn interior_rows_before(r: int, rows: int) -> int {
    if r <= 1 {
        0
    } else if r >= rows - 1 {
        rows - 2
    } else {
        r - 1
    }
}

impl World {
    /// The object at row `r`, column `c`.
    pub fn get(&self, r: usize, c: usize) -> (o: Object)
        requires
            self@.shaped(),
            r < self.rows,
            c < self.cols,
        ensures
            o == self@.cell((r as int, c as int)),
    {
        proof {
            lemma_index_bound(r as int, c as int, self.rows as int, self.cols as int);
        }
        // A vector's length fits in `usize`, and so does the index below it.
        let len = self.cells.len();
        let i = r * self.cols + c;
        assert(i < len);
        self.cells[i]
    }
}

/// What the agent at `location` sees: its four neighbours and its own cell.
pub fn get_state(world: &World, location: (usize, usize)) -> (s: State)
    requires
        world@.shaped(),
        world@.interior(pos(location)),
    ensures
        s == world@.state_at(pos(location)),
        world@.wf() ==> s.reachable(),
        world@.wf() ==> s.center != Object::Wall,
{
    let (row, col) = location;
    let cols = world.cols;
    proof {
        lemma_neighbor_index(world@, pos(location));
        lemma_index_bound(row as int, col as int, world.rows as int, cols as int);
        if world@.wf() {
            lemma_interior_state_reachable(world@, pos(location));
        }
    }
    // A vector's length fits in `usize`, and so does the index below it.
    let len = world.cells.len();
    let i = row * cols + col;
    assert(i < len);
    State {
        up: world.cells[i - cols],
        down: world.cells[i + cols],
        left: world.cells[i - 1],
        right: world.cells[i + 1],
        center: world.cells[i],
    }
}

/// Carries out an action other than `MoveRandom` at `location`: a move
/// enters the neighbouring cell unless it is a wall; `PickUp` on a goal
/// empties the cell and earns one.
pub fn apply_move(world: &mut World, location: (usize, usize), action: Action) -> (r: (
    (usize, usize),
    u32,
))
    requires
        old(world)@.wf(),
        old(world)@.interior(pos(location)),
        action != Action::MoveRandom,
    ensures
        pos(r.0) == old(world)@.next_location(pos(location), action),
        r.1 == old(world)@.reward(pos(location), action),
        final(world)@ == old(world)@.after(pos(location), action),
        final(world)@.wf(),
        final(world)@.interior(pos(r.0)),
{
    let ghost g = world@;
    let (row, col) = location;
    let cols = world.cols;
    proof {
        lemma_neighbor_index(g, pos(location));
        lemma_index_bound(row as int, col as int, world.rows as int, cols as int);
        assert(g.in_bounds((row - 1, col as int)));
        assert(g.in_bounds((row + 1, col as int)));
        assert(g.in_bounds((row as int, col - 1)));
        assert(g.in_bounds((row as int, col + 1)));
    }
    // A vector's length fits in `usize`, and so does the index below it.
    let len = world.cells.len();
    let i = row * cols + col;
    assert(i < len);
    match action {
        Action::MoveUp => {
            if world.cells[i - cols] != Object::Wall {
                return ((row - 1, col), 0);
            }
        },
        Action::MoveDown => {
            if world.cells[i + cols] != Object::Wall {
                return ((row + 1, col), 0);
            }
        },
        Action::MoveLeft => {
            if world.cells[i - 1] != Object::Wall {
                return ((row, col - 1), 0);
            }
        },
        Action::MoveRight => {
            if world.cells[i + 1] != Object::Wall {
                return ((row, col + 1), 0);
            }
        },
        _ => {
            if world.cells[i] == Object::Goal {
                world.cells.set(i, Object::Empty);
                assert(world@ == g.after(pos(location), action));
                proof {
                    lemma_replace_open_cell(g, i as int, Object::Empty);
                }
                return ((row, col), 1);
            }
        },
    }
    ((row, col), 0)
}


/// Largest number of draws spent on placing one goal; after that many
/// collisions the first free cell in row-major order takes the goal.
pub const PLACEMENT_DRAWS: u64 = 4294967296;

/// A uniformly drawn interior location: the row first, then the column.
pub fn get_random_location(rng: &mut Gen, rows: usize, cols: usize) -> (l: (usize, usize))
    requires
        rows >= 3,
        cols >= 3,
    ensures
        0 < l.0 < rows - 1,
        0 < l.1 < cols - 1,
{
    let row = draw_between(rng, 1, rows - 2);
    let col = draw_between(rng, 1, cols - 2);
    (row, col)
}

/// Cells of a `rows` by `cols` grid with walls on the border and every
/// other cell empty.
fn walled_cells(rows: usize, cols: usize) -> (cells: Vec<Object>)
    requires
        rows >= 4,
        cols >= 4,
        rows * cols <= usize::MAX,
    ensures
        (Grid { rows: rows as nat, cols: cols as nat, cells: cells@ }).wf(),
        count(cells@, Object::Goal) == 0,
        count(cells@, Object::Empty) == (rows - 2) * (cols - 2),
{
    let mut cells: Vec<Object> = Vec::new();
    let mut r: usize = 0;
    while r < rows
        invariant
            r <= rows,
            rows >= 4,
            cols >= 4,
            cells@.len() == r * cols,
            forall|l: (int, int)|
                0 <= l.0 < r && 0 <= l.1 < cols ==> (#[trigger] cell_of(cells@, cols as nat, l)
                    == Object::Wall <==> (l.0 == 0 || l.0 == rows - 1 || l.1 == 0 || l.1 == cols
                    - 1)),
            count(cells@, Object::Goal) == 0,
            count(cells@, Object::Empty) == interior_rows_before(r as int, rows as int) * (cols
                - 2),
        decreases rows - r,
    {
        let ghost before = cells@;
        let mut c: usize = 0;
        while c < cols
            invariant
                r < rows,
                c <= cols,
                rows >= 4,
                cols >= 4,
                cells@.len() == r * cols + c,
                before.len() == r * cols,
                cells@.subrange(0, r * cols) == before,
                forall|l: (int, int)|
                    ((0 <= l.0 < r && 0 <= l.1 < cols) || (l.0 == r && 0 <= l.1 < c)) ==> (
                    #[trigger] cell_of(cells@, cols as nat, l) == Object::Wall <==> (l.0 == 0
                        || l.0 == rows - 1 || l.1 == 0 || l.1 == cols - 1)),
                forall|l: (int, int)|
                    0 <= l.0 < r && 0 <= l.1 < cols ==> #[trigger] cell_of(cells@, cols as nat, l)
                        == cell_of(before, cols as nat, l),
                count(cells@, Object::Goal) == 0,
                count(cells@, Object::Empty) == interior_rows_before(r as int, rows as int) * (
                cols - 2) + if 0 < r < rows - 1 {
                    interior_rows_before(c as int, cols as int)
                } else {
                    0
                },
            decreases cols - c,
        {
            let o = if r == 0 || r == rows - 1 || c == 0 || c == cols - 1 {
                Object::Wall
            } else {
                Object::Empty
            };
            let ghost prev = cells@;
            proof {
                lemma_count_push(prev, o, Object::Goal);
                lemma_count_push(prev, o, Object::Empty);
            }
            cells.push(o);
            proof {
                assert forall|l: (int, int)|
                    ((0 <= l.0 < r && 0 <= l.1 < cols) || (l.0 == r && 0 <= l.1 < c
                        + 1)) implies #[trigger] cell_of(cells@, cols as nat, l) == if l.0 == r
                    && l.1 == c {
                    o
                } else {
                    cell_of(prev, cols as nat, l)
                } by {
                    if l.0 < r {
                        lemma_index_bound(l.0, l.1, r as int, cols as int);
                    }
                }
                assert(cells@.subrange(0, r * cols) =~= prev.subrange(0, r * cols));
            }
            c = c + 1;
        }
        proof {
            assert((r + 1) * cols == r * cols + cols) by (nonlinear_arith);
            assert(interior_rows_before(r + 1, rows as int) * (cols - 2) == interior_rows_before(
                r as int,
                rows as int,
            ) * (cols - 2) + if 0 < r < rows - 1 {
                cols - 2
            } else {
                0
            }) by (nonlinear_arith)
                requires
                    interior_rows_before(r + 1, rows as int) == interior_rows_before(
                        r as int,
                        rows as int,
                    ) + if 0 < r < rows - 1 {
                        1int
                    } else {
                        0
                    },
            ;
        }
        r = r + 1;
    }
    let ghost g = Grid { rows: rows as nat, cols: cols as nat, cells: cells@ };
    assert forall|l: (int, int)| g.in_bounds(l) implies (#[trigger] g.cell(l) == Object::Wall
        <==> g.on_border(l)) by {
        assert(cell_of(cells@, cols as nat, l) == g.cell(l));
    }
    cells
}

/// Puts a goal at `location` if that cell is empty; says whether it did.
pub fn place_goal(world: &mut World, location: (usize, usize)) -> (placed: bool)
    requires
        old(world)@.wf(),
        old(world)@.interior(pos(location)),
    ensures
        placed == (old(world)@.cell(pos(location)) == Object::Empty),
        placed ==> final(world)@ == (Grid {
            cells: old(world)@.cells.update(old(world)@.index(pos(location)), Object::Goal),
            ..old(world)@
        }),
        !placed ==> *final(world) == *old(world),
        final(world)@.wf(),
        placed ==> final(world)@.goals() == old(world)@.goals() + 1 && count(
            final(world)@.cells,
            Object::Empty,
        ) + 1 == count(old(world)@.cells, Object::Empty),
{
    let (row, col) = location;
    proof {
        lemma_index_bound(row as int, col as int, world.rows as int, world.cols as int);
    }
    // A vector's length fits in `usize`, and so does the index below it.
    let len = world.cells.len();
    let i = row * world.cols + col;
    assert(i < len);
    if world.cells[i] == Object::Empty {
        proof {
            lemma_place_goal(world@, i as int);
        }
        world.cells.set(i, Object::Goal);
        true
    } else {
        false
    }
}

/// A `rows` by `cols` grid with walls on the border and `n_goals` goals on
/// distinct interior cells. Each goal goes to a uniformly drawn interior
/// location, drawn again while that cell already holds a goal.
pub fn create_random_world(rng: &mut Gen, rows: usize, cols: usize, n_goals: usize) -> (w: World)
    requires
        rows >= 4,
        cols >= 4,
        rows * cols <= usize::MAX,
        n_goals <= (rows - 2) * (cols - 2),
    ensures
        w.rows == rows,
        w.cols == cols,
        w@.wf(),
        w@.goals() == n_goals,
        count(w@.cells, Object::Empty) + n_goals == w@.interior_size(),
{
    let cells = walled_cells(rows, cols);
    let mut world = World { rows, cols, cells };
    let n = world.cells.len();
    let mut placed: usize = 0;
    while placed < n_goals
        invariant
            placed <= n_goals,
            n_goals <= (rows - 2) * (cols - 2),
            world.rows == rows,
            world.cols == cols,
            n == world.cells@.len(),
            world@.wf(),
            world@.goals() == placed,
            count(world@.cells, Object::Empty) + placed == world@.interior_size(),
        decreases n_goals - placed,
    {
        let mut done = false;
        let mut draws: u64 = 0;
        while !done && draws < PLACEMENT_DRAWS
            invariant
                placed < n_goals,
                n_goals <= (rows - 2) * (cols - 2),
                world.rows == rows,
                world.cols == cols,
                n == world.cells@.len(),
                world@.wf(),
                world@.goals() == placed + if done {
                    1nat
                } else {
                    0nat
                },
                count(world@.cells, Object::Empty) + world@.goals() == world@.interior_size(),
            decreases PLACEMENT_DRAWS - draws,
        {
            let location = get_random_location(rng, rows, cols);
            done = place_goal(&mut world, location);
            draws = draws + 1;
        }
        if !done {
            proof {
                lemma_count_witness(world@.cells, Object::Empty);
            }
            let mut j: usize = 0;
            while j < n && world.cells[j] != Object::Empty
                invariant
                    j <= n,
                    n == world.cells@.len(),
                    forall|k: int| 0 <= k < j ==> world.cells@[k] != Object::Empty,
                decreases n - j,
            {
                j = j + 1;
            }
            if j < n {
                proof {
                    lemma_place_goal(world@, j as int);
                }
                world.cells.set(j, Object::Goal);
            }
        }
        placed = placed + 1;
    }
    world
}

} // verus!
