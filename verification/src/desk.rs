use vstd::prelude::*;

use crate::Vector2;
use crate::errors::GameError;
use crate::units::{Unit, UnitStats, UnitType};

verus! {

/// A cell of the board: its fixed position and the unit standing on it, if
/// any. A cell never holds more than one unit.
#[derive(Clone, Copy, PartialEq, Eq, Structural, Debug)]
pub struct Cell {
    pub unit: Option<Unit>,
    pub position: Vector2,
}

impl Cell {
    pub fn new(x: i8, y: i8, id: i8) -> (c: Cell)
        ensures
            c.unit is None,
            c.position == (Vector2 { x, y, id }),
    {
        Cell { unit: None, position: Vector2::new(x, y, id) }
    }
}

/// The mathematical value of a board: the cell sequence and the two ranges.
#[verifier::ext_equal]
pub struct DeskView {
    pub cells: Seq<Cell>,
    pub x_range: int,
    pub y_range: int,
}

impl DeskView {
    /// Index of coordinate `(x, y)` in the cell sequence.
    pub open spec fn idx(self, x: int, y: int) -> int {
        x * self.y_range + y
    }

    pub open spec fn in_bounds(self, x: int, y: int) -> bool {
        0 <= x < self.x_range && 0 <= y < self.y_range
    }

    pub open spec fn cell_at(self, x: int, y: int) -> Cell {
        self.cells[self.idx(x, y)]
    }

    pub open spec fn unit_at(self, x: int, y: int) -> Option<Unit> {
        self.cell_at(x, y).unit
    }

    /// A well-formed board holds exactly one cell for every in-range
    /// coordinate, laid out so that the cell at sequence index `k` sits at
    /// the unique `(x, y)` with `idx(x, y) == k` and carries `k` as its tag.
    pub open spec fn wf(self) -> bool {
        &&& 0 <= self.x_range <= 127
        &&& 0 <= self.y_range <= 127
        &&& self.x_range * self.y_range <= 128
        &&& self.cells.len() == self.x_range * self.y_range
        &&& forall|k: int|
            0 <= k < self.cells.len() ==> {
                let p = (#[trigger] self.cells[k]).position;
                &&& self.in_bounds(p.x as int, p.y as int)
                &&& k == self.idx(p.x as int, p.y as int)
                &&& p.id as int == k
            }
        &&& forall|x: int, y: int|
            self.in_bounds(x, y) ==> {
                let p = (#[trigger] self.cell_at(x, y)).position;
                p.x == x && p.y == y
            }
    }

    /// The board with the occupant of cell `(x, y)` replaced.
    pub open spec fn with_unit(self, x: int, y: int, unit: Option<Unit>) -> DeskView {
        DeskView {
            cells: self.cells.update(
                self.idx(x, y),
                Cell { unit, position: self.cells[self.idx(x, y)].position },
            ),
            x_range: self.x_range,
            y_range: self.y_range,
        }
    }
}

/// In a well-formed board every in-range coordinate maps to a valid cell
/// index, so a board of ranges `W` and `H` holds exactly `W x H` cells, one
/// for each coordinate.
pub proof fn lemma_idx_in_range(xr: int, yr: int, x: int, y: int)
    by (nonlinear_arith)
    requires
        0 <= x < xr,
        0 <= y < yr,
    ensures
        0 <= x * yr,
        0 <= x * yr + y < xr * yr,
{
}

/// Two coordinates with the same cell index are the same coordinate.
pub proof fn lemma_idx_injective(yr: int, x1: int, y1: int, x2: int, y2: int)
    by (nonlinear_arith)
    requires
        0 <= y1 < yr,
        0 <= y2 < yr,
        x1 * yr + y1 == x2 * yr + y2,
    ensures
        x1 == x2,
        y1 == y2,
{
}

/// Replacing the occupant of one in-range cell keeps the board well formed,
/// puts the new occupant on that cell and leaves every other cell as it was.
pub proof fn lemma_with_unit_wf(d: DeskView, x: int, y: int, u: Option<Unit>)
    requires
        d.wf(),
        d.in_bounds(x, y),
    ensures
        d.with_unit(x, y, u).wf(),
        d.with_unit(x, y, u).unit_at(x, y) == u,
        forall|a: int, b: int|
            d.in_bounds(a, b) && !(a == x && b == y) ==> #[trigger] d.with_unit(
                x,
                y,
                u,
            ).unit_at(a, b) == d.unit_at(a, b),
{
    let n = d.with_unit(x, y, u);
    lemma_idx_in_range(d.x_range, d.y_range, x, y);
    assert forall|k: int| 0 <= k < n.cells.len() implies n.cells[k].position
        == d.cells[k].position by {
        assert(d.cells[k] == d.cells[k]);
    }
    assert forall|a: int, b: int| n.in_bounds(a, b) implies {
        let p = n.cell_at(a, b).position;
        p.x == a && p.y == b
    } by {
        lemma_idx_in_range(d.x_range, d.y_range, a, b);
        assert(d.cell_at(a, b).position.x == a && d.cell_at(a, b).position.y == b);
    }
    assert(n.wf());
    assert forall|a: int, b: int|
        d.in_bounds(a, b) && !(a == x && b == y) implies #[trigger] n.unit_at(a, b)
        == d.unit_at(a, b) by {
        lemma_idx_in_range(d.x_range, d.y_range, a, b);
        assert(d.cell_at(a, b).position.x == a && d.cell_at(a, b).position.y == b);
        assert(d.cell_at(x, y).position.x == x && d.cell_at(x, y).position.y == y);
        assert(d.idx(a, b) != d.idx(x, y));
    }
}

/// Distinct cells of a well-formed board carry distinct coordinates: the
/// cell index determines the coordinate and the coordinate the index.
pub proof fn lemma_cells_unique(d: DeskView, k1: int, k2: int)
    requires
        d.wf(),
        0 <= k1 < d.cells.len(),
        0 <= k2 < d.cells.len(),
        k1 != k2,
    ensures
        d.cells[k1].position.x != d.cells[k2].position.x
            || d.cells[k1].position.y != d.cells[k2].position.y,
{
}

/// The rectangular board: one cell per coordinate, each holding at most one
/// unit.
#[derive(Debug)]
pub struct Desk {
    pub cells: Vec<Cell>,
    pub x_range: i8,
    pub y_range: i8,
}

impl View for Desk {
    type V = DeskView;

    open spec fn view(&self) -> DeskView {
        DeskView {
            cells: self.cells@,
            x_range: self.x_range as int,
            y_range: self.y_range as int,
        }
    }
}

impl Desk {
    pub fn new(x: i8, y: i8) -> (d: Desk)
        requires
            0 <= x,
            0 <= y,
            x * y <= 128,
        ensures
            d@.wf(),
            d@.x_range == x as int,
            d@.y_range == y as int,
            d@.cells.len() == x * y,
            forall|i: int, j: int| d@.in_bounds(i, j) ==> d@.unit_at(i, j) is None,
    {
        let d = Desk { cells: Self::generate_desk(x, y), x_range: x, y_range: y };
        proof {
            assert forall|i: int, j: int| d@.in_bounds(i, j) implies {
                let c = d@.cell_at(i, j);
                c.unit is None && c.position.x == i && c.position.y == j
            } by {
                lemma_idx_in_range(x as int, y as int, i, j);
                let k = d@.idx(i, j);
                let p = d@.cells[k].position;
                lemma_idx_injective(y as int, p.x as int, p.y as int, i, j);
            }
            assert(d@.wf());
        }
        d
    }

    fn generate_desk(x: i8, y: i8) -> (cells: Vec<Cell>)
        requires
            0 <= x,
            0 <= y,
            x * y <= 128,
        ensures
            cells@.len() == x * y,
            forall|k: int|
                0 <= k < cells@.len() ==> {
                    let p = (#[trigger] cells@[k]).position;
                    &&& 0 <= p.x < x
                    &&& 0 <= p.y < y
                    &&& k == p.x * y + p.y
                    &&& p.id as int == k
                },
            forall|k: int| 0 <= k < cells@.len() ==> (#[trigger] cells@[k]).unit is None,
    {
        let mut cells: Vec<Cell> = Vec::new();
        for i in 0..x
            invariant
                0 <= x,
                0 <= y,
                x * y <= 128,
                cells@.len() == i * y,
                forall|k: int|
                    0 <= k < cells@.len() ==> {
                        let p = (#[trigger] cells@[k]).position;
                        &&& 0 <= p.x < x
                        &&& 0 <= p.y < y
                        &&& k == p.x * y + p.y
                        &&& p.id as int == k
                    },
                forall|k: int| 0 <= k < cells@.len() ==> (#[trigger] cells@[k]).unit is None,
        {
            for j in 0..y
                invariant
                    0 <= i < x,
                    0 <= y,
                    x * y <= 128,
                    cells@.len() == i * y + j,
                    forall|k: int|
                        0 <= k < cells@.len() ==> {
                            let p = (#[trigger] cells@[k]).position;
                            &&& 0 <= p.x < x
                            &&& 0 <= p.y < y
                            &&& k == p.x * y + p.y
                            &&& p.id as int == k
                        },
                    forall|k: int| 0 <= k < cells@.len() ==> (#[trigger] cells@[k]).unit is None,
            {
                proof {
                    lemma_idx_in_range(x as int, y as int, i as int, j as int);
                }
                let tag: i8 = i * y + j;
                cells.push(Cell::new(i, j, tag));
            }
            proof {
                assert((i + 1) * y == i * y + y) by (nonlinear_arith);
            }
        }
        cells
    }

    /// An independent copy of the board with the same value.
    pub fn duplicate(&self) -> (d: Desk)
        ensures
            d@ == self@,
    {
        let cells = self.cells.clone();
        proof {
            assert forall|i: int| 0 <= i < self.cells@.len() implies cells@[i]
                == self.cells@[i] by {}
            assert(cells@ =~= self.cells@);
        }
        Desk { cells, x_range: self.x_range, y_range: self.y_range }
    }

    /// The cell at `(x, y)`, or `PositionNotFound` if that coordinate lies
    /// outside the board.
    pub fn get_cell_at(&self, x: i8, y: i8) -> (r: Result<Cell, GameError>)
        requires
            self@.wf(),
        ensures
            match r {
                Ok(c) => self@.in_bounds(x as int, y as int) && c == self@.cell_at(
                    x as int,
                    y as int,
                ),
                Err(e) => e == GameError::PositionNotFound && !self@.in_bounds(
                    x as int,
                    y as int,
                ),
            },
    {
        if 0 <= x && x < self.x_range && 0 <= y && y < self.y_range {
            proof {
                lemma_idx_in_range(
                    self.x_range as int,
                    self.y_range as int,
                    x as int,
                    y as int,
                );
            }
            let k: usize = (x as usize) * (self.y_range as usize) + (y as usize);
            Ok(self.cells[k])
        } else {
            Err(GameError::PositionNotFound)
        }
    }

    /// Overwrites the occupant of the in-range cell `(x, y)`. The board's
    /// shape and every other cell stay as they were.
    pub fn insert_unit_at_cell(&mut self, x: i8, y: i8, unit: Option<Unit>)
        requires
            old(self)@.wf(),
            old(self)@.in_bounds(x as int, y as int),
        ensures
            final(self)@ == old(self)@.with_unit(x as int, y as int, unit),
            final(self)@.wf(),
    {
        proof {
            lemma_idx_in_range(
                self.x_range as int,
                self.y_range as int,
                x as int,
                y as int,
            );
        }
        let k: usize = (x as usize) * (self.y_range as usize) + (y as usize);
        let position = self.cells[k].position;
        self.cells.push(Cell { unit, position });
        self.cells.swap_remove(k);
        proof {
            lemma_with_unit_wf(old(self)@, x as int, y as int, unit);
            assert(self@.cells =~= old(self)@.with_unit(x as int, y as int, unit).cells);
            assert(self@ =~= old(self)@.with_unit(x as int, y as int, unit));
        }
    }
    /// The first unit in cell order whose id is `unit_id`, scanning from
    /// index `k`.
    pub open spec fn find_unit_from(cells: Seq<Cell>, unit_id: i8, k: int) -> Option<Unit>
        decreases cells.len() - k,
    {
        if k < 0 || k >= cells.len() {
            None
        } else if cells[k].unit is Some && cells[k].unit->0.unit_id == unit_id {
            cells[k].unit
        } else {
            Self::find_unit_from(cells, unit_id, k + 1)
        }
    }

    /// The first unit on the board whose id is `unit_id`, in cell order.
    pub open spec fn find_unit(d: DeskView, unit_id: i8) -> Option<Unit> {
        Self::find_unit_from(d.cells, unit_id, 0)
    }

    /// Linear search across all cells for the unit with the given id.
    pub fn get_unit_by_id(&self, unit_id: i8) -> (r: Result<Unit, GameError>)
        requires
            self@.wf(),
        ensures
            match r {
                Ok(u) => Self::find_unit(self@, unit_id) == Some(u),
                Err(e) => e == GameError::UnitNotFound && Self::find_unit(self@, unit_id) is None,
            },
    {
        let n = self.cells.len();
        for k in 0..n
            invariant
                n == self.cells.len(),
                Self::find_unit(self@, unit_id) == Self::find_unit_from(self@.cells, unit_id, k as int),
        {
            match self.cells[k].unit {
                Some(u) => {
                    if u.unit_id == unit_id {
                        return Ok(u);
                    }
                },
                None => {},
            }
        }
        Err(GameError::UnitNotFound)
    }

    /// Installs the unit on the target cell, recording its position in the
    /// unit, or reports `CellOccupied` without touching the board. A target
    /// outside the board is `PositionNotFound`.
    pub fn place_unit(&mut self, position: Vector2, unit: Unit) -> (r: Result<
        bool,
        GameError,
    >)
        requires
            old(self)@.wf(),
        ensures
            final(self)@.wf(),
            match r {
                Ok(b) => {
                    &&& b
                    &&& old(self)@.in_bounds(position.x as int, position.y as int)
                    &&& old(self)@.unit_at(position.x as int, position.y as int) is None
                    &&& final(self)@ == old(self)@.with_unit(
                        position.x as int,
                        position.y as int,
                        Some(Unit { current_position: position, ..unit }),
                    )
                },
                Err(e) => {
                    &&& final(self)@ == old(self)@
                    &&& if !old(self)@.in_bounds(position.x as int, position.y as int) {
                        e == GameError::PositionNotFound
                    } else {
                        e == GameError::CellOccupied && old(self)@.unit_at(
                            position.x as int,
                            position.y as int,
                        ) is Some
                    }
                },
            },
    {
        let cell = match self.get_cell_at(position.x, position.y) {
            Ok(c) => c,
            Err(e) => {
                return Err(e);
            },
        };
        if cell.unit.is_some() {
            return Err(GameError::CellOccupied);
        }
        let placed = Unit { current_position: position, ..unit };
        self.insert_unit_at_cell(position.x, position.y, Some(placed));
        Ok(true)
    }

    /// Subtracts `damage` from the hp of the unit on the in-range cell
    /// `(x, y)`. A unit whose hp falls to or below zero is removed and its id
    /// returned; otherwise, and on an empty cell, the sentinel -1 comes back.
    pub fn deal_damage_at_cell(&mut self, x: i8, y: i8, damage: u128) -> (removed: i8)
        requires
            old(self)@.wf(),
            old(self)@.in_bounds(x as int, y as int),
        ensures
            final(self)@.wf(),
            final(self)@ == damage_at(old(self)@, x as int, y as int, damage as int),
            removed == removed_at(old(self)@, x as int, y as int, damage as int),
    {
        let cell = match self.get_cell_at(x, y) {
            Ok(c) => c,
            Err(_) => {
                return -1;
            },
        };
        match cell.unit {
            None => -1,
            Some(u) => {
                if damage >= u.stats.hp as u128 {
                    self.insert_unit_at_cell(x, y, None);
                    u.unit_id
                } else {
                    let hurt = Unit {
                        stats: UnitStats { hp: u.stats.hp - damage as u32, ..u.stats },
                        ..u
                    };
                    self.insert_unit_at_cell(x, y, Some(hurt));
                    -1
                }
            },
        }
    }
}

/// The unit after taking `damage` points, or nothing if that kills it.
pub open spec fn damaged_unit(u: Unit, damage: int) -> Option<Unit> {
    if damage >= u.stats.hp {
        None
    } else {
        Some(Unit { stats: UnitStats { hp: (u.stats.hp - damage) as u32, ..u.stats }, ..u })
    }
}

/// The board after `damage` points hit the in-range cell `(x, y)`: a no-op on
/// an empty cell; otherwise the occupant is hurt or, at or below zero hp,
/// removed.
pub open spec fn damage_at(d: DeskView, x: int, y: int, damage: int) -> DeskView {
    match d.unit_at(x, y) {
        None => d,
        Some(u) => d.with_unit(x, y, damaged_unit(u, damage)),
    }
}

/// The id of the unit that `damage` points on cell `(x, y)` remove, or -1
/// when nothing is removed.
pub open spec fn removed_at(d: DeskView, x: int, y: int, damage: int) -> i8 {
    match d.unit_at(x, y) {
        Some(u) => if damage >= u.stats.hp {
            u.unit_id
        } else {
            -1i8
        },
        None => -1i8,
    }
}

/// The fixed cell offsets around an attacked cell that a unit of the given
/// kind damages: the eight surrounding cells for an Orc, a cardinal cross of
/// reach two for a Mage, the four orthogonal neighbours for a Skeleton.
pub open spec fn footprint(unit_type: UnitType) -> Seq<(i8, i8)> {
    match unit_type {
        UnitType::Orc => seq![
            (1i8, 0i8),
            (0i8, 1i8),
            (-1i8, 0i8),
            (0i8, -1i8),
            (1i8, 1i8),
            (-1i8, -1i8),
            (-1i8, 1i8),
            (1i8, -1i8),
        ],
        UnitType::Mage => seq![
            (1i8, 0i8),
            (2i8, 0i8),
            (-1i8, 0i8),
            (-2i8, 0i8),
            (0i8, 1i8),
            (0i8, 2i8),
            (0i8, -1i8),
            (0i8, -2i8),
        ],
        UnitType::Skeleton => seq![(1i8, 0i8), (-1i8, 0i8), (0i8, 1i8), (0i8, -1i8)],
    }
}

/// The cell one footprint offset away from `(cx, cy)`, or nothing when that
/// falls off the board.
pub open spec fn footprint_cell(d: DeskView, cx: int, cy: int, off: (i8, i8)) -> Option<Cell> {
    if d.in_bounds(cx + off.0, cy + off.1) {
        Some(d.cell_at(cx + off.0, cy + off.1))
    } else {
        None
    }
}

/// The footprint offsets of a kind as a vector, in their fixed order.
pub fn footprint_offsets(unit_type: UnitType) -> (offs: Vec<(i8, i8)>)
    ensures
        offs@ == footprint(unit_type),
{
    let mut offs: Vec<(i8, i8)> = Vec::new();
    match unit_type {
        UnitType::Orc => {
            offs.push((1, 0));
            offs.push((0, 1));
            offs.push((-1, 0));
            offs.push((0, -1));
            offs.push((1, 1));
            offs.push((-1, -1));
            offs.push((-1, 1));
            offs.push((1, -1));
        },
        UnitType::Mage => {
            offs.push((1, 0));
            offs.push((2, 0));
            offs.push((-1, 0));
            offs.push((-2, 0));
            offs.push((0, 1));
            offs.push((0, 2));
            offs.push((0, -1));
            offs.push((0, -2));
        },
        UnitType::Skeleton => {
            offs.push((1, 0));
            offs.push((-1, 0));
            offs.push((0, 1));
            offs.push((0, -1));
        },
    }
    proof {
        assert(offs@ =~= footprint(unit_type));
    }
    offs
}

impl Desk {
    /// The cell at an offset coordinate, tolerating out-of-range values.
    fn cell_lookup(&self, x: i16, y: i16) -> (r: Option<Cell>)
        requires
            self@.wf(),
        ensures
            r == if self@.in_bounds(x as int, y as int) {
                Some(self@.cell_at(x as int, y as int))
            } else {
                None::<Cell>
            },
    {
        if 0 <= x && x < self.x_range as i16 && 0 <= y && y < self.y_range as i16 {
            proof {
                lemma_idx_in_range(
                    self.x_range as int,
                    self.y_range as int,
                    x as int,
                    y as int,
                );
            }
            let k: usize = (x as usize) * (self.y_range as usize) + (y as usize);
            Some(self.cells[k])
        } else {
            None
        }
    }

    /// The cells an area attack of the given kind centred on `position`
    /// reaches, one entry per footprint offset; offsets falling outside the
    /// board yield `None`.
    pub fn get_cells_to_deal_damage(&self, position: Vector2, unit_type: UnitType) -> (r: Vec<
        Option<Cell>,
    >)
        requires
            self@.wf(),
        ensures
            r@.len() == footprint(unit_type).len(),
            forall|i: int|
                0 <= i < r@.len() ==> r@[i] == footprint_cell(
                    self@,
                    position.x as int,
                    position.y as int,
                    footprint(unit_type)[i],
                ),
    {
        let offs = footprint_offsets(unit_type);
        let mut r: Vec<Option<Cell>> = Vec::new();
        let n = offs.len();
        for i in 0..n
            invariant
                n == offs@.len(),
                offs@ == footprint(unit_type),
                self@.wf(),
                r@.len() == i,
                forall|j: int|
                    0 <= j < i ==> r@[j] == footprint_cell(
                        self@,
                        position.x as int,
                        position.y as int,
                        footprint(unit_type)[j],
                    ),
        {
            let (dx, dy) = offs[i];
            let c = self.cell_lookup(position.x as i16 + dx as i16, position.y as i16 + dy as i16);
            r.push(c);
        }
        r
    }
}

} // verus!
