//! The slot grids of the game board: how many slots each region has, in which
//! column and row a slot lies, and the table of pixels at which the slots are
//! sampled and clicked.

use vstd::prelude::*;

verus! {

/// Cells in one row of the idle queue.
pub const IDLE_ROW_WIDTH: u32 = 7;

/// Rows of the idle queue.
pub const IDLE_ROWS: u32 = 6;

/// Pages in one row of RAM.
pub const RAM_ROW_WIDTH: u32 = 16;

/// Pages in one row of the disk.
pub const DISK_ROW_WIDTH: u32 = 16;

/// Rows of the disk that are looked at.
pub const DISK_ROWS: u32 = 10;

/// Cells of the idle queue.
pub const IDLE_CAPACITY: u32 = 42;

/// Pages of the disk that are looked at.
pub const DISK_CAPACITY: u32 = 160;

/// The most rows of RAM whose pages can still be counted.
pub const MAX_RAM_ROWS: u32 = 0x0fff_ffff;

/// Column and row of a slot within its region's grid.
#[derive(Debug, PartialEq, Eq, Structural, Clone, Copy)]
pub struct Cell {
    pub column: u32,
    pub row: u32,
}

/// The cell of slot `index` in a grid with `row_width` cells to the row.
pub open spec fn cell_of(index: nat, row_width: nat) -> (nat, nat) {
    (index % row_width, index / row_width)
}

/// The slot that lies at `column` and `row` of such a grid.
pub open spec fn index_of(column: nat, row: nat, row_width: nat) -> nat {
    row * row_width + column
}

/// A slot's cell leads back to the slot, and its column lies within the row.
pub proof fn lemma_cell_round_trip(index: nat, row_width: nat)
    requires
        row_width > 0,
    ensures
        cell_of(index, row_width).0 == index % row_width,
        cell_of(index, row_width).1 == index / row_width,
        cell_of(index, row_width).0 < row_width,
        index_of(cell_of(index, row_width).0, cell_of(index, row_width).1, row_width) == index,
{
    vstd::arithmetic::div_mod::lemma_fundamental_div_mod(index as int, row_width as int);
    vstd::arithmetic::div_mod::lemma_mod_bound(index as int, row_width as int);
    assert((index / row_width) * row_width == row_width * (index / row_width))
        by (nonlinear_arith);
}

/// A column and a row lead, through their slot, back to themselves.
pub proof fn lemma_index_round_trip(column: nat, row: nat, row_width: nat)
    requires
        column < row_width,
    ensures
        cell_of(index_of(column, row, row_width), row_width) == (column, row),
{
    vstd::arithmetic::div_mod::lemma_fundamental_div_mod_converse(
        (row * row_width + column) as int,
        row_width as int,
        row as int,
        column as int,
    );
}

/// Two slots of one grid that share a cell are the same slot.
pub proof fn lemma_cell_injective(i: nat, j: nat, row_width: nat)
    requires
        row_width > 0,
        cell_of(i, row_width) == cell_of(j, row_width),
    ensures
        i == j,
{
    lemma_cell_round_trip(i, row_width);
    lemma_cell_round_trip(j, row_width);
}

/// The cell of slot `index` in a grid with `row_width` cells to the row.
pub fn grid_cell(index: u32, row_width: u32) -> (c: Cell)
    requires
        row_width > 0,
    ensures
        (c.column as nat, c.row as nat) == cell_of(index as nat, row_width as nat),
        c.column < row_width,
        c.row * row_width + c.column == index,
{
    proof {
        lemma_cell_round_trip(index as nat, row_width as nat);
    }
    Cell { column: index % row_width, row: index / row_width }
}

/// The cell of a CPU: the CPUs stand in one row.
pub fn cpu_cell(num: u32) -> (c: Cell)
    ensures
        c.column == num,
        c.row == 0,
{
    Cell { column: num, row: 0 }
}

/// The cell of a slot of the idle queue.
pub fn idle_cell(num: u32) -> (c: Cell)
    ensures
        (c.column as nat, c.row as nat) == cell_of(num as nat, IDLE_ROW_WIDTH as nat),
        c.column < IDLE_ROW_WIDTH,
        num < IDLE_CAPACITY ==> c.row < IDLE_ROWS,
{
    grid_cell(num, IDLE_ROW_WIDTH)
}

/// The cell of a page of RAM.
pub fn ram_cell(num: u32) -> (c: Cell)
    ensures
        (c.column as nat, c.row as nat) == cell_of(num as nat, RAM_ROW_WIDTH as nat),
        c.column < RAM_ROW_WIDTH,
{
    grid_cell(num, RAM_ROW_WIDTH)
}

/// The cell of a page of the disk, within the disk's own grid.
pub fn disk_cell(num: u32) -> (c: Cell)
    ensures
        (c.column as nat, c.row as nat) == cell_of(num as nat, DISK_ROW_WIDTH as nat),
        c.column < DISK_ROW_WIDTH,
        num < DISK_CAPACITY ==> c.row < DISK_ROWS,
{
    grid_cell(num, DISK_ROW_WIDTH)
}

/// By how many rows of RAM the disk's grid is pushed down the screen: the
/// first row of RAM is part of the disk's own starting point, each further
/// one moves it by a row.
pub fn disk_shift(num_ram_rows: u32) -> (rows: u32)
    requires
        num_ram_rows >= 1,
    ensures
        rows == num_ram_rows - 1,
{
    num_ram_rows - 1
}

/// Pages in `num_ram_rows` rows of RAM.
pub open spec fn ram_capacity(num_ram_rows: nat) -> nat {
    num_ram_rows * 16
}

/// Pages in `num_ram_rows` rows of RAM.
pub fn avalible_pages_in_ram(num_ram_rows: u32) -> (pages: u32)
    requires
        num_ram_rows <= MAX_RAM_ROWS,
    ensures
        pages == ram_capacity(num_ram_rows as nat),
{
    num_ram_rows * RAM_ROW_WIDTH
}

/// A pixel of the screen.
#[derive(Debug, PartialEq, Eq, Structural, Clone, Copy)]
pub struct Point {
    pub x: u32,
    pub y: u32,
}

impl Point {
    /// Whether the point keeps `margin` pixels from every edge of a screen of
    /// the given size; with no margin, whether it lies on the screen.
    pub open spec fn clear_of_border(self, width: nat, height: nat, margin: nat) -> bool {
        margin <= self.x && self.x + margin < width && margin <= self.y && self.y + margin
            < height
    }

    /// Decides [`Point::clear_of_border`].
    pub fn is_clear_of_border(&self, width: u32, height: u32, margin: u32) -> (r: bool)
        ensures
            r == self.clear_of_border(width as nat, height as nat, margin as nat),
    {
        margin <= self.x && self.x < width && margin < width - self.x && margin <= self.y
            && self.y < height && margin < height - self.y
    }
}

/// Whether every point of a list keeps `margin` pixels from every edge.
pub open spec fn all_clear_of_border(
    points: Seq<Point>,
    width: nat,
    height: nat,
    margin: nat,
) -> bool {
    forall|i: int| 0 <= i < points.len() ==> (#[trigger] points[i]).clear_of_border(
        width,
        height,
        margin,
    )
}

/// Decides [`all_clear_of_border`].
pub fn are_clear_of_border(points: &Vec<Point>, width: u32, height: u32, margin: u32) -> (r:
    bool)
    ensures
        r == all_clear_of_border(points@, width as nat, height as nat, margin as nat),
{
    let mut i: usize = 0;
    while i < points.len()
        invariant
            i <= points.len(),
            forall|k: int|
                0 <= k < i ==> (#[trigger] points@[k]).clear_of_border(
                    width as nat,
                    height as nat,
                    margin as nat,
                ),
        decreases points.len() - i,
    {
        if !points[i].is_clear_of_border(width, height, margin) {
            return false;
        }
        i += 1;
    }
    true
}

/// Appends a list of points to another.
pub fn append_points(all: &mut Vec<Point>, more: &Vec<Point>)
    ensures
        final(all)@ == old(all)@ + more@,
{
    let mut i: usize = 0;
    while i < more.len()
        invariant
            i <= more.len(),
            all@ == old(all)@ + more@.take(i as int),
        decreases more.len() - i,
    {
        all.push(more[i]);
        i += 1;
        assert(all@ =~= old(all)@ + more@.take(i as int));
    }
    assert(more@.take(i as int) == more@);
}

/// The pixel of every slot of the board, region by region and in the order
/// of the slots, and the pixel of the I/O marker.
#[derive(Debug, Clone)]
pub struct Layout {
    pub cpus: Vec<Point>,
    pub idle: Vec<Point>,
    pub ram: Vec<Point>,
    pub disk: Vec<Point>,
    pub io: Point,
}

impl Layout {
    /// Whether the table has a pixel for each slot of a board with the given
    /// numbers of CPUs and rows of RAM.
    pub open spec fn shaped(self, num_cpus: nat, num_ram_rows: nat) -> bool {
        &&& self.cpus@.len() == num_cpus
        &&& self.idle@.len() == IDLE_CAPACITY
        &&& self.ram@.len() == ram_capacity(num_ram_rows)
        &&& self.disk@.len() == DISK_CAPACITY
    }

    /// Every pixel of the table, in the order cpus, idle, ram, disk, I/O.
    pub open spec fn points(self) -> Seq<Point> {
        self.cpus@ + self.idle@ + self.ram@ + self.disk@ + seq![self.io]
    }

    /// Whether every pixel of the table keeps `margin` pixels from every
    /// edge of a screen of the given size.
    pub open spec fn clear_of_border(self, width: nat, height: nat, margin: nat) -> bool {
        all_clear_of_border(self.points(), width, height, margin)
    }

    /// Every pixel of the table, in the order cpus, idle, ram, disk, I/O.
    pub fn all_points(&self) -> (all: Vec<Point>)
        ensures
            all@ == self.points(),
    {
        let mut all: Vec<Point> = Vec::new();
        append_points(&mut all, &self.cpus);
        append_points(&mut all, &self.idle);
        append_points(&mut all, &self.ram);
        append_points(&mut all, &self.disk);
        all.push(self.io);
        assert(all@ =~= self.points());
        all
    }

    /// Decides [`Layout::shaped`].
    pub fn has_shape(&self, num_cpus: u32, num_ram_rows: u32) -> (r: bool)
        ensures
            r == self.shaped(num_cpus as nat, num_ram_rows as nat),
    {
        let ram_rows: usize = self.ram.len() / 16;
        self.cpus.len() == num_cpus as usize && self.idle.len() == IDLE_CAPACITY as usize
            && self.ram.len() % 16 == 0 && ram_rows == num_ram_rows as usize && self.disk.len()
            == DISK_CAPACITY as usize
    }

    /// Decides [`Layout::clear_of_border`].
    pub fn is_clear_of_border(&self, width: u32, height: u32, margin: u32) -> (r: bool)
        ensures
            r == self.clear_of_border(width as nat, height as nat, margin as nat),
    {
        let r = are_clear_of_border(&self.cpus, width, height, margin) && are_clear_of_border(
            &self.idle,
            width,
            height,
            margin,
        ) && are_clear_of_border(&self.ram, width, height, margin) && are_clear_of_border(
            &self.disk,
            width,
            height,
            margin,
        ) && self.io.is_clear_of_border(width, height, margin);
        proof {
            self.lemma_clear_by_region(width as nat, height as nat, margin as nat);
        }
        r
    }

    /// The table is clear of the border exactly when each region and the
    /// I/O marker are.
    pub proof fn lemma_clear_by_region(self, width: nat, height: nat, margin: nat)
        ensures
            self.clear_of_border(width, height, margin) <==> {
                &&& all_clear_of_border(self.cpus@, width, height, margin)
                &&& all_clear_of_border(self.idle@, width, height, margin)
                &&& all_clear_of_border(self.ram@, width, height, margin)
                &&& all_clear_of_border(self.disk@, width, height, margin)
                &&& self.io.clear_of_border(width, height, margin)
            },
    {
        let all = self.points();
        let (a, b, c, d) = (
            self.cpus@.len() as int,
            self.idle@.len() as int,
            self.ram@.len() as int,
            self.disk@.len() as int,
        );
        if self.clear_of_border(width, height, margin) {
            assert forall|i: int| 0 <= i < a implies (#[trigger] self.cpus@[i]).clear_of_border(
                width,
                height,
                margin,
            ) by {
                assert(all[i] == self.cpus@[i]);
            }
            assert forall|i: int| 0 <= i < b implies (#[trigger] self.idle@[i]).clear_of_border(
                width,
                height,
                margin,
            ) by {
                assert(all[a + i] == self.idle@[i]);
            }
            assert forall|i: int| 0 <= i < c implies (#[trigger] self.ram@[i]).clear_of_border(
                width,
                height,
                margin,
            ) by {
                assert(all[a + b + i] == self.ram@[i]);
            }
            assert forall|i: int| 0 <= i < d implies (#[trigger] self.disk@[i]).clear_of_border(
                width,
                height,
                margin,
            ) by {
                assert(all[a + b + c + i] == self.disk@[i]);
            }
            assert(all[a + b + c + d] == self.io);
        }
    }
}

} // verus!
