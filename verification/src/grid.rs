//! The board as a grid of cells: which cell shows which glyph, and the order
//! in which the cells are laid out.
//!
//! Columns count from the left and rows from the bottom, so row
//! `BOARD_HEIGHT - 1` is the top edge. The outermost ring of cells is a
//! decorative frame; every other cell is an interior cell and takes part in
//! the simulation.

use crate::glyph::ElementValue;
use vstd::prelude::*;

verus! {

/// Number of columns, frame included.
pub const BOARD_WIDTH: u32 = 75;

/// Number of rows, frame included.
pub const BOARD_HEIGHT: u32 = 20;

/// Number of cells of the frame that are not corners.
pub const SIDE_CELLS: usize = 182;

/// Number of interior cells.
pub const INTERIOR_CELLS: usize = 1314;

/// Number of cells of the whole board.
pub const BOARD_CELLS: usize = 1500;

/// One cell of the board and the glyph it shows at rest.
#[derive(Clone, Copy, Debug, PartialEq, Eq, Structural)]
pub struct BoardCell {
    pub col: u32,
    pub row: u32,
    pub value: ElementValue,
}

/// `(col, row)` names a cell of the board.
pub open spec fn on_board(col: int, row: int) -> bool {
    0 <= col < BOARD_WIDTH && 0 <= row < BOARD_HEIGHT
}

/// `(col, row)` names an interior cell: on the board and not on the frame.
pub open spec fn is_interior_cell(col: int, row: int) -> bool {
    1 <= col <= BOARD_WIDTH - 2 && 1 <= row <= BOARD_HEIGHT - 2
}

/// The glyph that belongs at `(col, row)`.
pub open spec fn element_of(col: int, row: int) -> ElementValue {
    if col == 0 {
        if row == 0 {
            ElementValue::BottomLeft
        } else if row == BOARD_HEIGHT - 1 {
            ElementValue::TopLeft
        } else {
            ElementValue::Left
        }
    } else if col == BOARD_WIDTH - 1 {
        if row == 0 {
            ElementValue::BottomRight
        } else if row == BOARD_HEIGHT - 1 {
            ElementValue::TopRight
        } else {
            ElementValue::Right
        }
    } else if row == 0 {
        ElementValue::Bottom
    } else if row == BOARD_HEIGHT - 1 {
        ElementValue::Top
    } else {
        ElementValue::Central
    }
}

/// The cell at `(col, row)` with the glyph that belongs there.
pub open spec fn cell_of(col: int, row: int) -> BoardCell {
    BoardCell { col: col as u32, row: row as u32, value: element_of(col, row) }
}

/// The `i`-th cell in layout order: the four corners (top left, top right,
/// bottom left, bottom right), then the bottom and top edges column by
/// column, then the left and right edges row by row, then the interior column
/// by column, each column from the bottom up.
pub open spec fn layout_cell(i: int) -> BoardCell {
    let w = BOARD_WIDTH as int;
    let h = BOARD_HEIGHT as int;
    if i == 0 {
        cell_of(0, h - 1)
    } else if i == 1 {
        cell_of(w - 1, h - 1)
    } else if i == 2 {
        cell_of(0, 0)
    } else if i == 3 {
        cell_of(w - 1, 0)
    } else if i < 4 + 2 * (w - 2) {
        let k = i - 4;
        cell_of(1 + k / 2, if k % 2 == 0 { 0 } else { h - 1 })
    } else if i < 4 + 2 * (w - 2) + 2 * (h - 2) {
        let k = i - 4 - 2 * (w - 2);
        cell_of(if k % 2 == 0 { 0 } else { w - 1 }, 1 + k / 2)
    } else {
        let k = i - 4 - 2 * (w - 2) - 2 * (h - 2);
        cell_of(1 + k / (h - 2), 1 + k % (h - 2))
    }
}

/// Every cell of the board, in layout order.
pub open spec fn layout() -> Seq<BoardCell> {
    Seq::new(BOARD_CELLS as nat, |i: int| layout_cell(i))
}

/// The `k`-th interior cell: the interior column by column from the left,
/// each column from the bottom up.
pub open spec fn interior_cell(k: int) -> (u32, u32) {
    ((1 + k / (BOARD_HEIGHT - 2)) as u32, (1 + k % (BOARD_HEIGHT - 2)) as u32)
}

/// Every interior cell, in order.
pub open spec fn interior() -> Seq<(u32, u32)> {
    Seq::new(INTERIOR_CELLS as nat, |k: int| interior_cell(k))
}

/// Where the interior cell at `(col, row)` stands among the interior cells.
pub open spec fn interior_place(col: int, row: int) -> int {
    (col - 1) * (BOARD_HEIGHT - 2) + (row - 1)
}

/// Where the cell at `(col, row)` stands in the layout.
pub open spec fn layout_index(col: int, row: int) -> int {
    let w = BOARD_WIDTH as int;
    let h = BOARD_HEIGHT as int;
    if is_interior_cell(col, row) {
        4 + 2 * (w - 2) + 2 * (h - 2) + (col - 1) * (h - 2) + (row - 1)
    } else if 1 <= row <= h - 2 {
        4 + 2 * (w - 2) + 2 * (row - 1) + if col == 0 { 0int } else { 1int }
    } else if 1 <= col <= w - 2 {
        4 + 2 * (col - 1) + if row == 0 { 0int } else { 1int }
    } else if row == 0 {
        if col == 0 { 2 } else { 3 }
    } else {
        if col == 0 { 0 } else { 1 }
    }
}

/// The centre of the cell at `(col, row)`, measured from the centre of the
/// board in half cells: a cell is two units wide and two units high, and the
/// board's centre is the origin of the plane.
pub open spec fn center_in_half_cells(col: int, row: int) -> (int, int) {
    (2 * col + 1 - BOARD_WIDTH, 2 * row + 1 - BOARD_HEIGHT)
}

/// The centre of the cell at `(col, row)` in half cells from the centre of
/// the board. Times half the width, or height, of a cell this is the centre
/// in plane coordinates.
pub fn cell_center(col: u32, row: u32) -> (center: (i32, i32))
    requires
        on_board(col as int, row as int),
    ensures
        (center.0 as int, center.1 as int) == center_in_half_cells(col as int, row as int),
{
    let x = 2 * (col as i32) + 1 - (BOARD_WIDTH as i32);
    let y = 2 * (row as i32) + 1 - (BOARD_HEIGHT as i32);
    (x, y)
}

/// Whether `(col, row)` is an interior cell. Total: a position off the board
/// is not interior.
pub fn is_interior(col: u32, row: u32) -> (inside: bool)
    ensures
        inside == is_interior_cell(col as int, row as int),
{
    1 <= col && col <= BOARD_WIDTH - 2 && 1 <= row && row <= BOARD_HEIGHT - 2
}

/// The glyph that belongs at `(col, row)` of the board.
pub fn element_at(col: u32, row: u32) -> (value: ElementValue)
    requires
        on_board(col as int, row as int),
    ensures
        value == element_of(col as int, row as int),
{
    let left = col == 0;
    let right = col == BOARD_WIDTH - 1;
    let bottom = row == 0;
    let top = row == BOARD_HEIGHT - 1;
    if left && bottom {
        ElementValue::BottomLeft
    } else if left && top {
        ElementValue::TopLeft
    } else if right && bottom {
        ElementValue::BottomRight
    } else if right && top {
        ElementValue::TopRight
    } else if left {
        ElementValue::Left
    } else if right {
        ElementValue::Right
    } else if bottom {
        ElementValue::Bottom
    } else if top {
        ElementValue::Top
    } else {
        ElementValue::Central
    }
}

/// Lists the interior cells, the cells of the simulation, in order.
pub fn interior_cells() -> (cells: Vec<(u32, u32)>)
    ensures
        cells@ == interior(),
{
    let mut cells: Vec<(u32, u32)> = Vec::new();
    let mut col: u32 = 1;
    while col < BOARD_WIDTH - 1
        invariant
            1 <= col <= BOARD_WIDTH - 1,
            cells@.len() == interior_place(col as int, 1),
            forall|k: int| 0 <= k < cells@.len() ==> cells@[k] == interior_cell(k),
        decreases BOARD_WIDTH - col,
    {
        let mut row: u32 = 1;
        while row < BOARD_HEIGHT - 1
            invariant
                1 <= col < BOARD_WIDTH - 1,
                1 <= row <= BOARD_HEIGHT - 1,
                cells@.len() == interior_place(col as int, row as int),
                forall|k: int| 0 <= k < cells@.len() ==> cells@[k] == interior_cell(k),
            decreases BOARD_HEIGHT - row,
        {
            proof {
                lemma_interior_place(col as int, row as int);
            }
            cells.push((col, row));
            row += 1;
        }
        assert((col - 1) * (BOARD_HEIGHT - 2) + (BOARD_HEIGHT - 2) == col * (BOARD_HEIGHT - 2))
            by (nonlinear_arith);
        col += 1;
    }
    assert(cells@ =~= interior());
    cells
}

/// Where the interior cell at `(col, row)` stands among the interior cells.
pub fn interior_index(col: u32, row: u32) -> (k: usize)
    requires
        is_interior_cell(col as int, row as int),
    ensures
        k == interior_place(col as int, row as int),
        k < INTERIOR_CELLS,
        interior()[k as int] == (col, row),
{
    proof {
        lemma_interior_place(col as int, row as int);
    }
    (col as usize - 1) * (BOARD_HEIGHT as usize - 2) + (row as usize - 1)
}

/// Lists every cell of the board with its glyph, in layout order.
pub fn board_layout() -> (cells: Vec<BoardCell>)
    ensures
        cells@ == layout(),
{
    let mut cells: Vec<BoardCell> = Vec::new();
    cells.push(BoardCell { col: 0, row: BOARD_HEIGHT - 1, value: ElementValue::TopLeft });
    cells.push(
        BoardCell { col: BOARD_WIDTH - 1, row: BOARD_HEIGHT - 1, value: ElementValue::TopRight },
    );
    cells.push(BoardCell { col: 0, row: 0, value: ElementValue::BottomLeft });
    cells.push(BoardCell { col: BOARD_WIDTH - 1, row: 0, value: ElementValue::BottomRight });
    let mut col: u32 = 1;
    while col < BOARD_WIDTH - 1
        invariant
            1 <= col <= BOARD_WIDTH - 1,
            cells@.len() == 4 + 2 * (col - 1),
            forall|i: int| 0 <= i < cells@.len() ==> cells@[i] == layout_cell(i),
        decreases BOARD_WIDTH - col,
    {
        cells.push(BoardCell { col, row: 0, value: ElementValue::Bottom });
        cells.push(BoardCell { col, row: BOARD_HEIGHT - 1, value: ElementValue::Top });
        col += 1;
    }
    let mut row: u32 = 1;
    while row < BOARD_HEIGHT - 1
        invariant
            1 <= row <= BOARD_HEIGHT - 1,
            cells@.len() == 4 + 2 * (BOARD_WIDTH - 2) + 2 * (row - 1),
            forall|i: int| 0 <= i < cells@.len() ==> cells@[i] == layout_cell(i),
        decreases BOARD_HEIGHT - row,
    {
        cells.push(BoardCell { col: 0, row, value: ElementValue::Left });
        cells.push(BoardCell { col: BOARD_WIDTH - 1, row, value: ElementValue::Right });
        row += 1;
    }
    let mut col: u32 = 1;
    while col < BOARD_WIDTH - 1
        invariant
            1 <= col <= BOARD_WIDTH - 1,
            cells@.len() == 4 + SIDE_CELLS + (col - 1) * (BOARD_HEIGHT - 2),
            forall|i: int| 0 <= i < cells@.len() ==> cells@[i] == layout_cell(i),
        decreases BOARD_WIDTH - col,
    {
        let mut row: u32 = 1;
        while row < BOARD_HEIGHT - 1
            invariant
                1 <= col < BOARD_WIDTH - 1,
                1 <= row <= BOARD_HEIGHT - 1,
                cells@.len() == 4 + SIDE_CELLS + (col - 1) * (BOARD_HEIGHT - 2) + (row - 1),
                forall|i: int| 0 <= i < cells@.len() ==> cells@[i] == layout_cell(i),
            decreases BOARD_HEIGHT - row,
        {
            proof {
                lemma_layout_covers(col as int, row as int);
            }
            cells.push(BoardCell { col, row, value: ElementValue::Central });
            row += 1;
        }
        assert((col - 1) * (BOARD_HEIGHT - 2) + (BOARD_HEIGHT - 2) == col * (BOARD_HEIGHT - 2))
            by (nonlinear_arith);
        col += 1;
    }
    assert(cells@ =~= layout());
    cells
}

/// The layout names cells of the board only, and gives each the glyph that
/// belongs at its position; a cell shows the resting glyph of the simulation
/// exactly when it is an interior cell.
pub proof fn lemma_layout_glyphs(i: int)
    requires
        0 <= i < BOARD_CELLS,
    ensures
        on_board(layout()[i].col as int, layout()[i].row as int),
        layout()[i].value == element_of(layout()[i].col as int, layout()[i].row as int),
        layout()[i].value == ElementValue::Central <==> is_interior_cell(
            layout()[i].col as int,
            layout()[i].row as int,
        ),
        layout_index(layout()[i].col as int, layout()[i].row as int) == i,
{
}

/// No cell of the board is skipped: the cell at `(col, row)` stands in the
/// layout, at `layout_index(col, row)`.
pub proof fn lemma_layout_covers(col: int, row: int)
    requires
        on_board(col, row),
    ensures
        0 <= layout_index(col, row) < layout().len(),
        layout()[layout_index(col, row)] == cell_of(col, row),
{
}

/// No cell of the board is listed twice: two places of the layout that name
/// the same position are the same place.
pub proof fn lemma_layout_distinct(i: int, j: int)
    requires
        0 <= i < BOARD_CELLS,
        0 <= j < BOARD_CELLS,
        layout()[i].col == layout()[j].col,
        layout()[i].row == layout()[j].row,
    ensures
        i == j,
{
    lemma_layout_glyphs(i);
    lemma_layout_glyphs(j);
}

/// The cells lie evenly about the centre of the board: each centre is within
/// the board's half extent by at least half a cell, neighbours are one cell
/// apart, and the centre of a cell mirrors that of the cell opposite.
pub proof fn lemma_centers(col: int, row: int)
    requires
        on_board(col, row),
    ensures
        -(BOARD_WIDTH as int) < center_in_half_cells(col, row).0 < BOARD_WIDTH,
        -(BOARD_HEIGHT as int) < center_in_half_cells(col, row).1 < BOARD_HEIGHT,
        center_in_half_cells(col + 1, row).0 == center_in_half_cells(col, row).0 + 2,
        center_in_half_cells(col, row + 1).1 == center_in_half_cells(col, row).1 + 2,
        center_in_half_cells(BOARD_WIDTH - 1 - col, BOARD_HEIGHT - 1 - row) == (
            -center_in_half_cells(col, row).0,
            -center_in_half_cells(col, row).1,
        ),
{
}

/// No interior cell is skipped and none is listed twice: the interior cell at
/// `(col, row)` stands at `interior_place(col, row)` and nowhere else.
pub proof fn lemma_interior_place(col: int, row: int)
    requires
        is_interior_cell(col, row),
    ensures
        0 <= interior_place(col, row) < INTERIOR_CELLS,
        interior_cell(interior_place(col, row)) == (col as u32, row as u32),
        forall|k: int|
            0 <= k < INTERIOR_CELLS && #[trigger] interior_cell(k) == (col as u32, row as u32)
                ==> k == interior_place(col, row),
{
    assert((col - 1) * (BOARD_HEIGHT - 2) <= (BOARD_WIDTH - 3) * (BOARD_HEIGHT - 2))
        by (nonlinear_arith)
        requires
            col - 1 <= BOARD_WIDTH - 3,
    ;
}

/// Every place among the interior cells holds an interior cell of the board,
/// the one that the layout lists at that place behind the frame.
pub proof fn lemma_interior_cell(k: int)
    requires
        0 <= k < INTERIOR_CELLS,
    ensures
        is_interior_cell(interior_cell(k).0 as int, interior_cell(k).1 as int),
        interior_place(interior_cell(k).0 as int, interior_cell(k).1 as int) == k,
        layout()[4 + SIDE_CELLS + k] == cell_of(
            interior_cell(k).0 as int,
            interior_cell(k).1 as int,
        ),
{
}

/// The interior cells are the last `INTERIOR_CELLS` cells of the layout.
pub proof fn lemma_layout_interior(i: int)
    requires
        0 <= i < BOARD_CELLS,
    ensures
        layout()[i].value == ElementValue::Central <==> i >= 4 + SIDE_CELLS,
        BOARD_CELLS == 4 + SIDE_CELLS + INTERIOR_CELLS,
{
}

} // verus!
