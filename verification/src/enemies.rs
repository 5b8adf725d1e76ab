//! Placing the enemy ships from the enemies bitmap: every red pixel is a ship.

use vstd::prelude::*;
use crate::pixels::{is_color, lemma_concat_contains, lemma_grid_size, GridView, PixelGrid};

verus! {

pub const COLOR_SHIP: [u8; 4] = [0xbe, 0x0b, 0x19, 0xff];

/// A cell of an image: column `x`, row `y`.
#[derive(PartialEq, Eq, Structural, Clone, Copy, Debug)]
pub struct GridCell {
    pub x: u32,
    pub y: u32,
}

pub open spec fn cell(x: int, y: int) -> GridCell {
    GridCell { x: x as u32, y: y as u32 }
}

/// The ship cells among the first `rows` cells of column `x`, top to bottom.
pub open spec fn column_ships(g: GridView, x: int, rows: nat) -> Seq<GridCell>
    decreases rows,
{
    if rows == 0 {
        Seq::empty()
    } else if g.at(x, rows - 1) == COLOR_SHIP@ {
        column_ships(g, x, (rows - 1) as nat).push(cell(x, rows - 1))
    } else {
        column_ships(g, x, (rows - 1) as nat)
    }
}

/// The ship cells of the first `columns` columns, left to right.
pub open spec fn columns_ships(g: GridView, columns: nat) -> Seq<GridCell>
    decreases columns,
{
    if columns == 0 {
        Seq::empty()
    } else {
        columns_ships(g, (columns - 1) as nat) + column_ships(g, columns - 1, g.height)
    }
}

/// All ship cells of the image, column by column, each column top to bottom.
pub open spec fn ship_layout(g: GridView) -> Seq<GridCell> {
    columns_ships(g, g.width)
}

/// The cells where ships are spawned for an enemies image, column by column,
/// each column top to bottom.
pub fn ship_cells(grid: &PixelGrid) -> (cells: Vec<GridCell>)
    ensures
        cells@ == ship_layout(grid@),
{
    let width = grid.width();
    let height = grid.height();
    let mut cells: Vec<GridCell> = Vec::new();
    let mut x: u32 = 0;
    while x < width
        invariant
            x <= width,
            width == grid@.width,
            height == grid@.height,
            cells@ == columns_ships(grid@, x as nat),
        decreases width - x,
    {
        let ghost before = cells@;
        let mut y: u32 = 0;
        while y < height
            invariant
                x < width,
                y <= height,
                width == grid@.width,
                height == grid@.height,
                cells@ == before + column_ships(grid@, x as int, y as nat),
            decreases height - y,
        {
            if is_color(grid.pixel(x, y), &COLOR_SHIP) {
                cells.push(GridCell { x, y });
            }
            assert(cells@ =~= before + column_ships(grid@, x as int, (y + 1) as nat));
            y = y + 1;
        }
        x = x + 1;
    }
    cells
}

proof fn lemma_column_ships_contains(g: GridView, x: int, rows: nat, c: GridCell)
    requires
        0 <= x <= u32::MAX,
        rows <= u32::MAX + 1,
    ensures
        column_ships(g, x, rows).contains(c) <==> (c.x == x && c.y < rows && g.at(x, c.y as int)
            == COLOR_SHIP@),
    decreases rows,
{
    if rows > 0 {
        let last = rows - 1;
        let prefix = column_ships(g, x, (rows - 1) as nat);
        lemma_column_ships_contains(g, x, (rows - 1) as nat, c);
        if g.at(x, last) == COLOR_SHIP@ {
            lemma_concat_contains(prefix, seq![cell(x, last)], c);
            assert(prefix.push(cell(x, last)) == prefix + seq![cell(x, last)]);
            assert(seq![cell(x, last)][0] == cell(x, last));
            if c.x == x && c.y == last {
                assert(c == cell(x, last));
            }
        }
    }
}

proof fn lemma_columns_ships_contains(g: GridView, columns: nat, c: GridCell)
    requires
        columns <= u32::MAX + 1,
        g.height <= u32::MAX,
    ensures
        columns_ships(g, columns).contains(c) <==> (c.x < columns && c.y < g.height && g.at(
            c.x as int,
            c.y as int,
        ) == COLOR_SHIP@),
    decreases columns,
{
    if columns > 0 {
        let last = columns - 1;
        lemma_columns_ships_contains(g, (columns - 1) as nat, c);
        lemma_column_ships_contains(g, last, g.height, c);
        lemma_concat_contains(
            columns_ships(g, (columns - 1) as nat),
            column_ships(g, last, g.height),
            c,
        );
    }
}

/// A ship is spawned at a cell exactly when the cell lies in the image and
/// its pixel has the ship colour.
pub proof fn lemma_ship_placement(grid: &PixelGrid, c: GridCell)
    ensures
        ship_layout(grid@).contains(c) <==> (grid@.in_bounds(c.x as int, c.y as int) && grid@.at(
            c.x as int,
            c.y as int,
        ) == COLOR_SHIP@),
{
    lemma_grid_size(grid);
    lemma_columns_ships_contains(grid@, grid@.width, c);
}

/// `a` is scanned before `b`: an earlier column, or the same column and an
/// earlier row.
pub open spec fn scanned_before(a: GridCell, b: GridCell) -> bool {
    a.x < b.x || (a.x == b.x && a.y < b.y)
}

/// The cells are listed in scan order, each at most once.
pub open spec fn in_scan_order(s: Seq<GridCell>) -> bool {
    forall|i: int, j: int| 0 <= i < j < s.len() ==> scanned_before(s[i], s[j])
}

proof fn lemma_column_ships_ordered(g: GridView, x: int, rows: nat)
    requires
        0 <= x <= u32::MAX,
        rows <= u32::MAX + 1,
    ensures
        in_scan_order(column_ships(g, x, rows)),
    decreases rows,
{
    if rows > 0 {
        let prefix = column_ships(g, x, (rows - 1) as nat);
        lemma_column_ships_ordered(g, x, (rows - 1) as nat);
        if g.at(x, rows - 1) == COLOR_SHIP@ {
            let s = prefix.push(cell(x, rows - 1));
            assert forall|i: int, j: int| 0 <= i < j < s.len() implies scanned_before(
                s[i],
                s[j],
            ) by {
                if j == s.len() - 1 {
                    lemma_column_ships_contains(g, x, (rows - 1) as nat, prefix[i]);
                    assert(prefix.contains(prefix[i]));
                }
            }
        }
    }
}

proof fn lemma_columns_ships_ordered(g: GridView, columns: nat)
    requires
        columns <= u32::MAX + 1,
        g.height <= u32::MAX,
    ensures
        in_scan_order(columns_ships(g, columns)),
    decreases columns,
{
    if columns > 0 {
        let last = columns - 1;
        let left = columns_ships(g, (columns - 1) as nat);
        let right = column_ships(g, last, g.height);
        lemma_columns_ships_ordered(g, (columns - 1) as nat);
        lemma_column_ships_ordered(g, last, g.height);
        let s = left + right;
        assert forall|i: int, j: int| 0 <= i < j < s.len() implies scanned_before(s[i], s[j]) by {
            if i < left.len() && j >= left.len() {
                lemma_columns_ships_contains(g, (columns - 1) as nat, left[i]);
                assert(left.contains(left[i]));
                lemma_column_ships_contains(g, last, g.height, right[j - left.len()]);
                assert(right.contains(right[j - left.len()]));
            } else if i >= left.len() {
                assert(s[i] == right[i - left.len()]);
                assert(s[j] == right[j - left.len()]);
            }
        }
    }
}

/// Ships are spawned column by column, each column top to bottom, and never
/// twice in one cell.
pub proof fn lemma_ships_in_scan_order(grid: &PixelGrid)
    ensures
        in_scan_order(ship_layout(grid@)),
        ship_layout(grid@).no_duplicates(),
{
    lemma_grid_size(grid);
    lemma_columns_ships_ordered(grid@, grid@.width);
    let s = ship_layout(grid@);
    assert forall|i: int, j: int| 0 <= i < s.len() && 0 <= j < s.len() && i != j implies s[i]
        != s[j] by {
        if i < j {
            assert(scanned_before(s[i], s[j]));
        } else {
            assert(scanned_before(s[j], s[i]));
        }
    }
}

} // verus!
