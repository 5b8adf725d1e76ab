//! Turning the level bitmap into the terrain tiles to spawn.
//!
//! Each pixel of the level image is one 32x32 cell of the world. Black is
//! water, brown is rock and light blue is air. A rock pixel becomes a rock
//! square; a water pixel just under air carries the water surface; a water
//! pixel resting on rock gets a rock slope towards each rock neighbour.

use vstd::prelude::*;
use crate::pixels::{is_color, lemma_concat_contains, lemma_grid_size, GridView, PixelGrid};

verus! {

pub const COLOR_WATER: [u8; 4] = [0x00, 0x00, 0x00, 0xff];
pub const COLOR_ROCK: [u8; 4] = [0xa7, 0x64, 0x01, 0xff];
pub const COLOR_AIR: [u8; 4] = [0x74, 0xb9, 0xde, 0xff];

/// What is spawned in a cell.
#[derive(PartialEq, Eq, Structural, Clone, Copy, Debug)]
pub enum TileKind {
    /// The boundary between water and the air above it.
    Surface,
    /// A rock triangle filling the lower right half of the cell.
    RockSlopeRight,
    /// A rock triangle filling the lower left half of the cell.
    RockSlopeLeft,
    /// A full rock square.
    Rock,
}

/// A tile to spawn at column `x`, row `y` of the level image.
#[derive(PartialEq, Eq, Structural, Clone, Copy, Debug)]
pub struct TileSpawn {
    pub kind: TileKind,
    pub x: u32,
    pub y: u32,
}

pub open spec fn tile(kind: TileKind, x: int, y: int) -> TileSpawn {
    TileSpawn { kind, x: x as u32, y: y as u32 }
}

/// The tiles of the cell at `(x, y)`, in spawn order.
pub open spec fn cell_tiles(g: GridView, x: int, y: int) -> Seq<TileSpawn> {
    let here = g.at(x, y);
    if here == COLOR_WATER@ {
        let on_rock = g.get(x, y + 1) == Some(COLOR_ROCK@);
        let surface = if y > 0 && g.at(x, y - 1) == COLOR_AIR@ {
            seq![tile(TileKind::Surface, x, y)]
        } else {
            Seq::empty()
        };
        let slope_right = if on_rock && g.get(x + 1, y) == Some(COLOR_ROCK@) {
            seq![tile(TileKind::RockSlopeRight, x, y)]
        } else {
            Seq::empty()
        };
        let slope_left = if on_rock && g.get(x - 1, y) == Some(COLOR_ROCK@) {
            seq![tile(TileKind::RockSlopeLeft, x, y)]
        } else {
            Seq::empty()
        };
        surface + slope_right + slope_left
    } else if here == COLOR_ROCK@ {
        seq![tile(TileKind::Rock, x, y)]
    } else {
        Seq::empty()
    }
}

/// The tiles of the first `rows` cells of column `x`, top to bottom.
pub open spec fn column_tiles(g: GridView, x: int, rows: nat) -> Seq<TileSpawn>
    decreases rows,
{
    if rows == 0 {
        Seq::empty()
    } else {
        column_tiles(g, x, (rows - 1) as nat) + cell_tiles(g, x, rows - 1)
    }
}

/// The tiles of the first `columns` columns, left to right.
pub open spec fn columns_tiles(g: GridView, columns: nat) -> Seq<TileSpawn>
    decreases columns,
{
    if columns == 0 {
        Seq::empty()
    } else {
        columns_tiles(g, (columns - 1) as nat) + column_tiles(g, columns - 1, g.height)
    }
}

/// All tiles of the level, column by column, each column top to bottom.
pub open spec fn level_layout(g: GridView) -> Seq<TileSpawn> {
    columns_tiles(g, g.width)
}

/// Appends the tiles of the cell at `(x, y)`.
fn push_cell_tiles(grid: &PixelGrid, x: u32, y: u32, tiles: &mut Vec<TileSpawn>)
    requires
        grid@.in_bounds(x as int, y as int),
    ensures
        final(tiles)@ == old(tiles)@ + cell_tiles(grid@, x as int, y as int),
{
    let ghost g = grid@;
    let ghost start = tiles@;
    let width = grid.width();
    let height = grid.height();
    let here = grid.pixel(x, y);
    if is_color(here, &COLOR_WATER) {
        if y > 0 && is_color(grid.pixel(x, y - 1), &COLOR_AIR) {
            tiles.push(TileSpawn { kind: TileKind::Surface, x, y });
        }
        let ghost after_surface = tiles@;
        let on_rock = y + 1 < height && is_color(grid.pixel(x, y + 1), &COLOR_ROCK);
        if on_rock {
            if x + 1 < width && is_color(grid.pixel(x + 1, y), &COLOR_ROCK) {
                tiles.push(TileSpawn { kind: TileKind::RockSlopeRight, x, y });
            }
        }
        let ghost after_right = tiles@;
        if on_rock {
            if x > 0 && is_color(grid.pixel(x - 1, y), &COLOR_ROCK) {
                tiles.push(TileSpawn { kind: TileKind::RockSlopeLeft, x, y });
            }
        }
        proof {
            assert(on_rock == (g.get(x as int, y + 1) == Some(COLOR_ROCK@)));
            assert(tiles@ =~= start + cell_tiles(g, x as int, y as int));
        }
    } else if is_color(here, &COLOR_ROCK) {
        tiles.push(TileSpawn { kind: TileKind::Rock, x, y });
        proof {
            assert(tiles@ =~= start + cell_tiles(g, x as int, y as int));
        }
    } else {
        proof {
            assert(tiles@ =~= start + cell_tiles(g, x as int, y as int));
        }
    }
}

/// The tiles to spawn for a level image, column by column, each column top
/// to bottom.
pub fn level_tiles(grid: &PixelGrid) -> (tiles: Vec<TileSpawn>)
    ensures
        tiles@ == level_layout(grid@),
{
    let width = grid.width();
    let height = grid.height();
    let mut tiles: Vec<TileSpawn> = Vec::new();
    let mut x: u32 = 0;
    while x < width
        invariant
            x <= width,
            width == grid@.width,
            height == grid@.height,
            tiles@ == columns_tiles(grid@, x as nat),
        decreases width - x,
    {
        let ghost before = tiles@;
        let mut y: u32 = 0;
        while y < height
            invariant
                x < width,
                y <= height,
                width == grid@.width,
                height == grid@.height,
                tiles@ == before + column_tiles(grid@, x as int, y as nat),
            decreases height - y,
        {
            push_cell_tiles(grid, x, y, &mut tiles);
            assert(tiles@ =~= before + column_tiles(grid@, x as int, (y + 1) as nat));
            y = y + 1;
        }
        x = x + 1;
    }
    tiles
}

/// Every tile of a cell stands at that cell.
proof fn lemma_cell_tiles_at_cell(g: GridView, x: int, y: int, t: TileSpawn)
    requires
        0 <= x <= u32::MAX,
        0 <= y <= u32::MAX,
        cell_tiles(g, x, y).contains(t),
    ensures
        t.x == x,
        t.y == y,
{
    let i = choose|i: int| 0 <= i < cell_tiles(g, x, y).len() && cell_tiles(g, x, y)[i] == t;
    assert(t == cell_tiles(g, x, y)[i]);
}

proof fn lemma_column_tiles_contains(g: GridView, x: int, rows: nat, t: TileSpawn)
    requires
        0 <= x <= u32::MAX,
        rows <= u32::MAX + 1,
    ensures
        column_tiles(g, x, rows).contains(t) <==> (t.x == x && t.y < rows && cell_tiles(
            g,
            x,
            t.y as int,
        ).contains(t)),
    decreases rows,
{
    if rows > 0 {
        let last = rows - 1;
        lemma_column_tiles_contains(g, x, (rows - 1) as nat, t);
        lemma_concat_contains(column_tiles(g, x, (rows - 1) as nat), cell_tiles(g, x, last), t);
        if cell_tiles(g, x, last).contains(t) {
            lemma_cell_tiles_at_cell(g, x, last, t);
        }
    }
}

proof fn lemma_columns_tiles_contains(g: GridView, columns: nat, t: TileSpawn)
    requires
        columns <= u32::MAX + 1,
        g.height <= u32::MAX,
    ensures
        columns_tiles(g, columns).contains(t) <==> (t.x < columns && t.y < g.height
            && cell_tiles(g, t.x as int, t.y as int).contains(t)),
    decreases columns,
{
    if columns > 0 {
        let last = columns - 1;
        lemma_columns_tiles_contains(g, (columns - 1) as nat, t);
        lemma_column_tiles_contains(g, last, g.height, t);
        lemma_concat_contains(
            columns_tiles(g, (columns - 1) as nat),
            column_tiles(g, last, g.height),
            t,
        );
    }
}

/// A tile is in the level layout exactly when it lies in the image and the
/// rules of its cell spawn it.
pub proof fn lemma_layout_membership(grid: &PixelGrid, t: TileSpawn)
    ensures
        level_layout(grid@).contains(t) <==> (grid@.in_bounds(t.x as int, t.y as int)
            && cell_tiles(grid@, t.x as int, t.y as int).contains(t)),
{
    lemma_grid_size(grid);
    lemma_columns_tiles_contains(grid@, grid@.width, t);
}

/// The tile rules of the level: in the layout of an image, the cell at
/// `(x, y)` holds
/// - a rock square exactly when its pixel is rock,
/// - the water surface exactly when its pixel is water and the pixel above is air,
/// - a right rock slope exactly when its pixel is water and the pixels below
///   and to the right are rock,
/// - a left rock slope exactly when its pixel is water and the pixels below
///   and to the left are rock;
/// and no tile stands outside the image.
pub proof fn lemma_tile_rules(grid: &PixelGrid, x: u32, y: u32)
    ensures
        !grid@.in_bounds(x as int, y as int) ==> forall|kind: TileKind|
            !(#[trigger] level_layout(grid@).contains(TileSpawn { kind, x, y })),
        grid@.in_bounds(x as int, y as int) ==> {
            let g = grid@;
            let (xi, yi) = (x as int, y as int);
            &&& level_layout(g).contains(TileSpawn { kind: TileKind::Rock, x, y }) <==> g.at(
                xi,
                yi,
            ) == COLOR_ROCK@
            &&& level_layout(g).contains(TileSpawn { kind: TileKind::Surface, x, y }) <==> (g.at(
                xi,
                yi,
            ) == COLOR_WATER@ && g.get(xi, yi - 1) == Some(COLOR_AIR@))
            &&& level_layout(g).contains(TileSpawn { kind: TileKind::RockSlopeRight, x, y }) <==> (
            g.at(xi, yi) == COLOR_WATER@ && g.get(xi, yi + 1) == Some(COLOR_ROCK@) && g.get(
                xi + 1,
                yi,
            ) == Some(COLOR_ROCK@))
            &&& level_layout(g).contains(TileSpawn { kind: TileKind::RockSlopeLeft, x, y }) <==> (
            g.at(xi, yi) == COLOR_WATER@ && g.get(xi, yi + 1) == Some(COLOR_ROCK@) && g.get(
                xi - 1,
                yi,
            ) == Some(COLOR_ROCK@))
        },
{
    let g = grid@;
    assert forall|kind: TileKind| #[trigger]
        level_layout(g).contains(TileSpawn { kind, x, y }) <==> (g.in_bounds(x as int, y as int)
            && cell_tiles(g, x as int, y as int).contains(TileSpawn { kind, x, y })) by {
        lemma_layout_membership(grid, TileSpawn { kind, x, y });
    }
    if g.in_bounds(x as int, y as int) {
        let cell = cell_tiles(g, x as int, y as int);
        let here = g.at(x as int, y as int);
        if here == COLOR_WATER@ {
            assert(COLOR_WATER@ != COLOR_ROCK@) by {
                assert(COLOR_WATER@[0] != COLOR_ROCK@[0]);
            }
            let surface = if y > 0 && g.at(x as int, y - 1) == COLOR_AIR@ {
                seq![tile(TileKind::Surface, x as int, y as int)]
            } else {
                Seq::<TileSpawn>::empty()
            };
            let on_rock = g.get(x as int, y + 1) == Some(COLOR_ROCK@);
            let right = if on_rock && g.get(x + 1, y as int) == Some(COLOR_ROCK@) {
                seq![tile(TileKind::RockSlopeRight, x as int, y as int)]
            } else {
                Seq::<TileSpawn>::empty()
            };
            let left = if on_rock && g.get(x - 1, y as int) == Some(COLOR_ROCK@) {
                seq![tile(TileKind::RockSlopeLeft, x as int, y as int)]
            } else {
                Seq::<TileSpawn>::empty()
            };
            assert(cell == surface + right + left);
            assert forall|kind: TileKind| #[trigger]
                cell.contains(TileSpawn { kind, x, y }) <==> (surface.contains(
                    TileSpawn { kind, x, y },
                ) || right.contains(TileSpawn { kind, x, y }) || left.contains(
                    TileSpawn { kind, x, y },
                )) by {
                lemma_concat_contains(surface + right, left, TileSpawn { kind, x, y });
                lemma_concat_contains(surface, right, TileSpawn { kind, x, y });
            }
            if surface.len() > 0 {
                assert(surface[0] == TileSpawn { kind: TileKind::Surface, x, y });
            }
            if right.len() > 0 {
                assert(right[0] == TileSpawn { kind: TileKind::RockSlopeRight, x, y });
            }
            if left.len() > 0 {
                assert(left[0] == TileSpawn { kind: TileKind::RockSlopeLeft, x, y });
            }
        } else if here == COLOR_ROCK@ {
            assert(cell[0] == TileSpawn { kind: TileKind::Rock, x, y });
        }
    }
}

/// The order in which a cell's tiles are spawned.
pub open spec fn kind_rank(kind: TileKind) -> int {
    match kind {
        TileKind::Surface => 0,
        TileKind::RockSlopeRight => 1,
        TileKind::RockSlopeLeft => 2,
        TileKind::Rock => 3,
    }
}

/// `a` is spawned before `b`: an earlier column, or an earlier row of the
/// same column, or an earlier kind in the same cell.
pub open spec fn spawned_before(a: TileSpawn, b: TileSpawn) -> bool {
    a.x < b.x || (a.x == b.x && (a.y < b.y || (a.y == b.y && kind_rank(a.kind) < kind_rank(
        b.kind,
    ))))
}

/// The tiles are listed in spawn order, each at most once.
pub open spec fn in_spawn_order(s: Seq<TileSpawn>) -> bool {
    forall|i: int, j: int| 0 <= i < j < s.len() ==> spawned_before(s[i], s[j])
}

/// Two ordered lists, the first wholly before the second, make an ordered
/// list.
proof fn lemma_concat_in_spawn_order(a: Seq<TileSpawn>, b: Seq<TileSpawn>)
    requires
        in_spawn_order(a),
        in_spawn_order(b),
        forall|i: int, j: int| 0 <= i < a.len() && 0 <= j < b.len() ==> spawned_before(a[i], b[j]),
    ensures
        in_spawn_order(a + b),
{
    let s = a + b;
    assert forall|i: int, j: int| 0 <= i < j < s.len() implies spawned_before(s[i], s[j]) by {
        if j < a.len() {
            assert(s[i] == a[i] && s[j] == a[j]);
        } else if i < a.len() {
            assert(s[i] == a[i] && s[j] == b[j - a.len()]);
        } else {
            assert(s[i] == b[i - a.len()] && s[j] == b[j - a.len()]);
        }
    }
}

proof fn lemma_cell_tiles_ordered(g: GridView, x: int, y: int)
    requires
        0 <= x <= u32::MAX,
        0 <= y <= u32::MAX,
    ensures
        in_spawn_order(cell_tiles(g, x, y)),
{
    let here = g.at(x, y);
    if here == COLOR_WATER@ {
        let on_rock = g.get(x, y + 1) == Some(COLOR_ROCK@);
        let surface = if y > 0 && g.at(x, y - 1) == COLOR_AIR@ {
            seq![tile(TileKind::Surface, x, y)]
        } else {
            Seq::<TileSpawn>::empty()
        };
        let right = if on_rock && g.get(x + 1, y) == Some(COLOR_ROCK@) {
            seq![tile(TileKind::RockSlopeRight, x, y)]
        } else {
            Seq::<TileSpawn>::empty()
        };
        let left = if on_rock && g.get(x - 1, y) == Some(COLOR_ROCK@) {
            seq![tile(TileKind::RockSlopeLeft, x, y)]
        } else {
            Seq::<TileSpawn>::empty()
        };
        assert(cell_tiles(g, x, y) == surface + right + left);
        assert forall|i: int, j: int|
            0 <= i < surface.len() && 0 <= j < right.len() implies spawned_before(
            surface[i],
            right[j],
        ) by {}
        lemma_concat_in_spawn_order(surface, right);
        assert forall|i: int, j: int|
            0 <= i < (surface + right).len() && 0 <= j < left.len() implies spawned_before(
            (surface + right)[i],
            left[j],
        ) by {
            if i < surface.len() {
                assert((surface + right)[i] == surface[i]);
            } else {
                assert((surface + right)[i] == right[i - surface.len()]);
            }
        }
        lemma_concat_in_spawn_order(surface + right, left);
    }
}

proof fn lemma_column_tiles_ordered(g: GridView, x: int, rows: nat)
    requires
        0 <= x <= u32::MAX,
        rows <= u32::MAX + 1,
    ensures
        in_spawn_order(column_tiles(g, x, rows)),
    decreases rows,
{
    if rows > 0 {
        let last = rows - 1;
        let prefix = column_tiles(g, x, (rows - 1) as nat);
        let cell = cell_tiles(g, x, last);
        lemma_column_tiles_ordered(g, x, (rows - 1) as nat);
        lemma_cell_tiles_ordered(g, x, last);
        assert forall|i: int, j: int| 0 <= i < prefix.len() && 0 <= j < cell.len() implies spawned_before(
            prefix[i],
            cell[j],
        ) by {
            assert(prefix.contains(prefix[i]));
            lemma_column_tiles_contains(g, x, (rows - 1) as nat, prefix[i]);
            assert(cell.contains(cell[j]));
            lemma_cell_tiles_at_cell(g, x, last, cell[j]);
        }
        lemma_concat_in_spawn_order(prefix, cell);
    }
}

proof fn lemma_columns_tiles_ordered(g: GridView, columns: nat)
    requires
        columns <= u32::MAX + 1,
        g.height <= u32::MAX,
    ensures
        in_spawn_order(columns_tiles(g, columns)),
    decreases columns,
{
    if columns > 0 {
        let last = columns - 1;
        let prefix = columns_tiles(g, (columns - 1) as nat);
        let column = column_tiles(g, last, g.height);
        lemma_columns_tiles_ordered(g, (columns - 1) as nat);
        lemma_column_tiles_ordered(g, last, g.height);
        assert forall|i: int, j: int|
            0 <= i < prefix.len() && 0 <= j < column.len() implies spawned_before(
            prefix[i],
            column[j],
        ) by {
            assert(prefix.contains(prefix[i]));
            lemma_columns_tiles_contains(g, (columns - 1) as nat, prefix[i]);
            assert(column.contains(column[j]));
            lemma_column_tiles_contains(g, last, g.height, column[j]);
        }
        lemma_concat_in_spawn_order(prefix, column);
    }
}

/// Tiles are spawned column by column, each column top to bottom, the tiles
/// of one cell surface first, then the right slope, then the left slope; no
/// tile is spawned twice.
pub proof fn lemma_layout_in_spawn_order(grid: &PixelGrid)
    ensures
        in_spawn_order(level_layout(grid@)),
        level_layout(grid@).no_duplicates(),
{
    lemma_grid_size(grid);
    lemma_columns_tiles_ordered(grid@, grid@.width);
    let s = level_layout(grid@);
    assert forall|i: int, j: int| 0 <= i < s.len() && 0 <= j < s.len() && i != j implies s[i]
        != s[j] by {
        if i < j {
            assert(spawned_before(s[i], s[j]));
        } else {
            assert(spawned_before(s[j], s[i]));
        }
    }
}

} // verus!
