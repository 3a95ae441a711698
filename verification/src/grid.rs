//! The trusted boundary around the `array2d` crate, which stores the tile
//! grid. Everything the rest of the library knows about a grid goes through
//! the names and contracts below.

use vstd::prelude::*;
use crate::tile::Tile;

verus! {

#[verifier::external_type_specification]
#[verifier::external_body]
#[verifier::reject_recursive_types(T)]
pub struct ExArray2D<T>(array2d::Array2D<T>);

/// The tiles a grid holds, addressed by `(row, column)` pairs.
pub uninterp spec fn grid_cells(g: array2d::Array2D<Tile>) -> Map<(int, int), Tile>;

/// The number of rows the grid was created with.
pub uninterp spec fn grid_rows(g: array2d::Array2D<Tile>) -> int;

/// The number of columns the grid was created with.
pub uninterp spec fn grid_cols(g: array2d::Array2D<Tile>) -> int;

/// The grid's cell map is defined exactly on the `rows` by `cols` rectangle.
pub open spec fn grid_dom_exact(g: array2d::Array2D<Tile>, rows: int, cols: int) -> bool {
    forall|x: int, y: int|
        #[trigger] grid_cells(g).dom().contains((x, y)) <==> 0 <= x < rows && 0 <= y < cols
}

/// Every cell of the `rows` by `cols` rectangle holds `tile`.
pub open spec fn grid_all_cells(g: array2d::Array2D<Tile>, rows: int, cols: int, tile: Tile) -> bool {
    forall|x: int, y: int|
        0 <= x < rows && 0 <= y < cols ==> #[trigger] grid_cells(g)[(x, y)] == tile
}

/// Relies on array2d::Array2D::filled_with: builds a `rows` by `cols` grid
/// with every cell a clone of the given element.
#[verifier::external_body]
pub(crate) fn grid_filled(tile: Tile, rows: usize, cols: usize) -> (g: array2d::Array2D<Tile>)
    requires
        rows * cols <= usize::MAX,
    ensures
        grid_rows(g) == rows,
        grid_cols(g) == cols,
        grid_dom_exact(g, rows as int, cols as int),
        grid_all_cells(g, rows as int, cols as int, tile),
{
    array2d::Array2D::filled_with(tile, rows, cols)
}

/// Relies on array2d::Array2D::get: `Some` of the addressed cell exactly
/// when the indices lie within the grid's dimensions, `None` otherwise.
#[verifier::external_body]
pub(crate) fn grid_get(g: &array2d::Array2D<Tile>, x: usize, y: usize) -> (r: Option<Tile>)
    ensures
        x < grid_rows(*g) && y < grid_cols(*g) ==> r == Some(grid_cells(*g)[(x as int, y as int)]),
        !(x < grid_rows(*g) && y < grid_cols(*g)) ==> r is None,
{
    g.get(x, y).copied()
}

/// Relies on array2d::Array2D::set: overwrites the addressed cell and
/// reports whether the indices were within bounds; an out-of-bounds write
/// leaves the grid unchanged.
#[verifier::external_body]
pub(crate) fn grid_set(g: &mut array2d::Array2D<Tile>, x: usize, y: usize, tile: Tile) -> (ok: bool)
    ensures
        grid_rows(*final(g)) == grid_rows(*old(g)),
        grid_cols(*final(g)) == grid_cols(*old(g)),
        ok == (x < grid_rows(*old(g)) && y < grid_cols(*old(g))),
        ok ==> grid_cells(*final(g)) == grid_cells(*old(g)).insert((x as int, y as int), tile),
        !ok ==> grid_cells(*final(g)) == grid_cells(*old(g)),
{
    g.set(x, y, tile).is_ok()
}

} // verus!
