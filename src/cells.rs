//! The cell store: `simple_grid::Grid`, seen through trusted items.
use simple_grid::Grid;
use vstd::prelude::*;

verus! {

#[verifier::external_type_specification]
#[verifier::external_body]
#[verifier::reject_recursive_types(T)]
pub struct ExGrid<T>(Grid<T>);

/// The cells of a grid, row by row (the cell at column `c`, row `r` stands at
/// `r * width + c`).
pub uninterp spec fn grid_cells(g: Grid<Option<u32>>) -> Seq<Option<u32>>;

/// The number of columns that a grid was made with.
pub uninterp spec fn grid_width(g: Grid<Option<u32>>) -> nat;

/// The number of rows that a grid was made with.
pub uninterp spec fn grid_height(g: Grid<Option<u32>>) -> nat;

/// Relies on `Grid::new`: it keeps `data` as the row-major cells of a
/// `width x height` grid, and panics unless `width * height == data.len()`
/// and the two dimensions are both zero or both positive.
#[verifier::external_body]
pub(crate) fn grid_new(width: usize, height: usize, data: Vec<Option<u32>>) -> (g: Grid<Option<u32>>)
    requires
        width * height == data@.len(),
        (width == 0) == (height == 0),
    ensures
        grid_width(g) == width,
        grid_height(g) == height,
        grid_cells(g) == data@,
{
    Grid::new(width, height, data)
}

/// Relies on `Grid::width`: the number of columns.
#[verifier::external_body]
pub(crate) fn grid_width_of(g: &Grid<Option<u32>>) -> (r: usize)
    ensures
        r == grid_width(*g),
{
    g.width()
}

/// Relies on `Grid::height`: the number of rows.
#[verifier::external_body]
pub(crate) fn grid_height_of(g: &Grid<Option<u32>>) -> (r: usize)
    ensures
        r == grid_height(*g),
{
    g.height()
}

/// Relies on `Index<(usize, usize)>` for `Grid`: the cell at `(column, row)`,
/// stored at `row * width + column`; it panics out of bounds.
#[verifier::external_body]
pub(crate) fn grid_at(g: &Grid<Option<u32>>, col: usize, row: usize) -> (r: Option<u32>)
    requires
        col < grid_width(*g),
        row < grid_height(*g),
    ensures
        r == grid_cells(*g)[row * grid_width(*g) + col],
{
    g[(col, row)]
}

/// Relies on `IndexMut<(usize, usize)>` for `Grid`: writing through it
/// replaces the one cell at `row * width + column`, and nothing else.
#[verifier::external_body]
pub(crate) fn grid_put(g: &mut Grid<Option<u32>>, col: usize, row: usize, v: Option<u32>)
    requires
        col < grid_width(*old(g)),
        row < grid_height(*old(g)),
    ensures
        grid_width(*final(g)) == grid_width(*old(g)),
        grid_height(*final(g)) == grid_height(*old(g)),
        grid_cells(*final(g)) == grid_cells(*old(g)).update(
            row * grid_width(*old(g)) + col,
            v,
        ),
{
    g[(col, row)] = v;
}

/// Relies on `Grid::row_iter`: the cells of row `row`, left to right; it
/// panics when `row >= height`.
#[verifier::external_body]
pub(crate) fn grid_row_values(g: &Grid<Option<u32>>, row: usize) -> (r: Vec<Option<u32>>)
    requires
        row < grid_height(*g),
    ensures
        r@.len() == grid_width(*g),
        forall|c: int|
            0 <= c < grid_width(*g) ==> #[trigger] r@[c] == grid_cells(*g)[row * grid_width(*g)
                + c],
{
    g.row_iter(row).cloned().collect()
}

/// Relies on `Grid::column_iter`: the cells of column `col`, top to bottom;
/// it panics when `col >= width`.
#[verifier::external_body]
pub(crate) fn grid_column_values(g: &Grid<Option<u32>>, col: usize) -> (r: Vec<Option<u32>>)
    requires
        col < grid_width(*g),
    ensures
        r@.len() == grid_height(*g),
        forall|i: int|
            0 <= i < grid_height(*g) ==> #[trigger] r@[i] == grid_cells(*g)[i * grid_width(*g)
                + col],
{
    g.column_iter(col).cloned().collect()
}

/// Relies on `Grid::rows`: the row indices `0..height`, in order.
#[verifier::external_body]
pub(crate) fn grid_row_indices(g: &Grid<Option<u32>>) -> (r: Vec<usize>)
    ensures
        r@.len() == grid_height(*g),
        forall|i: int| 0 <= i < r@.len() ==> #[trigger] r@[i] == i,
{
    g.rows().collect()
}

/// Relies on `Grid::columns`: the column indices `0..width`, in order.
#[verifier::external_body]
pub(crate) fn grid_column_indices(g: &Grid<Option<u32>>) -> (r: Vec<usize>)
    ensures
        r@.len() == grid_width(*g),
        forall|i: int| 0 <= i < r@.len() ==> #[trigger] r@[i] == i,
{
    g.columns().collect()
}

} // verus!
