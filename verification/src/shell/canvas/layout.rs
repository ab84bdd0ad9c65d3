//! The whole-number side of placement: which cell of a grid comes next, and which
//! arrangement a layout strategy asks for.

use vstd::prelude::*;

use crate::shell::canvas::patch::LayoutStrategy;

verus! {

use crate::shell::canvas::patch::StrategyView;

/// How many columns a search for a free slot walks before it goes to the next row.
pub const SLOT_SCAN_COLUMNS: usize = 64;

/// How many rows a search for a free slot walks before it gives up.
pub const SLOT_SCAN_ROWS: usize = 4096;

/// A cell in the search for a free slot: row by row, left to right.
#[derive(Clone, Copy, Debug, PartialEq, Eq, Structural)]
pub struct SlotScan {
    pub row: usize,
    pub column: usize,
}

impl SlotScan {
    /// A cell of the search.
    pub open spec fn wf(self) -> bool {
        self.row < SLOT_SCAN_ROWS && self.column < SLOT_SCAN_COLUMNS
    }

    /// How many cells come before this one.
    pub open spec fn rank(self) -> int {
        self.row * SLOT_SCAN_COLUMNS + self.column
    }

    /// The first cell.
    pub fn start() -> (r: Self)
        ensures
            r.wf(),
            r.rank() == 0,
            r.row == 0,
            r.column == 0,
    {
        SlotScan { row: 0, column: 0 }
    }

    /// The cell after this one, nothing after the last.
    pub fn next(self) -> (r: Option<Self>)
        requires
            self.wf(),
        ensures
            match r {
                Some(n) => n.wf() && n.rank() == self.rank() + 1,
                None => self.rank() + 1 == SLOT_SCAN_ROWS * SLOT_SCAN_COLUMNS,
            },
    {
        if self.column + 1 < SLOT_SCAN_COLUMNS {
            Some(SlotScan { row: self.row, column: self.column + 1 })
        } else if self.row + 1 < SLOT_SCAN_ROWS {
            Some(SlotScan { row: self.row + 1, column: 0 })
        } else {
            None
        }
    }
}

/// What a layout strategy comes down to.
#[derive(Clone, Copy, Debug, PartialEq, Eq, Structural)]
pub enum Arrangement {
    /// A grid about as wide as it is high.
    SquareGrid,
    /// A grid of one column.
    OneColumnGrid,
    /// One row.
    Row,
    /// One column.
    Column,
}

/// The arrangement of a strategy.
pub open spec fn arrangement_of(strategy: StrategyView) -> Arrangement {
    match strategy {
        StrategyView::Grid => Arrangement::SquareGrid,
        StrategyView::Graph => Arrangement::SquareGrid,
        StrategyView::Tree => Arrangement::SquareGrid,
        StrategyView::Row => Arrangement::Row,
        StrategyView::Column => Arrangement::Column,
        StrategyView::Stack => Arrangement::Column,
        StrategyView::Other(_) => Arrangement::OneColumnGrid,
    }
}

/// The column and row of an item in a grid of so many columns, at least one.
pub open spec fn cell_of(index: int, columns: int) -> (int, int) {
    let width: int = if columns == 0 {
        1
    } else {
        columns
    };
    (index % width, index / width)
}

/// Grid positions for components that are laid out.
#[derive(Clone, Copy, Debug, PartialEq, Eq, Structural)]
pub struct LayoutEngine;

impl LayoutEngine {
    /// What a strategy comes down to.
    pub fn arrangement(strategy: &LayoutStrategy) -> (r: Arrangement)
        ensures
            r == arrangement_of(strategy@),
    {
        match strategy {
            LayoutStrategy::Grid => Arrangement::SquareGrid,
            LayoutStrategy::Graph => Arrangement::SquareGrid,
            LayoutStrategy::Tree => Arrangement::SquareGrid,
            LayoutStrategy::Row => Arrangement::Row,
            LayoutStrategy::Column => Arrangement::Column,
            LayoutStrategy::Stack => Arrangement::Column,
            LayoutStrategy::Other(_) => Arrangement::OneColumnGrid,
        }
    }

    /// The column and row of the item at `index` in a grid of `columns`, at least one.
    pub fn grid_cell(index: usize, columns: usize) -> (r: (usize, usize))
        ensures
            ({
                let width: int = if columns == 0 {
                    1
                } else {
                    columns as int
                };
                &&& r.0 == index as int % width
                &&& r.1 == index as int / width
            }),
            (r.0 as int, r.1 as int) == cell_of(index as int, columns as int),
    {
        let width: usize = if columns == 0 {
            1
        } else {
            columns
        };
        (index % width, index / width)
    }
}

/// Items of a grid stand in different cells.
pub proof fn law_grid_cells_are_distinct(i: int, j: int, columns: int)
    requires
        0 <= i,
        0 <= j,
        columns > 0,
        i != j,
    ensures
        i % columns != j % columns || i / columns != j / columns,
{
    vstd::arithmetic::div_mod::lemma_fundamental_div_mod(i, columns);
    vstd::arithmetic::div_mod::lemma_fundamental_div_mod(j, columns);
}

/// The first item of a grid stands in the first cell, and each other one behind the one before:
/// in the next column, or in the first of the next row where that one ended its row. A grid has
/// at least one column.
pub proof fn law_grid_fills_row_by_row(i: int, columns: int)
    requires
        0 <= i,
        0 <= columns,
    ensures
        cell_of(0, columns) == (0int, 0int),
        cell_of(i, 0) == (0int, i),
        columns > 0 ==> 0 <= cell_of(i, columns).0 < columns,
        columns > 0 && cell_of(i, columns).0 + 1 < columns ==> cell_of(i + 1, columns) == (
            cell_of(i, columns).0 + 1,
            cell_of(i, columns).1,
        ),
        columns > 0 && cell_of(i, columns).0 + 1 == columns ==> cell_of(i + 1, columns) == (
            0int,
            cell_of(i, columns).1 + 1,
        ),
{
    let width: int = if columns == 0 {
        1
    } else {
        columns
    };
    let q = i / width;
    let r = i % width;
    vstd::arithmetic::div_mod::lemma_fundamental_div_mod(i, width);
    vstd::arithmetic::div_mod::lemma_small_mod(0, width as nat);
    vstd::arithmetic::div_mod::lemma_basic_div(0, width);
    assert(0 <= r < width) by (nonlinear_arith)
        requires
            width > 0,
            r == i % width,
    ;
    if r + 1 < width {
        assert(i + 1 == q * width + (r + 1)) by (nonlinear_arith)
            requires
                i == width * q + r,
        ;
        vstd::arithmetic::div_mod::lemma_fundamental_div_mod_converse(i + 1, width, q, r + 1);
    } else {
        assert(i + 1 == (q + 1) * width + 0) by (nonlinear_arith)
            requires
                i == width * q + r,
                r + 1 == width,
        ;
        vstd::arithmetic::div_mod::lemma_fundamental_div_mod_converse(i + 1, width, q + 1, 0);
    }
}

/// Cells are looked through row by row, and each row from its first column on.
pub proof fn law_cells_come_row_by_row(a: SlotScan, b: SlotScan)
    requires
        a.wf(),
        b.wf(),
    ensures
        a.row < b.row ==> a.rank() < b.rank(),
        a.row == b.row && a.column < b.column ==> a.rank() < b.rank(),
        a.rank() == b.rank() ==> a.row == b.row && a.column == b.column,
{
    let (m, n) = (a.row as int, b.row as int);
    if m < n {
        assert(m * SLOT_SCAN_COLUMNS + SLOT_SCAN_COLUMNS <= n * SLOT_SCAN_COLUMNS)
            by (nonlinear_arith)
            requires
                m + 1 <= n,
                SLOT_SCAN_COLUMNS > 0,
        ;
    } else if n < m {
        assert(n * SLOT_SCAN_COLUMNS + SLOT_SCAN_COLUMNS <= m * SLOT_SCAN_COLUMNS)
            by (nonlinear_arith)
            requires
                n + 1 <= m,
                SLOT_SCAN_COLUMNS > 0,
        ;
    }
}

/// Rows and columns are what they are called, a stack is a column, grids, graphs and trees are
/// as wide as they are high, and what is not known is a grid of one column.
pub proof fn law_strategy_asks_for_its_arrangement(strategy: StrategyView)
    ensures
        strategy is Row ==> arrangement_of(strategy) is Row,
        strategy is Column || strategy is Stack ==> arrangement_of(strategy) is Column,
        strategy is Grid || strategy is Graph || strategy is Tree ==> arrangement_of(strategy)
            is SquareGrid,
        strategy is Other ==> arrangement_of(strategy) is OneColumnGrid,
{
}

} // verus!
