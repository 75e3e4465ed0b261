use vstd::prelude::*;

verus! {

/// Number of group columns in the grid.
pub const GROUPS: u16 = 18;

/// Number of period rows in the grid, including the two detached rows.
pub const PERIOD_ROWS: u16 = 10;

/// Columns kept free at the right edge of the terminal.
pub const MARGIN: u16 = 3;

/// The scale factor for a terminal of the given size.
pub open spec fn spec_scale_factor(width: u16, height: u16) -> int {
    let usable = if width >= MARGIN { width - MARGIN } else { 0int };
    let w = usable / (GROUPS as int);
    let h = (height / PERIOD_ROWS) * 2;
    if w <= h { w } else { h }
}

/// Largest integer scale at which all eighteen groups fit across the usable
/// width and all ten rows fit down the terminal (rows take half a scale unit).
pub fn scale_factor(width: u16, height: u16) -> (r: u16)
    ensures
        r as int == spec_scale_factor(width, height),
{
    let usable = width.saturating_sub(MARGIN);
    let width_scale = usable / GROUPS;
    let height_scale = height / PERIOD_ROWS * 2;
    if width_scale <= height_scale { width_scale } else { height_scale }
}

/// Row height of a grid cell: half the scale, as terminal cells are about
/// twice as tall as wide.
pub open spec fn row_height(scale: int) -> int {
    scale / 2
}

/// The grid row a period is drawn on: the two detached rows, periods 8 and
/// 9, sit one row further down, leaving a gap above them.
pub open spec fn drawn_row(period: int) -> int {
    if period >= 8 {
        period + 1
    } else {
        period
    }
}

/// Terminal column of the left edge of a group.
pub open spec fn spec_screen_x(group: int, scale: int) -> int {
    group * scale
}

/// Terminal row of the top edge of a period.
pub open spec fn spec_screen_y(period: int, scale: int) -> int {
    row_height(scale) * drawn_row(period)
}

/// Whether a bordered square is drawn around each cell at this scale.
pub open spec fn bordered(scale: int) -> bool {
    scale > 3
}

/// The cell under a terminal position, before looking it up in the catalog.
pub open spec fn spec_screen_to_cell(x: int, y: int, scale: int) -> (int, int) {
    let y1 = if bordered(scale) { y + 1 } else { y };
    let row = y1 / row_height(scale);
    let period = if row >= 8 { row - 1 } else { row };
    (x / scale, period)
}

/// Whether the top-left corner of a cell lies within the terminal's
/// coordinate range at this scale.
pub open spec fn cell_fits(group: int, period: int, scale: int) -> bool {
    &&& spec_screen_x(group, scale) <= u16::MAX
    &&& spec_screen_y(period, scale) <= u16::MAX
}

/// Terminal position `(x, y)` of the top-left corner of a cell.
pub fn cell_to_screen(group: u16, period: u16, scale: u16) -> (r: (u16, u16))
    requires
        cell_fits(group as int, period as int, scale as int),
    ensures
        r.0 as int == spec_screen_x(group as int, scale as int),
        r.1 as int == spec_screen_y(period as int, scale as int),
{
    let x = group * scale;
    let half = scale / 2;
    let y = if period >= 8 {
        ((half as u32) * (period as u32 + 1)) as u16
    } else {
        half * period
    };
    (x, y)
}

/// The `(group, period)` cell under a terminal position, or `None` where the
/// scale is too small for rows to have any height.
pub fn screen_to_cell(x: u16, y: u16, scale: u16) -> (r: Option<(u16, u16)>)
    ensures
        r is None <==> scale < 2,
        r matches Some(c) ==> (c.0 as int, c.1 as int) == spec_screen_to_cell(
            x as int,
            y as int,
            scale as int,
        ),
{
    if scale < 2 {
        return None;
    }
    let y1: u32 = if scale > 3 { y as u32 + 1 } else { y as u32 };
    let row = y1 / (scale / 2) as u32;
    let period = if row >= 8 { row - 1 } else { row };
    proof {
        assert(row <= y1);
    }
    Some((x / scale, period as u16))
}

/// Mapping a cell to the terminal and back gives the cell again, at every
/// scale at which squares are drawn.
pub proof fn lemma_screen_round_trip(group: int, period: int, scale: int)
    requires
        group >= 0,
        period >= 0,
        bordered(scale),
    ensures
        spec_screen_to_cell(
            spec_screen_x(group, scale),
            spec_screen_y(period, scale),
            scale,
        ) == (group, period),
{
    let h = row_height(scale);
    let d = drawn_row(period);
    assert(h >= 2);
    vstd::arithmetic::div_mod::lemma_div_multiples_vanish(group, scale);
    assert(group * scale == scale * group) by (nonlinear_arith);
    assert((h * d + 1) / h == d) by {
        vstd::arithmetic::div_mod::lemma_div_multiples_vanish_fancy(d, 1, h);
        assert(h * d == d * h) by (nonlinear_arith);
    }
}

} // verus!
