use vstd::prelude::*;
use crate::catalog::Element;
use crate::color::{Color, ColoringMode, color_for, spec_color_for};
use crate::coords::{bordered, cell_fits, cell_to_screen, spec_screen_x, spec_screen_y};

verus! {

/// The bordered square behind a cell.
#[derive(Clone, Copy, Debug, PartialEq, Eq, Structural)]
pub struct Square {
    pub border: Color,
    pub fill: Color,
}

/// How one element's cell is drawn.
#[derive(Clone, Copy, Debug, PartialEq, Eq, Structural)]
pub struct CellDraw {
    /// Terminal column of the cell's top-left corner.
    pub x: u16,
    /// Terminal row of the cell's top-left corner.
    pub y: u16,
    /// Border color and fill color of the square, where the scale leaves
    /// room for a border.
    pub square: Option<Square>,
    /// Color of the symbol.
    pub glyph: Color,
}

/// `c`, or `fallback` where there is none.
pub open spec fn color_or(c: Option<Color>, fallback: Color) -> Color {
    match c {
        Some(h) => h,
        None => fallback,
    }
}

/// How `element` is drawn at `scale` under `mode`, highlighted in
/// `highlight` where one is given, or `None` where its corner lies beyond the
/// terminal's coordinate range.
pub fn element_square(element: &Element, mode: ColoringMode, highlight: Option<Color>, scale: u16) -> (r:
    Option<CellDraw>)
    ensures
        r is Some <==> cell_fits(element.group as int, element.period as int, scale as int),
        r matches Some(d) ==> {
            &&& d.x as int == spec_screen_x(element.group as int, scale as int)
            &&& d.y as int == spec_screen_y(element.period as int, scale as int)
            &&& d.square == if bordered(scale as int) {
                Some(Square { border: color_or(highlight, Color::DarkGrey), fill: spec_color_for(element, mode).1 })
            } else {
                None
            }
            &&& d.glyph == color_or(highlight, spec_color_for(element, mode).0)
        },
{
    let group = element.group;
    let period = element.period;
    let row: u64 = if period >= 8 { period as u64 + 1 } else { period as u64 };
    let half = (scale / 2) as u64;
    proof {
        assert(group * scale <= 65535 * 65535) by (nonlinear_arith)
            requires
                group <= 65535,
                scale <= 65535,
        ;
        assert(half * row <= 65535 * 65536) by (nonlinear_arith)
            requires
                half <= 65535,
                row <= 65536,
        ;
    }
    let fits_x = (group as u64) * (scale as u64) <= u16::MAX as u64;
    let fits_y = half * row <= u16::MAX as u64;
    if !fits_x || !fits_y {
        return None;
    }
    let (x, y) = cell_to_screen(group, period, scale);
    let (foreground, background) = color_for(element, mode);
    let square = if scale > 3 {
        let border = match highlight {
            Some(h) => h,
            None => Color::DarkGrey,
        };
        Some(Square { border, fill: background })
    } else {
        None
    };
    let glyph = match highlight {
        Some(h) => h,
        None => foreground,
    };
    Some(CellDraw { x, y, square, glyph })
}

/// Top-left corner and width of the panel that describes the selection, or
/// `None` where its corner lies beyond the terminal's coordinate range.
pub fn info_panel(scale: u16) -> (r: Option<(u16, u16, usize)>)
    ensures
        r is Some <==> 4 * scale <= u16::MAX,
        r matches Some(p) ==> p.0 == 4 * scale && p.1 == scale / 2 && p.2 == 8 * scale,
{
    if scale > u16::MAX / 4 {
        return None;
    }
    Some((4 * scale, scale / 2, 8 * (scale as usize)))
}

/// The terminal row just below the grid, where prompts are written; the
/// largest row where that lies beyond the coordinate range.
pub fn prompt_row(scale: u16) -> (r: u16)
    ensures
        r == if (scale / 2) * 10 <= u16::MAX {
            (scale / 2) * 10
        } else {
            u16::MAX as int
        },
{
    let row = ((scale / 2) as u32) * 10;
    if row <= u16::MAX as u32 {
        row as u16
    } else {
        u16::MAX
    }
}

} // verus!
