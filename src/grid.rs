//! The ground grid, as a list of line segments.
use vstd::prelude::*;

verus! {

/// How a grid line is shaded: the two lines through the origin are darker.
#[derive(Clone, Copy, Debug, PartialEq, Eq, Structural)]
pub enum Shade {
    Axis,
    Regular,
}

/// A grid line on the ground plane, from `(x0, z0)` to `(x1, z1)`, in units
/// of one cell over the grid's width.
#[derive(Clone, Copy, Debug, PartialEq, Eq, Structural)]
pub struct GridLine {
    pub x0: i64,
    pub z0: i64,
    pub x1: i64,
    pub z1: i64,
    pub shade: Shade,
}

/// The shade of the line at offset `i` from the centre.
pub open spec fn shade_at(i: int) -> Shade {
    if i == 0 {
        Shade::Axis
    } else {
        Shade::Regular
    }
}

/// The `k`-th line of a grid reaching `h` cells from the centre each way:
/// first the `2h + 1` lines along `x` (at `z = k - h`), then the `2h + 1`
/// lines along `z` (at `x = k - (2h + 1) - h`), each spanning `-h..h`.
pub open spec fn grid_line(h: int, k: int) -> GridLine {
    if k < 2 * h + 1 {
        GridLine { x0: -h as i64, z0: (k - h) as i64, x1: h as i64, z1: (k - h) as i64, shade: shade_at(k - h) }
    } else {
        let i = k - (2 * h + 1) - h;
        GridLine { x0: i as i64, z0: -h as i64, x1: i as i64, z1: h as i64, shade: shade_at(i) }
    }
}

fn push_color_check(i: i64) -> (s: Shade)
    ensures
        s == shade_at(i as int),
{
    if i == 0 {
        Shade::Axis
    } else {
        Shade::Regular
    }
}

/// The grid of `cells` cells a side (rounded down to an even count), as a
/// line list: coordinates are in units of `1 / cells` of the grid's width.
pub fn gen_mesh(cells: u32) -> (lines: Vec<GridLine>)
    ensures
        lines@.len() == 2 * (2 * (cells / 2) + 1),
        forall|k: int|
            0 <= k < lines@.len() ==> #[trigger] lines@[k] == grid_line((cells / 2) as int, k),
{
    let h: i64 = (cells / 2) as i64;
    let mut lines: Vec<GridLine> = Vec::new();
    let mut i: i64 = -h;
    while i <= h
        invariant
            h == cells / 2,
            -h <= i <= h + 1,
            lines@.len() == i + h,
            forall|k: int| 0 <= k < lines@.len() ==> #[trigger] lines@[k] == grid_line(h as int, k),
        decreases h + 1 - i,
    {
        lines.push(GridLine { x0: -h, z0: i, x1: h, z1: i, shade: push_color_check(i) });
        i = i + 1;
    }
    let mut j: i64 = -h;
    while j <= h
        invariant
            h == cells / 2,
            -h <= j <= h + 1,
            lines@.len() == 2 * h + 1 + j + h,
            forall|k: int| 0 <= k < lines@.len() ==> #[trigger] lines@[k] == grid_line(h as int, k),
        decreases h + 1 - j,
    {
        lines.push(GridLine { x0: j, z0: -h, x1: j, z1: h, shade: push_color_check(j) });
        j = j + 1;
    }
    lines
}

} // verus!
