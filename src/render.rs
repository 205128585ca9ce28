use vstd::prelude::*;

verus! {

/// Column at which the panel of readings starts.
pub const PANEL_COLUMN: usize = 6;

/// The character at `row`, `col` of a frame `width` columns wide.
/// Rows from the top show floors `floor_count - 1` down to 0 as `[ ]`, with
/// `[X]` on the cabin's floor, and end in a carriage return and line feed,
/// which take precedence in a frame too narrow for both.
/// The panel's lines are laid over the first rows from `PANEL_COLUMN` on.
pub open spec fn frame_cell(
    width: int,
    floor_count: int,
    carriage: int,
    panel: Seq<Seq<u8>>,
    row: int,
    col: int,
) -> u8 {
    if row < panel.len() && PANEL_COLUMN <= col < PANEL_COLUMN + panel[row].len() {
        panel[row][col - PANEL_COLUMN]
    } else if row < floor_count {
        if col == width - 1 {
            '\n' as u8
        } else if col == width - 2 {
            '\r' as u8
        } else if col == 0 {
            '[' as u8
        } else if col == 1 {
            if row == floor_count - 1 - carriage { 'X' as u8 } else { ' ' as u8 }
        } else if col == 2 {
            ']' as u8
        } else {
            ' ' as u8
        }
    } else {
        ' ' as u8
    }
}

pub open spec fn panel_fits(panel: Seq<Vec<u8>>, width: int, height: int) -> bool {
    &&& panel.len() <= height
    &&& forall|i: int| 0 <= i < panel.len() ==> PANEL_COLUMN + panel[i]@.len() <= width - 2
}

pub open spec fn panel_view(panel: Seq<Vec<u8>>) -> Seq<Seq<u8>> {
    panel.map_values(|line: Vec<u8>| line@)
}

fn cell(
    width: usize,
    floor_count: usize,
    carriage: usize,
    panel: &Vec<Vec<u8>>,
    row: usize,
    col: usize,
) -> (r: u8)
    requires
        width >= 3,
        carriage < floor_count,
        col < width,
    ensures
        r == frame_cell(width as int, floor_count as int, carriage as int, panel_view(panel@), row as int, col as int),
{
    if row < panel.len() && PANEL_COLUMN <= col && col - PANEL_COLUMN < panel[row].len() {
        panel[row][col - PANEL_COLUMN]
    } else if row < floor_count {
        if col == width - 1 {
            '\n' as u8
        } else if col == width - 2 {
            '\r' as u8
        } else if col == 0 {
            '[' as u8
        } else if col == 1 {
            if row == floor_count - 1 - carriage { 'X' as u8 } else { ' ' as u8 }
        } else if col == 2 {
            ']' as u8
        } else {
            ' ' as u8
        }
    } else {
        ' ' as u8
    }
}

/// Draws one frame, row after row, `width * height` characters in all.
pub fn render_frame(
    width: usize,
    height: usize,
    floor_count: usize,
    carriage: usize,
    panel: &Vec<Vec<u8>>,
) -> (r: Vec<u8>)
    requires
        width >= 3,
        carriage < floor_count <= height,
        width * height <= usize::MAX,
        panel_fits(panel@, width as int, height as int),
    ensures
        r@.len() == width * height,
        forall|row: int, col: int|
            0 <= row < height && 0 <= col < width ==> #[trigger] r@[row * width + col] == frame_cell(
                width as int,
                floor_count as int,
                carriage as int,
                panel_view(panel@),
                row,
                col,
            ),
{
    let mut out: Vec<u8> = Vec::new();
    let mut row: usize = 0;
    while row < height
        invariant
            width >= 3,
            carriage < floor_count <= height,
            row <= height,
            out@.len() == row * width,
            forall|r2: int, c2: int|
                0 <= r2 < row && 0 <= c2 < width ==> #[trigger] out@[r2 * width + c2] == frame_cell(
                    width as int,
                    floor_count as int,
                    carriage as int,
                    panel_view(panel@),
                    r2,
                    c2,
                ),
        decreases height - row,
    {
        let mut col: usize = 0;
        while col < width
            invariant
                width >= 3,
                carriage < floor_count <= height,
                row < height,
                col <= width,
                out@.len() == row * width + col,
                forall|r2: int, c2: int|
                    0 <= r2 < row && 0 <= c2 < width ==> #[trigger] out@[r2 * width + c2] == frame_cell(
                        width as int,
                        floor_count as int,
                        carriage as int,
                        panel_view(panel@),
                        r2,
                        c2,
                    ),
                forall|c2: int|
                    0 <= c2 < col ==> #[trigger] out@[row * width + c2] == frame_cell(
                        width as int,
                        floor_count as int,
                        carriage as int,
                        panel_view(panel@),
                        row as int,
                        c2,
                    ),
            decreases width - col,
        {
            let c = cell(width, floor_count, carriage, panel, row, col);
            let ghost before = out@;
            out.push(c);
            proof {
                assert forall|r2: int, c2: int|
                    0 <= r2 < row && 0 <= c2 < width implies #[trigger] out@[r2 * width + c2] == frame_cell(
                        width as int,
                        floor_count as int,
                        carriage as int,
                        panel_view(panel@),
                        r2,
                        c2,
                    ) by {
                    assert(r2 * width + c2 < row * width) by (nonlinear_arith)
                        requires
                            0 <= r2 < row,
                            0 <= c2 < width,
                    ;
                    assert(out@[r2 * width + c2] == before[r2 * width + c2]);
                }
                assert(out@[row * width + col] == c);
            }
            col = col + 1;
        }
        assert((row + 1) * width == row * width + width) by (nonlinear_arith);
        proof {
            assert forall|r2: int, c2: int|
                0 <= r2 < row + 1 && 0 <= c2 < width implies #[trigger] out@[r2 * width + c2] == frame_cell(
                    width as int,
                    floor_count as int,
                    carriage as int,
                    panel_view(panel@),
                    r2,
                    c2,
                ) by {
                if r2 == row {
                    assert(out@[r2 * width + c2] == out@[row * width + c2]);
                }
            }
        }
        row = row + 1;
    }
    assert(row * width == width * height) by (nonlinear_arith)
        requires
            row == height,
    ;
    out
}

} // verus!
