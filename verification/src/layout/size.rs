//! Terminal sizes and split descriptions.
use vstd::prelude::*;

verus! {

/// A terminal grid: cells and the pixels they cover.
#[derive(Debug, Clone, Copy, PartialEq, Eq, Structural)]
pub struct TermSize {
    pub rows: usize,
    pub cols: usize,
    pub pixel_width: usize,
    pub pixel_height: usize,
    pub dpi: u32,
}

#[derive(Debug, Clone, Copy, PartialEq, Eq, Structural)]
pub enum SplitDirection {
    /// First is left, second is right.
    Horizontal,
    /// First is above, second is below.
    Vertical,
}

/// The sizes of the (first, second) child of a split.
#[derive(Debug, Clone, Copy, PartialEq, Eq, Structural)]
pub struct SplitDirectionAndSize {
    pub direction: SplitDirection,
    pub first: TermSize,
    pub second: TermSize,
}

#[derive(Debug, Clone, Copy, PartialEq, Eq, Structural)]
pub enum SplitSize {
    Cells(usize),
    Percent(u8),
}

#[derive(Debug, Clone, Copy, PartialEq, Eq, Structural)]
pub struct SplitRequest {
    pub direction: SplitDirection,
    /// Whether the newly created item will be in the second part
    /// of the split (right/bottom)
    pub target_is_second: bool,
    /// Split across the top of the tab rather than the active pane
    pub top_level: bool,
    /// The size of the new item
    pub size: SplitSize,
}

impl Default for SplitSize {
    fn default() -> (size: Self)
        ensures
            size == SplitSize::Percent(50),
    {
        SplitSize::Percent(50)
    }
}

impl Default for SplitRequest {
    fn default() -> (request: Self)
        ensures
            request == (SplitRequest {
                direction: SplitDirection::Horizontal,
                target_is_second: true,
                top_level: false,
                size: SplitSize::Percent(50),
            }),
    {
        SplitRequest {
            direction: SplitDirection::Horizontal,
            target_is_second: true,
            top_level: false,
            size: SplitSize::Percent(50),
        }
    }
}

/// A divider between two panes, in cells from the tab's top left corner.
#[derive(Debug, Clone, Copy, PartialEq, Eq, Structural)]
pub struct PositionedSplit {
    /// The topological node index that can be used to reference this split
    pub index: usize,
    pub direction: SplitDirection,
    pub left: usize,
    pub top: usize,
    /// For Horizontal splits, how tall the split should be, for Vertical
    /// splits how wide it should be
    pub size: usize,
}

impl SplitDirectionAndSize {
    pub open spec fn top_of_second_spec(&self) -> int {
        match self.direction {
            SplitDirection::Horizontal => 0,
            SplitDirection::Vertical => self.first.rows + 1,
        }
    }

    pub open spec fn left_of_second_spec(&self) -> int {
        match self.direction {
            SplitDirection::Horizontal => self.first.cols + 1,
            SplitDirection::Vertical => 0,
        }
    }

    pub open spec fn width_spec(&self) -> int {
        if self.direction == SplitDirection::Horizontal {
            self.first.cols + self.second.cols + 1
        } else {
            self.first.cols as int
        }
    }

    pub open spec fn height_spec(&self) -> int {
        if self.direction == SplitDirection::Vertical {
            self.first.rows + self.second.rows + 1
        } else {
            self.first.rows as int
        }
    }

    /// Row offset of the second child within the split.
    pub fn top_of_second(&self) -> (top: usize)
        requires
            self.top_of_second_spec() <= usize::MAX,
        ensures
            top == self.top_of_second_spec(),
    {
        match self.direction {
            SplitDirection::Horizontal => 0,
            SplitDirection::Vertical => self.first.rows + 1,
        }
    }

    /// Column offset of the second child within the split.
    pub fn left_of_second(&self) -> (left: usize)
        requires
            self.left_of_second_spec() <= usize::MAX,
        ensures
            left == self.left_of_second_spec(),
    {
        match self.direction {
            SplitDirection::Horizontal => self.first.cols + 1,
            SplitDirection::Vertical => 0,
        }
    }

    /// Columns covered by both children and the divider.
    pub fn width(&self) -> (width: usize)
        requires
            self.width_spec() <= usize::MAX,
        ensures
            width == self.width_spec(),
    {
        if self.direction == SplitDirection::Horizontal {
            self.first.cols + self.second.cols + 1
        } else {
            self.first.cols
        }
    }

    /// Rows covered by both children and the divider.
    pub fn height(&self) -> (height: usize)
        requires
            self.height_spec() <= usize::MAX,
        ensures
            height == self.height_spec(),
    {
        if self.direction == SplitDirection::Vertical {
            self.first.rows + self.second.rows + 1
        } else {
            self.first.rows
        }
    }

    /// The whole split as one terminal size, using the first child's cell size.
    pub fn size(&self) -> (size: TermSize)
        requires
            self.first.cols > 0,
            self.first.rows > 0,
            self.width_spec() <= usize::MAX,
            self.height_spec() <= usize::MAX,
            (self.first.pixel_height / self.first.rows) * self.height_spec() <= usize::MAX,
            (self.first.pixel_width / self.first.cols) * self.width_spec() <= usize::MAX,
        ensures
            size.rows == self.height_spec(),
            size.cols == self.width_spec(),
            size.pixel_height == (self.first.pixel_height / self.first.rows) * self.height_spec(),
            size.pixel_width == (self.first.pixel_width / self.first.cols) * self.width_spec(),
            size.dpi == self.first.dpi,
    {
        let cell_width = self.first.pixel_width / self.first.cols;
        let cell_height = self.first.pixel_height / self.first.rows;
        let rows = self.height();
        let cols = self.width();
        TermSize {
            rows,
            cols,
            pixel_height: cell_height * rows,
            pixel_width: cell_width * cols,
            dpi: self.first.dpi,
        }
    }
}

/// The size of one cell of `size`.
pub open spec fn cell_of(size: TermSize) -> TermSize {
    TermSize {
        rows: 1,
        cols: 1,
        pixel_width: (size.pixel_width / size.cols) as usize,
        pixel_height: (size.pixel_height / size.rows) as usize,
        dpi: size.dpi,
    }
}

pub fn cell_dimensions(size: &TermSize) -> (cell: TermSize)
    requires
        size.cols > 0,
        size.rows > 0,
    ensures
        cell == cell_of(*size),
{
    TermSize {
        rows: 1,
        cols: 1,
        pixel_width: size.pixel_width / size.cols,
        pixel_height: size.pixel_height / size.rows,
        dpi: size.dpi,
    }
}

pub open spec fn sat_sub(a: int, b: int) -> int {
    if a >= b {
        a - b
    } else {
        0
    }
}

/// Grid left for terminal content once a header and a symmetric padding are
/// taken out; at least one row and column always remain.
pub open spec fn content_size_spec(size: TermSize, header_rows: usize, padding: (usize, usize)) -> TermSize {
    let cell_width = if size.cols == 0 { 0 } else { size.pixel_width / size.cols };
    let cell_height = if size.rows == 0 { 0 } else { size.pixel_height / size.rows };
    let inset = if header_rows < sat_sub(size.rows as int, 1) { header_rows as int } else { sat_sub(size.rows as int, 1) };
    let available_width = sat_sub(size.pixel_width as int, padding.0 * 2);
    let available_height = sat_sub(sat_sub(size.pixel_height as int, inset * cell_height), padding.1 * 2);
    let cols = if available_width / (if cell_width == 0 { 1 } else { cell_width as int }) > 1 {
        available_width / (if cell_width == 0 { 1 } else { cell_width as int })
    } else {
        1
    };
    let rows = if available_height / (if cell_height == 0 { 1 } else { cell_height as int }) > 1 {
        available_height / (if cell_height == 0 { 1 } else { cell_height as int })
    } else {
        1
    };
    TermSize {
        rows: rows as usize,
        cols: cols as usize,
        pixel_width: (cols * cell_width) as usize,
        pixel_height: (rows * cell_height) as usize,
        dpi: size.dpi,
    }
}

/// Keep at least one terminal row when a window or split becomes very small.
pub fn pane_content_size(size: TermSize, header_rows: usize, padding: (usize, usize)) -> (content: TermSize)
    ensures
        content == content_size_spec(size, header_rows, padding),
        content.rows >= 1,
        content.cols >= 1,
{
    let cell_width: usize = if size.cols == 0 { 0 } else { size.pixel_width / size.cols };
    let cell_height: usize = if size.rows == 0 { 0 } else { size.pixel_height / size.rows };
    let inset: usize = if header_rows < size.rows.saturating_sub(1) {
        header_rows
    } else {
        size.rows.saturating_sub(1)
    };
    proof {
        if size.rows > 0 {
            assert(inset * cell_height <= size.pixel_height) by (nonlinear_arith)
                requires
                    inset <= size.rows,
                    cell_height == size.pixel_height / size.rows,
                    size.rows > 0,
            ;
        }
    }
    let pad_width: usize = if padding.0 > usize::MAX / 2 { usize::MAX } else { padding.0 * 2 };
    let pad_height: usize = if padding.1 > usize::MAX / 2 { usize::MAX } else { padding.1 * 2 };
    let available_width = size.pixel_width.saturating_sub(pad_width);
    let available_height = size.pixel_height.saturating_sub(inset * cell_height).saturating_sub(
        pad_height,
    );
    let cw: usize = if cell_width == 0 { 1 } else { cell_width };
    let ch: usize = if cell_height == 0 { 1 } else { cell_height };
    let cols: usize = if available_width / cw > 1 { available_width / cw } else { 1 };
    let rows: usize = if available_height / ch > 1 { available_height / ch } else { 1 };
    proof {
        assert(cols * cell_width <= usize::MAX) by (nonlinear_arith)
            requires
                cw > 0,
                cell_width == 0 || cw == cell_width,
                cols == 1 || cols == available_width / cw,
                available_width <= usize::MAX,
                cell_width <= usize::MAX,
        ;
        assert(rows * cell_height <= usize::MAX) by (nonlinear_arith)
            requires
                ch > 0,
                cell_height == 0 || ch == cell_height,
                rows == 1 || rows == available_height / ch,
                available_height <= usize::MAX,
                cell_height <= usize::MAX,
        ;
    }
    TermSize {
        rows,
        cols,
        pixel_width: cols * cell_width,
        pixel_height: rows * cell_height,
        dpi: size.dpi,
    }
}

/// The content grid of a pane whose font has its own cell size.
pub open spec fn size_with_cell_spec(
    size: TermSize,
    header_rows: usize,
    padding: (usize, usize),
    cell: Option<(usize, usize)>,
) -> TermSize {
    let content = content_size_spec(size, header_rows, padding);
    match cell {
        None => content,
        Some((cell_width, cell_height)) => {
            let cols = if content.pixel_width / cell_width > 1 { content.pixel_width / cell_width } else { 1 };
            let rows = if content.pixel_height / cell_height > 1 { content.pixel_height / cell_height } else { 1 };
            TermSize {
                rows: rows as usize,
                cols: cols as usize,
                pixel_width: (cols * cell_width) as usize,
                pixel_height: (rows * cell_height) as usize,
                dpi: content.dpi,
            }
        },
    }
}

/// Font overrides affect only the PTY grid. Split geometry and header height
/// continue to use the tab's global layout grid.
pub fn pane_size_with_cell(
    size: TermSize,
    header_rows: usize,
    padding: (usize, usize),
    cell: Option<(usize, usize)>,
) -> (content: TermSize)
    requires
        cell matches Some((w, h)) ==> w > 0 && h > 0,
    ensures
        content == size_with_cell_spec(size, header_rows, padding, cell),
{
    let mut content = pane_content_size(size, header_rows, padding);
    match cell {
        None => {},
        Some((cell_width, cell_height)) => {
            let cols: usize = if content.pixel_width / cell_width > 1 {
                content.pixel_width / cell_width
            } else {
                1
            };
            let rows: usize = if content.pixel_height / cell_height > 1 {
                content.pixel_height / cell_height
            } else {
                1
            };
            proof {
                assert(cols * cell_width <= usize::MAX) by (nonlinear_arith)
                    requires
                        cell_width > 0,
                        cols == 1 || cols == content.pixel_width / cell_width,
                        content.pixel_width <= usize::MAX,
                        cell_width <= usize::MAX,
                ;
                assert(rows * cell_height <= usize::MAX) by (nonlinear_arith)
                    requires
                        cell_height > 0,
                        rows == 1 || rows == content.pixel_height / cell_height,
                        content.pixel_height <= usize::MAX,
                        cell_height <= usize::MAX,
                ;
            }
            content.cols = cols;
            content.rows = rows;
            content.pixel_width = cols * cell_width;
            content.pixel_height = rows * cell_height;
        },
    }
    content
}

} // verus!
