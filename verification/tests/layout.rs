use termviai::layout::direction::{get_pane_direction, PaneDirection, Recency};
use termviai::layout::dock::DockSide;
use termviai::layout::proportional::{proportional_first_size, SplitResizeReference};
use termviai::layout::size::{
    cell_dimensions, pane_content_size, pane_size_with_cell, SplitDirection, SplitDirectionAndSize, SplitRequest,
    SplitSize, TermSize,
};
use termviai::layout::tree::{collect_panes, compute_min_size, split_dimension, split_layout, PositionedPane, Tree};

fn size(cols: usize, rows: usize) -> TermSize {
    TermSize { rows, cols, pixel_width: cols * 10, pixel_height: rows * 20, dpi: 96 }
}

fn two_columns() -> Tree {
    Tree::Node {
        left: Box::new(Tree::Leaf(1)),
        right: Box::new(Tree::Leaf(2)),
        data: Some(SplitDirectionAndSize { direction: SplitDirection::Horizontal, first: size(39, 24), second: size(40, 24) }),
    }
}

#[test]
fn panes_are_listed_left_to_right_with_their_cells() {
    let mut out = Vec::new();
    collect_panes(&two_columns(), 0, 0, size(80, 24), 1, None, &mut out);
    assert_eq!(out.len(), 2);
    assert_eq!((out[0].pane_id, out[0].left, out[0].width), (1, 0, 39));
    assert_eq!((out[1].pane_id, out[1].left, out[1].width), (2, 40, 40));
    assert!(out[1].is_active);
    assert_eq!(compute_min_size(&two_columns()), (3, 1));
}

#[test]
fn percent_splits_leave_a_divider_column() {
    let request = SplitRequest { direction: SplitDirection::Horizontal, target_is_second: true, top_level: false, size: SplitSize::Percent(50) };
    assert_eq!(split_dimension(80, request), (39, 40));
    let cells = SplitRequest { size: SplitSize::Cells(10), target_is_second: false, ..request };
    assert_eq!(split_dimension(80, cells), (10, 69));
    let split = split_layout(80, 24, request, cell_dimensions(&size(80, 24)));
    assert_eq!(split.first.cols, 39);
    assert_eq!(split.second.cols, 40);
    assert_eq!(split.second.pixel_width, 400);
    assert_eq!(split.first.rows, 24);
}

#[test]
fn docking_sides_split_halves() {
    let right = DockSide::Right.split_request();
    assert_eq!(right.direction, SplitDirection::Horizontal);
    assert!(right.target_is_second);
    assert!(!right.top_level);
    assert_eq!(right.size, SplitSize::Percent(50));
    let top = DockSide::Top.split_request();
    assert_eq!(top.direction, SplitDirection::Vertical);
    assert!(!top.target_is_second);
    assert_eq!(SplitRequest::default(), DockSide::Right.split_request());
}

#[test]
fn headers_never_take_the_last_row() {
    let content = pane_content_size(size(80, 2), 2, (0, 0));
    assert_eq!(content.rows, 1);
    assert_eq!(content.cols, 80);
    let padded = pane_content_size(size(80, 24), 1, (10, 20));
    assert_eq!(padded.cols, 78);
    assert_eq!(padded.rows, 21);
    let font = pane_size_with_cell(size(80, 24), 0, (0, 0), Some((20, 40)));
    assert_eq!((font.cols, font.rows), (40, 12));
}

#[test]
fn proportional_resize_keeps_ratios() {
    assert_eq!(proportional_first_size(99, 1, 2, 1, 1), 33);
    let mut tree = two_columns();
    let reference = SplitResizeReference::capture(&tree);
    reference.apply(&mut tree, size(160, 24));
    match &tree {
        Tree::Node { data: Some(data), .. } => {
            assert_eq!(data.first.cols + data.second.cols + 1, 160);
        }
        _ => panic!("the split stays"),
    }
    assert!(reference.matches(&tree));
}

fn pane(index: usize, left: usize, width: usize, active: bool) -> PositionedPane {
    PositionedPane {
        index,
        is_active: active,
        is_zoomed: false,
        left,
        top: 0,
        width,
        pixel_width: width * 10,
        height: 24,
        pixel_height: 480,
        pane_id: index + 100,
    }
}

#[test]
fn focus_moves_to_neighbours_and_cycles() {
    let panes = [pane(0, 0, 39, true), pane(1, 40, 40, false)];
    let recency = Recency::new();
    assert_eq!(get_pane_direction(&panes, &recency, PaneDirection::Right), Some(1));
    assert_eq!(get_pane_direction(&panes, &recency, PaneDirection::Left), None);
    assert_eq!(get_pane_direction(&panes, &recency, PaneDirection::Next), Some(1));
    assert_eq!(get_pane_direction(&panes, &recency, PaneDirection::Prev), Some(1));
}
