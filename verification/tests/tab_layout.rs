use termviai::layout::direction::PaneDirection;
use termviai::layout::size::{SplitDirection, SplitDirectionAndSize, SplitRequest, SplitSize, TermSize};
use termviai::layout::focus::FocusChange;
use termviai::layout::pane_chrome::PaneChrome;
use termviai::layout::pane_move::MoveError;
use termviai::layout::tab::{SplitError, TabLayout};
use termviai::layout::tree::{collect_panes, Tree};

fn size(cols: usize, rows: usize) -> TermSize {
    TermSize { rows, cols, pixel_width: cols * 10, pixel_height: rows * 20, dpi: 96 }
}

fn right() -> SplitRequest {
    SplitRequest { direction: SplitDirection::Horizontal, target_is_second: true, top_level: false, size: SplitSize::Percent(50) }
}

fn panes(layout: &TabLayout) -> Vec<(usize, usize, usize, usize)> {
    let mut out = Vec::new();
    collect_panes(&layout.tree, 0, 0, layout.size, layout.active, layout.zoomed, &mut out);
    out.iter().map(|p| (p.pane_id, p.left, p.width, p.height)).collect()
}

fn tab() -> TabLayout {
    let mut layout = TabLayout::new(size(80, 24));
    layout.assign_pane(1);
    layout
}

#[test]
fn splitting_a_pane_puts_the_new_one_beside_it() {
    let mut layout = tab();
    let plan = layout.plan_split(0, right()).unwrap();
    assert_eq!(plan.existing.unwrap().0, 1);
    assert!(!plan.new_root);
    assert_eq!(layout.split_and_insert(0, right(), 2), Ok(1));
    assert_eq!(layout.active, 1);
    assert_eq!(panes(&layout), vec![(1, 0, 39, 24), (2, 40, 40, 24)]);
    let below = SplitRequest { direction: SplitDirection::Vertical, ..right() };
    assert_eq!(layout.split_and_insert(1, below, 3), Ok(2));
    assert_eq!(panes(&layout), vec![(1, 0, 39, 24), (2, 40, 40, 11), (3, 40, 40, 12)]);
    assert_eq!(layout.count_panes(), 3);
}

#[test]
fn splits_are_refused_when_zoomed_out_of_range_or_without_room() {
    let mut layout = tab();
    assert_eq!(layout.split_and_insert(5, right(), 2), Err(SplitError::InvalidIndex(5)));
    let mut tiny = TabLayout::new(size(2, 1));
    tiny.assign_pane(1);
    assert_eq!(tiny.split_and_insert(0, right(), 2), Err(SplitError::NoSpace));
    layout.split_and_insert(0, right(), 2).unwrap();
    layout.toggle_zoom();
    assert_eq!(layout.zoomed, Some(2));
    assert_eq!(layout.split_and_insert(0, right(), 3), Err(SplitError::Zoomed));
    assert!(layout.set_zoomed(false));
    assert_eq!(layout.zoomed, None);
    assert_eq!(layout.count_panes(), 2);
}

#[test]
fn top_level_splits_wrap_every_pane() {
    let mut layout = tab();
    layout.split_and_insert(0, right(), 2).unwrap();
    let top = SplitRequest { direction: SplitDirection::Vertical, target_is_second: false, top_level: true, size: SplitSize::Cells(5) };
    assert!(layout.plan_split(0, top).unwrap().needs_resize);
    assert_eq!(layout.split_and_insert(0, top, 3), Ok(0));
    assert_eq!(layout.active, 0);
    let listed = panes(&layout);
    assert_eq!(listed[0], (3, 0, 80, 5));
    assert_eq!(listed[1].0, 1);
    assert_eq!(listed[2].0, 2);
    assert_eq!(listed[1].3 + 6, 24);
    assert_eq!(layout.size, size(80, 24));
}

#[test]
fn removing_a_pane_gives_its_place_to_the_sibling() {
    let mut layout = tab();
    layout.split_and_insert(0, right(), 2).unwrap();
    let below = SplitRequest { direction: SplitDirection::Vertical, ..right() };
    layout.split_and_insert(1, below, 3).unwrap();
    assert!(layout.remove_pane(2));
    assert_eq!(panes(&layout), vec![(1, 0, 39, 24), (3, 40, 40, 24)]);
    assert_eq!(layout.active, 1);
    assert!(!layout.remove_pane(9));
    assert!(layout.remove_pane(1));
    assert!(layout.remove_pane(3));
    assert!(matches!(layout.tree, Tree::Empty));
}

#[test]
fn rotations_turn_the_panes_and_undo_each_other() {
    let mut layout = tab();
    layout.split_and_insert(0, right(), 2).unwrap();
    layout.split_and_insert(1, right(), 3).unwrap();
    layout.rotate_clockwise();
    assert_eq!(panes(&layout).iter().map(|p| p.0).collect::<Vec<_>>(), vec![3, 1, 2]);
    layout.rotate_counter_clockwise();
    assert_eq!(panes(&layout).iter().map(|p| p.0).collect::<Vec<_>>(), vec![1, 2, 3]);
}

#[test]
fn swapping_moves_the_active_pane() {
    let mut layout = tab();
    layout.split_and_insert(0, right(), 2).unwrap();
    layout.split_and_insert(1, right(), 3).unwrap();
    layout.set_active_idx(0);
    assert_eq!(layout.get_active_pane(), Some(1));
    assert_eq!(layout.swap_active_with_index(2, true), Some(()));
    assert_eq!(panes(&layout).iter().map(|p| p.0).collect::<Vec<_>>(), vec![3, 2, 1]);
    assert_eq!(layout.active, 2);
    assert_eq!(layout.swap_active_with_index(7, false), None);
}

#[test]
fn resizing_grows_the_last_part_and_keeps_the_minimum() {
    let mut layout = tab();
    layout.split_and_insert(0, right(), 2).unwrap();
    layout.resize(size(100, 30));
    assert_eq!(panes(&layout), vec![(1, 0, 49, 30), (2, 50, 50, 30)]);
    layout.resize(size(1, 1));
    assert_eq!(layout.size.cols, 3);
    assert_eq!(layout.size.rows, 1);
    layout.resize(size(0, 10));
    assert_eq!(layout.size.cols, 3);
}

#[test]
fn proportional_resizing_keeps_the_ratio() {
    let mut layout = tab();
    layout.proportional = true;
    layout.split_and_insert(0, right(), 2).unwrap();
    layout.resize(size(160, 24));
    let listed = panes(&layout);
    assert_eq!(listed[0].2 + listed[1].2 + 1, 160);
    assert!(listed[0].2 >= 78 && listed[0].2 <= 80);
    assert!(layout.resize_reference.is_some());
}

fn three_panes() -> TabLayout {
    let mut layout = tab();
    layout.split_and_insert(0, right(), 2).unwrap();
    let below = SplitRequest { direction: SplitDirection::Vertical, ..right() };
    layout.split_and_insert(1, below, 3).unwrap();
    layout
}

#[test]
fn moving_a_divider_hands_the_new_size_to_the_splits_inside() {
    let mut layout = three_panes();
    assert_eq!(panes(&layout), vec![(1, 0, 39, 24), (2, 40, 40, 11), (3, 40, 40, 12)]);
    layout.resize_split_by(0, 5);
    assert_eq!(panes(&layout), vec![(1, 0, 44, 24), (2, 45, 35, 11), (3, 45, 35, 12)]);
    match &layout.tree {
        Tree::Node { data: Some(d), .. } => {
            assert_eq!(d.first.pixel_width, 440);
            assert_eq!(d.second.pixel_width, 350);
        }
        _ => panic!("the root is a split"),
    }
    layout.resize_split_by(1, 3);
    assert_eq!(panes(&layout), vec![(1, 0, 44, 24), (2, 45, 35, 14), (3, 45, 35, 9)]);
}

#[test]
fn a_divider_stops_at_one_cell_and_unknown_splits_are_ignored() {
    let mut layout = three_panes();
    layout.resize_split_by(0, -100);
    assert_eq!(panes(&layout), vec![(1, 0, 1, 24), (2, 2, 78, 11), (3, 2, 78, 12)]);
    layout.resize_split_by(0, 1000);
    assert_eq!(panes(&layout), vec![(1, 0, 78, 24), (2, 79, 1, 11), (3, 79, 1, 12)]);
    let before = panes(&layout);
    layout.resize_split_by(7, 3);
    assert_eq!(panes(&layout), before);
}

#[test]
fn keyboard_resizing_moves_the_nearest_divider_across_the_direction() {
    let mut layout = three_panes();
    assert_eq!(layout.active, 2);
    layout.adjust_pane_size(PaneDirection::Up, 3);
    assert_eq!(panes(&layout), vec![(1, 0, 39, 24), (2, 40, 40, 8), (3, 40, 40, 15)]);
    layout.adjust_pane_size(PaneDirection::Left, 2);
    assert_eq!(panes(&layout), vec![(1, 0, 37, 24), (2, 38, 42, 8), (3, 38, 42, 15)]);
    layout.set_active_idx(0);
    layout.adjust_pane_size(PaneDirection::Down, 4);
    assert_eq!(panes(&layout), vec![(1, 0, 37, 24), (2, 38, 42, 8), (3, 38, 42, 15)]);
}

#[test]
fn nothing_moves_while_a_pane_is_zoomed() {
    let mut layout = three_panes();
    layout.toggle_zoom();
    layout.resize_split_by(0, 5);
    layout.adjust_pane_size(PaneDirection::Right, 5);
    layout.toggle_zoom();
    assert_eq!(panes(&layout), vec![(1, 0, 39, 24), (2, 40, 40, 11), (3, 40, 40, 12)]);
}

#[test]
fn split_sizes_are_taken_back_from_the_panes() {
    let mut layout = three_panes();
    layout.rebuild_splits_sizes_from_contained_panes(&[size(30, 24), size(49, 10), size(49, 13)]);
    assert_eq!(panes(&layout), vec![(1, 0, 30, 24), (2, 31, 49, 10), (3, 31, 49, 13)]);
    assert_eq!(layout.size, size(80, 24));
    assert!(layout.resize_reference.is_none());
}

fn ids(layout: &TabLayout) -> Vec<usize> {
    panes(layout).iter().map(|p| p.0).collect()
}

#[test]
fn a_pane_moves_next_to_another_in_its_tab() {
    let mut layout = three_panes();
    let below = SplitRequest { direction: SplitDirection::Vertical, ..right() };
    assert_eq!(layout.move_pane_within_tab(1, 3, below), Ok(2));
    assert_eq!(ids(&layout), vec![2, 3, 1]);
    assert_eq!(layout.active, 2);
    let listed = panes(&layout);
    assert!(listed.iter().all(|p| p.2 == 80));
    assert_eq!(layout.move_pane_within_tab(9, 3, below), Err(MoveError::SourceMissing(9)));
    assert_eq!(layout.move_pane_within_tab(1, 9, below), Err(MoveError::TargetMissing(9)));
    assert_eq!(ids(&layout), vec![2, 3, 1]);
}

#[test]
fn a_refused_move_puts_the_tab_back() {
    let mut layout = three_panes();
    layout.set_active_idx(1);
    layout.toggle_zoom();
    assert_eq!(layout.zoomed, Some(2));
    let before = panes(&layout);
    assert_eq!(layout.move_pane_within_tab(1, 3, right()), Err(MoveError::Split(SplitError::Zoomed)));
    assert_eq!(panes(&layout), before);
    assert_eq!(layout.zoomed, Some(2));
    assert_eq!(layout.active, 1);
}

#[test]
fn a_pane_moves_between_tabs_only_when_the_target_can_split() {
    let mut source = tab();
    source.split_and_insert(0, right(), 2).unwrap();
    let mut target = TabLayout::new(size(80, 24));
    target.assign_pane(3);
    assert_eq!(target.move_pane_from(&mut source, 3, 3, right()), Err(MoveError::IntoItself));
    assert_eq!(target.move_pane_from(&mut source, 7, 3, right()), Err(MoveError::SourceMissing(7)));
    assert_eq!(target.move_pane_from(&mut source, 2, 8, right()), Err(MoveError::TargetMissing(8)));
    assert_eq!(target.move_pane_from(&mut source, 2, 3, right()), Ok(1));
    assert_eq!(ids(&target), vec![3, 2]);
    assert_eq!(ids(&source), vec![1]);
    assert_eq!(panes(&source), vec![(1, 0, 80, 24)]);
}

#[test]
fn terminals_get_their_part_less_the_header_in_their_own_cells() {
    let layout = three_panes();
    let mut chrome = PaneChrome::new();
    assert!(chrome.set_pane_header_rows(1));
    assert!(!chrome.set_pane_header_rows(1));
    let sizes = chrome.pane_sizes(&layout.tree, layout.size);
    let cells: Vec<(usize, usize, usize)> = sizes.iter().map(|(id, s)| (*id, s.cols, s.rows)).collect();
    assert_eq!(cells, vec![(1, 39, 23), (2, 40, 10), (3, 40, 11)]);
    assert_eq!(
        chrome.set_pane_cell_size(&layout, 2, Some((8, 16))),
        Some(TermSize { rows: 12, cols: 50, pixel_width: 400, pixel_height: 192, dpi: 96 })
    );
    assert_eq!(chrome.set_pane_cell_size(&layout, 2, Some((8, 16))), None);
    assert_eq!(chrome.set_pane_cell_size(&layout, 2, Some((0, 16))), None);
    assert_eq!(chrome.set_pane_cell_size(&layout, 9, Some((8, 16))), None);
    let sizes = chrome.pane_sizes(&layout.tree, layout.size);
    assert_eq!((sizes[1].1.cols, sizes[1].1.rows), (50, 12));
    assert!(chrome.set_pane_chrome(0, (4, 4)));
    assert!(!chrome.set_pane_content_padding((4, 4)));
}

#[test]
fn a_zoomed_tab_shows_one_pane_over_the_whole_tab() {
    let mut layout = three_panes();
    assert_eq!(layout.iter_panes().len(), 3);
    layout.toggle_zoom();
    let shown = layout.iter_panes();
    assert_eq!(shown.len(), 1);
    assert_eq!((shown[0].pane_id, shown[0].width, shown[0].height), (3, 80, 24));
    assert_eq!(layout.iter_panes_ignoring_zoom().len(), 3);
}

#[test]
fn proportional_tabs_ignore_repeated_sizes_and_forget_ratios_when_switched() {
    let mut layout = tab();
    layout.split_and_insert(0, right(), 2).unwrap();
    layout.set_proportional_resize(true);
    layout.request_resize(size(100, 24));
    assert!(layout.resize_reference.is_some());
    let before = panes(&layout);
    layout.request_resize(layout.size);
    assert_eq!(panes(&layout), before);
    layout.set_proportional_resize(true);
    assert!(layout.resize_reference.is_some());
    layout.set_proportional_resize(false);
    assert!(layout.resize_reference.is_none());
    assert!(!layout.proportional);
}

#[test]
fn focusing_a_pane_reports_who_lost_and_gained_the_focus() {
    let mut layout = three_panes();
    assert_eq!(layout.get_active_pane(), Some(3));
    assert_eq!(layout.set_active_pane(1, false), FocusChange { lost: Some(3), gained: Some(1) });
    assert_eq!(layout.active, 0);
    assert_eq!(layout.set_active_pane(1, false), FocusChange { lost: None, gained: None });
    assert_eq!(layout.set_active_pane(9, false), FocusChange { lost: None, gained: None });
    assert_eq!(layout.active, 0);
    layout.toggle_zoom();
    assert_eq!(layout.set_active_pane(2, false), FocusChange { lost: None, gained: None });
    assert_eq!(layout.zoomed, Some(1));
    assert_eq!(layout.set_active_pane(2, true), FocusChange { lost: Some(1), gained: Some(2) });
    assert_eq!(layout.zoomed, None);
    assert_eq!(layout.active, 1);
    assert_eq!(panes(&layout), vec![(1, 0, 39, 24), (2, 40, 40, 11), (3, 40, 40, 12)]);
}

#[test]
fn focus_moves_by_direction_and_a_zoom_ends_only_when_allowed() {
    let mut layout = tab();
    layout.split_and_insert(0, right(), 2).unwrap();
    assert_eq!(layout.get_active_idx(), 1);
    assert_eq!(layout.get_pane_direction(PaneDirection::Left, false), Some(0));
    assert_eq!(layout.get_pane_direction(PaneDirection::Right, false), None);
    layout.activate_pane_direction(PaneDirection::Left, true);
    assert_eq!(layout.get_active_idx(), 0);
    layout.activate_pane_direction(PaneDirection::Left, true);
    assert_eq!(layout.get_active_idx(), 0);
    layout.activate_pane_direction(PaneDirection::Next, true);
    assert_eq!(layout.get_active_idx(), 1);
    layout.toggle_zoom();
    assert_eq!(layout.get_zoomed_pane(), Some(2));
    // While zoomed only the zoomed pane is shown.
    assert_eq!(layout.get_pane_direction(PaneDirection::Left, false), None);
    assert_eq!(layout.get_pane_direction(PaneDirection::Left, true), Some(0));
    layout.activate_pane_direction(PaneDirection::Left, false);
    assert_eq!((layout.get_active_idx(), layout.get_zoomed_pane()), (1, Some(2)));
    layout.activate_pane_direction(PaneDirection::Left, true);
    assert_eq!((layout.get_active_idx(), layout.get_zoomed_pane()), (0, None));
}

#[test]
fn dividers_are_listed_in_preorder_and_hidden_by_a_zoom() {
    let mut layout = tab();
    layout.split_and_insert(0, right(), 2).unwrap();
    let below = SplitRequest { direction: SplitDirection::Vertical, ..right() };
    layout.split_and_insert(1, below, 3).unwrap();
    let splits: Vec<_> = layout.iter_splits().iter().map(|s| (s.index, s.direction, s.left, s.top, s.size)).collect();
    assert_eq!(
        splits,
        vec![(0, SplitDirection::Horizontal, 39, 0, 24), (1, SplitDirection::Vertical, 40, 11, 40)]
    );
    layout.toggle_zoom();
    assert!(layout.iter_splits().is_empty());
}

#[test]
fn pruning_skips_the_pane_that_takes_a_removed_split() {
    let mut layout = tab();
    layout.split_and_insert(0, right(), 2).unwrap();
    // The second pane takes the split's place and is not looked at.
    assert_eq!(layout.remove_pane_if(&[1, 2]), vec![1]);
    assert_eq!(panes(&layout), vec![(2, 0, 80, 24)]);
    assert_eq!(layout.active, 0);
    assert_eq!(layout.remove_pane_if(&[2]), vec![2]);
    assert!(matches!(layout.tree, Tree::Empty));
    assert!(layout.remove_pane_if(&[2]).is_empty());
}

#[test]
fn pruning_walks_a_promoted_split_again_and_fits_it() {
    let mut layout = tab();
    layout.split_and_insert(0, right(), 2).unwrap();
    layout.split_and_insert(0, right(), 3).unwrap();
    assert_eq!(panes(&layout), vec![(1, 0, 19, 24), (3, 20, 19, 24), (2, 40, 40, 24)]);
    let active = layout.active;
    assert_eq!(layout.remove_pane_if(&[2]), vec![2]);
    assert_eq!(panes(&layout), vec![(1, 0, 19, 24), (3, 20, 60, 24)]);
    assert_eq!(layout.active, active);

    let mut layout = tab();
    for id in [5, 4, 2] {
        layout.split_and_insert(0, right(), id).unwrap();
    }
    assert_eq!(panes(&layout).iter().map(|p| p.0).collect::<Vec<_>>(), vec![1, 2, 4, 5]);
    assert_eq!(layout.active, 1);
    // Pane 2 is passed over when it takes the place of pane 1, and taken out
    // when the walk comes back after pane 5 went.
    assert_eq!(layout.remove_pane_if(&[1, 2, 5]), vec![1, 5, 2]);
    assert_eq!(panes(&layout), vec![(4, 0, 80, 24)]);
    assert_eq!(layout.active, 0);
}

#[test]
fn pruning_the_zoomed_pane_ends_the_zoom() {
    let mut layout = tab();
    layout.split_and_insert(0, right(), 2).unwrap();
    layout.toggle_zoom();
    assert_eq!(layout.zoomed, Some(2));
    assert_eq!(layout.remove_pane_if(&[2]), vec![2]);
    assert_eq!(layout.zoomed, None);
    assert_eq!(panes(&layout), vec![(1, 0, 80, 24)]);
}

#[test]
fn proportional_resize_comes_back_to_the_same_layout() {
    let mut layout = tab();
    layout.set_proportional_resize(true);
    layout.split_and_insert(0, right(), 2).unwrap();
    let below = SplitRequest { direction: SplitDirection::Vertical, ..right() };
    layout.split_and_insert(1, below, 3).unwrap();
    layout.resize(size(101, 31));
    let once = panes(&layout);
    for (cols, rows) in [(37, 9), (240, 77), (102, 31), (5, 3)] {
        layout.resize(size(cols, rows));
        layout.resize(size(101, 31));
        assert_eq!(panes(&layout), once);
    }
}

#[test]
fn proportional_resize_back_restores_a_settled_layout_and_rearranges_an_unsettled_one() {
    // Settled: splits made at this size come back exactly.
    let mut layout = tab();
    layout.split_and_insert(0, right(), 2).unwrap();
    layout.set_proportional_resize(true);
    let start = panes(&layout);
    layout.resize(size(133, 40));
    layout.resize(size(80, 24));
    assert_eq!(panes(&layout), start);

    // Not settled: a gap between the parts is shared out by their ratio.
    let mut layout = TabLayout::new(size(80, 24));
    layout.tree = Tree::Node {
        left: Box::new(Tree::Leaf(1)),
        right: Box::new(Tree::Leaf(2)),
        data: Some(SplitDirectionAndSize {
            direction: SplitDirection::Horizontal,
            first: size(30, 24),
            second: size(30, 24),
        }),
    };
    layout.set_proportional_resize(true);
    layout.resize(size(100, 24));
    layout.resize(size(80, 24));
    assert_eq!(panes(&layout), vec![(1, 0, 40, 24), (2, 41, 39, 24)]);
}
