use std::cell::RefCell;
use std::collections::HashMap;
use termviai::layout::pane_move::MoveError;
use termviai::layout::ptys::Tab;
use termviai::layout::tab::SplitError;
use termviai::layout::size::{
    pane_content_size, pane_size_with_cell, SplitDirection, SplitDirectionAndSize, SplitRequest, SplitSize, TermSize,
};

fn pane_layout(tab: &Tab) -> Vec<(usize, usize, usize, usize, usize)> {
    tab.layout
        .iter_panes_ignoring_zoom()
        .iter()
        .map(|p| (p.pane_id, p.left, p.top, p.width, p.height))
        .collect()
}

/// The size the terminal of pane `id` was last given.
fn fake_size(tab: &Tab, id: usize) -> TermSize {
    tab.pty_sizes().into_iter().find(|(pane, _)| *pane == id).unwrap().1
}

fn standard() -> TermSize {
    TermSize { rows: 24, cols: 80, pixel_width: 800, pixel_height: 600, dpi: 96 }
}

#[test]
fn pane_headers_reserve_pty_rows_through_layout_changes() {
    let size = standard();
    let mut tab = Tab::new(size);
    tab.assign_pane(1);
    assert_eq!(fake_size(&tab, 1), size);
    tab.set_pane_header_rows(2);
    assert_eq!(fake_size(&tab, 1).rows, 22);
    assert_eq!(fake_size(&tab, 1).pixel_height, 550);
    assert_eq!(pane_layout(&tab), vec![(1, 0, 0, 80, 24)]);
    tab.layout
        .split_and_insert(0, SplitRequest { direction: SplitDirection::Vertical, ..Default::default() }, 2)
        .unwrap();
    assert_eq!(fake_size(&tab, 1).rows, 9);
    assert_eq!(fake_size(&tab, 2).rows, 10);
    tab.layout.resize_split_by(0, 1);
    assert_eq!(fake_size(&tab, 1).rows, 10);
    assert_eq!(fake_size(&tab, 2).rows, 9);
    tab.layout.set_zoomed(true);
    assert_eq!(fake_size(&tab, 2).rows, 22);
    tab.layout.set_zoomed(false);
    assert_eq!(fake_size(&tab, 2).rows, 9);
    tab.remove_pane(1);
    assert_eq!(fake_size(&tab, 2).rows, 22);
    tab.set_pane_header_rows(0);
    assert_eq!(fake_size(&tab, 2), size);
}

#[test]
fn pane_headers_apply_to_top_level_splits_and_tiny_panes() {
    let size = standard();
    let mut tab = Tab::new(size);
    tab.assign_pane(1);
    tab.set_pane_header_rows(2);
    tab.layout.split_and_insert(0, SplitRequest::default(), 2).unwrap();
    tab.layout
        .split_and_insert(
            0,
            SplitRequest { top_level: true, direction: SplitDirection::Vertical, ..Default::default() },
            3,
        )
        .unwrap();
    assert_eq!(tab.get_size(), size);
    for pane in tab.layout.iter_panes() {
        assert_eq!(fake_size(&tab, pane.pane_id).rows, pane.height - 2);
    }
    let tiny = TermSize { rows: 1, pixel_height: 25, ..size };
    assert_eq!(pane_content_size(tiny, 2, (0, 0)), tiny);
    let two = TermSize { rows: 2, pixel_height: 50, ..size };
    assert_eq!(pane_content_size(two, 2, (0, 0)), tiny);
}

#[test]
fn pane_content_padding_is_symmetric_and_uses_physical_pixels() {
    let size = TermSize { rows: 40, cols: 100, pixel_width: 1000, pixel_height: 800, dpi: 96 };
    assert_eq!(
        pane_content_size(size, 2, (10, 10)),
        TermSize { rows: 37, cols: 98, pixel_width: 980, pixel_height: 740, dpi: 96 }
    );
    assert_eq!(
        pane_size_with_cell(size, 2, (10, 10), Some((20, 25))),
        TermSize { rows: 29, cols: 49, pixel_width: 980, pixel_height: 725, dpi: 96 }
    );
}

fn proportional_test_size(cols: usize, rows: usize) -> TermSize {
    TermSize { cols, rows, pixel_width: cols * 10, pixel_height: rows * 20, dpi: 96 }
}

fn proportional_test_grid() -> Tab {
    let size = proportional_test_size(101, 81);
    let mut tab = Tab::new(size);
    tab.layout.set_proportional_resize(true);
    tab.assign_pane(1);
    tab.layout.split_and_insert(0, SplitRequest::default(), 2).unwrap();
    for (index, id) in [(0, 3), (2, 4)] {
        tab.layout
            .split_and_insert(index, SplitRequest { direction: SplitDirection::Vertical, ..Default::default() }, id)
            .unwrap();
    }
    tab
}

#[test]
fn proportional_resize_tracks_every_pane_without_small_step_drift() {
    let mut tab = proportional_test_grid();
    let original = pane_layout(&tab);
    for step in 1..=100 {
        tab.resize(proportional_test_size(101 + step, 81 + step));
        let panes = tab.layout.iter_panes();
        for pane in panes {
            assert!((pane.width as isize - (100 + step) as isize / 2).abs() <= 1);
            assert!((pane.height as isize - (80 + step) as isize / 2).abs() <= 1);
            assert_eq!(fake_size(&tab, pane.pane_id).cols, pane.width);
            assert_eq!(fake_size(&tab, pane.pane_id).rows, pane.height);
        }
    }
    for step in (0..100).rev() {
        tab.resize(proportional_test_size(101 + step, 81 + step));
    }
    assert_eq!(pane_layout(&tab), original);
}

#[test]
fn proportional_resize_preserves_dragged_ratios_and_child_ratios() {
    let mut tab = proportional_test_grid();
    // Root horizontal divider 50/50 -> 70/30; left vertical 40/40 -> 50/30.
    tab.layout.resize_split_by(0, 20);
    tab.layout.resize_split_by(1, 10);
    let original = pane_layout(&tab);
    assert_eq!(original, vec![(1, 0, 0, 70, 50), (3, 0, 51, 70, 30), (2, 71, 0, 30, 40), (4, 71, 41, 30, 40)]);
    for step in 1..=100 {
        tab.resize(proportional_test_size(101 + step, 81 + step));
    }
    let panes = tab.layout.iter_panes();
    assert_eq!(panes[0].width, 140);
    assert_eq!(panes[1].width, 140);
    assert_eq!(panes[2].width, 60);
    assert_eq!(panes[3].width, 60);
    assert_eq!((panes[0].height, panes[1].height), (113, 67));
    assert_eq!((panes[2].height, panes[3].height), (90, 90));
    tab.resize(proportional_test_size(101, 81));
    assert_eq!(pane_layout(&tab), original);

    // Moving a parent divider must not pin the first nested child either.
    tab.layout.split_and_insert(0, SplitRequest::default(), 5).unwrap();
    tab.layout.resize_split_by(0, -30);
    let panes = tab.layout.iter_panes();
    assert!((panes[0].width as isize - panes[1].width as isize).abs() <= 1);
    assert_eq!(panes[0].width + panes[1].width + 1, 40);
}

#[test]
fn proportional_resize_recovers_ratios_after_nested_minimum_clamping() {
    let size = proportional_test_size(101, 81);
    let mut tab = proportional_test_grid();
    tab.layout.split_and_insert(0, SplitRequest::default(), 5).unwrap();
    tab.layout.resize_split_by(0, 20);
    let original = pane_layout(&tab);
    tab.resize(proportional_test_size(1, 1));
    assert_eq!((tab.get_size().cols, tab.get_size().rows), (5, 3));
    for pane in tab.layout.iter_panes() {
        assert!(pane.width >= 1 && pane.height >= 1);
        assert!(pane.left + pane.width <= tab.get_size().cols);
        assert!(pane.top + pane.height <= tab.get_size().rows);
    }
    tab.resize(size);
    assert_eq!(pane_layout(&tab), original);
    // A drag to an extreme cannot shrink a subtree below all its dividers.
    tab.layout.resize_split_by(0, -1000);
    let panes = tab.layout.iter_panes();
    assert_eq!(panes[0].width, 1);
    assert_eq!(panes[1].width, 1);
    assert_eq!(panes[2].width, 3);
    assert!(panes.iter().all(|p| p.width >= 1 && p.height >= 1));
}

#[test]
fn proportional_resize_survives_zoom_and_updates_dpi_without_cell_changes() {
    let mut tab = proportional_test_grid();
    tab.set_pane_header_rows(2);
    let original = pane_layout(&tab);
    tab.layout.set_zoomed(true);
    tab.resize(proportional_test_size(201, 161));
    assert_eq!(tab.layout.iter_panes().len(), 1);
    tab.layout.set_zoomed(false);
    for pane in tab.layout.iter_panes() {
        assert_eq!(pane.width, 100);
        assert_eq!(pane.height, 80);
        assert_eq!(fake_size(&tab, pane.pane_id).rows, 78);
    }
    tab.resize(proportional_test_size(101, 81));
    tab.resize(TermSize { pixel_width: 1515, pixel_height: 2430, dpi: 144, ..proportional_test_size(101, 81) });
    assert_eq!(pane_layout(&tab), original);
    for pane in tab.layout.iter_panes() {
        let size = fake_size(&tab, pane.pane_id);
        assert_eq!(size.dpi, 144);
        assert_eq!(size.pixel_width, pane.width * 15);
        assert_eq!(size.pixel_height, (pane.height - 2) * 30);
    }
}

#[test]
fn proportional_resize_rebases_after_topology_change() {
    let mut tab = proportional_test_grid();
    tab.resize(proportional_test_size(201, 161));
    assert!(tab.remove_pane(4));
    tab.layout
        .split_and_insert(
            2,
            SplitRequest { direction: SplitDirection::Vertical, size: SplitSize::Percent(25), ..Default::default() },
            4,
        )
        .unwrap();
    let original = pane_layout(&tab);
    // Same IDs/tree as before, but the newly-created right split is 75/25.
    tab.resize(proportional_test_size(401, 321));
    let panes = tab.layout.iter_panes();
    assert_eq!((panes[2].height, panes[3].height), (240, 80));
    tab.resize(proportional_test_size(201, 161));
    assert_eq!(pane_layout(&tab), original);
}

/// Counts how often each terminal was resized.
fn count(counts: &mut HashMap<usize, usize>, resized: &[(usize, TermSize)]) {
    for (id, _) in resized {
        *counts.entry(*id).or_insert(0) += 1;
    }
}

#[test]
fn proportional_resize_avoids_repeated_pty_resizes_but_applies_header_changes() {
    let size = proportional_test_size(101, 81);
    let mut tab = proportional_test_grid();
    let panes = tab.layout.iter_panes();
    let mut counts: HashMap<usize, usize> = panes.iter().map(|p| (p.pane_id, 0)).collect();
    let resize_count = |counts: &HashMap<usize, usize>| panes.iter().map(|p| counts[&p.pane_id]).collect::<Vec<_>>();
    let before = resize_count(&counts);
    for _ in 0..20 {
        let resized = tab.resize(size);
        count(&mut counts, &resized);
    }
    assert_eq!(resize_count(&counts), before);
    let resized = tab.set_pane_header_rows(2);
    count(&mut counts, &resized);
    assert_eq!(resize_count(&counts), before.iter().map(|count| count + 1).collect::<Vec<_>>());
    for pane in tab.layout.iter_panes() {
        assert_eq!(fake_size(&tab, pane.pane_id).rows, pane.height - 2);
    }
}

#[test]
fn pane_font_override_changes_only_its_pty_grid_and_survives_window_resize() {
    let mut tab = proportional_test_grid();
    tab.set_pane_header_rows(2);
    let original = pane_layout(&tab);
    let panes = tab.layout.iter_panes();
    let pane = panes[0].pane_id;
    let untouched = fake_size(&tab, panes[1].pane_id);
    let mut resizes = 0;
    if tab.set_pane_cell_size(1, Some((20, 30))).is_some() {
        resizes += 1;
    }
    assert_eq!(pane_layout(&tab), original);
    assert_eq!(fake_size(&tab, panes[1].pane_id), untouched);
    assert_eq!(fake_size(&tab, pane), TermSize { cols: 25, rows: 25, pixel_width: 500, pixel_height: 750, dpi: 96 });
    let count = resizes;
    for _ in 0..10 {
        if tab.set_pane_cell_size(1, Some((20, 30))).is_some() {
            resizes += 1;
        }
    }
    assert_eq!(resizes, count);
    let resized = tab.resize(proportional_test_size(201, 161));
    resizes += resized.iter().filter(|(id, _)| *id == pane).count();
    assert_eq!(fake_size(&tab, pane), TermSize { cols: 50, rows: 52, pixel_width: 1000, pixel_height: 1560, dpi: 96 });
    assert_eq!(resizes, count + 1);
    tab.set_pane_cell_size(1, None);
    assert_eq!((fake_size(&tab, pane).cols, fake_size(&tab, pane).rows), (100, 78));
}

#[test]
fn pane_font_override_handles_zoom_tiny_panes_and_removal() {
    let mut tab = proportional_test_grid();
    tab.set_pane_header_rows(2);
    let id = tab.layout.get_active_pane().unwrap();
    tab.set_pane_cell_size(id, Some((20, 30)));
    tab.layout.set_zoomed(true);
    assert_eq!((fake_size(&tab, id).cols, fake_size(&tab, id).rows), (50, 52));
    tab.layout.set_zoomed(false);
    assert_eq!((fake_size(&tab, id).cols, fake_size(&tab, id).rows), (25, 25));
    tab.resize(proportional_test_size(1, 1));
    assert_eq!((fake_size(&tab, id).cols, fake_size(&tab, id).rows), (1, 1));
    assert!(tab.remove_pane(id));
    assert!(!tab.chrome.cell_sizes.contains_key(&id));
}

#[test]
fn proportional_resize_is_opt_in_for_native_gui_tabs() {
    let size = proportional_test_size(101, 81);
    let mut tab = Tab::new(size);
    tab.assign_pane(1);
    tab.layout.split_and_insert(0, SplitRequest::default(), 2).unwrap();
    // Preserve existing mux behavior, including its first-child bias.
    for step in 1..=10 {
        tab.resize(proportional_test_size(101 + step, 81));
    }
    let panes = tab.layout.iter_panes();
    assert_eq!((panes[0].width, panes[1].width), (60, 50));
}

#[test]
fn tab_splitting() {
    let size = standard();
    let mut tab = Tab::new(size);
    tab.assign_pane(1);

    let panes = tab.layout.iter_panes();
    assert_eq!(1, panes.len());
    assert_eq!(0, panes[0].index);
    assert_eq!(true, panes[0].is_active);
    assert_eq!(0, panes[0].left);
    assert_eq!(0, panes[0].top);
    assert_eq!(80, panes[0].width);
    assert_eq!(24, panes[0].height);

    assert!(tab
        .layout
        .compute_split_size(1, SplitRequest { direction: SplitDirection::Horizontal, ..Default::default() })
        .is_none());

    let horz_size = tab
        .layout
        .compute_split_size(0, SplitRequest { direction: SplitDirection::Horizontal, ..Default::default() })
        .unwrap();
    assert_eq!(
        horz_size,
        SplitDirectionAndSize {
            direction: SplitDirection::Horizontal,
            second: TermSize { rows: 24, cols: 40, pixel_width: 400, pixel_height: 600, dpi: 96 },
            first: TermSize { rows: 24, cols: 39, pixel_width: 390, pixel_height: 600, dpi: 96 },
        }
    );

    let vert_size = tab
        .layout
        .compute_split_size(0, SplitRequest { direction: SplitDirection::Vertical, ..Default::default() })
        .unwrap();
    assert_eq!(
        vert_size,
        SplitDirectionAndSize {
            direction: SplitDirection::Vertical,
            second: TermSize { rows: 12, cols: 80, pixel_width: 800, pixel_height: 300, dpi: 96 },
            first: TermSize { rows: 11, cols: 80, pixel_width: 800, pixel_height: 275, dpi: 96 }
        }
    );

    let new_index = tab
        .layout
        .split_and_insert(0, SplitRequest { direction: SplitDirection::Horizontal, ..Default::default() }, 2)
        .unwrap();
    assert_eq!(new_index, 1);

    let panes = tab.layout.iter_panes();
    assert_eq!(2, panes.len());

    assert_eq!(0, panes[0].index);
    assert_eq!(false, panes[0].is_active);
    assert_eq!(0, panes[0].left);
    assert_eq!(0, panes[0].top);
    assert_eq!(39, panes[0].width);
    assert_eq!(24, panes[0].height);
    assert_eq!(390, panes[0].pixel_width);
    assert_eq!(600, panes[0].pixel_height);
    assert_eq!(1, panes[0].pane_id);

    assert_eq!(1, panes[1].index);
    assert_eq!(true, panes[1].is_active);
    assert_eq!(40, panes[1].left);
    assert_eq!(0, panes[1].top);
    assert_eq!(40, panes[1].width);
    assert_eq!(24, panes[1].height);
    assert_eq!(400, panes[1].pixel_width);
    assert_eq!(600, panes[1].pixel_height);
    assert_eq!(2, panes[1].pane_id);

    let _vert_size = tab
        .layout
        .compute_split_size(0, SplitRequest { direction: SplitDirection::Vertical, ..Default::default() })
        .unwrap();
    let new_index = tab
        .layout
        .split_and_insert(
            0,
            SplitRequest {
                direction: SplitDirection::Vertical,
                top_level: false,
                target_is_second: true,
                size: Default::default(),
            },
            3,
        )
        .unwrap();
    assert_eq!(new_index, 1);

    let panes = tab.layout.iter_panes();
    assert_eq!(3, panes.len());

    assert_eq!(0, panes[0].index);
    assert_eq!(false, panes[0].is_active);
    assert_eq!(0, panes[0].left);
    assert_eq!(0, panes[0].top);
    assert_eq!(39, panes[0].width);
    assert_eq!(11, panes[0].height);
    assert_eq!(390, panes[0].pixel_width);
    assert_eq!(275, panes[0].pixel_height);
    assert_eq!(1, panes[0].pane_id);

    assert_eq!(1, panes[1].index);
    assert_eq!(true, panes[1].is_active);
    assert_eq!(0, panes[1].left);
    assert_eq!(12, panes[1].top);
    assert_eq!(39, panes[1].width);
    assert_eq!(12, panes[1].height);
    assert_eq!(390, panes[1].pixel_width);
    assert_eq!(300, panes[1].pixel_height);
    assert_eq!(3, panes[1].pane_id);

    assert_eq!(2, panes[2].index);
    assert_eq!(false, panes[2].is_active);
    assert_eq!(40, panes[2].left);
    assert_eq!(0, panes[2].top);
    assert_eq!(40, panes[2].width);
    assert_eq!(24, panes[2].height);
    assert_eq!(400, panes[2].pixel_width);
    assert_eq!(600, panes[2].pixel_height);
    assert_eq!(2, panes[2].pane_id);

    tab.layout.resize_split_by(1, 1);
    let panes = tab.layout.iter_panes();
    assert_eq!(39, panes[0].width);
    assert_eq!(12, panes[0].height);
    assert_eq!(390, panes[0].pixel_width);
    assert_eq!(300, panes[0].pixel_height);

    assert_eq!(39, panes[1].width);
    assert_eq!(11, panes[1].height);
    assert_eq!(390, panes[1].pixel_width);
    assert_eq!(275, panes[1].pixel_height);

    assert_eq!(40, panes[2].width);
    assert_eq!(24, panes[2].height);
    assert_eq!(400, panes[2].pixel_width);
    assert_eq!(600, panes[2].pixel_height);
}

fn is_send_and_sync<T: Send + Sync>() -> bool {
    true
}

#[test]
fn tab_is_send_and_sync() {
    assert!(is_send_and_sync::<Tab>());
}

/// Terminals that can be told to refuse their next resizes.
#[derive(Default)]
struct FakePtys {
    failures: RefCell<HashMap<usize, usize>>,
    resizes: RefCell<usize>,
}

impl FakePtys {
    fn fail_next_resizes(&self, id: usize, count: usize) {
        self.failures.borrow_mut().insert(id, count);
    }

    fn resize(&self, id: usize, _size: TermSize) -> bool {
        *self.resizes.borrow_mut() += 1;
        match self.failures.borrow_mut().get_mut(&id) {
            Some(left) if *left > 0 => {
                *left -= 1;
                false
            }
            _ => true,
        }
    }
}

#[test]
fn move_between_tabs_preserves_both_layouts_on_either_resize_failure() {
    let size = standard();
    for target_is_second in [false, true] {
        for fail_existing in [false, true] {
            let ptys = FakePtys::default();
            let resize = |id: usize, size: TermSize| ptys.resize(id, size);
            let mut target = Tab::new(size);
            target.assign_pane(1);
            target.split_and_insert(0, SplitRequest::default(), 3, &resize).0.unwrap();
            let mut source = Tab::new(size);
            source.assign_pane(2);
            let target_before = pane_layout(&target);
            let source_before = pane_layout(&source);
            let existing_size = fake_size(&target, 1);
            ptys.fail_next_resizes(if fail_existing { 1 } else { 2 }, 1);
            let request = SplitRequest { target_is_second, ..Default::default() };

            assert!(target.move_pane_from(&mut source, 2, 1, request, &resize).0.is_err());
            assert_eq!(pane_layout(&target), target_before);
            assert_eq!(pane_layout(&source), source_before);
            assert_eq!(fake_size(&target, 1), existing_size);
            assert_eq!(fake_size(&source, 2), size);

            // The restored tabs remain usable; retry the same move.
            target.move_pane_from(&mut source, 2, 1, request, &resize).0.unwrap();
            assert!(pane_layout(&source).is_empty());
            let mut ids: Vec<_> = pane_layout(&target).iter().map(|p| p.0).collect();
            ids.sort_unstable();
            assert_eq!(ids, vec![1, 2, 3]);
        }
    }
}

#[test]
fn move_within_tab_restores_layout_and_focus_on_resize_failure() {
    let size = standard();
    for target_is_second in [false, true] {
        let ptys = FakePtys::default();
        let resize = |id: usize, size: TermSize| ptys.resize(id, size);
        let mut tab = Tab::new(size);
        tab.assign_pane(1);
        tab.split_and_insert(0, SplitRequest::default(), 2, &resize).0.unwrap();
        let before = pane_layout(&tab);
        let active_before = tab.layout.get_active_idx();
        let existing_size = fake_size(&tab, 1);
        let incoming_size = fake_size(&tab, 2);
        ptys.fail_next_resizes(2, 1);

        assert!(tab
            .move_pane_within_tab(
                2,
                1,
                SplitRequest { direction: SplitDirection::Vertical, target_is_second, ..Default::default() },
                &resize,
            )
            .0
            .is_err());
        assert_eq!(pane_layout(&tab), before);
        assert_eq!(tab.layout.get_active_idx(), active_before);
        assert_eq!(fake_size(&tab, 1), existing_size);
        assert_eq!(fake_size(&tab, 2), incoming_size);
    }
}

#[test]
fn failed_move_keeps_source_when_size_rollback_also_fails() {
    let size = standard();
    let ptys = FakePtys::default();
    let resize = |id: usize, size: TermSize| ptys.resize(id, size);
    let mut target = Tab::new(size);
    target.assign_pane(1);
    let mut source = Tab::new(size);
    source.assign_pane(2);
    ptys.fail_next_resizes(2, 3);
    assert!(target.move_pane_from(&mut source, 2, 1, SplitRequest::default(), &resize).0.is_err());
    assert_eq!(pane_layout(&target), vec![(1, 0, 0, 80, 24)]);
    assert_eq!(pane_layout(&source), vec![(2, 0, 0, 80, 24)]);
}

#[test]
fn pane_headers_preserve_sizes_when_a_move_rolls_back() {
    let size = standard();
    for target_is_second in [false, true] {
        let ptys = FakePtys::default();
        let resize = |id: usize, size: TermSize| ptys.resize(id, size);
        let mut target = Tab::new(size);
        let mut source = Tab::new(size);
        target.assign_pane(1);
        source.assign_pane(2);
        // Different windows can use different DPI/font/header row counts.
        target.set_pane_header_rows(2);
        source.set_pane_header_rows(3);
        let target_size = fake_size(&target, 1);
        let source_size = fake_size(&source, 2);
        ptys.fail_next_resizes(2, 1);
        assert!(target
            .move_pane_from(&mut source, 2, 1, SplitRequest { target_is_second, ..Default::default() }, &resize)
            .0
            .is_err());
        assert_eq!(fake_size(&target, 1), target_size);
        assert_eq!(fake_size(&source, 2), source_size);
        assert_eq!(pane_layout(&target), vec![(1, 0, 0, 80, 24)]);
        assert_eq!(pane_layout(&source), vec![(2, 0, 0, 80, 24)]);
    }
}

#[test]
fn pane_font_override_transfers_between_tabs_and_survives_failed_move() {
    let size = proportional_test_size(101, 81);
    let ptys = FakePtys::default();
    let resize = |id: usize, size: TermSize| ptys.resize(id, size);
    let mut source = Tab::new(size);
    let mut target = Tab::new(size);
    source.assign_pane(1);
    target.assign_pane(2);
    source.set_pane_header_rows(2);
    target.set_pane_header_rows(3);
    source.set_pane_cell_size(1, Some((20, 30)));
    let original_size = fake_size(&source, 1);
    ptys.fail_next_resizes(1, 1);
    assert!(target.move_pane_from(&mut source, 1, 2, SplitRequest::default(), &resize).0.is_err());
    assert_eq!(fake_size(&source, 1), original_size);
    assert_eq!(source.chrome.cell_of(1), Some((20, 30)));
    assert!(!target.chrome.cell_sizes.contains_key(&1));
    target.move_pane_from(&mut source, 1, 2, SplitRequest::default(), &resize).0.unwrap();
    assert!(!source.chrome.cell_sizes.contains_key(&1));
    assert_eq!(target.chrome.cell_of(1), Some((20, 30)));
    assert_eq!(fake_size(&target, 1), TermSize { cols: 25, rows: 52, pixel_width: 500, pixel_height: 1560, dpi: 96 });
}

#[test]
fn pane_font_override_survives_same_tab_rearrangement_and_rollback() {
    let ptys = FakePtys::default();
    let resize = |id: usize, size: TermSize| ptys.resize(id, size);
    let mut tab = proportional_test_grid();
    tab.set_pane_cell_size(1, Some((20, 30)));
    let original = pane_layout(&tab);
    let original_size = fake_size(&tab, 1);
    ptys.fail_next_resizes(1, 1);
    assert!(tab.move_pane_within_tab(1, 2, SplitRequest::default(), &resize).0.is_err());
    assert_eq!(pane_layout(&tab), original);
    assert_eq!(fake_size(&tab, 1), original_size);
    assert_eq!(tab.chrome.cell_of(1), Some((20, 30)));
    tab.move_pane_within_tab(1, 2, SplitRequest::default(), &resize).0.unwrap();
    assert_eq!(tab.chrome.cell_of(1), Some((20, 30)));
    let position = tab.layout.iter_panes().into_iter().find(|p| p.pane_id == 1).unwrap();
    assert_eq!(fake_size(&tab, 1).cols, (position.pixel_width / 20).max(1));
    assert_eq!(fake_size(&tab, 1).rows, (position.pixel_height / 30).max(1));
}

#[test]
fn refused_split_names_the_refusal_and_asks_the_terminals_in_order() {
    let size = standard();
    let ptys = FakePtys::default();
    let resize = |id: usize, size: TermSize| ptys.resize(id, size);
    let mut tab = Tab::new(size);
    tab.assign_pane(1);
    ptys.fail_next_resizes(1, 1);
    // The existing pane is asked first; it refuses and is to get its size back.
    let (result, give_back) = tab.split_and_insert(0, SplitRequest::default(), 2, &resize);
    assert_eq!(result, Err(SplitError::Refused));
    assert_eq!(give_back, vec![(1, size)]);
    assert_eq!(*ptys.resizes.borrow(), 1);
    assert_eq!(pane_layout(&tab), vec![(1, 0, 0, 80, 24)]);
    assert_eq!(tab.split_and_insert(0, SplitRequest::default(), 2, &resize), (Ok(1), vec![]));
    let mut other = Tab::new(size);
    other.assign_pane(7);
    ptys.fail_next_resizes(7, 1);
    // Pane 1 takes its part, pane 7 refuses: pane 1 and pane 7 get their
    // old sizes back.
    let (result, give_back) = tab.move_pane_from(&mut other, 7, 1, SplitRequest::default(), &resize);
    assert_eq!(result, Err(MoveError::Split(SplitError::Refused)));
    assert_eq!(give_back, vec![(1, fake_size(&tab, 1)), (7, size)]);
    assert_eq!(tab.move_pane_from(&mut other, 7, 7, SplitRequest::default(), &resize), (Err(MoveError::IntoItself), vec![]));
    assert_eq!(tab.move_pane_within_tab(2, 2, SplitRequest::default(), &resize), (Err(MoveError::IntoItself), vec![]));
    // A refused move within the tab gives every terminal its old size back.
    ptys.fail_next_resizes(2, 1);
    let (result, give_back) = tab.move_pane_within_tab(2, 1, SplitRequest::default(), &resize);
    assert_eq!(result, Err(MoveError::Split(SplitError::Refused)));
    assert_eq!(give_back.last(), Some(&(2, fake_size(&tab, 2))));
    assert!(give_back.contains(&(1, fake_size(&tab, 1))));
}

#[test]
fn tab_title_changes_only_when_different() {
    let mut tab = Tab::new(standard());
    assert_eq!(tab.get_title(), "");
    assert!(tab.set_title("logs"));
    assert!(!tab.set_title("logs"));
    assert_eq!(tab.get_title(), "logs");
}

#[test]
fn dead_and_killed_panes_leave_with_their_cell_sizes() {
    let mut tab = Tab::new(standard());
    tab.assign_pane(1);
    tab.layout.split_and_insert(0, SplitRequest::default(), 2).unwrap();
    tab.layout.split_and_insert(1, SplitRequest::default(), 3).unwrap();
    tab.set_pane_cell_size(3, Some((20, 30)));
    assert!(!tab.is_dead(&[1, 2]));
    assert!(tab.is_dead(&[1, 2, 3]));
    assert!(tab.can_close_without_prompting(&[3, 2, 1]));
    assert!(!tab.can_close_without_prompting(&[1]));
    assert!(tab.prune_dead_panes(&[]).is_empty());
    assert_eq!(tab.kill_pane(3), vec![3]);
    assert!(!tab.chrome.cell_sizes.contains_key(&3));
    assert_eq!(pane_layout(&tab), vec![(1, 0, 0, 39, 24), (2, 40, 0, 40, 24)]);
    assert!(tab.kill_pane(3).is_empty());
    assert_eq!(tab.kill_panes_in_domain(&[1, 7]), vec![1]);
    assert_eq!(pane_layout(&tab), vec![(2, 0, 0, 80, 24)]);
    assert_eq!(tab.prune_dead_panes(&[2]), vec![2]);
    assert!(pane_layout(&tab).is_empty());
    assert!(tab.is_dead(&[]));
}
