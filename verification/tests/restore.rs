use termviai::hosts::Host;
use termviai::layout::size::{SplitDirection, SplitDirectionAndSize, TermSize};
use termviai::layout::tree::Tree;
use termviai::restore::{restore_plan, snapshot, SessionHost, SnapshotError};
use termviai::workspaces::{SavedLayout, SplitAxis};

fn host(label: &str) -> Host {
    Host {
        label: label.to_string(),
        address: format!("{label}.example.org"),
        port: 22,
        username: "alice".to_string(),
        group: String::new(),
        identity_file: String::new(),
    }
}

fn pane(label: &str) -> Box<SavedLayout> {
    Box::new(SavedLayout::Pane { host: host(label) })
}

#[test]
fn single_pane_layout_opens_one_session_without_splits() {
    let plan = restore_plan(SavedLayout::Pane { host: host("solo") });
    assert_eq!(plan.first.label, "solo");
    assert!(plan.steps.is_empty());
}

#[test]
fn splits_are_restored_breadth_first_with_the_second_share() {
    // ((a | b) / (c | d)): the root split first, then the first half, then the second.
    let layout = SavedLayout::Split {
        axis: SplitAxis::Vertical,
        first_percent: 30,
        first: Box::new(SavedLayout::Split {
            axis: SplitAxis::Horizontal,
            first_percent: 60,
            first: pane("a"),
            second: pane("b"),
        }),
        second: Box::new(SavedLayout::Split {
            axis: SplitAxis::Horizontal,
            first_percent: 25,
            first: pane("c"),
            second: pane("d"),
        }),
    };
    let plan = restore_plan(layout);
    assert_eq!(plan.first.label, "a");
    let steps: Vec<(usize, SplitAxis, u8, String)> = plan
        .steps
        .iter()
        .map(|s| (s.parent, s.axis, s.second_percent, s.host.label.clone()))
        .collect();
    assert_eq!(
        steps,
        vec![
            (0, SplitAxis::Vertical, 70, "c".to_string()),
            (0, SplitAxis::Horizontal, 40, "b".to_string()),
            (1, SplitAxis::Horizontal, 75, "d".to_string()),
        ]
    );
}

#[test]
fn nested_first_halves_split_the_pane_they_started_on() {
    // (((a | b) / c) | d)
    let layout = SavedLayout::Split {
        axis: SplitAxis::Horizontal,
        first_percent: 50,
        first: Box::new(SavedLayout::Split {
            axis: SplitAxis::Vertical,
            first_percent: 50,
            first: Box::new(SavedLayout::Split {
                axis: SplitAxis::Horizontal,
                first_percent: 10,
                first: pane("a"),
                second: pane("b"),
            }),
            second: pane("c"),
        }),
        second: pane("d"),
    };
    let plan = restore_plan(layout);
    let steps: Vec<(usize, u8, String)> =
        plan.steps.iter().map(|s| (s.parent, s.second_percent, s.host.label.clone())).collect();
    assert_eq!(
        steps,
        vec![(0, 50, "d".to_string()), (0, 50, "c".to_string()), (0, 90, "b".to_string())]
    );
}

fn cells(cols: usize, rows: usize) -> TermSize {
    TermSize { rows, cols, pixel_width: cols * 8, pixel_height: rows * 16, dpi: 96 }
}

fn side_by_side(first: usize, second: usize) -> Tree {
    Tree::Node {
        left: Box::new(Tree::Leaf(1)),
        right: Box::new(Tree::Leaf(2)),
        data: Some(SplitDirectionAndSize {
            direction: SplitDirection::Horizontal,
            first: cells(first, 24),
            second: cells(second, 24),
        }),
    }
}

#[test]
fn a_saved_tab_keeps_its_hosts_and_rounded_shares() {
    let tree = side_by_side(29, 50);
    let layout = snapshot(&tree, &[SessionHost::Host(host("a")), SessionHost::Host(host("b"))]).unwrap();
    match layout {
        SavedLayout::Split { axis, first_percent, first, second } => {
            assert_eq!(axis, SplitAxis::Horizontal);
            assert_eq!(first_percent, 37);
            assert!(matches!(*first, SavedLayout::Pane { ref host } if host.label == "a"));
            assert!(matches!(*second, SavedLayout::Pane { ref host } if host.label == "b"));
        }
        _ => panic!("a split was saved"),
    }
    let lopsided = snapshot(&side_by_side(1, 500), &[SessionHost::Host(host("a")), SessionHost::Host(host("b"))]);
    assert!(matches!(lopsided, Ok(SavedLayout::Split { first_percent: 1, .. })));
}

#[test]
fn tabs_with_closed_or_local_sessions_are_not_saved() {
    assert_eq!(snapshot(&Tree::Empty, &[]).unwrap_err(), SnapshotError::NoSessions);
    let tree = side_by_side(39, 40);
    assert_eq!(
        snapshot(&tree, &[SessionHost::Unsaved, SessionHost::Closed]).unwrap_err(),
        SnapshotError::NotSshHost
    );
    assert_eq!(
        snapshot(&tree, &[SessionHost::Host(host("a")), SessionHost::Closed]).unwrap_err(),
        SnapshotError::SessionClosed
    );
    assert_eq!(SnapshotError::NotSshHost.message(), "Only SSH hosts opened from TermViAI can be saved.");
}
