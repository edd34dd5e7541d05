use termviai::tab_broadcasts::{pane_broadcasting, TabBroadcasts};

#[test]
fn new_groups_and_paused_selections_do_not_show_active_broadcast() {
    let mut all = TabBroadcasts::default();
    all.sync(&[(10, vec![1, 2, 3])]);
    let state = all.tabs.get_mut(&10).unwrap();
    for id in [1, 2, 3] {
        assert!(state.is_member(id));
        assert!(!pane_broadcasting(state, id));
        assert_eq!(state.targets_for(id).unwrap(), vec![id]);
    }
    state.set_enabled(true);
    state.set_member(3, false).unwrap();
    assert!(pane_broadcasting(state, 1));
    assert!(pane_broadcasting(state, 2));
    assert!(!pane_broadcasting(state, 3));
    assert_eq!(state.targets_for(1).unwrap(), vec![1, 2]);
    assert_eq!(state.targets_for(3).unwrap(), vec![3]);
    state.set_enabled(false);
    assert!(state.is_member(1));
    for id in [1, 2, 3] {
        assert!(!pane_broadcasting(state, id));
        assert_eq!(state.targets_for(id).unwrap(), vec![id]);
    }
}

#[test]
fn merging_into_a_disabled_tab_does_not_inherit_a_source_indicator() {
    let mut all = TabBroadcasts::default();
    all.sync(&[(10, vec![1]), (20, vec![2])]);
    all.toggle_group(20);
    assert!(pane_broadcasting(&all.tabs[&20], 2));
    // The moved pane is now in the destination's authoritative snapshot.
    all.sync(&[(10, vec![1, 2])]);
    assert!(!all.tabs.contains_key(&20));
    for id in [1, 2] {
        assert!(all.tabs[&10].is_member(id));
        assert!(!pane_broadcasting(&all.tabs[&10], id));
        assert_eq!(all.tabs[&10].targets_for(id).unwrap(), vec![id]);
    }
    all.toggle_group(10);
    for id in [1, 2] {
        assert!(pane_broadcasting(&all.tabs[&10], id));
        assert_eq!(all.tabs[&10].targets_for(id).unwrap(), vec![1, 2]);
    }
}

#[test]
fn group_button_enables_every_pane_even_after_independent_selection_or_none() {
    let mut all = TabBroadcasts::default();
    all.sync(&[(10, vec![1, 2, 3])]);
    all.tabs.get_mut(&10).unwrap().set_member(3, false).unwrap();
    all.toggle_group(10);
    for source in [1, 2, 3] {
        assert_eq!(all.tabs[&10].targets_for(source).unwrap(), vec![1, 2, 3]);
    }
    all.tabs.get_mut(&10).unwrap().select_none();
    all.toggle_group(10);
    assert!(all.tabs[&10].enabled());
    assert_eq!(all.tabs[&10].targets_for(3).unwrap(), vec![1, 2, 3]);
}

#[test]
fn group_button_disables_all_members_without_touching_other_tabs() {
    let mut all = TabBroadcasts::default();
    all.sync(&[(10, vec![1, 2, 3]), (20, vec![4, 5])]);
    all.toggle_group(10);
    all.toggle_group(20);
    all.tabs.get_mut(&10).unwrap().set_member(3, false).unwrap();
    all.toggle_group(10);
    assert!(!all.tabs[&10].enabled());
    assert_eq!(all.tabs[&10].member_count(), 0);
    for source in [1, 2, 3] {
        assert_eq!(all.tabs[&10].targets_for(source).unwrap(), vec![source]);
    }
    assert_eq!(all.tabs[&20].targets_for(4).unwrap(), vec![4, 5]);
    // Re-enable from the authoritative layout after a close and a new pane.
    all.sync(&[(10, vec![1, 3, 6]), (20, vec![4, 5])]);
    all.toggle_group(10);
    assert_eq!(all.tabs[&10].targets_for(6).unwrap(), vec![1, 3, 6]);
    all.sync(&[(20, vec![4, 5])]);
    all.toggle_group(10);
    assert!(!all.tabs.contains_key(&10));
}

#[test]
fn tabs_are_isolated_and_closed_panes_are_pruned() {
    let mut all = TabBroadcasts::default();
    all.sync(&[(10, vec![1, 2, 3, 4]), (20, vec![5, 6])]);
    let state = all.tabs.get_mut(&10).unwrap();
    state.set_member(4, false).unwrap();
    state.set_enabled(true);
    assert_eq!(state.targets_for(1).unwrap(), vec![1, 2, 3]);
    assert_eq!(state.targets_for(4).unwrap(), vec![4]);
    assert_eq!(all.tabs[&20].targets_for(5).unwrap(), vec![5]);
    all.sync(&[(10, vec![1, 3, 4, 7]), (20, vec![5, 6])]);
    assert_eq!(all.tabs[&10].targets_for(1).unwrap(), vec![1, 3, 7]);
    assert!(!all.tabs[&10].is_member(4));
    all.sync(&[(20, vec![5, 6])]);
    assert!(!all.tabs.contains_key(&10));
}

#[test]
fn toggling_an_unknown_tab_changes_nothing() {
    let mut all = TabBroadcasts::default();
    all.sync(&[(10, vec![1, 2])]);
    all.toggle_group(99);
    assert!(!all.tabs.contains_key(&99));
    assert!(!all.tabs[&10].enabled());
    assert!(all.error.is_empty());
}

#[test]
fn typed_input_follows_the_group_of_its_tab() {
    let mut all = TabBroadcasts::default();
    all.sync(&[(10, vec![1, 2, 3]), (20, vec![4])]);
    assert_eq!(all.input_targets(10, 2), Some(vec![2]));
    all.toggle_group(10);
    assert_eq!(all.input_targets(10, 2), Some(vec![1, 2, 3]));
    assert_eq!(all.input_targets(20, 4), Some(vec![4]));
    assert_eq!(all.input_targets(10, 4), None);
    assert_eq!(all.input_targets(30, 1), None);
}
