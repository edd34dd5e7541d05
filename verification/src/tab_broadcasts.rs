//! The broadcast selections of every tab of one window.
use vstd::prelude::*;
use std::collections::HashMap;
use crate::broadcast::{delivery_set, synced_members, BroadcastState};
use crate::id_set::{sorted_ids, strictly_sorted};

verus! {

/// Switch, members and panes of one tab.
pub type GroupView = (bool, Set<usize>, Set<usize>);

/// The state of a tab that has never been seen before.
pub open spec fn new_group() -> GroupView {
    (false, Set::empty(), Set::empty())
}

/// A group after its tab reported the panes `current`.
pub open spec fn synced_group(group: GroupView, current: Set<usize>) -> GroupView {
    let members = synced_members(group.1, group.2, current);
    (group.0 && !members.is_empty(), members, current)
}

/// The group button: a broadcasting group stops and forgets its selection;
/// any other group selects every pane and starts broadcasting.
pub open spec fn toggled_group(group: GroupView) -> GroupView {
    if group.0 {
        (false, Set::empty(), group.2)
    } else {
        (!group.2.is_empty(), group.2, group.2)
    }
}

/// Groups after the snapshots were applied one after the other.
pub open spec fn groups_after(groups: Map<usize, GroupView>, snapshots: Seq<(usize, Vec<usize>)>) -> Map<
    usize,
    GroupView,
>
    decreases snapshots.len(),
{
    if snapshots.len() == 0 {
        groups
    } else {
        let prev = groups_after(groups, snapshots.drop_last());
        let tab = snapshots.last().0;
        let base = if prev.contains_key(tab) {
            prev[tab]
        } else {
            new_group()
        };
        prev.insert(tab, synced_group(base, snapshots.last().1@.to_set()))
    }
}

/// The tabs named by a snapshot.
pub open spec fn live_tabs(snapshots: Seq<(usize, Vec<usize>)>) -> Set<usize> {
    Set::new(|tab: usize| exists|i: int| 0 <= i < snapshots.len() && #[trigger] snapshots[i].0 == tab)
}

/// Selection is retained while paused; only effective participants show the
/// active broadcast indicator.
pub fn pane_broadcasting(state: &BroadcastState<usize>, pane: usize) -> (on: bool)
    ensures
        on == (state.is_on() && state.member_set().contains(pane)),
{
    state.enabled() && state.is_member(pane)
}

pub struct TabBroadcasts {
    pub tabs: HashMap<usize, BroadcastState<usize>>,
    pub error: String,
}

impl Default for TabBroadcasts {
    fn default() -> (all: Self)
        ensures
            all.wf(),
            all.groups() == Map::<usize, GroupView>::empty(),
            all.error@ == Seq::<char>::empty(),
    {
        TabBroadcasts::new()
    }
}

impl TabBroadcasts {
    pub open spec fn wf(&self) -> bool {
        forall|tab: usize| #[trigger] self.tabs@.contains_key(tab) ==> self.tabs@[tab].wf()
    }

    /// The group of every tab.
    pub open spec fn groups(&self) -> Map<usize, GroupView> {
        self.tabs@.map_values(|state: BroadcastState<usize>| state.group_view())
    }

    pub fn new() -> (all: Self)
        ensures
            all.wf(),
            all.groups() == Map::<usize, GroupView>::empty(),
            all.error@ == Seq::<char>::empty(),
    {
        let all = TabBroadcasts { tabs: HashMap::new(), error: String::new() };
        assert(all.groups() =~= Map::<usize, GroupView>::empty());
        all
    }

    /// The tab button acts on the entire group, including excluded or
    /// zoom-hidden panes. An unknown tab is left alone.
    pub fn toggle_group(&mut self, tab: usize)
        requires
            old(self).wf(),
        ensures
            final(self).wf(),
            final(self).error == old(self).error,
            old(self).groups().contains_key(tab) ==> final(self).groups() == old(self).groups().insert(
                tab,
                toggled_group(old(self).groups()[tab]),
            ),
            !old(self).groups().contains_key(tab) ==> final(self).groups() == old(self).groups(),
    {
        let ghost before = self.tabs@;
        match self.tabs.remove(&tab) {
            Some(mut state) => {
                assert(before.contains_key(tab) && before[tab] == state);
                proof {
                    state.lemma_state_invariant();
                }
                if state.enabled() {
                    state.select_none();
                } else {
                    state.select_all();
                    state.set_enabled(true);
                }
                self.tabs.insert(tab, state);
                assert(self.tabs@ == before.insert(tab, state));
                assert(self.groups() =~= before.map_values(
                    |state: BroadcastState<usize>| state.group_view(),
                ).insert(tab, toggled_group(before[tab].group_view())));
            },
            None => {
                assert(self.tabs@ =~= before);
            },
        }
    }

    /// The panes that input typed into `pane` of tab `tab` goes to: the
    /// tab's broadcast group when the pane takes part in it, otherwise the
    /// pane alone; nothing for a tab or pane the last snapshot did not show.
    pub fn input_targets(&self, tab: usize, pane: usize) -> (targets: Option<Vec<usize>>)
        requires
            self.wf(),
        ensures
            match self.groups().get(tab) {
                Some(group) => if group.2.contains(pane) {
                    targets matches Some(t) && strictly_sorted(t@) && t@.to_set() == delivery_set(
                        group.0,
                        group.1,
                        pane,
                    )
                } else {
                    targets is None
                },
                None => targets is None,
            },
    {
        match self.tabs.get(&tab) {
            Some(state) => {
                assert(self.tabs@.contains_key(tab));
                match state.targets_for(pane) {
                    Ok(targets) => Some(targets),
                    Err(_) => None,
                }
            },
            None => None,
        }
    }

    /// Refresh every tab from the multiplexer's snapshot of this window.
    /// Tabs missing from the snapshot are forgotten.
    pub fn sync(&mut self, snapshots: &[(usize, Vec<usize>)])
        requires
            old(self).wf(),
        ensures
            final(self).wf(),
            final(self).error == old(self).error,
            final(self).groups() == groups_after(old(self).groups(), snapshots@).restrict(
                live_tabs(snapshots@),
            ),
    {
        let ghost start = self.groups();
        let ghost message = self.error;
        let mut live: Vec<usize> = Vec::new();
        let mut i: usize = 0;
        while i < snapshots.len()
            invariant
                i <= snapshots.len(),
                self.wf(),
                self.error == message,
                self.groups() == groups_after(start, snapshots@.subrange(0, i as int)),
                live@.to_set() == live_tabs(snapshots@.subrange(0, i as int)),
            decreases snapshots.len() - i,
        {
            let tab = snapshots[i].0;
            let ghost prefix = snapshots@.subrange(0, i as int);
            let ghost next = snapshots@.subrange(0, i + 1);
            assert(next.drop_last() =~= prefix);
            assert(next.last() == snapshots@[i as int]);
            let ghost before = self.tabs@;
            let mut state = match self.tabs.remove(&tab) {
                Some(state) => state,
                None => BroadcastState::empty(),
            };
            state.sync_panes(snapshots[i].1.as_slice());
            self.tabs.insert(tab, state);
            assert(self.groups() =~= groups_after(start, next));
            let ghost live_before = live@;
            live.push(tab);
            proof {
                assert(live_tabs(next) =~= live_tabs(prefix).insert(tab)) by {
                    assert forall|t: usize| live_tabs(next).contains(t) implies live_tabs(prefix).insert(t).contains(t) by {
                        let j = choose|j: int| 0 <= j < next.len() && #[trigger] next[j].0 == t;
                        if j < i {
                            assert(prefix[j].0 == t);
                        }
                    }
                    assert forall|t: usize| live_tabs(prefix).contains(t) implies live_tabs(next).contains(t) by {
                        let j = choose|j: int| 0 <= j < prefix.len() && #[trigger] prefix[j].0 == t;
                        assert(next[j].0 == t);
                    }
                    assert(next[i as int].0 == tab);
                }
                live_before.lemma_push_to_set_commute(tab);
            }
            i = i + 1;
        }
        assert(snapshots@.subrange(0, snapshots.len() as int) =~= snapshots@);
        let ids = sorted_ids(live.as_slice());
        let ghost orig = self.tabs@;
        proof {
            lemma_live_tabs_present(start, snapshots@);
            assert forall|t: usize| #[trigger] ids@.to_set().contains(t) implies orig.contains_key(t) by {
                assert(self.groups().contains_key(t));
            }
        }
        let mut all: HashMap<usize, BroadcastState<usize>> = HashMap::new();
        std::mem::swap(&mut all, &mut self.tabs);
        proof {
            assert forall|k: int| 0 <= k < ids@.len() implies all@.contains_key(#[trigger] ids@[k])
                && all@[ids@[k]] == orig[ids@[k]] by {
                assert(ids@.to_set().contains(ids@[k]));
            }
            assert(orig.restrict(ids@.subrange(0, 0).to_set()) =~= Map::empty());
        }
        let mut kept: HashMap<usize, BroadcastState<usize>> = HashMap::new();
        let mut j: usize = 0;
        while j < ids.len()
            invariant
                j <= ids.len(),
                strictly_sorted(ids@),
                forall|t: usize| #[trigger] ids@.to_set().contains(t) ==> orig.contains_key(t),
                forall|k: int|
                    j <= k < ids@.len() ==> all@.contains_key(#[trigger] ids@[k]) && all@[ids@[k]]
                        == orig[ids@[k]],
                kept@ == orig.restrict(ids@.subrange(0, j as int).to_set()),
            decreases ids.len() - j,
        {
            let tab = ids[j];
            assert(ids@.to_set().contains(tab));
            let ghost before = all@;
            match all.remove(&tab) {
                Some(state) => {
                    kept.insert(tab, state);
                },
                None => {
                    assert(false);
                },
            }
            proof {
                assert forall|k: int| j + 1 <= k < ids@.len() implies all@.contains_key(
                    #[trigger] ids@[k],
                ) && all@[ids@[k]] == orig[ids@[k]] by {
                    assert(ids@[j as int] < ids@[k]);
                    assert(before.contains_key(ids@[k]));
                }
                assert(ids@.subrange(0, j + 1) =~= ids@.subrange(0, j as int).push(tab));
                ids@.subrange(0, j as int).lemma_push_to_set_commute(tab);
                assert(kept@ =~= orig.restrict(ids@.subrange(0, j + 1).to_set()));
            }
            j = j + 1;
        }
        assert(ids@.subrange(0, ids.len() as int) =~= ids@);
        self.tabs = kept;
        assert(self.groups() =~= groups_after(start, snapshots@).restrict(live_tabs(snapshots@)));
    }
}

/// Every tab named by a snapshot has a group afterwards.
pub proof fn lemma_live_tabs_present(groups: Map<usize, GroupView>, snapshots: Seq<(usize, Vec<usize>)>)
    ensures
        forall|t: usize| #[trigger] live_tabs(snapshots).contains(t) ==> groups_after(groups, snapshots).contains_key(t),
    decreases snapshots.len(),
{
    if snapshots.len() > 0 {
        let prefix = snapshots.drop_last();
        lemma_live_tabs_present(groups, prefix);
        assert forall|t: usize| #[trigger] live_tabs(snapshots).contains(t) implies groups_after(groups, snapshots).contains_key(t) by {
            let i = choose|i: int| 0 <= i < snapshots.len() && #[trigger] snapshots[i].0 == t;
            if i < snapshots.len() - 1 {
                assert(prefix[i].0 == t);
                assert(live_tabs(prefix).contains(t));
            }
        }
    }
}

} // verus!
