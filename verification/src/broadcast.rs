//! Per-tab selective broadcast of already encoded terminal input.
//!
//! A `BroadcastState` tracks the panes of one tab (a snapshot supplied by the
//! multiplexer), the subset of them selected for broadcast, and whether the
//! broadcast is switched on. It never encodes keys or owns a transport.
use vstd::prelude::*;
use crate::text::{append_chars, chars_of, decimal, decimal_chars, string_of};
use crate::id_set::{sorted_ids, strictly_sorted};
use std::collections::HashSet;
use vstd::std_specs::iter::IteratorSpec;

verus! {

broadcast use {vstd::std_specs::hash::group_hash_axioms, vstd::seq_lib::seq_to_set_is_finite};

/// A pane is not present in this tab's latest authoritative snapshot.
#[derive(Debug, Clone, Copy, PartialEq, Eq)]
pub struct UnknownPane<P>(pub P);

impl UnknownPane<usize> {
    /// The explanation shown to the user.
    pub fn message(&self) -> (text: String)
        ensures
            text@ == "pane "@ + decimal(self.0 as nat) + " is not in this tab"@,
    {
        let mut out = chars_of("pane ");
        append_chars(&mut out, decimal_chars(self.0 as u64).as_slice());
        append_chars(&mut out, chars_of(" is not in this tab").as_slice());
        string_of(out.as_slice())
    }
}

/// The selection kept by one tab. Pane identifiers are `usize` values.
#[derive(Debug)]
pub struct BroadcastState<P> {
    enabled: bool,
    targets: HashSet<P>,
    panes: HashSet<P>,
}

/// Members after a snapshot `current` replaces `panes`: panes that closed leave,
/// panes that are new join, and panes that stayed keep their selection.
pub open spec fn synced_members(members: Set<usize>, panes: Set<usize>, current: Set<usize>) -> Set<usize> {
    members.intersect(current).union(current.difference(panes))
}

/// The panes that receive input typed into `source`.
pub open spec fn delivery_set(enabled: bool, members: Set<usize>, source: usize) -> Set<usize> {
    if enabled && members.contains(source) {
        members
    } else {
        set![source]
    }
}

/// A set holding exactly the identifiers of `ids`.
fn set_of(ids: &[usize]) -> (set: HashSet<usize>)
    ensures
        set@ == ids@.to_set(),
{
    let mut set: HashSet<usize> = HashSet::new();
    let mut i: usize = 0;
    while i < ids.len()
        invariant
            i <= ids.len(),
            set@ == ids@.subrange(0, i as int).to_set(),
        decreases ids.len() - i,
    {
        set.insert(ids[i]);
        assert(ids@.subrange(0, i as int + 1) =~= ids@.subrange(0, i as int).push(ids@[i as int]));
        proof {
            ids@.subrange(0, i as int).lemma_push_to_set_commute(ids@[i as int]);
        }
        i = i + 1;
    }
    assert(ids@.subrange(0, ids.len() as int) =~= ids@);
    set
}

/// The identifiers of `set`, in some order.
fn ids_of(set: &HashSet<usize>) -> (ids: Vec<usize>)
    ensures
        ids@.to_set() == set@,
{
    let mut ids: Vec<usize> = Vec::new();
    for x in it: set.iter()
        invariant
            ids@ == it.seq().subrange(0, it.index() as int).map_values(|r: &usize| *r),
            it.seq() == vstd::std_specs::hash::spec_hash_keys_iter(set).remaining(),
    {
        ids.push(*x);
    }
    let ghost r = vstd::std_specs::hash::spec_hash_keys_iter(set).remaining();
    assert(r.subrange(0, r.len() as int) =~= r);
    assert(ids@ =~= r.unref());
    ids
}

/// A finite set with a member is not empty.
proof fn lemma_member_len(s: Set<usize>, x: usize)
    requires
        s.finite(),
        s.contains(x),
    ensures
        s.len() > 0,
{
    assert(s.remove(x).insert(x) =~= s);
}

impl BroadcastState<usize> {
    /// Whether broadcast is switched on.
    pub closed spec fn is_on(&self) -> bool {
        self.enabled
    }

    /// The panes selected for broadcast.
    pub closed spec fn member_set(&self) -> Set<usize> {
        self.targets@
    }

    /// The panes of the tab's latest snapshot.
    pub closed spec fn pane_set(&self) -> Set<usize> {
        self.panes@
    }

    /// Switch, members and panes together.
    pub open spec fn group_view(&self) -> (bool, Set<usize>, Set<usize>) {
        (self.is_on(), self.member_set(), self.pane_set())
    }

    pub closed spec fn wf(&self) -> bool {
        &&& self.targets@.finite()
        &&& self.panes@.finite()
        &&& self.targets@.subset_of(self.panes@)
        &&& (self.enabled ==> self.targets@.len() > 0)
    }

    /// Every reachable state selects only panes of its tab, and a switched-on
    /// broadcast always has at least one member.
    pub proof fn lemma_state_invariant(&self)
        requires
            self.wf(),
        ensures
            self.member_set().subset_of(self.pane_set()),
            self.member_set().finite(),
            self.pane_set().finite(),
            self.is_on() ==> !self.member_set().is_empty(),
    {
        if self.enabled && self.targets@.is_empty() {
            assert(self.targets@ =~= Set::<usize>::empty());
        }
    }

    /// An empty tab: nothing selected, broadcast off.
    pub fn empty() -> (state: Self)
        ensures
            state.wf(),
            !state.is_on(),
            state.member_set() == Set::<usize>::empty(),
            state.pane_set() == Set::<usize>::empty(),
    {
        BroadcastState { enabled: false, targets: HashSet::new(), panes: HashSet::new() }
    }

    /// A tab whose panes are `panes`; every pane starts selected, broadcast off.
    pub fn new(panes: &[usize]) -> (state: Self)
        ensures
            state.wf(),
            !state.is_on(),
            state.pane_set() == panes@.to_set(),
            state.member_set() == panes@.to_set(),
    {
        let mut state = Self::empty();
        state.sync_panes(panes);
        assert(synced_members(Set::empty(), Set::empty(), panes@.to_set()) =~= panes@.to_set());
        state
    }

    /// Refresh using all tab panes, including panes hidden by zoom.
    /// New panes join by default; closed panes leave; existing exclusions stay.
    /// A group left without members is switched off.
    pub fn sync_panes(&mut self, panes: &[usize])
        requires
            old(self).wf(),
        ensures
            final(self).wf(),
            final(self).pane_set() == panes@.to_set(),
            final(self).member_set() == synced_members(
                old(self).member_set(),
                old(self).pane_set(),
                panes@.to_set(),
            ),
            final(self).is_on() == (old(self).is_on() && !final(self).member_set().is_empty()),
    {
        let current = set_of(panes);
        let mut targets: HashSet<usize> = HashSet::new();
        let ghost members = self.targets@;
        let ghost old_panes = self.panes@;
        let mut i: usize = 0;
        while i < panes.len()
            invariant
                i <= panes.len(),
                members == self.targets@,
                old_panes == self.panes@,
                forall|x: usize| #[trigger] targets@.contains(x) <==> (
                    panes@.subrange(0, i as int).contains(x) && (members.contains(x)
                        || !old_panes.contains(x))),
            decreases panes.len() - i,
        {
            let id = panes[i];
            let ghost pre = panes@.subrange(0, i as int);
            let ghost post = panes@.subrange(0, i + 1);
            assert(forall|x: usize| post.contains(x) <==> (pre.contains(x) || x == id)) by {
                assert forall|x: usize| post.contains(x) <==> (pre.contains(x) || x == id) by {
                    if post.contains(x) {
                        let j = choose|j: int| 0 <= j < post.len() && post[j] == x;
                        if j < i {
                            assert(pre[j] == x);
                        }
                    }
                    if pre.contains(x) {
                        let j = choose|j: int| 0 <= j < pre.len() && pre[j] == x;
                        assert(post[j] == x);
                    }
                    if x == id {
                        assert(post[i as int] == x);
                    }
                }
            }
            if self.targets.contains(&id) || !self.panes.contains(&id) {
                targets.insert(id);
            }
            i = i + 1;
        }
        assert(panes@.subrange(0, panes.len() as int) =~= panes@);
        assert(targets@ =~= synced_members(members, old_panes, panes@.to_set()));
        assert(targets@.subset_of(current@));
        self.targets = targets;
        self.panes = current;
        if self.targets.len() == 0 {
            self.enabled = false;
        }
    }

    pub fn enabled(&self) -> (on: bool)
        ensures
            on == self.is_on(),
    {
        self.enabled
    }

    /// Turning broadcast off preserves the member set; it can only be switched
    /// on while at least one pane is selected.
    pub fn set_enabled(&mut self, enabled: bool)
        requires
            old(self).wf(),
        ensures
            final(self).wf(),
            final(self).is_on() == (enabled && !old(self).member_set().is_empty()),
            final(self).member_set() == old(self).member_set(),
            final(self).pane_set() == old(self).pane_set(),
    {
        proof {
            if self.targets@.is_empty() {
                assert(self.targets@ =~= Set::<usize>::empty());
            }
            if !self.targets@.is_empty() {
                let x = choose|x: usize| self.targets@.contains(x);
                lemma_member_len(self.targets@, x);
            }
        }
        self.enabled = enabled && self.targets.len() != 0;
    }

    pub fn toggle_enabled(&mut self)
        requires
            old(self).wf(),
        ensures
            final(self).wf(),
            final(self).is_on() == (!old(self).is_on() && !old(self).member_set().is_empty()),
            final(self).member_set() == old(self).member_set(),
            final(self).pane_set() == old(self).pane_set(),
    {
        let on = self.enabled;
        self.set_enabled(!on);
    }

    pub fn is_member(&self, pane: usize) -> (member: bool)
        ensures
            member == self.member_set().contains(pane),
    {
        self.targets.contains(&pane)
    }

    pub fn member_count(&self) -> (count: usize)
        requires
            self.wf(),
        ensures
            count == self.member_set().len(),
    {
        self.targets.len()
    }

    pub fn pane_count(&self) -> (count: usize)
        requires
            self.wf(),
        ensures
            count == self.pane_set().len(),
    {
        self.panes.len()
    }

    /// Select or deselect one pane of this tab. Deselecting the last member
    /// switches broadcast off. A pane of another tab is refused.
    pub fn set_member(&mut self, pane: usize, member: bool) -> (result: Result<(), UnknownPane<usize>>)
        requires
            old(self).wf(),
        ensures
            final(self).wf(),
            final(self).pane_set() == old(self).pane_set(),
            old(self).pane_set().contains(pane) ==> {
                &&& result is Ok
                &&& final(self).member_set() == if member {
                    old(self).member_set().insert(pane)
                } else {
                    old(self).member_set().remove(pane)
                }
                &&& final(self).is_on() == (old(self).is_on() && !final(self).member_set().is_empty())
            },
            !old(self).pane_set().contains(pane) ==> {
                &&& result == Err::<(), UnknownPane<usize>>(UnknownPane(pane))
                &&& *final(self) == *old(self)
            },
    {
        if let Err(e) = self.require_pane(pane) {
            return Err(e);
        }
        if member {
            self.targets.insert(pane);
            proof {
                lemma_member_len(self.targets@, pane);
            }
        } else {
            self.targets.remove(&pane);
            if self.targets.len() == 0 {
                self.enabled = false;
            }
        }
        proof {
            if self.targets@.is_empty() {
                assert(self.targets@ =~= Set::<usize>::empty());
            }
            if !self.targets@.is_empty() {
                let x = choose|x: usize| self.targets@.contains(x);
                lemma_member_len(self.targets@, x);
            }
        }
        Ok(())
    }

    pub fn toggle_member(&mut self, pane: usize) -> (result: Result<(), UnknownPane<usize>>)
        requires
            old(self).wf(),
        ensures
            final(self).wf(),
            final(self).pane_set() == old(self).pane_set(),
            old(self).pane_set().contains(pane) ==> {
                &&& result is Ok
                &&& final(self).member_set() == if old(self).member_set().contains(pane) {
                    old(self).member_set().remove(pane)
                } else {
                    old(self).member_set().insert(pane)
                }
                &&& final(self).is_on() == (old(self).is_on() && !final(self).member_set().is_empty())
            },
            !old(self).pane_set().contains(pane) ==> {
                &&& result == Err::<(), UnknownPane<usize>>(UnknownPane(pane))
                &&& *final(self) == *old(self)
            },
    {
        let member = self.is_member(pane);
        self.set_member(pane, !member)
    }

    /// Select every pane without implicitly enabling broadcast.
    pub fn select_all(&mut self)
        requires
            old(self).wf(),
        ensures
            final(self).wf(),
            final(self).member_set() == old(self).pane_set(),
            final(self).pane_set() == old(self).pane_set(),
            final(self).is_on() == old(self).is_on(),
    {
        let ids = ids_of(&self.panes);
        self.targets = set_of(ids.as_slice());
        proof {
            if self.enabled {
                if old(self).targets@.is_empty() {
                    assert(old(self).targets@ =~= Set::<usize>::empty());
                }
                let x = choose|x: usize| old(self).targets@.contains(x);
                lemma_member_len(self.targets@, x);
            }
        }
    }

    /// Deselect every pane; broadcast switches off.
    pub fn select_none(&mut self)
        requires
            old(self).wf(),
        ensures
            final(self).wf(),
            final(self).member_set() == Set::<usize>::empty(),
            final(self).pane_set() == old(self).pane_set(),
            !final(self).is_on(),
    {
        self.targets.clear();
        self.enabled = false;
    }

    /// The panes that receive input typed into `source`, in ascending order.
    /// A non-member source always remains independent, even when enabled.
    pub fn targets_for(&self, source: usize) -> (result: Result<Vec<usize>, UnknownPane<usize>>)
        requires
            self.wf(),
        ensures
            !self.pane_set().contains(source) ==> result == Err::<Vec<usize>, UnknownPane<usize>>(
                UnknownPane(source),
            ),
            self.pane_set().contains(source) ==> (result matches Ok(targets) && strictly_sorted(
                targets@,
            ) && targets@.to_set() == delivery_set(self.is_on(), self.member_set(), source)),
    {
        if let Err(e) = self.require_pane(source) {
            return Err(e);
        }
        if !self.enabled || !self.is_member(source) {
            let single = vec![source];
            assert(single@.to_set() =~= set![source]) by {
                assert(single@[0] == source);
            }
            return Ok(single);
        }
        let ids = ids_of(&self.targets);
        Ok(sorted_ids(ids.as_slice()))
    }

    fn require_pane(&self, pane: usize) -> (result: Result<(), UnknownPane<usize>>)
        ensures
            self.pane_set().contains(pane) <==> result is Ok,
            result is Err ==> result == Err::<(), UnknownPane<usize>>(UnknownPane(pane)),
    {
        if self.panes.contains(&pane) {
            Ok(())
        } else {
            Err(UnknownPane(pane))
        }
    }
}

impl Clone for BroadcastState<usize> {
    /// A copy with the same switch, members and panes.
    fn clone(&self) -> (copy: Self)
        ensures
            copy.group_view() == self.group_view(),
            copy.wf() == self.wf(),
    {
        let members = ids_of(&self.targets);
        let panes = ids_of(&self.panes);
        BroadcastState { enabled: self.enabled, targets: set_of(members.as_slice()), panes: set_of(panes.as_slice()) }
    }
}

impl Default for BroadcastState<usize> {
    fn default() -> (state: Self)
        ensures
            state.wf(),
            !state.is_on(),
            state.member_set() == Set::<usize>::empty(),
            state.pane_set() == Set::<usize>::empty(),
    {
        Self::empty()
    }
}

/// Refreshing twice with the same snapshot changes nothing the second time.
pub proof fn lemma_sync_idempotent(members: Set<usize>, panes: Set<usize>, current: Set<usize>)
    ensures
        synced_members(synced_members(members, panes, current), current, current) == synced_members(
            members,
            panes,
            current,
        ),
{
    assert(synced_members(synced_members(members, panes, current), current, current) =~= synced_members(
        members,
        panes,
        current,
    ));
}

/// Whatever the selection, the source of some input is always among its targets,
/// and input only ever reaches panes of the source's tab.
pub proof fn lemma_delivery_includes_source(
    enabled: bool,
    members: Set<usize>,
    panes: Set<usize>,
    source: usize,
)
    requires
        members.subset_of(panes),
        panes.contains(source),
    ensures
        delivery_set(enabled, members, source).contains(source),
        delivery_set(enabled, members, source).subset_of(panes),
{
}

} // verus!
