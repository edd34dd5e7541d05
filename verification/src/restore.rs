//! Reopening a saved layout: the order in which its sessions are opened and
//! the split that makes each pane after the first.
use vstd::prelude::*;
use std::collections::VecDeque;
use crate::hosts::{Host, HostFields};
use crate::labels::{split_percent, split_percent_spec};
use vstd::slice::slice_subrange;
use crate::layout::size::SplitDirection;
use crate::layout::tree::{count_leaves, leaves, Tree};
use crate::workspaces::{layout_hosts, layout_panes, lemma_panes_are_hosts, SavedLayout, SplitAxis};

verus! {

/// One split of a restore: the pane it splits, counted in the order the panes
/// were opened (the first session is pane 0, the pane made by step `k` is
/// pane `k + 1`), its axis, the share of the new second pane, and the host
/// the new pane connects to.
#[derive(Debug)]
pub struct RestoreStep {
    pub parent: usize,
    pub axis: SplitAxis,
    pub second_percent: u8,
    pub host: Host,
}

pub struct PlannedSplit {
    pub parent: nat,
    pub axis: SplitAxis,
    pub second_percent: int,
    pub host: HostFields,
}

impl View for RestoreStep {
    type V = PlannedSplit;

    open spec fn view(&self) -> PlannedSplit {
        PlannedSplit {
            parent: self.parent as nat,
            axis: self.axis,
            second_percent: self.second_percent as int,
            host: self.host@,
        }
    }
}

/// Where a layout starts and how it is split, in the order the splits are made.
#[derive(Debug)]
pub struct RestorePlan {
    pub first: Host,
    pub steps: Vec<RestoreStep>,
}

/// Nodes of a layout: panes and splits.
pub open spec fn layout_size(layout: SavedLayout) -> nat
    decreases layout,
{
    match layout {
        SavedLayout::Pane { .. } => 1,
        SavedLayout::Split { first, second, .. } => 1 + layout_size(*first) + layout_size(*second),
    }
}

/// Nodes of all the layouts waiting in a queue.
pub open spec fn queue_size(queue: Seq<(nat, SavedLayout)>) -> nat
    decreases queue.len(),
{
    if queue.len() == 0 {
        0
    } else {
        queue_size(queue.drop_last()) + layout_size(queue.last().1)
    }
}

pub proof fn lemma_queue_size_front(queue: Seq<(nat, SavedLayout)>)
    requires
        queue.len() > 0,
    ensures
        queue_size(queue) == layout_size(queue[0].1) + queue_size(queue.drop_first()),
    decreases queue.len(),
{
    if queue.len() > 1 {
        lemma_queue_size_front(queue.drop_last());
        assert(queue.drop_last().drop_first() =~= queue.drop_first().drop_last());
    } else {
        assert(queue.drop_first() =~= Seq::<(nat, SavedLayout)>::empty());
        assert(queue.drop_last() =~= Seq::<(nat, SavedLayout)>::empty());
    }
}

pub proof fn lemma_queue_size_push(queue: Seq<(nat, SavedLayout)>, entry: (nat, SavedLayout))
    ensures
        queue_size(queue.push(entry)) == queue_size(queue) + layout_size(entry.1),
{
    assert(queue.push(entry).drop_last() =~= queue);
}

proof fn lemma_layout_size_positive(layout: SavedLayout)
    ensures
        layout_size(layout) >= 1,
{
}

/// Every split of the layout leaves its first pane at most the whole.
pub open spec fn percents_fit(layout: SavedLayout) -> bool
    decreases layout,
{
    match layout {
        SavedLayout::Pane { .. } => true,
        SavedLayout::Split { first_percent, first, second, .. } => first_percent <= 100 && percents_fit(*first)
            && percents_fit(*second),
    }
}

pub open spec fn queue_fits(queue: Seq<(nat, SavedLayout)>) -> bool {
    forall|i: int| 0 <= i < queue.len() ==> percents_fit(#[trigger] queue[i].1)
}

/// The splits that restore the layouts of `queue`, taken first in first out:
/// a split opens its second part as pane `opened` and queues its first part
/// on the pane it split and its second part on the new pane.
pub open spec fn restore_steps(queue: Seq<(nat, SavedLayout)>, opened: nat) -> Seq<PlannedSplit>
    decreases queue_size(queue),
{
    if queue.len() == 0 {
        Seq::empty()
    } else {
        let pane = queue[0].0;
        let rest = queue.drop_first();
        proof {
            lemma_queue_size_front(queue);
        }
        match queue[0].1 {
            SavedLayout::Pane { .. } => restore_steps(rest, opened),
            SavedLayout::Split { axis, first_percent, first, second } => {
                let next = rest.push((pane, *first)).push((opened, *second));
                proof {
                    lemma_queue_size_push(rest, (pane, *first));
                    lemma_queue_size_push(rest.push((pane, *first)), (opened, *second));
                }
                seq![
                    PlannedSplit {
                        parent: pane,
                        axis,
                        second_percent: 100 - first_percent,
                        host: layout_hosts(*second)[0],
                    },
                ] + restore_steps(next, opened + 1)
            },
        }
    }
}

/// How `layout` is reopened: its first host starts the tab as pane 0, then
/// these splits follow.
pub open spec fn restore_plan_spec(layout: SavedLayout) -> Seq<PlannedSplit> {
    restore_steps(seq![(0nat, layout)], 1)
}

pub open spec fn queue_view(queue: Seq<(usize, SavedLayout)>) -> Seq<(nat, SavedLayout)> {
    queue.map_values(|entry: (usize, SavedLayout)| (entry.0 as nat, entry.1))
}

proof fn lemma_size_counts_panes(layout: SavedLayout)
    ensures
        layout_size(layout) + 1 == 2 * layout_panes(layout),
    decreases layout,
{
    if let SavedLayout::Split { first, second, .. } = layout {
        lemma_size_counts_panes(*first);
        lemma_size_counts_panes(*second);
    }
}

proof fn lemma_steps_count(queue: Seq<(nat, SavedLayout)>, opened: nat)
    ensures
        2 * restore_steps(queue, opened).len() + queue.len() == queue_size(queue),
    decreases queue_size(queue),
{
    if queue.len() > 0 {
        let pane = queue[0].0;
        let rest = queue.drop_first();
        lemma_queue_size_front(queue);
        match queue[0].1 {
            SavedLayout::Pane { .. } => {
                lemma_steps_count(rest, opened);
            },
            SavedLayout::Split { first, second, .. } => {
                let next = rest.push((pane, *first)).push((opened, *second));
                lemma_queue_size_push(rest, (pane, *first));
                lemma_queue_size_push(rest.push((pane, *first)), (opened, *second));
                lemma_steps_count(next, opened + 1);
            },
        }
    }
}

/// Reopening a layout makes one split for each pane after the first, so every
/// pane of the layout gets a session.
pub proof fn lemma_restore_opens_every_pane(layout: SavedLayout)
    ensures
        restore_plan_spec(layout).len() + 1 == layout_panes(layout),
{
    let queue = seq![(0nat, layout)];
    lemma_steps_count(queue, 1);
    lemma_queue_size_push(Seq::empty(), (0nat, layout));
    assert(Seq::<(nat, SavedLayout)>::empty().push((0nat, layout)) =~= queue);
    lemma_size_counts_panes(layout);
}

impl SavedLayout {
    /// The host of the first pane of the layout.
    pub fn first_host(&self) -> (host: &Host)
        ensures
            host@ == layout_hosts(*self)[0],
        decreases self,
    {
        match self {
            SavedLayout::Pane { host } => host,
            SavedLayout::Split { first, second, .. } => {
                proof {
                    lemma_panes_are_hosts(**first);
                }
                first.first_host()
            },
        }
    }
}

/// The plan that reopens `layout`: the host of its first pane, then each
/// split in the order it is made.
pub fn restore_plan(layout: SavedLayout) -> (plan: RestorePlan)
    requires
        percents_fit(layout),
        layout_size(layout) <= usize::MAX,
    ensures
        plan.first@ == layout_hosts(layout)[0],
        plan.steps@.map_values(|step: RestoreStep| step@) == restore_plan_spec(layout),
{
    let first = layout.first_host().clone();
    let mut steps: Vec<RestoreStep> = Vec::new();
    let mut queue: VecDeque<(usize, SavedLayout)> = VecDeque::new();
    queue.push_back((0, layout));
    let mut opened: usize = 1;
    proof {
        assert(queue_view(queue@) =~= Seq::<(nat, SavedLayout)>::empty().push((0nat, layout)));
        lemma_queue_size_push(Seq::empty(), (0nat, layout));
        assert(steps@.map_values(|step: RestoreStep| step@) =~= Seq::<PlannedSplit>::empty());
    }
    loop
        invariant
            steps@.map_values(|step: RestoreStep| step@) + restore_steps(queue_view(queue@), opened as nat)
                == restore_plan_spec(layout),
            queue_fits(queue_view(queue@)),
            opened + queue_size(queue_view(queue@)) <= 1 + layout_size(layout),
            layout_size(layout) <= usize::MAX,
        ensures
            steps@.map_values(|step: RestoreStep| step@) == restore_plan_spec(layout),
        decreases queue_size(queue_view(queue@)),
    {
        let ghost before = queue_view(queue@);
        let entry = queue.pop_front();
        match entry {
            None => {
                assert(queue_view(queue@) =~= Seq::<(nat, SavedLayout)>::empty());
                assert(restore_steps(queue_view(queue@), opened as nat) == Seq::<PlannedSplit>::empty());
                assert(steps@.map_values(|step: RestoreStep| step@) =~= restore_plan_spec(layout));
                break ;
            },
            Some((pane, branch)) => {
                proof {
                    lemma_queue_size_front(before);
                    assert(queue_view(queue@) =~= before.drop_first());
                    assert(before[0] == (pane as nat, branch));
                }
                match branch {
                    SavedLayout::Pane { .. } => {
                        assert(queue_fits(queue_view(queue@))) by {
                            assert forall|i: int| 0 <= i < queue_view(queue@).len() implies percents_fit(
                                #[trigger] queue_view(queue@)[i].1,
                            ) by {
                                assert(queue_view(queue@)[i] == before[i + 1]);
                            }
                        }
                    },
                    SavedLayout::Split { axis, first_percent, first, second } => {
                        assert(percents_fit(before[0].1));
                        let host = second.first_host().clone();
                        proof {
                            lemma_layout_size_positive(*first);
                            lemma_layout_size_positive(*second);
                        }
                        let step = RestoreStep { parent: pane, axis, second_percent: 100 - first_percent, host };
                        let ghost done = steps@.map_values(|step: RestoreStep| step@);
                        let ghost rest = queue_view(queue@);
                        steps.push(step);
                        queue.push_back((pane, *first));
                        queue.push_back((opened, *second));
                        proof {
                            let next = rest.push((pane as nat, *first)).push((opened as nat, *second));
                            assert(queue_view(queue@) =~= next);
                            assert(steps@.map_values(|step: RestoreStep| step@) =~= done.push(step@));
                            lemma_queue_size_push(rest, (pane as nat, *first));
                            lemma_queue_size_push(rest.push((pane as nat, *first)), (opened as nat, *second));
                            assert(queue_fits(next)) by {
                                assert forall|i: int| 0 <= i < next.len() implies percents_fit(
                                    #[trigger] next[i].1,
                                ) by {
                                    if i < rest.len() {
                                        assert(next[i] == before[i + 1]);
                                    }
                                }
                            }
                            assert(done.push(step@) + restore_steps(next, opened as nat + 1) =~= done + (seq![step@]
                                + restore_steps(next, opened as nat + 1)));
                        }
                        opened = opened + 1;
                    },
                }
            },
        }
    }
    RestorePlan { first, steps }
}

/// What stands behind one pane when a tab is saved.
#[derive(Debug)]
pub enum SessionHost {
    /// The session is gone.
    Closed,
    /// The session was not opened as an SSH host of this application.
    Unsaved,
    Host(Host),
}

/// Why a tab cannot be saved as a layout.
#[derive(Debug, Clone, Copy, PartialEq, Eq, Structural)]
pub enum SnapshotError {
    NoSessions,
    SessionClosed,
    NotSshHost,
}

impl SnapshotError {
    /// The explanation shown to the user, as text.
    pub open spec fn explanation(&self) -> Seq<char> {
        match self {
            SnapshotError::NoSessions => "This workspace has no sessions."@,
            SnapshotError::SessionClosed => "A session was closed."@,
            SnapshotError::NotSshHost => "Only SSH hosts opened from TermViAI can be saved."@,
        }
    }

    /// The explanation shown to the user.
    pub fn message(&self) -> (text: &'static str)
        ensures
            text@ == self.explanation(),
    {
        match self {
            SnapshotError::NoSessions => "This workspace has no sessions.",
            SnapshotError::SessionClosed => "A session was closed.",
            SnapshotError::NotSshHost => "Only SSH hosts opened from TermViAI can be saved.",
        }
    }
}

/// Every split of the tree has sizes.
pub open spec fn sized(tree: Tree) -> bool
    decreases tree,
{
    match tree {
        Tree::Node { left, right, data } => data is Some && sized(*left) && sized(*right),
        _ => true,
    }
}

/// The sizes of the two parts of a split along its direction.
pub open spec fn split_parts(direction: SplitDirection, first_cols: usize, first_rows: usize, second_cols: usize, second_rows: usize) -> (int, int) {
    match direction {
        SplitDirection::Horizontal => (first_cols as int, second_cols as int),
        SplitDirection::Vertical => (first_rows as int, second_rows as int),
    }
}

/// The shares of every split can be computed in the machine's integers.
pub open spec fn shares_fit(tree: Tree) -> bool
    decreases tree,
{
    match tree {
        Tree::Node { left, right, data } => {
            &&& (match data {
                Some(d) => {
                    let (a, b) = split_parts(d.direction, d.first.cols, d.first.rows, d.second.cols, d.second.rows);
                    a + b <= usize::MAX && a * 100 + (a + b) / 2 <= usize::MAX
                },
                None => true,
            })
            &&& shares_fit(*left)
            &&& shares_fit(*right)
        },
        _ => true,
    }
}

/// The saved layout of a tab whose panes, left to right, have `sessions`:
/// the first refusal met left to right, otherwise each split with the share
/// of its first part in percent.
pub open spec fn snapshot_spec(tree: Tree, sessions: Seq<SessionHost>) -> Result<SavedLayout, SnapshotError>
    decreases tree,
{
    match tree {
        Tree::Empty => Err(SnapshotError::NoSessions),
        Tree::Leaf(_) => match sessions[0] {
            SessionHost::Closed => Err(SnapshotError::SessionClosed),
            SessionHost::Unsaved => Err(SnapshotError::NotSshHost),
            SessionHost::Host(host) => Ok(SavedLayout::Pane { host }),
        },
        Tree::Node { left, right, data } => {
            let nl = leaves(*left).len() as int;
            match snapshot_spec(*left, sessions.subrange(0, nl)) {
                Err(e) => Err(e),
                Ok(first) => match snapshot_spec(*right, sessions.subrange(nl, sessions.len() as int)) {
                    Err(e) => Err(e),
                    Ok(second) => {
                        let d = data.unwrap();
                        let (a, b) = split_parts(d.direction, d.first.cols, d.first.rows, d.second.cols, d.second.rows);
                        Ok(
                            SavedLayout::Split {
                                axis: if d.direction == SplitDirection::Horizontal {
                                    SplitAxis::Horizontal
                                } else {
                                    SplitAxis::Vertical
                                },
                                first_percent: split_percent_spec(a, b) as u8,
                                first: Box::new(first),
                                second: Box::new(second),
                            },
                        )
                    },
                },
            }
        },
    }
}

/// Save a tab as a layout of hosts; `sessions` holds what stands behind each
/// pane, left to right.
pub fn snapshot(tree: &Tree, sessions: &[SessionHost]) -> (layout: Result<SavedLayout, SnapshotError>)
    requires
        sessions@.len() == leaves(*tree).len(),
        sized(*tree),
        shares_fit(*tree),
    ensures
        layout == snapshot_spec(*tree, sessions@),
    decreases tree,
{
    match tree {
        Tree::Empty => Err(SnapshotError::NoSessions),
        Tree::Leaf(_) => match &sessions[0] {
            SessionHost::Closed => Err(SnapshotError::SessionClosed),
            SessionHost::Unsaved => Err(SnapshotError::NotSshHost),
            SessionHost::Host(host) => Ok(SavedLayout::Pane { host: host.clone() }),
        },
        Tree::Node { left, right, data } => {
            let total = sessions.len();
            assert(leaves(*tree) =~= leaves(**left) + leaves(**right));
            let nl = count_leaves(left);
            let first = match snapshot(left, slice_subrange(sessions, 0, nl)) {
                Err(e) => return Err(e),
                Ok(first) => first,
            };
            let second = match snapshot(right, slice_subrange(sessions, nl, total)) {
                Err(e) => return Err(e),
                Ok(second) => second,
            };
            match data {
                Some(d) => {
                    let (a, b) = match d.direction {
                        SplitDirection::Horizontal => (d.first.cols, d.second.cols),
                        SplitDirection::Vertical => (d.first.rows, d.second.rows),
                    };
                    Ok(
                        SavedLayout::Split {
                            axis: if d.direction == SplitDirection::Horizontal {
                                SplitAxis::Horizontal
                            } else {
                                SplitAxis::Vertical
                            },
                            first_percent: split_percent(a, b),
                            first: Box::new(first),
                            second: Box::new(second),
                        },
                    )
                },
                None => Err(SnapshotError::NoSessions),
            }
        },
    }
}

/// The host behind a session, for sessions that have one.
pub open spec fn session_host(session: SessionHost) -> HostFields {
    match session {
        SessionHost::Host(host) => host@,
        _ => arbitrary(),
    }
}

/// A saved tab keeps its hosts in the order of its panes, one per pane.
pub proof fn lemma_snapshot_keeps_hosts(tree: Tree, sessions: Seq<SessionHost>)
    requires
        sessions.len() == leaves(tree).len(),
        snapshot_spec(tree, sessions) is Ok,
    ensures
        layout_hosts(snapshot_spec(tree, sessions)->Ok_0) == sessions.map_values(|s: SessionHost| session_host(s)),
    decreases tree,
{
    match tree {
        Tree::Leaf(_) => {
            assert(sessions.map_values(|s: SessionHost| session_host(s)) =~= seq![session_host(sessions[0])]);
        },
        Tree::Node { left, right, .. } => {
            let nl = leaves(*left).len() as int;
            let a = sessions.subrange(0, nl);
            let b = sessions.subrange(nl, sessions.len() as int);
            lemma_snapshot_keeps_hosts(*left, a);
            lemma_snapshot_keeps_hosts(*right, b);
            assert(sessions.map_values(|s: SessionHost| session_host(s)) =~= a.map_values(
                |s: SessionHost| session_host(s),
            ) + b.map_values(|s: SessionHost| session_host(s)));
        },
        Tree::Empty => {},
    }
}


/// `percent` is `a`'s share of `a + b` in whole percent, rounded to the
/// nearest (halves up) and kept between 1 and 99.
pub open spec fn rounded_share(percent: int, a: int, b: int) -> bool {
    let t = a + b;
    &&& 1 <= percent <= 99
    &&& t > 0 && 1 < percent < 99 ==> percent * t <= 100 * a + t / 2 < (percent + 1) * t
    &&& t > 0 && percent == 1 ==> 100 * a + t / 2 < 2 * t
    &&& t > 0 && percent == 99 ==> 99 * t <= 100 * a + t / 2
}

proof fn lemma_split_percent_rounds(a: int, b: int)
    requires
        a >= 0,
        b >= 0,
    ensures
        rounded_share(split_percent_spec(a, b), a, b),
{
    let t = a + b;
    if t > 0 {
        let n = a * 100 + t / 2;
        let q = n / t;
        assert(q * t <= n < (q + 1) * t) by (nonlinear_arith)
            requires
                t > 0,
                n >= 0,
                q == n / t,
        ;
        let p = split_percent_spec(a, b);
        if q >= 99 {
            assert(99 * t <= q * t) by (nonlinear_arith)
                requires
                    q >= 99,
                    t > 0,
            ;
        }
        if q <= 1 {
            assert((q + 1) * t <= 2 * t) by (nonlinear_arith)
                requires
                    q <= 1,
                    t > 0,
            ;
        }
    }
}

/// A saved split keeps the share of its first part: along a vertical split
/// (parts above each other) the share of the rows, along a horizontal one the
/// share of the columns, each in whole percent (see `rounded_share`).
pub proof fn lemma_snapshot_keeps_shares(tree: Tree, sessions: Seq<SessionHost>)
    requires
        tree matches Tree::Node { data: Some(_), .. },
        snapshot_spec(tree, sessions) is Ok,
    ensures
        tree matches Tree::Node { data: Some(d), .. } && snapshot_spec(tree, sessions)->Ok_0 matches SavedLayout::Split {
            axis,
            first_percent,
            ..
        } && {
            &&& d.direction == SplitDirection::Vertical ==> axis == SplitAxis::Vertical && rounded_share(
                first_percent as int,
                d.first.rows as int,
                d.second.rows as int,
            )
            &&& d.direction == SplitDirection::Horizontal ==> axis == SplitAxis::Horizontal && rounded_share(
                first_percent as int,
                d.first.cols as int,
                d.second.cols as int,
            )
        },
{
    match tree {
        Tree::Node { data: Some(d), .. } => {
            lemma_split_percent_rounds(d.first.rows as int, d.second.rows as int);
            lemma_split_percent_rounds(d.first.cols as int, d.second.cols as int);
        },
        _ => {},
    }
}

} // verus!
