//! Fan-out of one encoded input to the panes selected by a `BroadcastState`.
use vstd::prelude::*;
use crate::broadcast::{delivery_set, BroadcastState, UnknownPane};
use crate::id_set::strictly_sorted;

verus! {

broadcast use vstd::function::group_function_axioms;

/// What became of every target, in the order the targets were visited.
#[derive(Debug)]
pub struct DeliveryReport<P, E> {
    pub delivered: Vec<P>,
    pub disconnected: Vec<P>,
    pub failures: Vec<(P, E)>,
}

/// The fate of one target of a routed input.
pub enum Outcome<E> {
    Delivered,
    Disconnected,
    Failed(E),
}

pub open spec fn delivered_of<E>(targets: Seq<usize>, outcomes: Seq<Outcome<E>>) -> Seq<usize>
    decreases targets.len(),
{
    if targets.len() == 0 || outcomes.len() == 0 {
        Seq::empty()
    } else {
        let rest = delivered_of(targets.drop_last(), outcomes.drop_last());
        if outcomes.last() is Delivered {
            rest.push(targets.last())
        } else {
            rest
        }
    }
}

pub open spec fn disconnected_of<E>(targets: Seq<usize>, outcomes: Seq<Outcome<E>>) -> Seq<usize>
    decreases targets.len(),
{
    if targets.len() == 0 || outcomes.len() == 0 {
        Seq::empty()
    } else {
        let rest = disconnected_of(targets.drop_last(), outcomes.drop_last());
        if outcomes.last() is Disconnected {
            rest.push(targets.last())
        } else {
            rest
        }
    }
}

pub open spec fn failures_of<E>(targets: Seq<usize>, outcomes: Seq<Outcome<E>>) -> Seq<(usize, E)>
    decreases targets.len(),
{
    if targets.len() == 0 || outcomes.len() == 0 {
        Seq::empty()
    } else {
        let rest = failures_of(targets.drop_last(), outcomes.drop_last());
        match outcomes.last() {
            Outcome::Failed(e) => rest.push((targets.last(), e)),
            _ => rest,
        }
    }
}

/// The outcome recorded for `target` agrees with what the two callbacks can
/// answer for it: `Disconnected` only where `is_connected` can answer `false`;
/// otherwise `is_connected` can answer `true`, and the outcome is a result that
/// `write` can return for `target` and the shared slice.
pub open spec fn outcome_justified<E, C: FnMut(usize) -> bool, W: FnMut(usize, &[u8]) -> Result<(), E>>(
    is_connected: C,
    write: W,
    data: &[u8],
    target: usize,
    outcome: Outcome<E>,
) -> bool {
    match outcome {
        Outcome::Disconnected => call_ensures(is_connected, (target,), false),
        Outcome::Delivered => call_ensures(is_connected, (target,), true) && exists|
            r: Result<(), E>,
        | r is Ok && #[trigger] call_ensures(write, (target, data), r),
        Outcome::Failed(e) => call_ensures(is_connected, (target,), true) && call_ensures(
            write,
            (target, data),
            Err(e),
        ),
    }
}

/// The outcome that a write result gives its target.
pub open spec fn written_outcome<E>(written: Result<(), E>) -> Outcome<E> {
    match written {
        Ok(()) => Outcome::Delivered,
        Err(e) => Outcome::Failed(e),
    }
}

/// What the caller of an `InputRoute` does next.
#[derive(Debug, Clone, Copy, PartialEq, Eq, Structural)]
pub enum RouteAction {
    /// Ask whether this pane's transport is connected; hand the answer to
    /// `answer_connected`.
    AskConnected(usize),
    /// Write the whole input to this pane once; hand the result to
    /// `answer_written`.
    Write(usize),
    /// Every target is settled; take the report with `finish`.
    Done,
}

/// The action of a route at `position` of `targets`.
pub open spec fn route_action(targets: Seq<usize>, position: int, awaiting_write: bool) -> RouteAction {
    if position >= targets.len() {
        RouteAction::Done
    } else if awaiting_write {
        RouteAction::Write(targets[position])
    } else {
        RouteAction::AskConnected(targets[position])
    }
}

/// One input on its way to its targets, one decision at a time.
///
/// The targets are visited in order. Each is first asked about; a
/// disconnected one is settled at once, a connected one is written exactly
/// once and settled by the result. Nothing is ever retried.
pub struct InputRoute<E> {
    targets: Vec<usize>,
    position: usize,
    awaiting_write: bool,
    report: DeliveryReport<usize, E>,
    outcomes: Ghost<Seq<Outcome<E>>>,
}

impl<E> InputRoute<E> {
    /// The targets, in the order they are visited.
    pub closed spec fn targets(&self) -> Seq<usize> {
        self.targets@
    }

    /// How many targets are settled.
    pub closed spec fn position(&self) -> int {
        self.position as int
    }

    /// Whether the current target answered connected and waits for its write.
    pub closed spec fn awaiting_write(&self) -> bool {
        self.awaiting_write
    }

    /// The outcome of each settled target.
    pub closed spec fn outcomes(&self) -> Seq<Outcome<E>> {
        self.outcomes@
    }

    pub open spec fn action(&self) -> RouteAction {
        route_action(self.targets(), self.position(), self.awaiting_write())
    }

    /// The report lists exactly what the settled outcomes say.
    pub closed spec fn report_holds(&self) -> bool {
        let settled = self.targets@.subrange(0, self.position as int);
        &&& self.report.delivered@ == delivered_of(settled, self.outcomes@)
        &&& self.report.disconnected@ == disconnected_of(settled, self.outcomes@)
        &&& self.report.failures@ == failures_of(settled, self.outcomes@)
    }

    pub open spec fn wf(&self) -> bool {
        &&& strictly_sorted(self.targets())
        &&& 0 <= self.position() <= self.targets().len()
        &&& self.outcomes().len() == self.position()
        &&& self.awaiting_write() ==> self.position() < self.targets().len()
        &&& self.report_holds()
    }

    /// Start routing `data` from `source`: its targets are those of
    /// `targets_for`, and none where the input is empty.
    pub fn begin(state: &BroadcastState<usize>, source: usize, data: &[u8]) -> (result: Result<
        Self,
        UnknownPane<usize>,
    >)
        requires
            state.wf(),
        ensures
            !state.pane_set().contains(source) ==> (result matches Err(e) && e == UnknownPane(
                source,
            )),
            state.pane_set().contains(source) ==> (result matches Ok(route) && {
                &&& route.wf()
                &&& route.position() == 0
                &&& !route.awaiting_write()
                &&& data@.len() == 0 ==> route.targets().len() == 0
                &&& data@.len() > 0 ==> route.targets().to_set() == delivery_set(
                    state.is_on(),
                    state.member_set(),
                    source,
                )
            }),
    {
        let found = match state.targets_for(source) {
            Ok(found) => found,
            Err(e) => return Err(e),
        };
        let targets = if data.len() == 0 {
            Vec::new()
        } else {
            found
        };
        let route = InputRoute {
            targets,
            position: 0,
            awaiting_write: false,
            report: DeliveryReport { delivered: Vec::new(), disconnected: Vec::new(), failures: Vec::new() },
            outcomes: Ghost(Seq::empty()),
        };
        assert(route.targets@.subrange(0, 0) =~= Seq::<usize>::empty());
        Ok(route)
    }

    pub fn next_action(&self) -> (action: RouteAction)
        requires
            self.wf(),
        ensures
            action == self.action(),
    {
        if self.position >= self.targets.len() {
            RouteAction::Done
        } else if self.awaiting_write {
            RouteAction::Write(self.targets[self.position])
        } else {
            RouteAction::AskConnected(self.targets[self.position])
        }
    }

    /// Record whether the target just asked about is connected: a
    /// disconnected one is settled, a connected one is to be written next.
    pub fn answer_connected(&mut self, connected: bool)
        requires
            old(self).wf(),
            old(self).action() is AskConnected,
        ensures
            final(self).wf(),
            final(self).targets() == old(self).targets(),
            connected ==> {
                &&& final(self).position() == old(self).position()
                &&& final(self).awaiting_write()
                &&& final(self).outcomes() == old(self).outcomes()
            },
            !connected ==> {
                &&& final(self).position() == old(self).position() + 1
                &&& !final(self).awaiting_write()
                &&& final(self).outcomes() == old(self).outcomes().push(Outcome::Disconnected)
            },
    {
        let count = self.targets.len();
        assert(self.position < count);
        if connected {
            self.awaiting_write = true;
        } else {
            let target = self.targets[self.position];
            let ghost prev = self.outcomes@;
            let ghost next = self.targets@.subrange(0, self.position + 1);
            assert(next.drop_last() =~= self.targets@.subrange(0, self.position as int));
            self.report.disconnected.push(target);
            self.outcomes = Ghost(prev.push(Outcome::Disconnected));
            self.position = self.position + 1;
            assert(self.outcomes@.drop_last() =~= prev);
        }
    }

    /// Record the result of the one write to the current target, which
    /// settles it.
    pub fn answer_written(&mut self, written: Result<(), E>)
        requires
            old(self).wf(),
            old(self).action() is Write,
        ensures
            final(self).wf(),
            final(self).targets() == old(self).targets(),
            final(self).position() == old(self).position() + 1,
            !final(self).awaiting_write(),
            final(self).outcomes() == old(self).outcomes().push(written_outcome(written)),
    {
        let count = self.targets.len();
        assert(self.position < count);
        let target = self.targets[self.position];
        let ghost prev = self.outcomes@;
        let ghost next = self.targets@.subrange(0, self.position + 1);
        assert(next.drop_last() =~= self.targets@.subrange(0, self.position as int));
        match written {
            Ok(()) => {
                self.report.delivered.push(target);
                self.outcomes = Ghost(prev.push(Outcome::Delivered));
            },
            Err(error) => {
                let ghost failed = error;
                self.report.failures.push((target, error));
                self.outcomes = Ghost(prev.push(Outcome::Failed(failed)));
            },
        }
        self.position = self.position + 1;
        self.awaiting_write = false;
        assert(self.outcomes@.drop_last() =~= prev);
    }

    /// The report of a route whose targets are all settled.
    pub fn finish(self) -> (report: DeliveryReport<usize, E>)
        requires
            self.wf(),
            self.action() is Done,
        ensures
            report.delivered@ == delivered_of(self.targets(), self.outcomes()),
            report.disconnected@ == disconnected_of(self.targets(), self.outcomes()),
            report.failures@ == failures_of(self.targets(), self.outcomes()),
    {
        assert(self.targets@.subrange(0, self.position as int) =~= self.targets@);
        self.report
    }
}

/// A settled target never comes back: a route is never again asked about,
/// or told to write to, a target it has settled. Since every step keeps the
/// targets and never moves back, each target is written at most once, and one
/// that answered disconnected is never written.
pub proof fn lemma_settled_target_never_returns<E>(route: InputRoute<E>, k: int)
    requires
        route.wf(),
        0 <= k < route.position(),
    ensures
        route.action() != RouteAction::Write(route.targets()[k]),
        route.action() != RouteAction::AskConnected(route.targets()[k]),
{
    if route.position() < route.targets().len() {
        assert(route.targets()[k] < route.targets()[route.position()]);
    }
}

/// Fan out the same byte slice; encoding belongs to the source terminal.
///
/// The route is driven by an `InputRoute`: each target is asked about once,
/// and written once only where `is_connected` answered `true`, so `write` need
/// only accept panes that can answer connected. `write` must write the entire
/// slice. Failures never stop other deliveries, and a failed write is not
/// retried: replaying input could duplicate it. Empty input and an unknown
/// source never reach either callback.
pub fn route_input<E, C: FnMut(usize) -> bool, W: FnMut(usize, &[u8]) -> Result<(), E>>(
    state: &BroadcastState<usize>,
    source: usize,
    data: &[u8],
    mut is_connected: C,
    mut write: W,
) -> (result: Result<DeliveryReport<usize, E>, UnknownPane<usize>>)
    requires
        state.wf(),
        forall|t: usize| call_requires(is_connected, (t,)),
        forall|t: usize, d: &[u8]|
            call_ensures(is_connected, (t,), true) ==> call_requires(write, (t, d)),
    ensures
        !state.pane_set().contains(source) ==> (result matches Err(e) && e == UnknownPane(source)),
        state.pane_set().contains(source) ==> result is Ok,
        result matches Ok(report) ==> {
            &&& data@.len() == 0 ==> report.delivered@.len() == 0 && report.disconnected@.len() == 0
                && report.failures@.len() == 0
            &&& data@.len() > 0 ==> exists|targets: Seq<usize>, outcomes: Seq<Outcome<E>>|
                #![trigger delivered_of(targets, outcomes)]
                {
                    &&& strictly_sorted(targets)
                    &&& targets.to_set() == delivery_set(
                        state.is_on(),
                        state.member_set(),
                        source,
                    )
                    &&& outcomes.len() == targets.len()
                    &&& forall|i: int|
                        0 <= i < targets.len() ==> outcome_justified(
                            is_connected,
                            write,
                            data,
                            #[trigger] targets[i],
                            outcomes[i],
                        )
                    &&& report.delivered@ == delivered_of(targets, outcomes)
                    &&& report.disconnected@ == disconnected_of(targets, outcomes)
                    &&& report.failures@ == failures_of(targets, outcomes)
                }
        },
{
    let mut route: InputRoute<E> = match InputRoute::begin(state, source, data) {
        Ok(route) => route,
        Err(e) => return Err(e),
    };
    let ghost connected_at_entry = is_connected;
    let ghost write_at_entry = write;
    let ghost targets = route.targets();
    loop
        invariant
            route.wf(),
            route.targets() == targets,
            is_connected == connected_at_entry,
            write == write_at_entry,
            data@.len() == 0 ==> targets.len() == 0,
            data@.len() > 0 ==> targets.to_set() == delivery_set(
                state.is_on(),
                state.member_set(),
                source,
            ),
            forall|t: usize| call_requires(is_connected, (t,)),
            forall|t: usize, d: &[u8]|
                call_ensures(is_connected, (t,), true) ==> call_requires(write, (t, d)),
            forall|k: int|
                0 <= k < route.position() ==> outcome_justified(
                    is_connected,
                    write,
                    data,
                    #[trigger] targets[k],
                    route.outcomes()[k],
                ),
            route.awaiting_write() ==> call_ensures(
                is_connected,
                (targets[route.position()],),
                true,
            ),
        ensures
            route.wf(),
            route.action() is Done,
        decreases (targets.len() - route.position()) * 2 + (if route.awaiting_write() {
            0int
        } else {
            1int
        }),
    {
        let ghost before = route.outcomes();
        let ghost at = route.position();
        match route.next_action() {
            RouteAction::AskConnected(target) => {
                let connected = is_connected(target);
                route.answer_connected(connected);
                proof {
                    if !connected {
                        assert(route.outcomes()[at] == Outcome::<E>::Disconnected);
                    }
                    assert forall|k: int| 0 <= k < route.position() implies outcome_justified(
                        is_connected,
                        write,
                        data,
                        #[trigger] targets[k],
                        route.outcomes()[k],
                    ) by {
                        if k < at {
                            assert(route.outcomes()[k] == before[k]);
                        }
                    }
                }
            },
            RouteAction::Write(target) => {
                let written = write(target, data);
                let ghost result = written;
                route.answer_written(written);
                proof {
                    assert(route.outcomes()[at] == written_outcome(result));
                    if result is Ok {
                        assert(call_ensures(write, (target, data), result));
                    }
                    assert forall|k: int| 0 <= k < route.position() implies outcome_justified(
                        is_connected,
                        write,
                        data,
                        #[trigger] targets[k],
                        route.outcomes()[k],
                    ) by {
                        if k < at {
                            assert(route.outcomes()[k] == before[k]);
                        }
                    }
                }
            },
            RouteAction::Done => {
                break;
            },
        }
    }
    let report = route.finish();
    assert(report.delivered@ == delivered_of(targets, route.outcomes()));
    Ok(report)
}

} // verus!
