//! The rhythm of a run: tick, sample every enabled source, write the batch,
//! and only then tick again.
//!
//! The orchestrator waits for nothing itself. Its owner waits for the ticker,
//! runs the samplers and calls the sink, and reports each of these to
//! [`Cycle::step`], which answers with what to do next. A cycle in progress
//! ignores ticks, so no cycle starts before the write of the one before has
//! returned. That is all that holds a slow sink back.
//!
//! A cycle ends only when every enabled source has delivered its point. There
//! is no deadline: a source whose job has ended delivers no more documents, its
//! sampler never has enough of them, and the cycle waits.
use crate::point::Point;
use vstd::prelude::*;

verus! {

/// Where a cycle stands.
#[derive(Debug, Clone, Copy, PartialEq, Eq, Structural)]
pub enum Phase {
    /// Waiting for the next tick.
    Idle,
    /// The samplers of all enabled sources are running.
    Sampling,
    /// The batch is with the sink.
    Writing,
}

/// What the owner of a cycle reports.
pub enum CycleEvent {
    /// The ticker fired.
    Tick,
    /// The sampler of the source with this index has its point.
    Sampled { source: usize, point: Point },
    /// The sink has returned from writing the batch.
    Written { ok: bool },
}

/// What the owner of a cycle does next.
#[derive(Debug)]
pub enum CycleAction {
    /// Nothing: wait for what comes next.
    Wait,
    /// Start one sampler for each enabled source, all at the same time.
    StartSamplers,
    /// Hand this batch to the sink, in one call.
    Write(Vec<Point>),
    /// The write failed: log it and go on with the next cycle.
    ReportSinkError,
}

/// An action as contracts see it.
pub enum ActionView {
    Wait,
    StartSamplers,
    Write(Seq<Point>),
    ReportSinkError,
}

impl View for CycleAction {
    type V = ActionView;

    open spec fn view(&self) -> ActionView {
        match self {
            CycleAction::Wait => ActionView::Wait,
            CycleAction::StartSamplers => ActionView::StartSamplers,
            CycleAction::Write(batch) => ActionView::Write(batch@),
            CycleAction::ReportSinkError => ActionView::ReportSinkError,
        }
    }
}

/// The state of a cycle as contracts see it.
pub struct CycleState {
    /// How many sources are enabled.
    pub sources: nat,
    pub phase: Phase,
    /// While sampling, the point of each source that has one, by the index of
    /// the source. Empty otherwise.
    pub slots: Seq<Option<Point>>,
}

/// Whether every source has its point.
pub open spec fn all_sampled(slots: Seq<Option<Point>>) -> bool {
    forall|i: int| 0 <= i < slots.len() ==> (#[trigger] slots[i]) is Some
}

/// The points of a full set of slots, in the order of the sources.
pub open spec fn batch_of(slots: Seq<Option<Point>>) -> Seq<Point> {
    slots.map_values(|slot: Option<Point>| slot->0)
}

/// The transition of a cycle: the state after `event`, and the action it
/// answers with.
///
/// - Idle, on a tick: sampling starts, with no source sampled yet. Without any
///   enabled source the empty batch is written at once.
/// - Sampling, when a source that had no point yet delivers one: the point is
///   kept. With the last one the batch is complete and goes to the sink, the
///   points in the order of the sources.
/// - Writing, when the sink returns: idle again, whether the write succeeded or
///   not; a failure is to be reported.
/// - Anything else, such as a tick during a cycle, changes nothing.
pub open spec fn step_spec(state: CycleState, event: CycleEvent) -> (CycleState, ActionView) {
    match (state.phase, event) {
        (Phase::Idle, CycleEvent::Tick) => if state.sources == 0 {
            (
                CycleState { phase: Phase::Writing, slots: Seq::empty(), ..state },
                ActionView::Write(Seq::empty()),
            )
        } else {
            (
                CycleState {
                    phase: Phase::Sampling,
                    slots: Seq::new(state.sources, |i: int| None),
                    ..state
                },
                ActionView::StartSamplers,
            )
        },
        (Phase::Sampling, CycleEvent::Sampled { source, point }) => if source < state.slots.len()
            && state.slots[source as int] is None {
            let slots = state.slots.update(source as int, Some(point));
            if all_sampled(slots) {
                (
                    CycleState { phase: Phase::Writing, slots: Seq::empty(), ..state },
                    ActionView::Write(batch_of(slots)),
                )
            } else {
                (CycleState { slots, ..state }, ActionView::Wait)
            }
        } else {
            (state, ActionView::Wait)
        },
        (Phase::Writing, CycleEvent::Written { ok }) => (
            CycleState { phase: Phase::Idle, ..state },
            if ok {
                ActionView::Wait
            } else {
                ActionView::ReportSinkError
            },
        ),
        _ => (state, ActionView::Wait),
    }
}

/// Paces the cycles of a run.
pub struct Cycle {
    sources: usize,
    phase: Phase,
    slots: Vec<Option<Point>>,
}

impl View for Cycle {
    type V = CycleState;

    closed spec fn view(&self) -> CycleState {
        CycleState { sources: self.sources as nat, phase: self.phase, slots: self.slots@ }
    }
}

impl Cycle {
    /// While sampling there is a slot for each source, at least one of them
    /// empty; otherwise there are no slots.
    pub open spec fn consistent(state: CycleState) -> bool {
        if state.phase == Phase::Sampling {
            state.slots.len() == state.sources && !all_sampled(state.slots)
        } else {
            state.slots.len() == 0
        }
    }

    #[verifier::type_invariant]
    spec fn well_formed(self) -> bool {
        Self::consistent(self@)
    }

    /// An idle cycle for `sources` enabled sources.
    pub fn new(sources: usize) -> (r: Cycle)
        ensures
            r@ == (CycleState { sources: sources as nat, phase: Phase::Idle, slots: Seq::empty() }),
    {
        Cycle { sources, phase: Phase::Idle, slots: Vec::new() }
    }

    /// Where the cycle stands.
    pub fn phase(&self) -> (r: Phase)
        ensures
            r == self@.phase,
            Self::consistent(self@),
    {
        proof {
            use_type_invariant(self);
        }
        self.phase
    }

    /// Takes in what happened and says what to do next.
    pub fn step(&mut self, event: CycleEvent) -> (r: CycleAction)
        ensures
            (final(self)@, r@) == step_spec(old(self)@, event),
            Self::consistent(old(self)@),
            Self::consistent(final(self)@),
    {
        proof {
            use_type_invariant(&*self);
        }
        match event {
            CycleEvent::Tick => {
                if self.phase != Phase::Idle {
                    return CycleAction::Wait;
                }
                assert(self.slots@ =~= Seq::empty());
                if self.sources == 0 {
                    self.phase = Phase::Writing;
                    return CycleAction::Write(Vec::new());
                }
                let slots = empty_slots(self.sources);
                assert(slots@[0] is None);
                *self = Cycle { sources: self.sources, phase: Phase::Sampling, slots };
                CycleAction::StartSamplers
            },
            CycleEvent::Sampled { source, point } => {
                if self.phase != Phase::Sampling || source >= self.slots.len() {
                    return CycleAction::Wait;
                }
                if self.slots[source].is_some() {
                    return CycleAction::Wait;
                }
                let mut current = Cycle::new(self.sources);
                std::mem::swap(self, &mut current);
                let Cycle { sources, phase: _, slots } = current;
                let mut slots = slots;
                slots.set(source, Some(point));
                if is_full(&slots) {
                    *self = Cycle { sources, phase: Phase::Writing, slots: Vec::new() };
                    CycleAction::Write(into_batch(slots))
                } else {
                    *self = Cycle { sources, phase: Phase::Sampling, slots };
                    CycleAction::Wait
                }
            },
            CycleEvent::Written { ok } => {
                if self.phase != Phase::Writing {
                    return CycleAction::Wait;
                }
                self.phase = Phase::Idle;
                if ok {
                    CycleAction::Wait
                } else {
                    CycleAction::ReportSinkError
                }
            },
        }
    }
}

/// `count` empty slots.
fn empty_slots(count: usize) -> (r: Vec<Option<Point>>)
    ensures
        r@ == Seq::new(count as nat, |i: int| None::<Point>),
{
    let mut slots: Vec<Option<Point>> = Vec::new();
    let mut i: usize = 0;
    while i < count
        invariant
            i <= count,
            slots@ == Seq::new(i as nat, |j: int| None::<Point>),
        decreases count - i,
    {
        slots.push(None);
        assert(slots@ =~= Seq::new((i + 1) as nat, |j: int| None::<Point>));
        i += 1;
    }
    slots
}

/// Whether every slot holds a point.
fn is_full(slots: &Vec<Option<Point>>) -> (r: bool)
    ensures
        r == all_sampled(slots@),
{
    let mut i: usize = 0;
    while i < slots.len()
        invariant
            i <= slots.len(),
            forall|j: int| 0 <= j < i ==> (#[trigger] slots@[j]) is Some,
        decreases slots.len() - i,
    {
        if slots[i].is_none() {
            return false;
        }
        i += 1;
    }
    true
}

/// The points of a full set of slots, in the order of the slots.
fn into_batch(slots: Vec<Option<Point>>) -> (r: Vec<Point>)
    requires
        all_sampled(slots@),
    ensures
        r@ == batch_of(slots@),
{
    let ghost all = slots@;
    let mut slots = slots;
    let mut batch: Vec<Point> = Vec::new();
    while slots.len() > 0
        invariant
            slots@ == all.take(slots@.len() as int),
            slots@.len() <= all.len(),
            all_sampled(all),
            batch@ == batch_of(all.skip(slots@.len() as int)),
        decreases slots@.len(),
    {
        let ghost before = slots@.len();
        assert(all[before - 1] is Some);
        if let Some(Some(point)) = slots.pop() {
            batch.insert(0, point);
        }
        assert(batch@ =~= batch_of(all.skip(before - 1)));
        assert(slots@ =~= all.take(before - 1));
    }
    assert(all.skip(0) =~= all);
    batch
}

/// A batch goes to the sink exactly when a cycle completes: on the step that
/// enters the writing phase, and on no other. The batch then has one point for
/// every enabled source. While the sink has the batch nothing is written
/// again, so every cycle writes once.
pub proof fn lemma_one_write_per_cycle(state: CycleState, event: CycleEvent)
    requires
        Cycle::consistent(state),
    ensures
        ({
            let (next, action) = step_spec(state, event);
            &&& Cycle::consistent(next)
            &&& next.sources == state.sources
            &&& action is Write <==> state.phase != Phase::Writing && next.phase == Phase::Writing
            &&& action matches ActionView::Write(batch) ==> batch.len() == state.sources
        }),
{
    let (next, action) = step_spec(state, event);
    if state.phase == Phase::Sampling {
        if let CycleEvent::Sampled { source, point } = event {
            if source < state.slots.len() && state.slots[source as int] is None {
                let slots = state.slots.update(source as int, Some(point));
                assert(slots.len() == state.sources);
            }
        }
    }
    if state.phase == Phase::Idle && event is Tick && state.sources > 0 {
        let slots = Seq::new(state.sources, |i: int| None::<Point>);
        assert(slots[0] is None);
    }
}

/// A cycle only moves forward: from idle to sampling (or, without sources,
/// straight to writing), from sampling to writing, from writing to idle.
/// Sampling starts on a tick and only when idle, so no cycle starts before the
/// write of the one before has returned.
pub proof fn lemma_cycles_do_not_overlap(state: CycleState, event: CycleEvent)
    requires
        Cycle::consistent(state),
    ensures
        ({
            let (next, action) = step_spec(state, event);
            &&& next.phase != state.phase ==> (match state.phase {
                Phase::Idle => event is Tick && (next.phase == Phase::Sampling || (state.sources
                    == 0 && next.phase == Phase::Writing)),
                Phase::Sampling => event is Sampled && next.phase == Phase::Writing,
                Phase::Writing => event is Written && next.phase == Phase::Idle,
            })
            &&& action is StartSamplers <==> state.phase == Phase::Idle && event is Tick
                && state.sources > 0
            &&& action is ReportSinkError <==> state.phase == Phase::Writing && event
                == (CycleEvent::Written { ok: false })
        }),
{
}

} // verus!
