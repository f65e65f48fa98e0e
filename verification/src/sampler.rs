//! The sampler: the driver that collects a fixed number of samples, shuts the
//! other two loops down, and leads one batched embedding call to one
//! aggregated result.
//!
//! The sampler decides; its caller acts. Each step takes what the caller has
//! just observed and answers with what the caller does next.

use vstd::prelude::*;

verus! {

/// Why the sampler gave up.
#[derive(Clone, Copy, Debug, PartialEq, Eq, Structural)]
pub enum SamplerError {
    /// A frame could not be preprocessed.
    Preprocessing,
    /// The batched embedding call failed.
    Inference,
    /// The batched embedding call returned no vector.
    NoEmbeddings,
    /// The embedding vectors are not all of one length.
    LengthMismatch,
    /// An event arrived that the phase at hand does not expect.
    OutOfOrder,
}

impl SamplerError {
    /// The reason in words.
    pub fn message(&self) -> (text: String)
        ensures
            text@ == match *self {
                SamplerError::Preprocessing => "Frame preprocessing failed"@,
                SamplerError::Inference => "Batch inference failed"@,
                SamplerError::NoEmbeddings => "No embeddings were generated"@,
                SamplerError::LengthMismatch => "Embeddings differ in length"@,
                SamplerError::OutOfOrder => "Sampler event out of order"@,
            },
    {
        match self {
            SamplerError::Preprocessing => "Frame preprocessing failed".to_owned(),
            SamplerError::Inference => "Batch inference failed".to_owned(),
            SamplerError::NoEmbeddings => "No embeddings were generated".to_owned(),
            SamplerError::LengthMismatch => "Embeddings differ in length".to_owned(),
            SamplerError::OutOfOrder => "Sampler event out of order".to_owned(),
        }
    }
}

/// Where the sampler stands.
#[derive(Clone, Copy, Debug, PartialEq, Eq, Structural)]
pub enum SamplerPhase {
    /// Samples are being collected, one per tick.
    Collecting,
    /// The target is reached, the shutdown signals are raised, and the
    /// batched embedding call is under way.
    BatchInference,
    /// The embedding vectors are being averaged.
    Aggregating,
    /// The aggregate is ready.
    Done,
    /// The operation was given up.
    Failed(SamplerError),
}

/// What the caller has just observed.
pub enum SamplerEvent<S> {
    /// The tick found the cache empty.
    NoFrame,
    /// The tick read a frame and preprocessed it into this sample.
    Sample(S),
    /// The tick read a frame, and preprocessing it failed.
    PreprocessingFailed,
    /// The batched embedding call returned vectors of these lengths, one
    /// length for each vector.
    Embedded(Vec<usize>),
    /// The batched embedding call failed.
    InferenceFailed,
    /// The embedding vectors have been averaged.
    Aggregated,
}

/// What the caller does next.
#[derive(Clone, Copy, Debug, PartialEq, Eq, Structural)]
pub enum SamplerAction {
    /// Sleep for this many milliseconds, then read the cache, waiting for it
    /// if need be, and preprocess the frame it holds.
    Collect { wait_millis: u64 },
    /// Raise both shutdown signals, then hand all samples, in order, to the
    /// embedding collaborator in one call.
    ShutdownThenInfer,
    /// Average `count` embedding vectors of `length` elements each, element
    /// by element.
    Aggregate { count: usize, length: usize },
    /// Wait for both loops to end, then return the aggregate.
    Finish,
    /// Raise both shutdown signals, wait for both loops to end, then return
    /// this failure.
    ShutdownThenFail(SamplerError),
    /// The shutdown signals are up: wait for both loops to end, then return
    /// this failure.
    Fail(SamplerError),
}

/// Whether an action calls for the shutdown signals.
pub open spec fn calls_for_shutdown(action: SamplerAction) -> bool {
    action is ShutdownThenInfer || action is ShutdownThenFail
}

/// The one length that all vectors of a batch share.
///
/// A batch without vectors has none, and neither has one whose vectors
/// differ in length.
pub open spec fn batch_shape(lengths: Seq<usize>) -> Result<usize, SamplerError> {
    if lengths.len() == 0 {
        Err(SamplerError::NoEmbeddings)
    } else if forall|i: int| 0 <= i < lengths.len() ==> #[trigger] lengths[i] == lengths.first() {
        Ok(lengths.first())
    } else {
        Err(SamplerError::LengthMismatch)
    }
}

/// What is averaged and what is rejected: a batch of vectors of one length,
/// be it a single vector, has that length as its shape, and a batch in which
/// one vector differs in length from the first has none.
pub proof fn lemma_batch_shape(lengths: Seq<usize>, length: usize, odd: int)
    ensures
        lengths.len() > 0 && (forall|i: int| 0 <= i < lengths.len() ==> lengths[i] == length)
            ==> batch_shape(lengths) == Ok::<usize, SamplerError>(length),
        batch_shape(seq![length]) == Ok::<usize, SamplerError>(length),
        0 <= odd < lengths.len() && lengths[odd] != lengths[0] ==> batch_shape(lengths) == Err::<
            usize,
            SamplerError,
        >(SamplerError::LengthMismatch),
        batch_shape(Seq::<usize>::empty()) == Err::<usize, SamplerError>(
            SamplerError::NoEmbeddings,
        ),
{
    if 0 <= odd < lengths.len() && lengths[odd] != lengths[0] {
        assert(lengths[odd] != lengths.first());
    }
    assert(seq![length].first() == length);
    assert forall|i: int| 0 <= i < seq![length].len() implies #[trigger] seq![length][i]
        == seq![length].first() by {}
}

/// Finds the length that all embedding vectors share, given the length of
/// each.
pub fn embedding_shape(lengths: &[usize]) -> (shape: Result<usize, SamplerError>)
    ensures
        shape == batch_shape(lengths@),
{
    if lengths.len() == 0 {
        return Err(SamplerError::NoEmbeddings);
    }
    let first = lengths[0];
    let mut i: usize = 1;
    while i < lengths.len()
        invariant
            1 <= i <= lengths.len(),
            first == lengths@[0],
            forall|k: int| 0 <= k < i ==> lengths@[k] == first,
        decreases lengths.len() - i,
    {
        if lengths[i] != first {
            return Err(SamplerError::LengthMismatch);
        }
        i += 1;
    }
    Ok(first)
}

/// The sampler's state.
pub struct SamplerView<S> {
    /// How many samples are to be collected.
    pub target: nat,
    /// The pause in front of each tick, in milliseconds.
    pub wait_millis: u64,
    /// The samples collected so far, oldest first.
    pub samples: Seq<S>,
    /// Where the sampler stands.
    pub phase: SamplerPhase,
    /// Whether the shutdown signals have been raised.
    pub shutdown_raised: bool,
}

impl<S> SamplerView<S> {
    /// The state in the given phase, all else unchanged.
    pub open spec fn at(self, phase: SamplerPhase) -> SamplerView<S> {
        SamplerView { phase, ..self }
    }

    /// What holds of every state that a sampler reaches.
    ///
    /// The shutdown signals are down exactly while samples are collected,
    /// which goes on only below the target. Inference and what follows it
    /// work on exactly `target` samples, after the signals. Every state in
    /// which the sampler has ended, be it with the aggregate or with a
    /// failure, has the signals up: no exit leaves the other loops running.
    pub open spec fn wf(self) -> bool {
        &&& self.samples.len() <= self.target
        &&& match self.phase {
            SamplerPhase::Collecting => !self.shutdown_raised && self.samples.len()
                < self.target,
            SamplerPhase::BatchInference => self.shutdown_raised && self.samples.len()
                == self.target,
            SamplerPhase::Aggregating => self.shutdown_raised && self.samples.len()
                == self.target,
            SamplerPhase::Done => self.shutdown_raised && self.samples.len() == self.target,
            SamplerPhase::Failed(_) => self.shutdown_raised,
        }
    }
}

/// The state in which a sampler begins, and its first action.
///
/// With nothing to collect the target is reached at once.
pub open spec fn sampler_begin<S>(target: nat, wait_millis: u64) -> (SamplerView<S>, SamplerAction) {
    if target == 0 {
        (
            SamplerView {
                target,
                wait_millis,
                samples: Seq::empty(),
                phase: SamplerPhase::BatchInference,
                shutdown_raised: true,
            },
            SamplerAction::ShutdownThenInfer,
        )
    } else {
        (
            SamplerView {
                target,
                wait_millis,
                samples: Seq::empty(),
                phase: SamplerPhase::Collecting,
                shutdown_raised: false,
            },
            SamplerAction::Collect { wait_millis },
        )
    }
}

/// The state given up for `error`, and the action that reports it.
///
/// The other loops are shut down on this exit as on every other: where the
/// shutdown signals are still down, giving up raises them.
pub open spec fn sampler_fails<S>(state: SamplerView<S>, error: SamplerError) -> (
    SamplerView<S>,
    SamplerAction,
) {
    if state.shutdown_raised {
        (state.at(SamplerPhase::Failed(error)), SamplerAction::Fail(error))
    } else {
        (
            SamplerView { phase: SamplerPhase::Failed(error), shutdown_raised: true, ..state },
            SamplerAction::ShutdownThenFail(error),
        )
    }
}

/// The sampler's rule: the state after `event` and the action it calls for.
///
/// While collecting, an empty cache changes nothing and the tick is tried
/// again; a sample is appended, and the one that reaches the target raises
/// the shutdown signals and starts the batched call; a preprocessing failure
/// raises the shutdown signals and ends everything. The batched call leads
/// to averaging when it returned at least one vector and all are of one
/// length, and to failure otherwise. Averaging leads to the end. An event
/// that the phase does not expect is a failure, and a sampler that has ended
/// answers every event alike.
pub open spec fn sampler_step<S>(state: SamplerView<S>, event: SamplerEvent<S>) -> (
    SamplerView<S>,
    SamplerAction,
) {
    match state.phase {
        SamplerPhase::Collecting => match event {
            SamplerEvent::NoFrame => (
                state,
                SamplerAction::Collect { wait_millis: state.wait_millis },
            ),
            SamplerEvent::Sample(sample) => {
                let samples = state.samples.push(sample);
                if samples.len() >= state.target {
                    (
                        SamplerView {
                            samples,
                            phase: SamplerPhase::BatchInference,
                            shutdown_raised: true,
                            ..state
                        },
                        SamplerAction::ShutdownThenInfer,
                    )
                } else {
                    (
                        SamplerView { samples, ..state },
                        SamplerAction::Collect { wait_millis: state.wait_millis },
                    )
                }
            },
            SamplerEvent::PreprocessingFailed => sampler_fails(state, SamplerError::Preprocessing),
            _ => sampler_fails(state, SamplerError::OutOfOrder),
        },
        SamplerPhase::BatchInference => match event {
            SamplerEvent::Embedded(lengths) => match batch_shape(lengths@) {
                Ok(length) => (
                    state.at(SamplerPhase::Aggregating),
                    SamplerAction::Aggregate { count: lengths@.len() as usize, length },
                ),
                Err(error) => sampler_fails(state, error),
            },
            SamplerEvent::InferenceFailed => sampler_fails(state, SamplerError::Inference),
            _ => sampler_fails(state, SamplerError::OutOfOrder),
        },
        SamplerPhase::Aggregating => match event {
            SamplerEvent::Aggregated => (state.at(SamplerPhase::Done), SamplerAction::Finish),
            _ => sampler_fails(state, SamplerError::OutOfOrder),
        },
        SamplerPhase::Done => (state, SamplerAction::Finish),
        SamplerPhase::Failed(error) => sampler_fails(state, error),
    }
}

/// The sampler, without the sleeping, the reading and the computing.
pub struct Sampler<S> {
    target: usize,
    wait_millis: u64,
    samples: Vec<S>,
    phase: SamplerPhase,
    shutdown_raised: bool,
}

impl<S> View for Sampler<S> {
    type V = SamplerView<S>;

    closed spec fn view(&self) -> SamplerView<S> {
        SamplerView {
            target: self.target as nat,
            wait_millis: self.wait_millis,
            samples: self.samples@,
            phase: self.phase,
            shutdown_raised: self.shutdown_raised,
        }
    }
}

impl<S> Sampler<S> {
    /// A sampler that is to collect `target` samples, pausing `wait_millis`
    /// milliseconds in front of each tick, and its first action.
    pub fn begin(target: usize, wait_millis: u64) -> (started: (Sampler<S>, SamplerAction))
        ensures
            (started.0@, started.1) == sampler_begin::<S>(target as nat, wait_millis),
            started.0@.wf(),
    {
        if target == 0 {
            (
                Sampler {
                    target,
                    wait_millis,
                    samples: Vec::new(),
                    phase: SamplerPhase::BatchInference,
                    shutdown_raised: true,
                },
                SamplerAction::ShutdownThenInfer,
            )
        } else {
            (
                Sampler {
                    target,
                    wait_millis,
                    samples: Vec::new(),
                    phase: SamplerPhase::Collecting,
                    shutdown_raised: false,
                },
                SamplerAction::Collect { wait_millis },
            )
        }
    }

    /// Where the sampler stands.
    pub fn phase(&self) -> (phase: SamplerPhase)
        ensures
            phase == self@.phase,
    {
        self.phase
    }

    /// How many samples are to be collected.
    pub fn target(&self) -> (target: usize)
        ensures
            target == self@.target,
    {
        self.target
    }

    /// Whether the shutdown signals have been raised.
    pub fn shutdown_raised(&self) -> (raised: bool)
        ensures
            raised == self@.shutdown_raised,
    {
        self.shutdown_raised
    }

    /// The samples collected so far, oldest first.
    pub fn samples(&self) -> (samples: &Vec<S>)
        ensures
            samples@ == self@.samples,
    {
        &self.samples
    }

    /// Gives up the sampler for its samples.
    pub fn into_samples(self) -> (samples: Vec<S>)
        ensures
            samples@ == self@.samples,
    {
        self.samples
    }

    fn fail(&mut self, error: SamplerError) -> (action: SamplerAction)
        ensures
            (final(self)@, action) == sampler_fails(old(self)@, error),
    {
        self.phase = SamplerPhase::Failed(error);
        if self.shutdown_raised {
            SamplerAction::Fail(error)
        } else {
            self.shutdown_raised = true;
            SamplerAction::ShutdownThenFail(error)
        }
    }

    /// Takes one event and says what to do next.
    pub fn step(&mut self, event: SamplerEvent<S>) -> (action: SamplerAction)
        ensures
            (final(self)@, action) == sampler_step(old(self)@, event),
            old(self)@.wf() ==> final(self)@.wf(),
    {
        match self.phase {
            SamplerPhase::Collecting => match event {
                SamplerEvent::NoFrame => SamplerAction::Collect { wait_millis: self.wait_millis },
                SamplerEvent::Sample(sample) => {
                    self.samples.push(sample);
                    if self.samples.len() >= self.target {
                        self.phase = SamplerPhase::BatchInference;
                        self.shutdown_raised = true;
                        SamplerAction::ShutdownThenInfer
                    } else {
                        SamplerAction::Collect { wait_millis: self.wait_millis }
                    }
                },
                SamplerEvent::PreprocessingFailed => self.fail(SamplerError::Preprocessing),
                _ => self.fail(SamplerError::OutOfOrder),
            },
            SamplerPhase::BatchInference => match event {
                SamplerEvent::Embedded(lengths) => match embedding_shape(lengths.as_slice()) {
                    Ok(length) => {
                        self.phase = SamplerPhase::Aggregating;
                        SamplerAction::Aggregate { count: lengths.len(), length }
                    },
                    Err(error) => self.fail(error),
                },
                SamplerEvent::InferenceFailed => self.fail(SamplerError::Inference),
                _ => self.fail(SamplerError::OutOfOrder),
            },
            SamplerPhase::Aggregating => match event {
                SamplerEvent::Aggregated => {
                    self.phase = SamplerPhase::Done;
                    SamplerAction::Finish
                },
                _ => self.fail(SamplerError::OutOfOrder),
            },
            SamplerPhase::Done => SamplerAction::Finish,
            SamplerPhase::Failed(error) => self.fail(error),
        }
    }
}

/// The state that a sampler reaches from `state` through `events`, and the
/// actions it answers with, one for each event.
pub open spec fn sampler_run<S>(state: SamplerView<S>, events: Seq<SamplerEvent<S>>) -> (
    SamplerView<S>,
    Seq<SamplerAction>,
)
    decreases events.len(),
{
    if events.len() == 0 {
        (state, Seq::empty())
    } else {
        let (reached, actions) = sampler_run(state, events.drop_last());
        let (next, action) = sampler_step(reached, events.last());
        (next, actions.push(action))
    }
}

/// How often `actions` call for the shutdown signals.
pub open spec fn shutdown_calls(actions: Seq<SamplerAction>) -> nat
    decreases actions.len(),
{
    if actions.len() == 0 {
        0
    } else {
        let earlier = shutdown_calls(actions.drop_last());
        if calls_for_shutdown(actions.last()) {
            earlier + 1
        } else {
            earlier
        }
    }
}

/// One for a state whose signals have been raised, zero for any other.
pub open spec fn raised_count<S>(state: SamplerView<S>) -> nat {
    if state.shutdown_raised {
        1
    } else {
        0
    }
}

/// Every step keeps what holds of every reachable state.
pub proof fn lemma_step_keeps_wf<S>(state: SamplerView<S>, event: SamplerEvent<S>)
    requires
        state.wf(),
    ensures
        sampler_step(state, event).0.wf(),
        sampler_step(state, event).0.target == state.target,
        sampler_step(state, event).0.wait_millis == state.wait_millis,
{
}

/// A step calls for the shutdown signals exactly when it raises them: the
/// signals were down before the step and are up after it. Once up, they stay
/// up.
pub proof fn lemma_step_raises_once<S>(state: SamplerView<S>, event: SamplerEvent<S>)
    requires
        state.wf(),
    ensures
        calls_for_shutdown(sampler_step(state, event).1) <==> !state.shutdown_raised
            && sampler_step(state, event).0.shutdown_raised,
        state.shutdown_raised ==> sampler_step(state, event).0.shutdown_raised,
{
}

/// Giving up shuts the other loops down: whatever a collecting sampler fails
/// on, a frame that cannot be preprocessed or an event out of order, the
/// step raises the shutdown signals and asks the caller to raise them, to
/// wait for both loops, and to return the failure.
pub proof fn lemma_failure_while_collecting_shuts_down<S>(
    state: SamplerView<S>,
    event: SamplerEvent<S>,
)
    requires
        state.wf(),
        state.phase == SamplerPhase::Collecting,
        !(event is NoFrame),
        !(event is Sample),
    ensures
        sampler_step(state, event).0.shutdown_raised,
        sampler_step(state, event).0.samples == state.samples,
        event is PreprocessingFailed ==> sampler_step(state, event).0.phase
            == SamplerPhase::Failed(SamplerError::Preprocessing) && sampler_step(state, event).1
            == SamplerAction::ShutdownThenFail(SamplerError::Preprocessing),
        !(event is PreprocessingFailed) ==> sampler_step(state, event).0.phase
            == SamplerPhase::Failed(SamplerError::OutOfOrder) && sampler_step(state, event).1
            == SamplerAction::ShutdownThenFail(SamplerError::OutOfOrder),
{
}

/// The shutdown signals are raised at most once, whatever happens: over any
/// sequence of events, the sampler calls for them as often as their state
/// goes from down to up, which is once or never.
pub proof fn lemma_shutdown_raised_at_most_once<S>(
    state: SamplerView<S>,
    events: Seq<SamplerEvent<S>>,
)
    requires
        state.wf(),
    ensures
        sampler_run(state, events).0.wf(),
        sampler_run(state, events).1.len() == events.len(),
        raised_count(state) + shutdown_calls(sampler_run(state, events).1) == raised_count(
            sampler_run(state, events).0,
        ),
        shutdown_calls(sampler_run(state, events).1) <= 1,
    decreases events.len(),
{
    if events.len() > 0 {
        lemma_shutdown_raised_at_most_once(state, events.drop_last());
        let (reached, actions) = sampler_run(state, events.drop_last());
        lemma_step_keeps_wf(reached, events.last());
        lemma_step_raises_once(reached, events.last());
        let (next, action) = sampler_step(reached, events.last());
        assert(actions.push(action).drop_last() =~= actions);
    }
}

/// The state that a new sampler reaches through `events`, and every action
/// it has answered with, its first one included.
pub open spec fn sampler_history<S>(
    target: nat,
    wait_millis: u64,
    events: Seq<SamplerEvent<S>>,
) -> (SamplerView<S>, Seq<SamplerAction>) {
    let (start, first) = sampler_begin::<S>(target, wait_millis);
    let (reached, actions) = sampler_run(start, events);
    (reached, seq![first] + actions)
}

/// A state in which the batched call has been asked for and has not failed.
pub open spec fn past_collecting(phase: SamplerPhase) -> bool {
    phase == SamplerPhase::BatchInference || phase == SamplerPhase::Aggregating || phase
        == SamplerPhase::Done
}

/// A state in which the sampler has ended, with the aggregate or with a
/// failure.
pub open spec fn has_ended(phase: SamplerPhase) -> bool {
    phase == SamplerPhase::Done || phase is Failed
}

/// From its beginning to wherever it has got, a sampler has called for the
/// shutdown signals exactly once if they are up, and never if they are down.
/// They are down only while it collects. So they have been called for
/// exactly once in every phase from the batched call on, where the samples
/// are exactly as many as the target, and exactly once wherever the sampler
/// has ended, whichever way: no inference is asked for before the signals,
/// none on fewer samples, and no exit, failure included, leaves the other
/// loops without their signal.
pub proof fn lemma_shutdown_exactly_once<S>(
    target: nat,
    wait_millis: u64,
    events: Seq<SamplerEvent<S>>,
)
    ensures
        sampler_history(target, wait_millis, events).0.wf(),
        shutdown_calls(sampler_history(target, wait_millis, events).1) == raised_count(
            sampler_history(target, wait_millis, events).0,
        ),
        sampler_history(target, wait_millis, events).0.shutdown_raised <==> sampler_history(
            target,
            wait_millis,
            events,
        ).0.phase != SamplerPhase::Collecting,
        past_collecting(sampler_history(target, wait_millis, events).0.phase) ==> {
            &&& shutdown_calls(sampler_history(target, wait_millis, events).1) == 1
            &&& sampler_history(target, wait_millis, events).0.samples.len() == target
        },
        has_ended(sampler_history(target, wait_millis, events).0.phase) ==> shutdown_calls(
            sampler_history(target, wait_millis, events).1,
        ) == 1,
{
    let (start, first) = sampler_begin::<S>(target, wait_millis);
    assert(start.wf());
    lemma_shutdown_raised_at_most_once(start, events);
    let (reached, actions) = sampler_run(start, events);
    lemma_shutdown_calls_prepend(first, actions);
    assert(seq![first].drop_last() =~= Seq::<SamplerAction>::empty());
    assert(shutdown_calls(Seq::<SamplerAction>::empty()) == 0);
    assert(seq![first].last() == first);
    assert(shutdown_calls(seq![first]) == raised_count(start));
    if past_collecting(reached.phase) {
        assert(reached.wf());
        assert(reached.shutdown_raised);
        assert(reached.samples.len() == target) by {
            lemma_run_keeps_target(start, events);
        }
    }
}

/// The target and the pause never change.
proof fn lemma_run_keeps_target<S>(state: SamplerView<S>, events: Seq<SamplerEvent<S>>)
    ensures
        sampler_run(state, events).0.target == state.target,
        sampler_run(state, events).0.wait_millis == state.wait_millis,
    decreases events.len(),
{
    if events.len() > 0 {
        lemma_run_keeps_target(state, events.drop_last());
    }
}

/// Counting over a sequence with one action in front.
proof fn lemma_shutdown_calls_prepend(first: SamplerAction, actions: Seq<SamplerAction>)
    ensures
        shutdown_calls(seq![first] + actions) == shutdown_calls(seq![first]) + shutdown_calls(
            actions,
        ),
    decreases actions.len(),
{
    if actions.len() == 0 {
        assert(seq![first] + actions =~= seq![first]);
    } else {
        lemma_shutdown_calls_prepend(first, actions.drop_last());
        assert((seq![first] + actions).drop_last() =~= seq![first] + actions.drop_last());
        assert((seq![first] + actions).last() == actions.last());
    }
}

/// Without a frame there is no progress: however often the cache is found
/// empty, a collecting sampler stays exactly as it is and asks for the same
/// tick again. It never ends by itself.
pub proof fn lemma_no_frame_no_progress<S>(state: SamplerView<S>, ticks: nat)
    requires
        state.phase == SamplerPhase::Collecting,
    ensures
        sampler_run(state, Seq::new(ticks, |i: int| SamplerEvent::<S>::NoFrame)).0 == state,
        sampler_run(state, Seq::new(ticks, |i: int| SamplerEvent::<S>::NoFrame)).1 == Seq::new(
            ticks,
            |i: int| SamplerAction::Collect { wait_millis: state.wait_millis },
        ),
    decreases ticks,
{
    let events = Seq::new(ticks, |i: int| SamplerEvent::<S>::NoFrame);
    let asked = Seq::new(ticks, |i: int| SamplerAction::Collect { wait_millis: state.wait_millis });
    if ticks > 0 {
        let fewer = (ticks - 1) as nat;
        lemma_no_frame_no_progress(state, fewer);
        assert(events.drop_last() =~= Seq::new(fewer, |i: int| SamplerEvent::<S>::NoFrame));
        assert(asked =~= Seq::new(
            fewer,
            |i: int| SamplerAction::Collect { wait_millis: state.wait_millis },
        ).push(SamplerAction::Collect { wait_millis: state.wait_millis }));
    } else {
        assert(asked =~= Seq::<SamplerAction>::empty());
    }
}

/// Samples are kept in the order in which they arrive, and the one that
/// reaches the target ends the collecting: from its beginning, a sampler that
/// is handed exactly `target` samples, with any number of empty ticks in
/// between, holds exactly these samples, in their order, and has moved on to
/// the batched call.
pub proof fn lemma_collects_in_order<S>(
    target: nat,
    wait_millis: u64,
    events: Seq<SamplerEvent<S>>,
)
    requires
        forall|i: int|
            0 <= i < events.len() ==> (#[trigger] events[i] is Sample || events[i] is NoFrame),
        samples_of(events).len() == target,
        events.len() > 0 ==> events.last() is Sample,
    ensures
        ({
            let reached = sampler_run(sampler_begin::<S>(target, wait_millis).0, events).0;
            &&& reached.phase == SamplerPhase::BatchInference
            &&& reached.samples == samples_of(events)
            &&& reached.shutdown_raised
        }),
{
    let start = sampler_begin::<S>(target, wait_millis).0;
    if events.len() == 0 {
    } else {
        let earlier = events.drop_last();
        assert forall|i: int| 0 <= i < earlier.len() implies (#[trigger] earlier[i] is Sample
            || earlier[i] is NoFrame) by {
            assert(earlier[i] == events[i]);
        }
        lemma_collecting_prefix(start, earlier);
    }
}

/// The samples among `events`, in order.
pub open spec fn samples_of<S>(events: Seq<SamplerEvent<S>>) -> Seq<S>
    decreases events.len(),
{
    if events.len() == 0 {
        Seq::empty()
    } else {
        let earlier = samples_of(events.drop_last());
        match events.last() {
            SamplerEvent::Sample(sample) => earlier.push(sample),
            _ => earlier,
        }
    }
}

/// While fewer samples than the target have arrived, a sampler that has seen
/// only samples and empty ticks is still collecting and holds what arrived.
proof fn lemma_collecting_prefix<S>(start: SamplerView<S>, events: Seq<SamplerEvent<S>>)
    requires
        start.phase == SamplerPhase::Collecting,
        start.samples.len() == 0,
        forall|i: int|
            0 <= i < events.len() ==> (#[trigger] events[i] is Sample || events[i] is NoFrame),
        samples_of(events).len() < start.target,
    ensures
        sampler_run(start, events).0 == (SamplerView { samples: samples_of(events), ..start }),
    decreases events.len(),
{
    if events.len() == 0 {
        assert(start.samples =~= Seq::<S>::empty());
    } else {
        let earlier = events.drop_last();
        assert forall|i: int| 0 <= i < earlier.len() implies (#[trigger] earlier[i] is Sample
            || earlier[i] is NoFrame) by {
            assert(earlier[i] == events[i]);
        }
        lemma_collecting_prefix(start, earlier);
    }
}

} // verus!
