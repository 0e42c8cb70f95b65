use std::collections::VecDeque;
use vstd::prelude::*;

verus! {

/// The result of an exclusive system.
#[derive(Debug, Clone, Copy, PartialEq, Eq, Structural)]
pub enum YoleckExclusiveSystemDirective {
    /// An exclusive system needs to return this when it is not done yet and wants to still be
    /// active in the next frame.
    Listening,
    /// An exclusive system needs to return this when it is has nothing more to do.
    ///
    /// This means that either the exclusive system received the input it was waiting for (e.g. - a
    /// user click) or that it is not viable for the currently selected entity.
    Finished,
}

/// The currently pending exclusive systems, in the order they will run.
pub struct YoleckExclusiveSystemsQueue<S> {
    systems: VecDeque<S>,
}

impl<S> View for YoleckExclusiveSystemsQueue<S> {
    type V = Seq<S>;

    closed spec fn view(&self) -> Seq<S> {
        self.systems@
    }
}

impl<S> YoleckExclusiveSystemsQueue<S> {
    pub fn new() -> (r: Self)
        ensures
            r@ == Seq::<S>::empty(),
    {
        YoleckExclusiveSystemsQueue { systems: VecDeque::new() }
    }

    pub fn len(&self) -> (r: usize)
        ensures
            r == self@.len(),
    {
        self.systems.len()
    }

    /// Add an exclusive system to be ran starting from the next frame.
    ///
    /// If there are already exclusive systems running or enqueued, the new one will run after they
    /// finish.
    pub fn push_back(&mut self, system: S)
        ensures
            final(self)@ == old(self)@.push(system),
    {
        self.systems.push_back(system);
    }

    /// Add an exclusive system to be ran starting from the next frame.
    ///
    /// If there are already exclusive systems enqueued, the new one will run before them. If there
    /// is an exclusive system already running, the new one will only run after it finishes.
    pub fn push_front(&mut self, system: S)
        ensures
            final(self)@ == seq![system] + old(self)@,
    {
        self.systems.push_front(system);
    }

    /// Remove all enqueued exclusive systems.
    ///
    /// This does not affect an exclusive system that is already running.
    pub fn clear(&mut self)
        ensures
            final(self)@ == Seq::<S>::empty(),
    {
        self.systems.clear();
    }

    /// Take the exclusive system that runs next.
    pub fn pop_front(&mut self) -> (r: Option<S>)
        ensures
            old(self)@.len() == 0 ==> r is None && final(self)@ == old(self)@,
            old(self)@.len() > 0 ==> r == Some(old(self)@[0]) && final(self)@ == old(self)@.drop_first(),
    {
        let r = self.systems.pop_front();
        assert(r is Some ==> self.systems@ =~= old(self)@.drop_first());
        r
    }
}

/// What an exclusive system piped into the cancellation check returns: a finished system stays
/// finished, and a listening one finishes when Escape was released or the abort button clicked.
pub fn yoleck_exclusive_system_cancellable(
    directive: YoleckExclusiveSystemDirective,
    escape_just_released: bool,
    abort_clicked: bool,
) -> (r: YoleckExclusiveSystemDirective)
    ensures
        r == if directive == YoleckExclusiveSystemDirective::Finished || escape_just_released
            || abort_clicked {
            YoleckExclusiveSystemDirective::Finished
        } else {
            YoleckExclusiveSystemDirective::Listening
        },
{
    if let YoleckExclusiveSystemDirective::Finished = directive {
        return directive;
    }
    if escape_just_released || abort_clicked {
        return YoleckExclusiveSystemDirective::Finished;
    }
    directive
}

/// Whether an exclusive system that was just taken from the queue and ran for the first time
/// stays active: it does when it is listening, or when an entity was created this frame.
pub fn exclusive_system_stays_active(
    new_entity_created_this_frame: bool,
    first_run_result: YoleckExclusiveSystemDirective,
) -> (r: bool)
    ensures
        r == (new_entity_created_this_frame || first_run_result
            == YoleckExclusiveSystemDirective::Listening),
{
    match first_run_result {
        YoleckExclusiveSystemDirective::Listening => true,
        YoleckExclusiveSystemDirective::Finished => new_entity_created_this_frame,
    }
}

/// How the exclusive system that was active at the start of a frame fared.
#[derive(Debug, Clone, Copy, PartialEq, Eq, Structural)]
pub enum ActiveExclusiveSystemStatus {
    /// No exclusive system was active.
    DidNotRun,
    /// It ran and keeps listening: it stays active.
    StillRunningSame,
    /// It ran and finished: it is dropped.
    JustFinishedRunning,
}

/// The status of the active exclusive system after it ran with `result` (`None` when none was
/// active).
pub fn active_exclusive_system_status(result: Option<YoleckExclusiveSystemDirective>) -> (r:
    ActiveExclusiveSystemStatus)
    ensures
        r == match result {
            None => ActiveExclusiveSystemStatus::DidNotRun,
            Some(YoleckExclusiveSystemDirective::Listening) => ActiveExclusiveSystemStatus::StillRunningSame,
            Some(YoleckExclusiveSystemDirective::Finished) => ActiveExclusiveSystemStatus::JustFinishedRunning,
        },
{
    match result {
        None => ActiveExclusiveSystemStatus::DidNotRun,
        Some(YoleckExclusiveSystemDirective::Listening) => ActiveExclusiveSystemStatus::StillRunningSame,
        Some(YoleckExclusiveSystemDirective::Finished) => ActiveExclusiveSystemStatus::JustFinishedRunning,
    }
}

/// Whether the regular edit systems run this frame: only when no exclusive system was active
/// and none of the queued ones became active (`queue_exhausted`: the queue was emptied without
/// one staying active).
pub fn regular_edit_systems_run(status: ActiveExclusiveSystemStatus, queue_exhausted: bool) -> (r:
    bool)
    ensures
        r == (status == ActiveExclusiveSystemStatus::DidNotRun && queue_exhausted),
{
    match status {
        ActiveExclusiveSystemStatus::DidNotRun => queue_exhausted,
        _ => false,
    }
}

/// A change the app makes to the exclusive systems queue when an entity is created. What it
/// makes of the queue is `spec_modify`: the queue after the change depends on the modifier and
/// the queue before it alone.
pub trait YoleckQueueModifier<S> {
    spec fn spec_modify(&self, queue: Seq<S>) -> Seq<S>;

    fn modify(&self, queue: &mut YoleckExclusiveSystemsQueue<S>)
        ensures
            final(queue)@ == self.spec_modify(old(queue)@),
    ;
}

/// The queue after each of `modifiers` in turn changed `queue`.
pub open spec fn apply_modifiers<S, M: YoleckQueueModifier<S>>(
    modifiers: Seq<M>,
    queue: Seq<S>,
) -> Seq<S>
    decreases modifiers.len(),
{
    if modifiers.len() == 0 {
        queue
    } else {
        modifiers.last().spec_modify(apply_modifiers(modifiers.drop_last(), queue))
    }
}

/// The exclusive systems that will run automatically when a new entity is created, as the
/// changes each registration makes to an empty queue, in order.
pub struct YoleckEntityCreationExclusiveSystems<M> {
    modifiers: Vec<M>,
}

impl<M> View for YoleckEntityCreationExclusiveSystems<M> {
    type V = Seq<M>;

    closed spec fn view(&self) -> Seq<M> {
        self.modifiers@
    }
}

impl<M> YoleckEntityCreationExclusiveSystems<M> {
    pub fn new() -> (r: Self)
        ensures
            r@ == Seq::<M>::empty(),
    {
        YoleckEntityCreationExclusiveSystems { modifiers: Vec::new() }
    }

    /// Add a modification to the exclusive systems queue when new entities are created.
    pub fn on_entity_creation(&mut self, modifier: M)
        ensures
            final(self)@ == old(self)@.push(modifier),
    {
        self.modifiers.push(modifier);
    }

    /// The queue for a newly created entity: each registered modification applied in turn, in
    /// the order they were registered, to an empty queue. Without registered modifications the
    /// queue stays empty.
    pub fn create_queue<S>(&self) -> (r: YoleckExclusiveSystemsQueue<S>) where M: YoleckQueueModifier<S>
        ensures
            r@ == apply_modifiers(self@, Seq::<S>::empty()),
            self@.len() == 0 ==> r@ == Seq::<S>::empty(),
    {
        let mut queue = YoleckExclusiveSystemsQueue::new();
        let mut i: usize = 0;
        assert(self@.take(0) =~= Seq::<M>::empty());
        while i < self.modifiers.len()
            invariant
                i <= self.modifiers.len(),
                queue@ == apply_modifiers(self@.take(i as int), Seq::<S>::empty()),
            decreases self.modifiers.len() - i,
        {
            proof {
                assert(self@.take(i + 1).drop_last() =~= self@.take(i as int));
                assert(self@.take(i + 1).last() == self@[i as int]);
            }
            self.modifiers[i].modify(&mut queue);
            i = i + 1;
        }
        assert(self@.take(i as int) =~= self@);
        queue
    }
}

} // verus!
