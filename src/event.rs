//! Event dispatch: listeners registered per event kind, blocking ones
//! awaited in order with the last answer winning, lazy ones left to run.
use vstd::prelude::*;

verus! {

/// The answer of a listener to a cancellable event.
#[derive(Clone, Copy, Debug, PartialEq, Eq, Structural)]
pub enum EventResult {
    Continue,
    Stop,
}

/// The answer type of a fire-and-forget event: whatever a listener answers
/// carries no decision.
#[derive(Clone, Copy, Debug, PartialEq, Eq, Structural)]
pub enum NoopEventResult {
    Ignored,
}

/// An event whose listeners answer with `R`.
pub trait Event<R> {

}

/// The kinds of event that listeners can be registered for.
#[derive(Clone, Copy, Debug, PartialEq, Eq, Structural)]
pub enum EventKind {
    /// The listening socket is bound.
    ProxyFinishedInitialization,
    /// A player finished login start; `Stop` turns the player away.
    PlayerJoinedProxy,
    /// A player is about to be connected to a backend; `Stop` aborts that.
    PlayerJoinedServer,
    /// A player left.
    PlayerLeftProxy,
    /// A backend sent a frame toward a player; `Stop` holds it back.
    ServerSentPacket,
}

/// Fired once the listening socket is bound.
#[derive(Clone, Copy, Debug)]
pub struct ProxyFinishedInitialization;

impl Event<EventResult> for ProxyFinishedInitialization {

}

/// The answer of a dispatch: among the answers of the blocking listeners, in
/// registration order, the last that is not `None`.
pub open spec fn last_answer<R>(answers: Seq<Option<R>>) -> Option<R>
    decreases answers.len(),
{
    if answers.len() == 0 {
        None
    } else if answers.last() is Some {
        answers.last()
    } else {
        last_answer(answers.drop_last())
    }
}

/// The answers of the blocking listeners alone, given one answer for each
/// listener registered for an event and whether it is lazy.
pub open spec fn blocking_answers<R>(lazy: Seq<bool>, answers: Seq<Option<R>>) -> Seq<Option<R>>
    decreases lazy.len(),
{
    if lazy.len() == 0 || answers.len() == 0 {
        Seq::empty()
    } else if lazy.last() {
        blocking_answers(lazy.drop_last(), answers.drop_last())
    } else {
        blocking_answers(lazy.drop_last(), answers.drop_last()).push(answers.last())
    }
}

/// Combines the answers of the blocking listeners of one dispatch, given in
/// registration order: the last answer that is not `None` wins.
pub fn combine_answers<R: Copy>(answers: &Vec<Option<R>>) -> (r: Option<R>)
    ensures
        r == last_answer(answers@),
{
    let mut result: Option<R> = None;
    let mut i: usize = 0;
    while i < answers.len()
        invariant
            i <= answers@.len(),
            result == last_answer(answers@.subrange(0, i as int)),
        decreases answers.len() - i,
    {
        let ghost prefix = answers@.subrange(0, i as int + 1);
        assert(prefix.drop_last() =~= answers@.subrange(0, i as int));
        if let Some(a) = answers[i] {
            result = Some(a);
        }
        i += 1;
    }
    assert(answers@.subrange(0, i as int) =~= answers@);
    result
}

/// Which listeners are registered for which kind of event, in registration
/// order, and whether each is lazy. The handlers themselves are kept by the
/// caller, at the same index.
pub struct ListenerTable {
    pub entries: Vec<(EventKind, bool)>,
}

impl ListenerTable {
    /// A table with no listener.
    pub fn new() -> (r: ListenerTable)
        ensures
            r.entries@ == Seq::<(EventKind, bool)>::empty(),
    {
        ListenerTable { entries: Vec::new() }
    }

    /// Registers a listener for `kind` and gives its index.
    pub fn listen(&mut self, kind: EventKind, lazy: bool) -> (r: usize)
        requires
            old(self).entries@.len() < usize::MAX,
        ensures
            final(self).entries@ == old(self).entries@.push((kind, lazy)),
            r == old(self).entries@.len(),
    {
        let r = self.entries.len();
        self.entries.push((kind, lazy));
        r
    }

    /// The listeners to run for a dispatch of `kind`, in registration order:
    /// the index of each and whether it is lazy.
    pub fn listeners_for(&self, kind: EventKind) -> (r: Vec<(usize, bool)>)
        ensures
            r@ == listeners_of(self.entries@, kind),
    {
        let mut r: Vec<(usize, bool)> = Vec::new();
        let mut i: usize = 0;
        while i < self.entries.len()
            invariant
                i <= self.entries@.len(),
                r@ == listeners_of(self.entries@.subrange(0, i as int), kind),
            decreases self.entries.len() - i,
        {
            let ghost prefix = self.entries@.subrange(0, i as int + 1);
            assert(prefix.drop_last() =~= self.entries@.subrange(0, i as int));
            let (k, lazy) = self.entries[i];
            if k == kind {
                r.push((i, lazy));
            }
            i += 1;
        }
        assert(self.entries@.subrange(0, i as int) =~= self.entries@);
        r
    }
}

/// The index and laziness of each entry of `entries` registered for `kind`,
/// in order.
pub open spec fn listeners_of(entries: Seq<(EventKind, bool)>, kind: EventKind) -> Seq<
    (usize, bool),
>
    decreases entries.len(),
{
    if entries.len() == 0 {
        Seq::empty()
    } else if entries.last().0 == kind {
        listeners_of(entries.drop_last(), kind).push(
            ((entries.len() - 1) as usize, entries.last().1),
        )
    } else {
        listeners_of(entries.drop_last(), kind)
    }
}

/// Combines the answers of one dispatch, given for each listener in
/// registration order with whether it is lazy: the answers of lazy listeners
/// are discarded, and of the rest the last that is not `None` wins.
pub fn dispatch_answer<R: Copy>(lazy: &Vec<bool>, answers: &Vec<Option<R>>) -> (r: Option<R>)
    requires
        lazy@.len() == answers@.len(),
    ensures
        r == last_answer(blocking_answers(lazy@, answers@)),
{
    let mut blocking: Vec<Option<R>> = Vec::new();
    let mut i: usize = 0;
    while i < answers.len()
        invariant
            i <= answers@.len(),
            lazy@.len() == answers@.len(),
            blocking@ == blocking_answers(
                lazy@.subrange(0, i as int),
                answers@.subrange(0, i as int),
            ),
        decreases answers.len() - i,
    {
        let ghost lp = lazy@.subrange(0, i as int + 1);
        let ghost ap = answers@.subrange(0, i as int + 1);
        assert(lp.drop_last() =~= lazy@.subrange(0, i as int));
        assert(ap.drop_last() =~= answers@.subrange(0, i as int));
        if !lazy[i] {
            blocking.push(answers[i]);
        }
        i += 1;
    }
    assert(lazy@.subrange(0, i as int) =~= lazy@);
    assert(answers@.subrange(0, i as int) =~= answers@);
    combine_answers(&blocking)
}

/// The answer of a dispatch does not depend on what its lazy listeners
/// answer: two runs whose blocking listeners answer alike give the same
/// answer.
pub proof fn lemma_lazy_answers_discarded<R>(
    lazy: Seq<bool>,
    answers1: Seq<Option<R>>,
    answers2: Seq<Option<R>>,
)
    requires
        lazy.len() == answers1.len(),
        lazy.len() == answers2.len(),
        forall|i: int| 0 <= i < lazy.len() && !lazy[i] ==> answers1[i] == answers2[i],
    ensures
        blocking_answers(lazy, answers1) == blocking_answers(lazy, answers2),
        last_answer(blocking_answers(lazy, answers1)) == last_answer(
            blocking_answers(lazy, answers2),
        ),
    decreases lazy.len(),
{
    if lazy.len() > 0 {
        let l = lazy.drop_last();
        let a1 = answers1.drop_last();
        let a2 = answers2.drop_last();
        assert forall|i: int| 0 <= i < l.len() && !l[i] implies a1[i] == a2[i] by {
            assert(lazy[i] == l[i]);
        }
        lemma_lazy_answers_discarded(l, a1, a2);
    }
}

/// Later answers override earlier ones: appending an answer that is not
/// `None` makes it the answer, and appending `None` changes nothing.
pub proof fn lemma_last_answer_push<R>(answers: Seq<Option<R>>, a: Option<R>)
    ensures
        a is Some ==> last_answer(answers.push(a)) == a,
        a is None ==> last_answer(answers.push(a)) == last_answer(answers),
{
    assert(answers.push(a).drop_last() =~= answers);
}

} // verus!
