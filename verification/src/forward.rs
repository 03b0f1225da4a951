//! Handing events on.
//!
//! A producer offers its events to a queue that may be full. It never waits: an event that finds
//! no room is dropped, and a notice of that is the next thing that the consumer gets.
//!
//! Where a receiver blocks and its consumer does not, a worker stands between them. It receives
//! in turns, so that it sees a request to stop even when nothing arrives.

use crate::error::Result;
use vstd::prelude::*;

verus! {

// ---- producers ----

/// What a queue answers to something that is offered to it.
#[derive(Debug, Clone, Copy, PartialEq, Eq, Structural)]
pub enum Answer {
    /// It took it.
    Taken,
    /// It has no room.
    Full,
    /// Its consumer is gone.
    Gone,
}

/// What a producer does next with an event.
#[derive(Debug, Clone, Copy, PartialEq, Eq, Structural)]
pub enum SendStep {
    /// Offer the notice that events were dropped.
    OfferNotice,
    /// Offer the event.
    OfferEvent,
    /// Nothing: the event was taken or dropped.
    Done,
    /// Nothing: there is no consumer any more.
    NoConsumer,
}

/// Where a producer stands.
#[derive(Debug, Clone, Copy, PartialEq, Eq, Structural)]
pub struct Progress {
    /// Whether an event was dropped since the last notice.
    pub overflowed: bool,
    /// What it does next.
    pub step: SendStep,
}

/// What a producer does first with an event: a notice that is due comes before it.
pub open spec fn first_step(overflowed: bool) -> SendStep {
    if overflowed {
        SendStep::OfferNotice
    } else {
        SendStep::OfferEvent
    }
}

/// Where a producer stands when its notice was answered. Without room for the notice there is
/// none for the event.
pub open spec fn noticed(answer: Answer) -> Progress {
    match answer {
        Answer::Taken => Progress { overflowed: false, step: SendStep::OfferEvent },
        Answer::Full => Progress { overflowed: true, step: SendStep::Done },
        Answer::Gone => Progress { overflowed: true, step: SendStep::NoConsumer },
    }
}

/// Where a producer stands when its event was answered.
pub open spec fn sent(answer: Answer) -> Progress {
    match answer {
        Answer::Taken => Progress { overflowed: false, step: SendStep::Done },
        Answer::Full => Progress { overflowed: true, step: SendStep::Done },
        Answer::Gone => Progress { overflowed: false, step: SendStep::NoConsumer },
    }
}

/// Decides what a producer does first with an event.
pub fn start_sending(overflowed: bool) -> (step: SendStep)
    ensures
        step == first_step(overflowed),
        overflowed <==> step == SendStep::OfferNotice,
        !overflowed <==> step == SendStep::OfferEvent,
{
    if overflowed {
        SendStep::OfferNotice
    } else {
        SendStep::OfferEvent
    }
}

/// Decides how a producer goes on when its notice was answered.
pub fn after_notice(answer: Answer) -> (progress: Progress)
    ensures
        progress == noticed(answer),
        progress.step == SendStep::OfferEvent <==> answer == Answer::Taken,
        progress.step == SendStep::NoConsumer <==> answer == Answer::Gone,
        progress.overflowed <==> answer != Answer::Taken,
{
    match answer {
        Answer::Taken => Progress { overflowed: false, step: SendStep::OfferEvent },
        Answer::Full => Progress { overflowed: true, step: SendStep::Done },
        Answer::Gone => Progress { overflowed: true, step: SendStep::NoConsumer },
    }
}

/// Decides how a producer goes on when its event was answered.
pub fn after_event(answer: Answer) -> (progress: Progress)
    ensures
        progress == sent(answer),
        progress.step == SendStep::NoConsumer <==> answer == Answer::Gone,
        progress.step == SendStep::Done <==> answer != Answer::Gone,
        progress.overflowed <==> answer == Answer::Full,
{
    match answer {
        Answer::Taken => Progress { overflowed: false, step: SendStep::Done },
        Answer::Full => Progress { overflowed: true, step: SendStep::Done },
        Answer::Gone => Progress { overflowed: false, step: SendStep::NoConsumer },
    }
}

// ---- workers ----

/// How many milliseconds one turn of receiving lasts at most.
pub const TURN_MILLISECONDS: u64 = 50;

/// What a turn of receiving leads to.
#[derive(Debug)]
pub struct ForwardStep<E> {
    /// What to hand to the consumer, if anything.
    pub item: Option<Result<E>>,
    /// Whether this is the last item.
    pub last: bool,
}

/// Decides what a turn of receiving leads to: an event is handed on, a turn without one is
/// followed by another, and an error is handed on as the last item.
pub fn forward_step<E>(received: Result<Option<E>>) -> (step: ForwardStep<E>)
    ensures
        match received {
            Ok(Some(event)) => step.item == Some(Ok::<E, crate::error::Error>(event))
                && !step.last,
            Ok(None) => step.item is None && !step.last,
            Err(error) => step.item == Some(Err::<E, crate::error::Error>(error)) && step.last,
        },
{
    match received {
        Ok(Some(event)) => ForwardStep { item: Some(Ok(event)), last: false },
        Ok(None) => ForwardStep { item: None, last: false },
        Err(error) => ForwardStep { item: Some(Err(error)), last: true },
    }
}

/// Whether the worker goes on after a turn: not when it was asked to stop, not after the last
/// item, and not when the consumer did not take what it was handed.
pub fn goes_on(stop_requested: bool, last: bool, taken: bool) -> (goes_on: bool)
    ensures
        goes_on == (!stop_requested && !last && taken),
{
    !stop_requested && !last && taken
}

// ---- laws ----

/// What becomes of the events that a producer sends, in order.
pub enum Mark {
    /// The consumer gets a notice.
    Notice,
    /// The consumer gets an event.
    Event,
    /// An event is dropped.
    Dropped,
}

/// What one event leads to, given the answers to a notice and to an event.
pub open spec fn marks_of_one(overflowed: bool, notice: Answer, event: Answer) -> Seq<Mark> {
    let offered = match event {
        Answer::Taken => seq![Mark::Event],
        Answer::Full => seq![Mark::Dropped],
        Answer::Gone => Seq::empty(),
    };
    if first_step(overflowed) == SendStep::OfferEvent {
        offered
    } else {
        match noticed(notice).step {
            SendStep::OfferEvent => seq![Mark::Notice] + offered,
            SendStep::Done => seq![Mark::Dropped],
            _ => Seq::empty(),
        }
    }
}

/// Whether a notice is due after one more event.
pub open spec fn due_after_one(overflowed: bool, notice: Answer, event: Answer) -> bool {
    if first_step(overflowed) == SendStep::OfferEvent || noticed(notice).step
        == SendStep::OfferEvent {
        sent(event).overflowed
    } else {
        noticed(notice).overflowed
    }
}

/// Whether a notice is due after some events, given the answers to each.
pub open spec fn due_after(answers: Seq<(Answer, Answer)>) -> bool
    decreases answers.len(),
{
    if answers.len() == 0 {
        false
    } else {
        due_after_one(due_after(answers.drop_last()), answers.last().0, answers.last().1)
    }
}

/// What some events lead to, given the answers to each.
pub open spec fn marks_of(answers: Seq<(Answer, Answer)>) -> Seq<Mark>
    decreases answers.len(),
{
    if answers.len() == 0 {
        Seq::empty()
    } else {
        marks_of(answers.drop_last()) + marks_of_one(
            due_after(answers.drop_last()),
            answers.last().0,
            answers.last().1,
        )
    }
}

/// Whether the consumer is told between two positions.
pub open spec fn told_between(marks: Seq<Mark>, i: int, j: int) -> bool {
    exists|k: int| i < k < j && (#[trigger] marks[k]) is Notice
}

/// No event is lost in silence: whenever one is dropped, the consumer gets a notice before it
/// gets any later event.
pub proof fn dropped_events_are_announced(answers: Seq<(Answer, Answer)>, i: int, j: int)
    requires
        0 <= i < j < marks_of(answers).len(),
        marks_of(answers)[i] is Dropped,
        marks_of(answers)[j] is Event,
    ensures
        told_between(marks_of(answers), i, j),
    decreases answers.len(),
{
    let earlier = answers.drop_last();
    let before = marks_of(earlier);
    let last = answers.last();
    let one = marks_of_one(due_after(earlier), last.0, last.1);
    let marks = marks_of(answers);
    assert(marks == before + one);
    if j < before.len() {
        dropped_events_are_announced(earlier, i, j);
        let k = choose|k: int| i < k < j && (#[trigger] before[k]) is Notice;
        assert(marks[k] is Notice);
    } else if i < before.len() {
        if told_between(before, i, before.len() as int) {
            let k = choose|k: int| i < k < before.len() && (#[trigger] before[k]) is Notice;
            assert(marks[k] is Notice);
        } else {
            lemma_notice_stays_due(earlier, i);
            assert(one[0] is Notice);
            assert(marks[before.len() as int] is Notice);
        }
    }
}

/// As long as the consumer was not told of a dropped event and is there, a notice is due.
proof fn lemma_notice_stays_due(answers: Seq<(Answer, Answer)>, i: int)
    requires
        0 <= i < marks_of(answers).len(),
        marks_of(answers)[i] is Dropped,
        !told_between(marks_of(answers), i, marks_of(answers).len() as int),
    ensures
        due_after(answers),
    decreases answers.len(),
{
    let earlier = answers.drop_last();
    let before = marks_of(earlier);
    let last = answers.last();
    let one = marks_of_one(due_after(earlier), last.0, last.1);
    let marks = marks_of(answers);
    assert(marks == before + one);
    if i < before.len() {
        assert forall|k: int| i < k < before.len() implies !((#[trigger] before[k]) is Notice) by {
            assert(marks[k] == before[k]);
        }
        lemma_notice_stays_due(earlier, i);
        if noticed(last.0).step == SendStep::OfferEvent {
            assert(marks[before.len() as int] is Notice);
        }
    }
}

/// A producer that dropped an event offers the notice before anything else, and goes on to the
/// event only when the notice was taken. An event that does not fit is dropped and remembered,
/// and a consumer that is gone ends the sending.
pub proof fn overflow_is_remembered_until_it_is_told(overflowed: bool, answer: Answer)
    ensures
        first_step(overflowed) == SendStep::OfferNotice <==> overflowed,
        first_step(overflowed) == SendStep::OfferEvent <==> !overflowed,
        noticed(answer).step == SendStep::OfferEvent <==> answer == Answer::Taken,
        noticed(answer).step == SendStep::NoConsumer <==> answer == Answer::Gone,
        noticed(answer).step == SendStep::Done <==> answer == Answer::Full,
        noticed(answer).overflowed <==> answer != Answer::Taken,
        sent(answer).step == SendStep::NoConsumer <==> answer == Answer::Gone,
        sent(answer).step == SendStep::Done <==> answer != Answer::Gone,
        sent(answer).overflowed <==> answer == Answer::Full,
{
}

/// A turn of receiving lasts fifty milliseconds.
pub proof fn turns_have_their_length()
    ensures
        TURN_MILLISECONDS == 50,
{
}

} // verus!
