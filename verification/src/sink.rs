//! A node that hears one input: it numbers its messages until the input ends.
use vstd::prelude::*;

verus! {

/// What a sink hears.
#[derive(Debug)]
pub enum SinkEvent<T> {
    Input(T),
    Closed,
    Stop,
    Other,
}

/// What a sink calls for. A message comes with its number.
#[derive(Debug)]
pub enum SinkAction<T> {
    Hear(usize, T),
    Finish,
    Wait,
}

/// A sink, and how many messages it has heard.
#[derive(Debug)]
pub struct Sink {
    pub heard: usize,
}

/// What an event calls for once so many messages have been heard.
pub open spec fn sink_action<T>(heard: usize, event: SinkEvent<T>) -> SinkAction<T> {
    match event {
        SinkEvent::Input(message) => SinkAction::Hear(heard, message),
        SinkEvent::Closed | SinkEvent::Stop => SinkAction::Finish,
        SinkEvent::Other => SinkAction::Wait,
    }
}

/// How many messages have been heard after an action.
pub open spec fn heard_after<T>(heard: usize, action: SinkAction<T>) -> usize {
    match action {
        SinkAction::Hear(_, _) => (heard + 1) as usize,
        SinkAction::Finish | SinkAction::Wait => heard,
    }
}

/// What a sink calls for while it hears these events, up to the one that ends it.
pub open spec fn sink_actions<T>(heard: usize, events: Seq<SinkEvent<T>>) -> Seq<SinkAction<T>>
    decreases events.len(),
{
    if events.len() == 0 {
        Seq::empty()
    } else {
        let action = sink_action(heard, events[0]);
        if action is Finish {
            seq![action]
        } else {
            seq![action] + sink_actions(heard_after(heard, action), events.drop_first())
        }
    }
}

/// How many of the first actions hear a message.
pub open spec fn count_heard<T>(actions: Seq<SinkAction<T>>, count: int) -> int
    decreases count,
{
    if count <= 0 {
        0
    } else {
        count_heard(actions, count - 1) + if actions[count - 1] is Hear {
            1int
        } else {
            0
        }
    }
}

impl Sink {
    /// A sink that has heard nothing.
    pub fn new() -> (sink: Sink)
        ensures
            sink.heard == 0,
    {
        Sink { heard: 0 }
    }

    /// Hears an event. A message is heard under the next number; the end of the
    /// input, or of the dataflow, ends the sink.
    pub fn hear<T>(&mut self, event: SinkEvent<T>) -> (action: SinkAction<T>)
        requires
            event is Input ==> old(self).heard < usize::MAX,
        ensures
            action == sink_action(old(self).heard, event),
            final(self).heard == heard_after(old(self).heard, action),
    {
        match event {
            SinkEvent::Input(message) => {
                let number: usize = self.heard;
                self.heard = number + 1;
                SinkAction::Hear(number, message)
            },
            SinkEvent::Closed | SinkEvent::Stop => SinkAction::Finish,
            SinkEvent::Other => SinkAction::Wait,
        }
    }
}

proof fn lemma_count_heard<T>(actions: Seq<SinkAction<T>>, count: int)
    requires
        0 <= count < actions.len(),
    ensures
        count_heard(actions, count + 1) == count_heard(actions.drop_first(), count) + if actions[0] is Hear {
            1int
        } else {
            0
        },
    decreases count,
{
    reveal_with_fuel(count_heard, 2);
    if count > 0 {
        lemma_count_heard(actions, count - 1);
        assert(actions.drop_first()[count - 1] == actions[count]);
    }
}

proof fn lemma_numbers_follow<T>(heard: usize, events: Seq<SinkEvent<T>>, at: int)
    requires
        heard + events.len() <= usize::MAX,
        0 <= at < sink_actions(heard, events).len(),
    ensures
        sink_actions(heard, events)[at] is Hear ==> sink_actions(heard, events)[at]->Hear_0 == heard
            + count_heard(sink_actions(heard, events), at),
    decreases events.len(),
{
    if at > 0 {
        let actions = sink_actions(heard, events);
        let next = heard_after(heard, actions[0]);
        let rest = events.drop_first();
        assert(actions.drop_first() == sink_actions(next, rest));
        assert(actions[at] == sink_actions(next, rest)[at - 1]);
        lemma_numbers_follow(next, rest, at - 1);
        lemma_count_heard(actions, at - 1);
    }
}

/// A sink numbers the messages that it hears from zero on, without a gap,
/// whatever else it hears between them.
pub proof fn law_messages_are_numbered_in_turn<T>(events: Seq<SinkEvent<T>>, at: int)
    requires
        events.len() <= usize::MAX,
        0 <= at < sink_actions(0, events).len(),
        sink_actions(0, events)[at] is Hear,
    ensures
        sink_actions(0, events)[at]->Hear_0 == count_heard(sink_actions(0, events), at),
{
    lemma_numbers_follow(0, events, at);
}

/// A sink hears every message that comes before the first end, and none behind
/// it.
pub proof fn law_messages_are_heard_until_the_end<T>(heard: usize, events: Seq<SinkEvent<T>>)
    ensures
        sink_actions(heard, events).len() <= events.len(),
        forall|i: int|
            #![trigger sink_actions(heard, events)[i]]
            0 <= i < sink_actions(heard, events).len() ==> match events[i] {
                SinkEvent::Input(message) => {
                    &&& sink_actions(heard, events)[i] is Hear
                    &&& sink_actions(heard, events)[i]->Hear_1 == message
                },
                SinkEvent::Closed | SinkEvent::Stop => i == sink_actions(heard, events).len() - 1,
                SinkEvent::Other => sink_actions(heard, events)[i] is Wait,
            },
        sink_actions(heard, events).len() < events.len() ==> {
            &&& sink_actions(heard, events).len() > 0
            &&& sink_actions(heard, events).last() is Finish
        },
    decreases events.len(),
{
    if events.len() > 0 {
        let actions = sink_actions(heard, events);
        let next = heard_after(heard, actions[0]);
        let rest = events.drop_first();
        if !(actions[0] is Finish) {
            law_messages_are_heard_until_the_end(next, rest);
            assert(actions.len() == 1 + sink_actions(next, rest).len());
            assert forall|i: int| #![trigger actions[i]] 0 <= i < actions.len() implies match events[i] {
                SinkEvent::Input(message) => {
                    &&& actions[i] is Hear
                    &&& actions[i]->Hear_1 == message
                },
                SinkEvent::Closed | SinkEvent::Stop => i == actions.len() - 1,
                SinkEvent::Other => actions[i] is Wait,
            } by {
                if i > 0 {
                    assert(actions[i] == sink_actions(next, rest)[i - 1]);
                    assert(events[i] == rest[i - 1]);
                }
            }
        }
    }
}

} // verus!
