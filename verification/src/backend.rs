//! The consumer: a full walk over a display list that observes every
//! top-level item and every item of every sublist.

use crate::item::{parse_item, DecodeError, DisplayListItem};
use crate::iter::{step, DisplayListIter, Step};
use crate::list::DisplayList;
use crate::wire::{native_value, peek_usize, word_size};
use vstd::prelude::*;

verus! {

/// One observation made while walking a display list.
#[derive(Clone, Copy, Debug, PartialEq, Eq)]
pub enum Event {
    /// A top-level item; a `List` marker is one too.
    Item(DisplayListItem),
    /// An item of the sublist that the last `List` marker opened.
    SublistItem(DisplayListItem),
}

/// What decoding `n` items in a row from the front of `s` gives.
pub open spec fn parse_items(s: Seq<u8>, n: nat) -> Result<Seq<DisplayListItem>, DecodeError>
    decreases n,
{
    if n == 0 {
        Ok(Seq::empty())
    } else {
        match parse_item(s) {
            Err(e) => Err(e),
            Ok((item, rest)) => match parse_items(rest, (n - 1) as nat) {
                Err(e) => Err(e),
                Ok(items) => Ok(seq![item] + items),
            },
        }
    }
}

/// The items of a sublist, given the body that a step of the decoder cut
/// off: the count is read first, then as many items as it says. An empty
/// body holds no items.
pub open spec fn parse_sublist(body: Seq<u8>) -> Result<Seq<DisplayListItem>, DecodeError> {
    if body.len() == 0 {
        Ok(Seq::empty())
    } else if body.len() <= word_size() {
        Err(DecodeError::UnexpectedEnd)
    } else {
        parse_items(
            body.subrange(word_size() as int, body.len() as int),
            native_value(body.subrange(0, word_size() as int)),
        )
    }
}

/// The observations that the items of a sublist give rise to.
pub open spec fn sublist_events(items: Seq<DisplayListItem>) -> Seq<Event> {
    items.map_values(|item: DisplayListItem| Event::SublistItem(item))
}

/// The top-level items among the observations `events`, in order.
pub open spec fn top_level(events: Seq<Event>) -> Seq<DisplayListItem>
    decreases events.len(),
{
    if events.len() == 0 {
        Seq::empty()
    } else {
        match events[0] {
            Event::Item(item) => seq![item] + top_level(events.drop_first()),
            Event::SublistItem(_) => top_level(events.drop_first()),
        }
    }
}

/// The result of walking a stream to its end.
pub ghost struct Walk {
    /// What was observed, in order.
    pub events: Seq<Event>,
    /// The bytes at which the walk stopped.
    pub rest: Seq<u8>,
}

/// A full walk over the stream `s`: every top-level item is observed, and
/// behind each `List` marker the items of its sublist.
pub open spec fn walk(s: Seq<u8>) -> Result<Walk, DecodeError>
    decreases s.len(),
{
    match step(s) {
        Err(e) => Err(e),
        Ok(Step { item: None, skip: _, rest }) => Ok(Walk { events: Seq::empty(), rest }),
        Ok(Step { item: Some(item), skip, rest }) => {
            let nested = match skip {
                None => Ok(Seq::empty()),
                Some(body) => parse_sublist(body),
            };
            match nested {
                Err(e) => Err(e),
                Ok(items) => match walk(rest) {
                    Err(e) => Err(e),
                    Ok(w) => Ok(
                        Walk {
                            events: seq![Event::Item(item)] + sublist_events(items) + w.events,
                            rest: w.rest,
                        },
                    ),
                },
            }
        },
    }
}

/// Decodes the items of a sublist from the body that the decoder cut off
/// behind a `List` marker: the count, then as many items as it says.
pub fn sublist_items(body: &[u8]) -> (r: Result<Vec<DisplayListItem>, DecodeError>)
    ensures
        match r {
            Ok(items) => parse_sublist(body@) == Ok::<_, DecodeError>(items@),
            Err(e) => parse_sublist(body@) == Err::<Seq<DisplayListItem>, _>(e),
        },
{
    let mut items: Vec<DisplayListItem> = Vec::new();
    if body.is_empty() {
        return Ok(items);
    }
    if body.len() <= core::mem::size_of::<usize>() {
        return Err(DecodeError::UnexpectedEnd);
    }
    let (count, start) = peek_usize(body);
    let mut data = start;
    let mut size = count;
    while size > 0
        invariant
            parse_sublist(body@) == parse_items(start@, count as nat),
            parse_items(start@, count as nat) == match parse_items(data@, size as nat) {
                Ok(more) => Ok::<_, DecodeError>(items@ + more),
                Err(e) => Err(e),
            },
        decreases size,
    {
        size -= 1;
        match DisplayListItem::peek_from(data) {
            Ok((item, rest)) => {
                proof {
                    if let Ok(more) = parse_items(rest@, size as nat) {
                        assert(items@ + (seq![item] + more) =~= items@.push(item) + more);
                    }
                }
                items.push(item);
                data = rest;
            },
            Err(e) => {
                return Err(e);
            },
        }
    }
    proof {
        assert(items@ + Seq::<DisplayListItem>::empty() =~= items@);
    }
    Ok(items)
}

/// What the producer sends to the worker.
pub enum Message {
    /// A sealed display list to decode; the worker owns it from here on.
    SetDisplayList(DisplayList),
    /// No more lists will come.
    Close,
}

/// What the worker does in answer to one message.
#[derive(Debug, PartialEq, Eq)]
pub enum Outcome {
    /// The list was decoded to its end; these are the observations. The
    /// completion signal is due before the next message is taken.
    Done(Vec<Event>),
    /// The list could not be decoded. No completion signal is due; the
    /// worker has stopped.
    Failed(DecodeError),
    /// Nothing was decoded: the worker stops, or had stopped before.
    Closed,
}

/// The worker that decodes the display lists it is sent, one message at a
/// time, until it is told to close or meets a list that it cannot decode.
pub struct Backend {
    running: bool,
}

impl Backend {
    /// Whether the worker still takes messages.
    pub closed spec fn running(&self) -> bool {
        self.running
    }

    /// A worker that waits for its first message.
    pub fn new() -> (backend: Self)
        ensures
            backend.running(),
    {
        Backend { running: true }
    }

    /// Whether the worker still takes messages.
    pub fn is_running(&self) -> (b: bool)
        ensures
            b == self.running(),
    {
        self.running
    }

    /// Takes one message. A running worker decodes the list it is sent to
    /// its end and stays running if that succeeds; it stops on `Close` and
    /// on a list that cannot be decoded. A worker that has stopped decodes
    /// nothing.
    pub fn handle(&mut self, message: Message) -> (outcome: Outcome)
        ensures
            match outcome {
                Outcome::Done(events) => {
                    &&& old(self).running()
                    &&& final(self).running()
                    &&& message matches Message::SetDisplayList(list)
                    &&& walk(list@) matches Ok(w)
                    &&& events@ == w.events
                },
                Outcome::Failed(e) => {
                    &&& old(self).running()
                    &&& !final(self).running()
                    &&& message matches Message::SetDisplayList(list)
                    &&& walk(list@) == Err::<Walk, _>(e)
                },
                Outcome::Closed => {
                    &&& !final(self).running()
                    &&& !old(self).running() || message is Close
                },
            },
    {
        if !self.running {
            return Outcome::Closed;
        }
        match message {
            Message::SetDisplayList(list) => {
                match self.process(list.iter()) {
                    Ok(events) => Outcome::Done(events),
                    Err(e) => {
                        self.running = false;
                        Outcome::Failed(e)
                    },
                }
            },
            Message::Close => {
                self.running = false;
                Outcome::Closed
            },
        }
    }

    /// Walks a display list from the position of `iter` to its end and
    /// returns what it observed: each top-level item, and behind each `List`
    /// marker the items of its sublist. A list that cannot be decoded to the
    /// end gives the first error and no observations.
    pub fn process(&self, iter: DisplayListIter) -> (r: Result<Vec<Event>, DecodeError>)
        ensures
            match r {
                Ok(events) => walk(iter@) matches Ok(w) && w.events == events@,
                Err(e) => walk(iter@) == Err::<Walk, _>(e),
            },
    {
        let mut cursor = iter;
        let mut events: Vec<Event> = Vec::new();
        loop
            invariant
                walk(iter@) == match walk(cursor@) {
                    Ok(w) => Ok::<_, DecodeError>(Walk { events: events@ + w.events, rest: w.rest }),
                    Err(e) => Err(e),
                },
            decreases cursor@.len(),
        {
            let ghost seen = events@;
            match cursor.next_payload_as_item(DisplayListItem::Nil) {
                Err(e) => {
                    return Err(e);
                },
                Ok((None, _)) => {
                    proof {
                        assert(events@ + Seq::<Event>::empty() =~= events@);
                    }
                    return Ok(events);
                },
                Ok((Some(item), skip)) => {
                    events.push(Event::Item(item));
                    let ghost mut nested = Seq::<DisplayListItem>::empty();
                    if let Some(body) = skip {
                        let items = match sublist_items(body) {
                            Ok(items) => items,
                            Err(e) => {
                                return Err(e);
                            },
                        };
                        proof {
                            nested = items@;
                        }
                        let mut i: usize = 0;
                        while i < items.len()
                            invariant
                                i <= items.len(),
                                events@ == seen.push(Event::Item(item)) + sublist_events(
                                    items@.take(i as int),
                                ),
                            decreases items.len() - i,
                        {
                            events.push(Event::SublistItem(items[i]));
                            proof {
                                assert(sublist_events(items@.take(i as int)).push(
                                    Event::SublistItem(items@[i as int]),
                                ) =~= sublist_events(items@.take(i + 1)));
                            }
                            i += 1;
                        }
                        proof {
                            assert(items@.take(items.len() as int) =~= items@);
                        }
                    }
                    proof {
                        assert(events@ =~= seen + (seq![Event::Item(item)] + sublist_events(nested)));
                        if let Ok(w) = walk(cursor@) {
                            assert(seen + (seq![Event::Item(item)] + sublist_events(nested) + w.events)
                                =~= events@ + w.events);
                        }
                    }
                },
            }
        }
    }
}

} // verus!
