//! The decoder: a cursor over the bytes of a display list that hands out
//! one top-level item at a time.

use crate::item::{parse_item, DecodeError, DisplayListItem};
use crate::list::DisplayList;
use crate::wire::{lemma_word_size, native_value, peek_usize, word_size, RED_ZONE_SIZE};
use vstd::prelude::*;

verus! {

/// What one step of the decoder finds at the front of a stream.
pub ghost struct Step {
    /// The item decoded, or `None` at the end of the stream.
    pub item: Option<DisplayListItem>,
    /// The body of the sublist that follows the item, if the item is a
    /// `List` marker: the count, the items and the closing padding.
    pub skip: Option<Seq<u8>>,
    /// The bytes that remain behind the item and its sublist.
    pub rest: Seq<u8>,
}

/// One step of the decoder on the bytes `s`.
///
/// Where no more bytes are left than the closing padding holds, the stream
/// ends. Otherwise one item is decoded. Behind a `List` marker lies the size
/// of the sublist's body: the body is cut off and the stream goes on behind it.
pub open spec fn step(s: Seq<u8>) -> Result<Step, DecodeError> {
    if s.len() <= RED_ZONE_SIZE {
        Ok(Step { item: None, skip: None, rest: s })
    } else {
        match parse_item(s) {
            Err(e) => Err(e),
            Ok((DisplayListItem::List, after)) => {
                let size = native_value(after.subrange(0, word_size() as int));
                let tail = after.subrange(word_size() as int, after.len() as int);
                if size > tail.len() {
                    Err(DecodeError::SizeOutOfBounds)
                } else {
                    Ok(
                        Step {
                            item: Some(DisplayListItem::List),
                            skip: Some(tail.subrange(0, size as int)),
                            rest: tail.subrange(size as int, tail.len() as int),
                        },
                    )
                }
            },
            Ok((item, after)) => Ok(Step { item: Some(item), skip: None, rest: after }),
        }
    }
}

/// The result of stepping through a stream to its end without opening any
/// sublist.
pub ghost struct Skim {
    /// The top-level items met, `List` markers among them, in order.
    pub items: Seq<DisplayListItem>,
    /// The bytes at which the stepping stopped.
    pub rest: Seq<u8>,
}

/// Stepping through the stream `s` to its end, every sublist skipped.
pub open spec fn skim(s: Seq<u8>) -> Result<Skim, DecodeError>
    decreases s.len(),
{
    match step(s) {
        Err(e) => Err(e),
        Ok(Step { item: None, skip: _, rest }) => Ok(Skim { items: Seq::empty(), rest }),
        Ok(Step { item: Some(item), skip: _, rest }) => match skim(rest) {
            Err(e) => Err(e),
            Ok(k) => Ok(Skim { items: seq![item] + k.items, rest: k.rest }),
        },
    }
}

/// A cursor over the part of a display list that is still to be decoded.
pub struct DisplayListIter<'a> {
    data: &'a [u8],
}

impl<'a> View for DisplayListIter<'a> {
    type V = Seq<u8>;

    /// The bytes still to be decoded.
    closed spec fn view(&self) -> Seq<u8> {
        self.data@
    }
}

impl DisplayList {
    /// A decoder placed at the first byte of the list.
    pub fn iter(&self) -> (it: DisplayListIter<'_>)
        ensures
            it@ == self@,
    {
        DisplayListIter::new(self.as_bytes())
    }
}

impl<'a> DisplayListIter<'a> {
    /// A decoder placed at the first byte of `data`.
    pub fn new(data: &'a [u8]) -> (it: Self)
        ensures
            it@ == data@,
    {
        DisplayListIter { data }
    }

    /// Decodes the next top-level item and moves behind it.
    ///
    /// `item` is the scratch value that the decoded item takes the place of;
    /// what it holds has no bearing on the result. At the end of the stream
    /// the result is `(None, None)` and the cursor stays where it is. Behind
    /// a `List` marker the body of the sublist is returned as well and the
    /// cursor moves behind the whole sublist. On an error the cursor does
    /// not move.
    pub fn next_payload_as_item<'b>(&'b mut self, item: DisplayListItem) -> (r: Result<
        (Option<DisplayListItem>, Option<&'a [u8]>),
        DecodeError,
    >)
        ensures
            match r {
                Ok((found, skip)) => step(old(self)@) == Ok::<_, DecodeError>(
                    Step {
                        item: found,
                        skip: match skip {
                            Some(body) => Some(body@),
                            None => None,
                        },
                        rest: final(self)@,
                    },
                ),
                Err(e) => step(old(self)@) == Err::<Step, _>(e) && final(self)@ == old(self)@,
            },
    {
        if self.data.len() <= DisplayListItem::max_size() {
            return Ok((None, None));
        }
        let mut item = item;
        let after = match DisplayListItem::peek_from(self.data) {
            Ok((found, after)) => {
                item = found;
                after
            },
            Err(e) => {
                return Err(e);
            },
        };
        if let DisplayListItem::List = item {
            proof {
                lemma_word_size();
            }
            let (size, tail) = peek_usize(after);
            if size > tail.len() {
                return Err(DecodeError::SizeOutOfBounds);
            }
            let (skip, rest) = tail.split_at(size);
            self.data = rest;
            return Ok((Some(item), Some(skip)));
        }
        self.data = after;
        Ok((Some(item), None))
    }
}

} // verus!
