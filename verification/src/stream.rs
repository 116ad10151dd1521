//! The shape of a whole stream, and what holds of encoding one and walking
//! over it again.

use crate::backend::{
    parse_items, parse_sublist, sublist_events, top_level, walk, Event, Walk,
};
use crate::item::{
    item_bytes, item_size, lemma_item_size, lemma_parse_item_bytes, parse_item, DecodeError,
    DisplayListItem,
};
use crate::iter::{skim, step, Skim, Step};
use crate::list::{
    items_bytes, lemma_sublist_body_len, sublist_body, sublist_bytes, sublist_size,
};
use crate::wire::{
    lemma_native_bytes_len, lemma_word_holds, lemma_word_size, native_bytes, native_value,
    red_zone_bytes, word_size, RED_ZONE_SIZE,
};
use vstd::prelude::*;

verus! {

/// What a builder is asked to append: a single item, or a sublist of items.
pub ghost enum Entry {
    Item(DisplayListItem),
    Sublist(Seq<DisplayListItem>),
}

impl Entry {
    /// Whether the entry can be appended and found again: a single item is
    /// not the `List` marker, which only a sublist may put into a stream, and
    /// the size of a sublist's body fits a machine word.
    pub open spec fn encodable(self) -> bool {
        match self {
            Entry::Item(item) => item != DisplayListItem::List,
            Entry::Sublist(items) => sublist_size(items) <= usize::MAX,
        }
    }

    /// The bytes that appending the entry adds to a list.
    pub open spec fn bytes(self) -> Seq<u8> {
        match self {
            Entry::Item(item) => item_bytes(item),
            Entry::Sublist(items) => item_bytes(DisplayListItem::List) + sublist_bytes(items),
        }
    }

    /// What a full walk observes of the entry.
    pub open spec fn events(self) -> Seq<Event> {
        match self {
            Entry::Item(item) => seq![Event::Item(item)],
            Entry::Sublist(items) => seq![Event::Item(DisplayListItem::List)] + sublist_events(
                items,
            ),
        }
    }
}

/// The bytes that appending `entries` in order adds to a list.
pub open spec fn entries_bytes(entries: Seq<Entry>) -> Seq<u8>
    decreases entries.len(),
{
    if entries.len() == 0 {
        Seq::empty()
    } else {
        entries[0].bytes() + entries_bytes(entries.drop_first())
    }
}

/// What a full walk observes of `entries`.
pub open spec fn entries_events(entries: Seq<Entry>) -> Seq<Event>
    decreases entries.len(),
{
    if entries.len() == 0 {
        Seq::empty()
    } else {
        entries[0].events() + entries_events(entries.drop_first())
    }
}

/// The bytes of a sealed list that holds `entries`.
pub open spec fn stream_bytes(entries: Seq<Entry>) -> Seq<u8> {
    entries_bytes(entries) + red_zone_bytes()
}

/// Items that stand in front of a closing padding are decoded one by one,
/// as many as were encoded.
pub proof fn lemma_parse_items_bytes(items: Seq<DisplayListItem>, tail: Seq<u8>)
    requires
        tail.len() >= RED_ZONE_SIZE,
    ensures
        parse_items(items_bytes(items) + tail, items.len()) == Ok::<_, DecodeError>(items),
    decreases items.len(),
{
    if items.len() > 0 {
        let rest = items.drop_first();
        let after = items_bytes(rest) + tail;
        lemma_item_size(items[0]);
        assert(items_bytes(items) + tail =~= item_bytes(items[0]) + after);
        lemma_parse_item_bytes(items[0], after);
        lemma_parse_items_bytes(rest, tail);
        assert(seq![items[0]] + rest =~= items);
        assert(rest.len() == (items.len() - 1) as nat);
    } else {
        assert(items =~= Seq::<DisplayListItem>::empty());
    }
}

/// The size that a sublist block records is the number of bytes between the
/// size field and the item that follows the sublist: skipping that many
/// bytes behind the size field lands on the next top-level item. The step of
/// the decoder that meets the marker cuts off exactly the body of the
/// sublist and leaves exactly what stood behind it.
pub proof fn law_sublist_is_skipped(items: Seq<DisplayListItem>, tail: Seq<u8>)
    requires
        sublist_size(items) <= usize::MAX,
    ensures
        native_value(sublist_bytes(items).subrange(0, word_size() as int)) == sublist_size(items),
        sublist_bytes(items).subrange(
            word_size() as int,
            (word_size() + sublist_size(items)) as int,
        ) == sublist_body(items),
        step(Entry::Sublist(items).bytes() + tail) == Ok::<_, DecodeError>(
            Step { item: Some(DisplayListItem::List), skip: Some(sublist_body(items)), rest: tail },
        ),
{
    let size = sublist_size(items);
    let block = sublist_bytes(items);
    let s = Entry::Sublist(items).bytes() + tail;
    let after = block + tail;
    lemma_word_size();
    lemma_word_holds(size);
    lemma_sublist_body_len(items);
    lemma_native_bytes_len(size, word_size());
    assert(block.subrange(0, word_size() as int) =~= native_bytes(size, word_size()));
    assert(block.subrange(word_size() as int, (word_size() + size) as int) =~= sublist_body(
        items,
    ));
    assert(s =~= item_bytes(DisplayListItem::List) + after);
    lemma_parse_item_bytes(DisplayListItem::List, after);
    assert(after.subrange(0, word_size() as int) =~= native_bytes(size, word_size()));
    let behind = after.subrange(word_size() as int, after.len() as int);
    assert(behind =~= sublist_body(items) + tail);
    assert(behind.subrange(0, size as int) =~= sublist_body(items));
    assert(behind.subrange(size as int, behind.len() as int) =~= tail);
}

/// The size that a sublist block records is the size of the count, plus the
/// sizes of the items, plus the size of the closing padding; for items of one
/// size that is the count times that size between the two.
pub proof fn law_sublist_size(items: Seq<DisplayListItem>, size: nat)
    requires
        forall|i: int| 0 <= i < items.len() ==> item_size(#[trigger] items[i]) == size,
    ensures
        items_bytes(items).len() == items.len() * size,
        sublist_size(items) == word_size() + items.len() * size + RED_ZONE_SIZE,
        red_zone_bytes().len() == RED_ZONE_SIZE,
    decreases items.len(),
{
    if items.len() > 0 {
        let rest = items.drop_first();
        lemma_item_size(items[0]);
        law_sublist_size(rest, size);
        assert(items.len() * size == size + rest.len() * size) by (nonlinear_arith)
            requires
                items.len() == rest.len() + 1,
        ;
    }
}

/// Decoding the body of a sublist gives its items back.
pub proof fn lemma_parse_sublist_body(items: Seq<DisplayListItem>)
    requires
        sublist_size(items) <= usize::MAX,
    ensures
        parse_sublist(sublist_body(items)) == Ok::<_, DecodeError>(items),
{
    let body = sublist_body(items);
    let count = native_bytes(items.len(), word_size());
    lemma_word_size();
    lemma_sublist_body_len(items);
    lemma_native_bytes_len(items.len(), word_size());
    lemma_items_bytes_len(items);
    lemma_word_holds(items.len());
    assert(body.subrange(0, word_size() as int) =~= count);
    assert(body.subrange(word_size() as int, body.len() as int) =~= items_bytes(items)
        + red_zone_bytes());
    lemma_parse_items_bytes(items, red_zone_bytes());
}

/// Every item takes at least one byte.
pub proof fn lemma_items_bytes_len(items: Seq<DisplayListItem>)
    ensures
        items.len() <= items_bytes(items).len(),
    decreases items.len(),
{
    if items.len() > 0 {
        lemma_item_size(items[0]);
        lemma_items_bytes_len(items.drop_first());
    }
}

/// A sealed list into which nothing was appended holds no items: the walk
/// over it observes nothing and stops where it began.
pub proof fn law_empty_stream()
    ensures
        stream_bytes(Seq::empty()) == red_zone_bytes(),
        walk(red_zone_bytes()) == Ok::<_, DecodeError>(
            Walk { events: Seq::empty(), rest: red_zone_bytes() },
        ),
{
    assert(stream_bytes(Seq::empty()) =~= red_zone_bytes());
}

/// Encoding entries and walking over the sealed stream gives back every
/// item of every entry, top-level items and the items of sublists alike, in
/// the order in which they were appended, and nothing else. The walk stops
/// at the closing padding.
pub proof fn law_round_trip(entries: Seq<Entry>)
    requires
        forall|i: int| 0 <= i < entries.len() ==> (#[trigger] entries[i]).encodable(),
    ensures
        walk(stream_bytes(entries)) == Ok::<_, DecodeError>(
            Walk { events: entries_events(entries), rest: red_zone_bytes() },
        ),
    decreases entries.len(),
{
    let s = stream_bytes(entries);
    if entries.len() == 0 {
        law_empty_stream();
        assert(s =~= red_zone_bytes());
    } else {
        let first = entries[0];
        let others = entries.drop_first();
        let tail = stream_bytes(others);
        assert(first.encodable());
        assert forall|i: int| 0 <= i < others.len() implies (#[trigger] others[i]).encodable() by {
            assert(others[i] == entries[i + 1]);
        }
        law_round_trip(others);
        assert(s =~= first.bytes() + tail);
        match first {
            Entry::Item(item) => {
                lemma_item_size(item);
                lemma_parse_item_bytes(item, tail);
                assert(step(s) == Ok::<_, DecodeError>(
                    Step { item: Some(item), skip: None, rest: tail },
                ));
                assert(seq![Event::Item(item)] + sublist_events(Seq::empty()) + entries_events(
                    others,
                ) =~= entries_events(entries));
            },
            Entry::Sublist(items) => {
                law_sublist_is_skipped(items, tail);
                lemma_parse_sublist_body(items);
                assert(seq![Event::Item(DisplayListItem::List)] + sublist_events(items)
                    + entries_events(others) =~= entries_events(entries));
            },
        }
    }
}

/// The top-level items of two runs of observations are those of the first,
/// then those of the second.
pub proof fn lemma_top_level_add(a: Seq<Event>, b: Seq<Event>)
    ensures
        top_level(a + b) == top_level(a) + top_level(b),
    decreases a.len(),
{
    if a.len() == 0 {
        assert(a + b =~= b);
        assert(top_level(a) + top_level(b) =~= top_level(b));
    } else {
        assert((a + b).drop_first() =~= a.drop_first() + b);
        lemma_top_level_add(a.drop_first(), b);
        assert(top_level(a + b) =~= top_level(a) + top_level(b));
    }
}

/// None of the observations made inside a sublist is a top-level item.
pub proof fn lemma_top_level_of_sublist(items: Seq<DisplayListItem>)
    ensures
        top_level(sublist_events(items)) == Seq::<DisplayListItem>::empty(),
    decreases items.len(),
{
    if items.len() > 0 {
        assert(sublist_events(items).drop_first() =~= sublist_events(items.drop_first()));
        lemma_top_level_of_sublist(items.drop_first());
    }
}

/// Skipping every sublist of a stream that a full walk can decode meets the
/// top-level items that the full walk observes, markers among them, each
/// once and in the same order, and stops at the same place.
pub proof fn law_skip_sublists(s: Seq<u8>)
    requires
        walk(s) is Ok,
    ensures
        skim(s) == Ok::<_, DecodeError>(
            Skim { items: top_level(walk(s).unwrap().events), rest: walk(s).unwrap().rest },
        ),
    decreases s.len(),
{
    let st = step(s).unwrap();
    match st.item {
        None => {},
        Some(item) => {
            let nested = match st.skip {
                None => Seq::empty(),
                Some(body) => parse_sublist(body).unwrap(),
            };
            law_skip_sublists(st.rest);
            let later = walk(st.rest).unwrap().events;
            let here = seq![Event::Item(item)] + sublist_events(nested);
            lemma_top_level_add(here, later);
            lemma_top_level_add(seq![Event::Item(item)], sublist_events(nested));
            lemma_top_level_of_sublist(nested);
            let one = seq![Event::Item(item)];
            assert(one.drop_first() =~= Seq::<Event>::empty());
            assert(top_level(one.drop_first()) =~= Seq::<DisplayListItem>::empty());
            assert(one[0] == Event::Item(item));
            assert(top_level(one) =~= seq![item]);
            assert(top_level(here) =~= seq![item]);
        },
    }
}

/// Appending an entry to a list adds its bytes behind those of the entries
/// before it, and a full walk observes it behind them.
pub proof fn law_append_entry(entries: Seq<Entry>, entry: Entry)
    ensures
        entries_bytes(entries.push(entry)) == entries_bytes(entries) + entry.bytes(),
        entries_events(entries.push(entry)) == entries_events(entries) + entry.events(),
    decreases entries.len(),
{
    let all = entries.push(entry);
    if entries.len() == 0 {
        assert(all.drop_first() =~= Seq::<Entry>::empty());
        assert(entries_bytes(all.drop_first()) =~= Seq::<u8>::empty());
        assert(entries_events(all.drop_first()) =~= Seq::<Event>::empty());
        assert(entries_bytes(all) =~= entries_bytes(entries) + entry.bytes());
        assert(entries_events(all) =~= entries_events(entries) + entry.events());
    } else {
        assert(all.drop_first() =~= entries.drop_first().push(entry));
        law_append_entry(entries.drop_first(), entry);
        assert(entries_bytes(all) =~= entries_bytes(entries) + entry.bytes());
        assert(entries_events(all) =~= entries_events(entries) + entry.events());
    }
}

/// The closing padding is as long as the largest item. Where no more bytes
/// are left than it holds, no item is decoded: the decoder reports the end of
/// the stream and stays where it is.
pub proof fn law_red_zone(s: Seq<u8>, item: DisplayListItem)
    ensures
        red_zone_bytes().len() == RED_ZONE_SIZE,
        item_bytes(item).len() <= RED_ZONE_SIZE,
        s.len() <= RED_ZONE_SIZE ==> parse_item(s) == Err::<(DisplayListItem, Seq<u8>), _>(
            DecodeError::UnexpectedEnd,
        ),
        s.len() <= RED_ZONE_SIZE <==> step(s) == Ok::<_, DecodeError>(
            Step { item: None, skip: None, rest: s },
        ),
{
    lemma_item_size(item);
}

} // verus!
