//! The items of a display list and their fixed byte layout: one tag byte,
//! then the fields of the variant in declaration order.

use crate::wire::{
    lemma_native_bytes_len, lemma_native_value_of_bytes, native_bytes, native_value, peek_u32,
    peek_u8, poke_u32, poke_u8, radix_pow, RED_ZONE_SIZE,
};
use vstd::prelude::*;

verus! {

/// An axis-aligned rectangle. Each coordinate is held as the bit pattern of
/// a 32-bit IEEE 754 number, which is also how it is laid out in a stream.
#[derive(Clone, Copy, Debug, PartialEq, Eq)]
pub struct RectItem {
    pub min: (u32, u32),
    pub max: (u32, u32),
}

/// One record of a display list.
#[derive(Clone, Copy, Debug, PartialEq, Eq)]
pub enum DisplayListItem {
    /// A rectangle.
    Rect(RectItem),
    /// Marks the start of a sublist; a sublist block follows it in the stream.
    List,
    /// A member of a sublist that carries no data.
    ListItem,
    /// The empty item, used as a scratch value when decoding.
    Nil,
}

/// Why a stream could not be decoded.
#[derive(Clone, Copy, Debug, PartialEq, Eq)]
pub enum DecodeError {
    /// An item or a count was due, but too few bytes are left to hold one.
    UnexpectedEnd,
    /// The byte where a tag was due names no variant.
    UnknownTag(u8),
    /// The size recorded for a sublist is larger than what is left of the stream.
    SizeOutOfBounds,
}

/// The tag of `Rect`. Tags count the variants in declaration order.
pub const TAG_RECT: u8 = 0;

/// The tag of `List`.
pub const TAG_LIST: u8 = 1;

/// The tag of `ListItem`.
pub const TAG_LIST_ITEM: u8 = 2;

/// The tag of `Nil`.
pub const TAG_NIL: u8 = 3;

/// Encoded size of a rectangle's fields.
pub const RECT_SIZE: usize = 16;

/// The bytes of a rectangle: its four coordinates, `min` first.
pub open spec fn rect_bytes(r: RectItem) -> Seq<u8> {
    native_bytes(r.min.0 as nat, 4) + native_bytes(r.min.1 as nat, 4) + native_bytes(
        r.max.0 as nat,
        4,
    ) + native_bytes(r.max.1 as nat, 4)
}

/// The bytes of an item: its tag, then its fields.
pub open spec fn item_bytes(item: DisplayListItem) -> Seq<u8> {
    match item {
        DisplayListItem::Rect(r) => seq![TAG_RECT] + rect_bytes(r),
        DisplayListItem::List => seq![TAG_LIST],
        DisplayListItem::ListItem => seq![TAG_LIST_ITEM],
        DisplayListItem::Nil => seq![TAG_NIL],
    }
}

/// The number of bytes that an item's encoding takes.
pub open spec fn item_size(item: DisplayListItem) -> nat {
    match item {
        DisplayListItem::Rect(_) => 1 + RECT_SIZE as nat,
        _ => 1,
    }
}

/// The 32-bit value that lies at offset `at` in `s`.
pub open spec fn u32_at(s: Seq<u8>, at: int) -> u32 {
    native_value(s.subrange(at, at + 4)) as u32
}

/// The rectangle whose fields lie at offset `at` in `s`.
pub open spec fn rect_at(s: Seq<u8>, at: int) -> RectItem {
    RectItem { min: (u32_at(s, at), u32_at(s, at + 4)), max: (u32_at(s, at + 8), u32_at(s, at + 12)) }
}

/// What decoding one item from the front of `s` gives: the item and the bytes
/// behind it, or the reason why there is none. More bytes than the largest
/// item takes must be at hand, whichever item lies there.
pub open spec fn parse_item(s: Seq<u8>) -> Result<(DisplayListItem, Seq<u8>), DecodeError> {
    if s.len() <= RED_ZONE_SIZE {
        Err(DecodeError::UnexpectedEnd)
    } else if s[0] == TAG_RECT {
        Ok((DisplayListItem::Rect(rect_at(s, 1)), s.subrange(1 + RECT_SIZE, s.len() as int)))
    } else if s[0] == TAG_LIST {
        Ok((DisplayListItem::List, s.subrange(1, s.len() as int)))
    } else if s[0] == TAG_LIST_ITEM {
        Ok((DisplayListItem::ListItem, s.subrange(1, s.len() as int)))
    } else if s[0] == TAG_NIL {
        Ok((DisplayListItem::Nil, s.subrange(1, s.len() as int)))
    } else {
        Err(DecodeError::UnknownTag(s[0]))
    }
}

impl Default for RectItem {
    /// The rectangle whose coordinates are all zero.
    fn default() -> (r: Self)
        ensures
            r == (RectItem { min: (0, 0), max: (0, 0) }),
    {
        RectItem { min: (0, 0), max: (0, 0) }
    }
}

impl RectItem {
    /// Appends the four coordinates to `dst`.
    pub fn poke_into(&self, dst: &mut Vec<u8>)
        ensures
            final(dst)@ == old(dst)@ + rect_bytes(*self),
    {
        poke_u32(self.min.0, dst);
        poke_u32(self.min.1, dst);
        poke_u32(self.max.0, dst);
        poke_u32(self.max.1, dst);
        assert(dst@ =~= old(dst)@ + rect_bytes(*self));
    }
}

impl DisplayListItem {
    /// The largest number of bytes that the encoding of any item takes: the
    /// tag and the fields of the largest variant.
    pub fn max_size() -> (n: usize)
        ensures
            n == RED_ZONE_SIZE,
            n == 1 + RECT_SIZE,
    {
        1 + RECT_SIZE
    }

    /// Appends the encoding of the item to `dst`.
    pub fn poke_into(&self, dst: &mut Vec<u8>)
        ensures
            final(dst)@ == old(dst)@ + item_bytes(*self),
    {
        match self {
            DisplayListItem::Rect(r) => {
                poke_u8(TAG_RECT, dst);
                r.poke_into(dst);
            },
            DisplayListItem::List => {
                poke_u8(TAG_LIST, dst);
            },
            DisplayListItem::ListItem => {
                poke_u8(TAG_LIST_ITEM, dst);
            },
            DisplayListItem::Nil => {
                poke_u8(TAG_NIL, dst);
            },
        }
        assert(dst@ =~= old(dst)@ + item_bytes(*self));
    }

    /// Decodes one item from the front of `src` and returns it with the bytes
    /// behind it. Nothing is decoded unless more bytes than `max_size()` are
    /// at hand and the tag names a variant.
    pub fn peek_from<'a>(src: &'a [u8]) -> (r: Result<(DisplayListItem, &'a [u8]), DecodeError>)
        ensures
            match r {
                Ok((item, rest)) => parse_item(src@) == Ok::<_, DecodeError>((item, rest@)),
                Err(e) => parse_item(src@) == Err::<(DisplayListItem, Seq<u8>), _>(e),
            },
    {
        if src.len() <= DisplayListItem::max_size() {
            return Err(DecodeError::UnexpectedEnd);
        }
        let (tag, rest) = peek_u8(src);
        if tag == TAG_RECT {
            let (x0, rest0) = peek_u32(rest);
            let (y0, rest1) = peek_u32(rest0);
            let (x1, rest2) = peek_u32(rest1);
            let (y1, rest3) = peek_u32(rest2);
            proof {
                let s = src@;
                assert(rest@.subrange(0, 4) =~= s.subrange(1, 5));
                assert(rest0@.subrange(0, 4) =~= s.subrange(5, 9));
                assert(rest1@.subrange(0, 4) =~= s.subrange(9, 13));
                assert(rest2@.subrange(0, 4) =~= s.subrange(13, 17));
                assert(rest3@ =~= s.subrange(17, s.len() as int));
            }
            Ok((DisplayListItem::Rect(RectItem { min: (x0, y0), max: (x1, y1) }), rest3))
        } else if tag == TAG_LIST {
            Ok((DisplayListItem::List, rest))
        } else if tag == TAG_LIST_ITEM {
            Ok((DisplayListItem::ListItem, rest))
        } else if tag == TAG_NIL {
            Ok((DisplayListItem::Nil, rest))
        } else {
            Err(DecodeError::UnknownTag(tag))
        }
    }
}

/// The encoding of an item takes as many bytes as `item_size` says, and never
/// more than the closing padding holds.
pub proof fn lemma_item_size(item: DisplayListItem)
    ensures
        item_bytes(item).len() == item_size(item),
        1 <= item_size(item) <= RED_ZONE_SIZE,
{
    if let DisplayListItem::Rect(r) = item {
        lemma_native_bytes_len(r.min.0 as nat, 4);
        lemma_native_bytes_len(r.min.1 as nat, 4);
        lemma_native_bytes_len(r.max.0 as nat, 4);
        lemma_native_bytes_len(r.max.1 as nat, 4);
    }
}

/// Decoding the encoding of an item gives the item back, and leaves what
/// stood behind it, wherever enough bytes follow for a decode to be tried.
pub proof fn lemma_parse_item_bytes(item: DisplayListItem, tail: Seq<u8>)
    requires
        item_size(item) + tail.len() > RED_ZONE_SIZE,
    ensures
        parse_item(item_bytes(item) + tail) == Ok::<_, DecodeError>((item, tail)),
{
    lemma_item_size(item);
    let s = item_bytes(item) + tail;
    match item {
        DisplayListItem::Rect(r) => {
            lemma_u32_round_trip(r.min.0);
            lemma_u32_round_trip(r.min.1);
            lemma_u32_round_trip(r.max.0);
            lemma_u32_round_trip(r.max.1);
            lemma_native_bytes_len(r.min.0 as nat, 4);
            lemma_native_bytes_len(r.min.1 as nat, 4);
            lemma_native_bytes_len(r.max.0 as nat, 4);
            lemma_native_bytes_len(r.max.1 as nat, 4);
            assert(s.subrange(1, 5) =~= native_bytes(r.min.0 as nat, 4));
            assert(s.subrange(5, 9) =~= native_bytes(r.min.1 as nat, 4));
            assert(s.subrange(9, 13) =~= native_bytes(r.max.0 as nat, 4));
            assert(s.subrange(13, 17) =~= native_bytes(r.max.1 as nat, 4));
            assert(s.subrange(17, s.len() as int) =~= tail);
            assert(rect_at(s, 1) == r);
        },
        _ => {
            assert(s.subrange(1, s.len() as int) =~= tail);
        },
    }
}

/// Four bytes hold every `u32`.
pub proof fn lemma_u32_round_trip(v: u32)
    ensures
        native_value(native_bytes(v as nat, 4)) == v,
{
    assert(radix_pow(4) == 0x1_0000_0000) by {
        reveal_with_fuel(radix_pow, 5);
    }
    lemma_native_value_of_bytes(v as nat, 4);
}

} // verus!
