//! The builder: an append-only byte buffer that items and sublists are
//! encoded into, closed by a final padding.

use crate::item::{item_bytes, DisplayListItem};
use crate::wire::{
    lemma_native_bytes_len, native_bytes, poke_red_zone, poke_usize, poke_usize_at,
    red_zone_bytes, word_size, RED_ZONE_SIZE,
};
use vstd::prelude::*;

verus! {

/// The encodings of `items`, one behind the other.
pub open spec fn items_bytes(items: Seq<DisplayListItem>) -> Seq<u8>
    decreases items.len(),
{
    if items.len() == 0 {
        Seq::empty()
    } else {
        item_bytes(items[0]) + items_bytes(items.drop_first())
    }
}

/// The size that a sublist block records for itself: the bytes of the count,
/// of the items and of the closing padding. The size field itself and the
/// marker in front of it are not counted.
pub open spec fn sublist_size(items: Seq<DisplayListItem>) -> nat {
    word_size() + items_bytes(items).len() + RED_ZONE_SIZE as nat
}

/// What follows the size field of a sublist block: the count, the items and
/// the closing padding.
pub open spec fn sublist_body(items: Seq<DisplayListItem>) -> Seq<u8> {
    native_bytes(items.len(), word_size()) + items_bytes(items) + red_zone_bytes()
}

/// A sublist block: the size of its body, then the body.
pub open spec fn sublist_bytes(items: Seq<DisplayListItem>) -> Seq<u8> {
    native_bytes(sublist_size(items), word_size()) + sublist_body(items)
}

/// Encoding one more item appends its bytes.
pub proof fn lemma_items_bytes_push(items: Seq<DisplayListItem>, item: DisplayListItem)
    ensures
        items_bytes(items.push(item)) == items_bytes(items) + item_bytes(item),
    decreases items.len(),
{
    let all = items.push(item);
    if items.len() == 0 {
        assert(all.drop_first() =~= Seq::<DisplayListItem>::empty());
        assert(items_bytes(all.drop_first()) =~= Seq::<u8>::empty());
        assert(items_bytes(all) =~= item_bytes(item));
        assert(items_bytes(items) + item_bytes(item) =~= item_bytes(item));
    } else {
        assert(all.drop_first() =~= items.drop_first().push(item));
        lemma_items_bytes_push(items.drop_first(), item);
        assert(items_bytes(all) =~= items_bytes(items) + item_bytes(item));
    }
}

/// The body of a sublist block is as long as the size field says.
pub proof fn lemma_sublist_body_len(items: Seq<DisplayListItem>)
    ensures
        sublist_body(items).len() == sublist_size(items),
        sublist_bytes(items).len() == word_size() + sublist_size(items),
{
    lemma_native_bytes_len(items.len(), word_size());
    lemma_native_bytes_len(sublist_size(items), word_size());
}

/// A display list under construction, or sealed and ready to be decoded.
pub struct DisplayList {
    payload: Vec<u8>,
    sealed: bool,
}

impl View for DisplayList {
    type V = Seq<u8>;

    /// The bytes written so far.
    closed spec fn view(&self) -> Seq<u8> {
        self.payload@
    }
}

impl DisplayList {
    /// Whether the closing padding has been appended.
    pub closed spec fn sealed(&self) -> bool {
        self.sealed
    }

    /// An empty list, open for appends.
    pub fn new() -> (list: Self)
        ensures
            list@ == Seq::<u8>::empty(),
            !list.sealed(),
    {
        DisplayList { payload: Vec::new(), sealed: false }
    }

    /// Whether the list has been sealed by `end`.
    pub fn is_sealed(&self) -> (b: bool)
        ensures
            b == self.sealed(),
    {
        self.sealed
    }

    /// The bytes written so far.
    pub fn as_bytes(&self) -> (bytes: &[u8])
        ensures
            bytes@ == self@,
    {
        self.payload.as_slice()
    }

    /// Appends the encoding of one item.
    pub fn push_item(&mut self, item: &DisplayListItem)
        requires
            !old(self).sealed(),
        ensures
            final(self)@ == old(self)@ + item_bytes(*item),
            !final(self).sealed(),
    {
        item.poke_into(&mut self.payload);
    }

    /// Appends a sublist: the marker that announces it, then the block that
    /// holds its items.
    pub fn push_list(&mut self, list: &[DisplayListItem])
        requires
            !old(self).sealed(),
        ensures
            final(self)@ == old(self)@ + item_bytes(DisplayListItem::List) + sublist_bytes(list@),
            !final(self).sealed(),
    {
        self.push_item(&DisplayListItem::List);
        self.push_iter(list);
    }

    /// Appends a sublist block: room for the size of what follows, the number
    /// of items, the items in order and a closing padding. The size is
    /// written last, over the room left for it.
    pub fn push_iter(&mut self, iter: &[DisplayListItem])
        requires
            !old(self).sealed(),
        ensures
            final(self)@ == old(self)@ + sublist_bytes(iter@),
            !final(self).sealed(),
    {
        let len = iter.len();
        let byte_size_offset = self.payload.len();
        poke_usize(0, &mut self.payload);
        poke_usize(len, &mut self.payload);
        let ghost head = old(self)@ + native_bytes(0, word_size()) + native_bytes(
            len as nat,
            word_size(),
        );
        proof {
            lemma_native_bytes_len(0, word_size());
            lemma_native_bytes_len(len as nat, word_size());
            assert(iter@.take(0) =~= Seq::<DisplayListItem>::empty());
        }
        let mut count: usize = 0;
        while count < len
            invariant
                count <= len,
                len == iter@.len(),
                self.payload@ == head + items_bytes(iter@.take(count as int)),
                self.sealed == old(self).sealed,
            decreases len - count,
        {
            iter[count].poke_into(&mut self.payload);
            proof {
                lemma_items_bytes_push(iter@.take(count as int), iter@[count as int]);
                assert(iter@.take(count as int).push(iter@[count as int]) =~= iter@.take(
                    count + 1,
                ));
            }
            count += 1;
        }
        poke_red_zone(&mut self.payload);

        let final_offset = self.payload.len();
        proof {
            assert(iter@.take(len as int) =~= iter@);
        }
        let byte_size = final_offset - byte_size_offset - core::mem::size_of::<usize>();
        poke_usize_at(byte_size, &mut self.payload, byte_size_offset);
        proof {
            lemma_sublist_body_len(iter@);
            assert(byte_size == sublist_size(iter@));
            assert(self.payload@ =~= old(self)@ + sublist_bytes(iter@));
        }
    }

    /// Seals the list: appends the padding that tells a decoder where the
    /// items end.
    pub fn end(&mut self)
        requires
            !old(self).sealed(),
        ensures
            final(self)@ == old(self)@ + red_zone_bytes(),
            final(self).sealed(),
    {
        poke_red_zone(&mut self.payload);
        self.sealed = true;
    }
}

} // verus!
