use display_list::item::{DisplayListItem, RectItem};
use display_list::list::DisplayList;

const WORD: usize = std::mem::size_of::<usize>();

fn word(v: usize) -> Vec<u8> {
    v.to_ne_bytes().to_vec()
}

#[test]
fn new_list_is_empty_and_open() {
    let list = DisplayList::new();
    assert_eq!(list.as_bytes().len(), 0);
    assert!(!list.is_sealed());
}

#[test]
fn end_appends_a_red_zone_of_the_largest_item_size() {
    let mut list = DisplayList::new();
    list.push_item(&DisplayListItem::ListItem);
    list.end();
    assert!(list.is_sealed());
    let mut expected = vec![2u8];
    expected.extend_from_slice(&[0u8; 17]);
    assert_eq!(list.as_bytes(), &expected[..]);
    assert_eq!(list.as_bytes().len() - 1, DisplayListItem::max_size());
}

#[test]
fn empty_sealed_list_is_the_red_zone_alone() {
    let mut list = DisplayList::new();
    list.end();
    assert_eq!(list.as_bytes(), &[0u8; 17][..]);
}

#[test]
fn push_iter_writes_size_count_items_and_red_zone() {
    let mut list = DisplayList::new();
    list.push_iter(&[DisplayListItem::ListItem, DisplayListItem::ListItem]);
    let mut expected = word(WORD + 2 + 17);
    expected.extend_from_slice(&word(2));
    expected.extend_from_slice(&[2u8, 2u8]);
    expected.extend_from_slice(&[0u8; 17]);
    assert_eq!(list.as_bytes(), &expected[..]);
}

#[test]
fn push_list_puts_the_marker_in_front() {
    let mut list = DisplayList::new();
    list.push_list(&[DisplayListItem::ListItem, DisplayListItem::ListItem]);
    let mut expected = vec![1u8];
    expected.extend_from_slice(&word(WORD + 2 + 17));
    expected.extend_from_slice(&word(2));
    expected.extend_from_slice(&[2u8, 2u8]);
    expected.extend_from_slice(&[0u8; 17]);
    assert_eq!(list.as_bytes(), &expected[..]);
    assert!(!list.is_sealed());
}

#[test]
fn empty_sublist_still_carries_size_and_count() {
    let mut list = DisplayList::new();
    list.push_list(&[]);
    let mut expected = vec![1u8];
    expected.extend_from_slice(&word(WORD + 17));
    expected.extend_from_slice(&word(0));
    expected.extend_from_slice(&[0u8; 17]);
    assert_eq!(list.as_bytes(), &expected[..]);
}

#[test]
fn byte_size_counts_count_items_and_red_zone() {
    for n in [0usize, 1, 2, 7, 100] {
        let items = vec![DisplayListItem::ListItem; n];
        let mut list = DisplayList::new();
        list.push_item(&DisplayListItem::Nil);
        list.push_list(&items);
        let bytes = list.as_bytes();
        let mut recorded = [0u8; WORD];
        recorded.copy_from_slice(&bytes[2..2 + WORD]);
        let recorded = usize::from_ne_bytes(recorded);
        assert_eq!(recorded, WORD + n * 1 + 17);
        assert_eq!(bytes.len(), 2 + WORD + recorded);
    }
}

#[test]
fn byte_size_of_a_sublist_of_rects() {
    let r = DisplayListItem::Rect(RectItem { min: (1, 2), max: (3, 4) });
    let mut list = DisplayList::new();
    list.push_list(&[r, r, r]);
    let bytes = list.as_bytes();
    let mut recorded = [0u8; WORD];
    recorded.copy_from_slice(&bytes[1..1 + WORD]);
    assert_eq!(usize::from_ne_bytes(recorded), WORD + 3 * 17 + 17);
    let mut count = [0u8; WORD];
    count.copy_from_slice(&bytes[1 + WORD..1 + 2 * WORD]);
    assert_eq!(usize::from_ne_bytes(count), 3);
}

#[test]
fn push_iter_leaves_earlier_bytes_alone() {
    let mut list = DisplayList::new();
    list.push_item(&DisplayListItem::Rect(RectItem { min: (9, 8), max: (7, 6) }));
    let before = list.as_bytes().to_vec();
    list.push_iter(&[DisplayListItem::ListItem]);
    assert_eq!(&list.as_bytes()[..before.len()], &before[..]);
    list.push_item(&DisplayListItem::ListItem);
    assert_eq!(*list.as_bytes().last().unwrap(), 2u8);
}
