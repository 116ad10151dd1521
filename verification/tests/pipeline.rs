use display_list::backend::{Backend, Event, Message, Outcome};
use display_list::item::{DecodeError, DisplayListItem, RectItem};
use display_list::list::DisplayList;

fn sealed(items: &[DisplayListItem]) -> DisplayList {
    let mut list = DisplayList::new();
    for item in items {
        list.push_item(item);
    }
    list.end();
    list
}

#[test]
fn two_lists_give_two_completions_in_order_then_close() {
    let r = DisplayListItem::Rect(RectItem { min: (1, 2), max: (3, 4) });
    let mut backend = Backend::new();
    assert!(backend.is_running());

    let first = backend.handle(Message::SetDisplayList(sealed(&[r])));
    assert_eq!(first, Outcome::Done(vec![Event::Item(r)]));
    assert!(backend.is_running());

    let second = backend.handle(Message::SetDisplayList(sealed(&[
        DisplayListItem::ListItem,
        DisplayListItem::Nil,
    ])));
    assert_eq!(
        second,
        Outcome::Done(vec![
            Event::Item(DisplayListItem::ListItem),
            Event::Item(DisplayListItem::Nil),
        ])
    );
    assert!(backend.is_running());

    assert_eq!(backend.handle(Message::Close), Outcome::Closed);
    assert!(!backend.is_running());
}

#[test]
fn close_before_any_list_decodes_nothing() {
    let mut backend = Backend::new();
    assert_eq!(backend.handle(Message::Close), Outcome::Closed);
    assert!(!backend.is_running());
}

#[test]
fn a_stopped_worker_decodes_nothing() {
    let mut backend = Backend::new();
    assert_eq!(backend.handle(Message::Close), Outcome::Closed);
    let late = backend.handle(Message::SetDisplayList(sealed(&[DisplayListItem::ListItem])));
    assert_eq!(late, Outcome::Closed);
    assert_eq!(backend.handle(Message::Close), Outcome::Closed);
    assert!(!backend.is_running());
}

#[test]
fn a_list_with_a_sublist_is_walked_into() {
    let mut list = DisplayList::new();
    list.push_list(&[DisplayListItem::ListItem, DisplayListItem::ListItem]);
    list.end();
    let mut backend = Backend::new();
    assert_eq!(
        backend.handle(Message::SetDisplayList(list)),
        Outcome::Done(vec![
            Event::Item(DisplayListItem::List),
            Event::SublistItem(DisplayListItem::ListItem),
            Event::SublistItem(DisplayListItem::ListItem),
        ])
    );
}

#[test]
fn a_list_that_cannot_be_decoded_stops_the_worker() {
    let ones = DisplayListItem::Rect(RectItem {
        min: (u32::MAX, u32::MAX),
        max: (u32::MAX, u32::MAX),
    });
    let mut list = DisplayList::new();
    list.push_item(&DisplayListItem::List);
    list.push_item(&ones);
    list.end();
    let mut backend = Backend::new();
    let outcome = backend.handle(Message::SetDisplayList(list));
    assert_eq!(outcome, Outcome::Failed(DecodeError::SizeOutOfBounds));
    assert!(!backend.is_running());
    assert_eq!(
        backend.handle(Message::SetDisplayList(sealed(&[]))),
        Outcome::Closed
    );
}
