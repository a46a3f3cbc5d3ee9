//! The table list and the item list: what a key press does to the selection
//! and what it asks of the application.
use vstd::prelude::*;

use crate::event::{Key, KeyCode, UserEvent, has_event};
use crate::scroll_list::ScrollListState;

verus! {

/// What a key press on the table list asks of the application.
#[derive(Debug, PartialEq, Eq, Structural)]
pub enum TableListAction {
    /// Nothing.
    Idle,
    /// Load the items of the described table.
    LoadItems,
    /// Describe the table at this index, now selected.
    Describe(usize),
}

/// A key press on the table list: down and up move the selection, and a
/// moved selection asks for the newly selected table's description; confirm
/// loads the items once the selected table is described.
pub open spec fn table_list_next(state: ScrollListState, events: Seq<UserEvent>, described: bool) -> (
    ScrollListState,
    TableListAction,
) {
    if events.contains(UserEvent::Down) || events.contains(UserEvent::Up) {
        let s = if events.contains(UserEvent::Down) {
            state.next_spec()
        } else {
            state.prev_spec()
        };
        (s, if s.selected != state.selected { TableListAction::Describe(s.selected) } else { TableListAction::Idle })
    } else if events.contains(UserEvent::Confirm) && described {
        (state, TableListAction::LoadItems)
    } else {
        (state, TableListAction::Idle)
    }
}

/// Handles a key press on the table list (see [`table_list_next`]).
pub fn table_list_step(state: &mut ScrollListState, events: &Vec<UserEvent>, described: bool) -> (r: TableListAction)
    requires
        old(state).wf(),
    ensures
        final(state).wf(),
        (*final(state), r) == table_list_next(*old(state), events@, described),
{
    let before = state.selected;
    let down = has_event(events, UserEvent::Down);
    if down || has_event(events, UserEvent::Up) {
        if down {
            state.select_next();
        } else {
            state.select_prev();
        }
        if state.selected != before {
            TableListAction::Describe(state.selected)
        } else {
            TableListAction::Idle
        }
    } else if has_event(events, UserEvent::Confirm) && described {
        TableListAction::LoadItems
    } else {
        TableListAction::Idle
    }
}

/// What a key press on the item list asks of the application.
#[derive(Debug, PartialEq, Eq, Structural)]
pub enum ItemListAction {
    /// Nothing.
    Idle,
    /// Close the item list.
    Back,
    /// Open the query form.
    OpenQuery,
    /// Open the editor on the selected item (a new one when none is).
    EditSelected,
    /// Open the editor on a new item.
    NewItem,
    /// Ask whether to delete the selected item.
    AskDelete,
    /// The question was answered yes: delete the selected item.
    Delete,
    /// The question was answered otherwise: delete nothing.
    CancelDelete,
    /// Copy the selected item's plain JSON to the clipboard.
    CopySelected,
}

/// Whether a key is the character `c` (with any modifiers).
pub open spec fn is_char(key: Key, c: char) -> bool {
    key.code == KeyCode::Char(c)
}

/// A key press on the item list. While a delete waits for its answer, `y`
/// deletes the selected item and any other key cancels. Otherwise down and
/// up move the selection, reset goes back, `?` opens the query form, `e`
/// edits the selected item, `n` makes a new one, and with an item selected
/// `d` asks to delete it and `y` copies it.
pub open spec fn item_list_next(
    state: ScrollListState,
    confirming: bool,
    has_selection: bool,
    events: Seq<UserEvent>,
    key: Key,
) -> (ScrollListState, ItemListAction) {
    if confirming {
        (state, if is_char(key, 'y') && has_selection { ItemListAction::Delete } else { ItemListAction::CancelDelete })
    } else if events.contains(UserEvent::Down) {
        (state.next_spec(), ItemListAction::Idle)
    } else if events.contains(UserEvent::Up) {
        (state.prev_spec(), ItemListAction::Idle)
    } else if events.contains(UserEvent::Reset) {
        (state, ItemListAction::Back)
    } else if is_char(key, '?') {
        (state, ItemListAction::OpenQuery)
    } else if is_char(key, 'e') {
        (state, ItemListAction::EditSelected)
    } else if is_char(key, 'n') {
        (state, ItemListAction::NewItem)
    } else if is_char(key, 'd') && has_selection {
        (state, ItemListAction::AskDelete)
    } else if is_char(key, 'y') && has_selection {
        (state, ItemListAction::CopySelected)
    } else {
        (state, ItemListAction::Idle)
    }
}

/// The character of a key, if it is one.
fn char_of(key: &Key) -> (r: Option<char>)
    ensures
        r == match key.code {
            KeyCode::Char(c) => Some(c),
            _ => None::<char>,
        },
{
    match key.code {
        KeyCode::Char(c) => Some(c),
        _ => None,
    }
}

/// Handles a key press on the item list (see [`item_list_next`]).
pub fn item_list_step(
    state: &mut ScrollListState,
    confirming: bool,
    has_selection: bool,
    events: &Vec<UserEvent>,
    key: &Key,
) -> (r: ItemListAction)
    requires
        old(state).wf(),
    ensures
        final(state).wf(),
        (*final(state), r) == item_list_next(*old(state), confirming, has_selection, events@, *key),
{
    let c = char_of(key);
    if confirming {
        if c == Some('y') && has_selection {
            ItemListAction::Delete
        } else {
            ItemListAction::CancelDelete
        }
    } else if has_event(events, UserEvent::Down) {
        state.select_next();
        ItemListAction::Idle
    } else if has_event(events, UserEvent::Up) {
        state.select_prev();
        ItemListAction::Idle
    } else if has_event(events, UserEvent::Reset) {
        ItemListAction::Back
    } else if c == Some('?') {
        ItemListAction::OpenQuery
    } else if c == Some('e') {
        ItemListAction::EditSelected
    } else if c == Some('n') {
        ItemListAction::NewItem
    } else if c == Some('d') && has_selection {
        ItemListAction::AskDelete
    } else if c == Some('y') && has_selection {
        ItemListAction::CopySelected
    } else {
        ItemListAction::Idle
    }
}

} // verus!
