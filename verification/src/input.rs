//! One-line text inputs, edited by `tui_input`.
use vstd::prelude::*;

use ratatui::crossterm::event::{Event, KeyCode as CtCode, KeyEvent, KeyModifiers};
use tui_input::backend::crossterm::EventHandler;
use tui_input::Input;

use crate::event::{Key, KeyCode};

verus! {

/// A one-line text input: its text, and the cursor as a character index.
#[derive(Clone, Debug, PartialEq, Eq)]
pub struct TextInput {
    pub value: String,
    pub cursor: usize,
}

/// What `tui_input::Input` holds after handling a key press, from the text
/// and cursor it held before: the new text and cursor.
pub uninterp spec fn edited_input(value: Seq<char>, cursor: nat, key: Key) -> (Seq<char>, nat);

/// Whether a key can reach a text input: the views keep up, down and
/// back-tab for moving between fields.
pub open spec fn editing_key(key: Key) -> bool {
    !(key.code is Up || key.code is Down || key.code is BackTab)
}

/// Lets `tui_input::Input` (`Input::with_cursor`, then `handle_event` with
/// the crossterm key press) handle a key press on a text and cursor, and
/// returns the text and cursor it then holds (see [`edited_input`]).
#[verifier::external_body]
fn edit_input(value: &String, cursor: usize, key: &Key) -> (r: (String, usize))
    requires
        editing_key(*key),
    ensures
        (r.0@, r.1 as nat) == edited_input(value@, cursor as nat, *key),
{
    let code = match key.code {
        KeyCode::Char(c) => CtCode::Char(c),
        KeyCode::Backspace => CtCode::Backspace,
        KeyCode::Delete => CtCode::Delete,
        KeyCode::Left => CtCode::Left,
        KeyCode::Right => CtCode::Right,
        KeyCode::Home => CtCode::Home,
        KeyCode::End => CtCode::End,
        _ => CtCode::Null,
    };
    let mut input = Input::new(value.clone()).with_cursor(cursor);
    input.handle_event(&Event::Key(KeyEvent::new(code, KeyModifiers::from_bits_truncate(key.modifiers))));
    (input.value().to_string(), input.cursor())
}

impl TextInput {
    /// An empty input.
    pub fn empty() -> (r: TextInput)
        ensures
            r.value@ == Seq::<char>::empty(),
            r.cursor == 0,
    {
        TextInput { value: String::new(), cursor: 0 }
    }

    /// An input holding `value`, the cursor after its last character (as
    /// `Input::new` places it).
    pub fn with_value(value: String) -> (r: TextInput)
        ensures
            r.value@ == value@,
            r.cursor == value@.len(),
    {
        let n = value.as_str().unicode_len();
        TextInput { value, cursor: n }
    }

    /// Lets the input handle a key press (see [`edited_input`]).
    pub fn handle_key(&mut self, key: &Key)
        requires
            editing_key(*key),
        ensures
            (final(self).value@, final(self).cursor as nat) == edited_input(
                old(self).value@,
                old(self).cursor as nat,
                *key,
            ),
    {
        let (value, cursor) = edit_input(&self.value, self.cursor, key);
        self.value = value;
        self.cursor = cursor;
    }
}

} // verus!
