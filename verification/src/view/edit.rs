//! The item editor: JSON text for a new or an existing item, in typed or
//! plain form. The text itself is edited by the application's text area;
//! the editor decides what a save or a switch of form does with it.
use vstd::prelude::*;

use crate::client::key_names;
use crate::data::{Item, TableDescription, entries_wf};
use crate::event::{
    HelpItem, ShortHelpItem, UserEvent, has_event, help, helps_view, short_help,
    short_helps_view,
};
use crate::item_json::{
    is_plain_convertible, item_from_plain_json, item_from_typed_json, item_plain,
    item_plain_convertible, item_result, item_typed, missing_keys, new_item_skeleton, skeleton,
    validate_has_keys,
};
use crate::item_write::{plain_item, plain_json_text, typed_item, typed_json_text};
use crate::json::pretty;
use crate::read_back::{lemma_plain_text_round_trip, lemma_typed_text_round_trip, serde_reads_back};
use crate::round_trip::unsign_entries;

verus! {

/// The form of the JSON being edited.
#[derive(Clone, Copy, Debug, PartialEq, Eq, Structural)]
pub enum JsonMode {
    Typed,
    Plain,
}

impl JsonMode {
    /// The form's name, shown in the editor's title.
    pub fn label(&self) -> (r: &'static str)
        ensures
            r@ == match self {
                JsonMode::Typed => "typed"@,
                JsonMode::Plain => "plain"@,
            },
    {
        match self {
            JsonMode::Typed => "typed",
            JsonMode::Plain => "plain",
        }
    }
}

/// What the editor asks of the application.
#[derive(Debug, PartialEq, Eq)]
pub enum EditAction {
    /// Nothing; the editor's error may have changed.
    Idle,
    /// Hand the key press to the text area; the error is cleared.
    EditText,
    /// Put this text in the text area in place of what it holds.
    ReplaceText(String),
    /// Save this item to the table.
    SaveItem(Item),
    /// Close the editor.
    Back,
}

/// The item editor.
pub struct EditView {
    pub table_description: TableDescription,
    /// Whether an existing item is edited (else a new one is made).
    pub editing: bool,
    pub mode: JsonMode,
    pub error: Option<String>,
    pub helps: Vec<HelpItem>,
    pub helps_short: Vec<ShortHelpItem>,
}

/// The help page of the editor.
pub open spec fn edit_helps() -> Seq<(Seq<UserEvent>, Seq<char>)> {
    seq![
        (seq![UserEvent::Quit], "Quit app"@),
        (seq![UserEvent::Reset], "Cancel"@),
        (seq![UserEvent::Save], "Save item"@),
        (seq![UserEvent::ToggleJsonMode], "Toggle typed/plain JSON"@),
    ]
}

/// The status-line help of the editor.
pub open spec fn edit_short_helps() -> Seq<(Seq<UserEvent>, Seq<char>, u8)> {
    seq![
        (seq![UserEvent::Quit], "Quit"@, 0u8),
        (seq![UserEvent::Reset], "Cancel"@, 1u8),
        (seq![UserEvent::Save], "Save"@, 0u8),
        (seq![UserEvent::ToggleJsonMode], "Typed/Plain"@, 2u8),
    ]
}

/// The help page entries (see [`edit_helps`]).
pub fn build_helps() -> (r: Vec<HelpItem>)
    ensures
        helps_view(r@) == edit_helps(),
{
    let mut v = Vec::new();
    v.push(help(UserEvent::Quit, "Quit app"));
    v.push(help(UserEvent::Reset, "Cancel"));
    v.push(help(UserEvent::Save, "Save item"));
    v.push(help(UserEvent::ToggleJsonMode, "Toggle typed/plain JSON"));
    assert(helps_view(v@) =~= edit_helps());
    v
}

/// The status-line help entries (see [`edit_short_helps`]).
pub fn build_short_helps() -> (r: Vec<ShortHelpItem>)
    ensures
        short_helps_view(r@) == edit_short_helps(),
{
    let mut v = Vec::new();
    v.push(short_help(UserEvent::Quit, "Quit", 0));
    v.push(short_help(UserEvent::Reset, "Cancel", 1));
    v.push(short_help(UserEvent::Save, "Save", 0));
    v.push(short_help(UserEvent::ToggleJsonMode, "Typed/Plain", 2));
    assert(short_helps_view(v@) =~= edit_short_helps());
    v
}

/// The item a text stands for in a form, or the error.
pub open spec fn parsed(mode: JsonMode, text: Seq<char>) -> Result<Seq<(Seq<char>, crate::data::AttrV)>, Seq<char>> {
    match mode {
        JsonMode::Typed => item_typed(text),
        JsonMode::Plain => item_plain(text),
    }
}

/// Whether the error shown is `msg`.
pub open spec fn shows(error: Option<String>, msg: Seq<char>) -> bool {
    error matches Some(m) && m@ == msg
}

/// Whether the action puts the text `text` in the text area.
pub open spec fn replaces(r: EditAction, text: Seq<char>) -> bool {
    r matches EditAction::ReplaceText(t) && t@ == text
}

/// The error shown when an item with sets or binaries is switched to plain
/// JSON.
pub open spec fn not_plain_msg() -> Seq<char> {
    "can't switch to plain: item has set/binary attributes"@
}

/// A save of `text` took the editor from `before` to `after` with the
/// action `r`: when the text reads in the editor's form and the item carries
/// the key attributes, the item is to be saved; otherwise the error says why
/// not.
pub open spec fn save_spec(before: EditView, after: EditView, text: Seq<char>, r: EditAction) -> bool {
    &&& after.table_description == before.table_description
    &&& after.editing == before.editing
    &&& after.mode == before.mode
    &&& after.helps == before.helps
    &&& after.helps_short == before.helps_short
    &&& match parsed(before.mode, text) {
        Err(e) => r == EditAction::Idle && shows(after.error, e),
        Ok(es) => {
            let missing = missing_keys(es, key_names(before.table_description.key_schema_type));
            if missing.len() == 0 {
                (r matches EditAction::SaveItem(it) && it@ == es) && after.error == before.error
            } else {
                r == EditAction::Idle && shows(
                    after.error,
                    "missing key attribute(s): "@ + crate::item_json::joined(missing, ", "@),
                )
            }
        },
    }
}

/// A switch of form on `text` took the editor from `before` to `after` with
/// the action `r`: the text is read in the current form and written in the
/// other; an item with sets or binaries stays typed.
pub open spec fn toggle_spec(before: EditView, after: EditView, text: Seq<char>, r: EditAction) -> bool {
    &&& after.table_description == before.table_description
    &&& after.editing == before.editing
    &&& after.helps == before.helps
    &&& after.helps_short == before.helps_short
    &&& match parsed(before.mode, text) {
        Err(e) => r == EditAction::Idle && after.mode == before.mode && shows(after.error, e),
        Ok(es) => if before.mode == JsonMode::Typed && !item_plain_convertible(es) {
            r == EditAction::Idle && after.mode == before.mode && shows(after.error, not_plain_msg())
        } else {
            let schema = before.table_description.key_schema_type;
            &&& after.error is None
            &&& before.mode == JsonMode::Typed ==> after.mode == JsonMode::Plain
                && replaces(r, pretty(plain_item(es, schema), Seq::empty()))
            &&& before.mode == JsonMode::Plain ==> after.mode == JsonMode::Typed
                && replaces(r, pretty(typed_item(es, schema), Seq::empty()))
        },
    }
}

/// The document an item is written as in a form.
pub open spec fn mode_document(mode: JsonMode, es: Seq<(Seq<char>, crate::data::AttrV)>, schema: crate::data::KeySchemaType) -> crate::json_view::JsonV {
    match mode {
        JsonMode::Typed => typed_item(es, schema),
        JsonMode::Plain => plain_item(es, schema),
    }
}

/// Whether `serde_json` reads back the printed documents of an item in both
/// forms (see [`serde_reads_back`]).
pub open spec fn documents_read_back(es: Seq<(Seq<char>, crate::data::AttrV)>, schema: crate::data::KeySchemaType) -> bool {
    &&& serde_reads_back(mode_document(JsonMode::Typed, es, schema))
    &&& serde_reads_back(mode_document(JsonMode::Plain, es, schema))
}

/// Switching the form of an item's JSON replaces the text with the item's
/// document in the other form, and that text reads, in the other form, as
/// the attributes the text held (each zero unsigned: the same attributes up
/// to the value of their numbers); switching once more brings back the
/// first form, clears the error, and gives a text that reads as the same
/// attributes again. This holds where `serde_json` reads each printed
/// document back (see [`serde_reads_back`]) and `rust_decimal` and base64
/// read back what they wrote.
pub proof fn lemma_toggle_twice(
    v0: EditView,
    v1: EditView,
    v2: EditView,
    t0: Seq<char>,
    t1: Seq<char>,
    r1: EditAction,
    r2: EditAction,
    es: Seq<(Seq<char>, crate::data::AttrV)>,
)
    requires
        parsed(v0.mode, t0) == Ok::<Seq<(Seq<char>, crate::data::AttrV)>, Seq<char>>(es),
        v0.mode == JsonMode::Plain || item_plain_convertible(es),
        entries_wf(es),
        toggle_spec(v0, v1, t0, r1),
        replaces(r1, t1),
        toggle_spec(v1, v2, t1, r2),
        crate::round_trip::decimals_read_back(),
        crate::round_trip::base64_reads_back(),
        documents_read_back(es, v0.table_description.key_schema_type),
        documents_read_back(unsign_entries(es), v0.table_description.key_schema_type),
    ensures
        v1.mode != v0.mode,
        v1.error is None,
        t1 == pretty(mode_document(v1.mode, es, v0.table_description.key_schema_type), Seq::empty()),
        parsed(v1.mode, t1) == Ok::<Seq<(Seq<char>, crate::data::AttrV)>, Seq<char>>(unsign_entries(es)),
        v2.mode == v0.mode,
        v2.error is None,
        r2 matches EditAction::ReplaceText(t2) && parsed(v2.mode, t2@) == Ok::<
            Seq<(Seq<char>, crate::data::AttrV)>,
            Seq<char>,
        >(unsign_entries(es)),
{
    let schema = v0.table_description.key_schema_type;
    let u = unsign_entries(es);
    if v0.mode == JsonMode::Plain {
        crate::item_json::lemma_plain_parse_convertible(t0);
    }
    crate::round_trip::lemma_unsign_plain_entries(es);
    crate::round_trip::lemma_unsign_item(es);
    lemma_typed_text_round_trip(es, schema);
    lemma_plain_text_round_trip(es, schema);
    lemma_typed_text_round_trip(u, schema);
    if item_plain_convertible(u) {
        lemma_plain_text_round_trip(u, schema);
    }
}

impl EditView {
    /// An editor for `item`, or for a new item when there is none. Returns
    /// the editor, in typed form, and the text to edit: the typed JSON of the
    /// item, or of a new item holding the key attributes as empty strings.
    pub fn new(table_description: TableDescription, item: Option<Item>) -> (r: (EditView, String))
        requires
            item matches Some(it) ==> entries_wf(it@),
        ensures
            r.0.table_description == table_description,
            r.0.editing == item is Some,
            r.0.mode == JsonMode::Typed,
            r.0.error is None,
            helps_view(r.0.helps@) == edit_helps(),
            short_helps_view(r.0.helps_short@) == edit_short_helps(),
            r.1@ == pretty(
                typed_item(
                    match item {
                        Some(it) => it@,
                        None => skeleton(table_description.key_schema_type),
                    },
                    table_description.key_schema_type,
                ),
                Seq::empty(),
            ),
    {
        let editing = item.is_some();
        let initial = match item {
            Some(it) => it,
            None => new_item_skeleton(&table_description.key_schema_type),
        };
        let json = typed_json_text(&initial, &table_description.key_schema_type);
        let view = EditView {
            table_description,
            editing,
            mode: JsonMode::Typed,
            error: None,
            helps: build_helps(),
            helps_short: build_short_helps(),
        };
        (view, json)
    }

    /// The item the text stands for in the current form.
    fn current_item(&self, text: &str) -> (r: Result<Item, String>)
        ensures
            item_result(r) == parsed(self.mode, text@),
            r matches Ok(it) ==> entries_wf(it@),
    {
        match self.mode {
            JsonMode::Typed => item_from_typed_json(text),
            JsonMode::Plain => item_from_plain_json(text),
        }
    }

    /// Saves the item the text stands for: when it reads and carries the key
    /// attributes, asks to save it; otherwise shows why not.
    fn save(&mut self, text: &str) -> (r: EditAction)
        ensures
            save_spec(*old(self), *final(self), text@, r),
    {
        let item = match self.current_item(text) {
            Ok(item) => item,
            Err(e) => {
                self.error = Some(e);
                return EditAction::Idle;
            },
        };
        match validate_has_keys(&item, &self.table_description.key_schema_type) {
            Ok(()) => EditAction::SaveItem(item),
            Err(e) => {
                self.error = Some(e);
                EditAction::Idle
            },
        }
    }

    /// Switches between typed and plain JSON: the text is read in the
    /// current form and written in the other. An item with sets or binaries
    /// stays in typed form.
    fn toggle_mode(&mut self, text: &str) -> (r: EditAction)
        ensures
            toggle_spec(*old(self), *final(self), text@, r),
    {
        let item = match self.current_item(text) {
            Ok(item) => item,
            Err(e) => {
                self.error = Some(e);
                return EditAction::Idle;
            },
        };
        match self.mode {
            JsonMode::Typed => {
                if !is_plain_convertible(&item) {
                    self.error = Some(
                        "can't switch to plain: item has set/binary attributes".to_owned(),
                    );
                    return EditAction::Idle;
                }
                let json = plain_json_text(&item, &self.table_description.key_schema_type);
                self.mode = JsonMode::Plain;
                self.error = None;
                EditAction::ReplaceText(json)
            },
            JsonMode::Plain => {
                let json = typed_json_text(&item, &self.table_description.key_schema_type);
                self.mode = JsonMode::Typed;
                self.error = None;
                EditAction::ReplaceText(json)
            },
        }
    }

    /// Reacts to a key press, `text` being what the text area holds: save
    /// takes precedence, then the switch of form, then cancel; any other key
    /// edits the text and clears the error.
    pub fn handle_user_key_event(&mut self, user_events: Vec<UserEvent>, text: &str) -> (r: EditAction)
        ensures
            final(self).table_description == old(self).table_description,
            final(self).editing == old(self).editing,
            final(self).helps == old(self).helps,
            final(self).helps_short == old(self).helps_short,
            user_events@.contains(UserEvent::Save) ==> save_spec(*old(self), *final(self), text@, r),
            !user_events@.contains(UserEvent::Save) && user_events@.contains(UserEvent::ToggleJsonMode)
                ==> toggle_spec(*old(self), *final(self), text@, r),
            !user_events@.contains(UserEvent::Save) && !user_events@.contains(UserEvent::ToggleJsonMode)
                && user_events@.contains(UserEvent::Reset) ==> r == EditAction::Back
                && final(self).mode == old(self).mode && final(self).error == old(self).error,
            !user_events@.contains(UserEvent::Save) && !user_events@.contains(UserEvent::ToggleJsonMode)
                && !user_events@.contains(UserEvent::Reset) ==> r == EditAction::EditText
                && final(self).mode == old(self).mode && final(self).error is None,
    {
        if has_event(&user_events, UserEvent::Save) {
            return self.save(text);
        }
        if has_event(&user_events, UserEvent::ToggleJsonMode) {
            return self.toggle_mode(text);
        }
        if has_event(&user_events, UserEvent::Reset) {
            return EditAction::Back;
        }
        self.error = None;
        EditAction::EditText
    }

    /// The status-line help entries.
    pub fn short_helps(&self) -> (r: &Vec<ShortHelpItem>)
        ensures
            r == &self.helps_short,
    {
        &self.helps_short
    }
}

} // verus!
