//! What the views react to: the user events a key press maps to, the key
//! itself, and the help entries that describe the events of a view.
use vstd::prelude::*;

verus! {

/// An action of the user, as the key map names it.
#[derive(Clone, Copy, Debug, PartialEq, Eq, Structural, Hash)]
pub enum UserEvent {
    Quit,
    Help,
    Reset,
    Confirm,
    Up,
    Down,
    Left,
    Right,
    PageUp,
    PageDown,
    GoToTop,
    GoToBottom,
    NextPane,
    Save,
    ToggleJsonMode,
    Patterns,
}

/// Whether the events of a key press include `e`.
pub fn has_event(events: &Vec<UserEvent>, e: UserEvent) -> (r: bool)
    ensures
        r == events@.contains(e),
{
    let mut i: usize = 0;
    while i < events.len()
        invariant
            i <= events.len(),
            forall|j: int| 0 <= j < i ==> events@[j] != e,
        decreases events.len() - i,
    {
        if events[i] == e {
            assert(events@[i as int] == e);
            return true;
        }
        i += 1;
    }
    false
}

/// The first of the events of a key press that a view handles, if any: a
/// view reacts to that one alone.
pub open spec fn first_handled(events: Seq<UserEvent>, handles: spec_fn(UserEvent) -> bool) -> Option<
    UserEvent,
>
    decreases events.len(),
{
    if events.len() == 0 {
        None
    } else if handles(events[0]) {
        Some(events[0])
    } else {
        first_handled(events.drop_first(), handles)
    }
}

/// Past events that a view does not handle, the first handled event is that
/// of the rest.
pub proof fn lemma_first_handled_skip(
    events: Seq<UserEvent>,
    handles: spec_fn(UserEvent) -> bool,
    i: int,
)
    requires
        0 <= i <= events.len(),
        forall|j: int| 0 <= j < i ==> !handles(#[trigger] events[j]),
    ensures
        first_handled(events, handles) == first_handled(events.subrange(i, events.len() as int), handles),
    decreases i,
{
    if i > 0 {
        let rest = events.drop_first();
        assert forall|j: int| 0 <= j < i - 1 implies !handles(#[trigger] rest[j]) by {
            assert(rest[j] == events[j + 1]);
        }
        lemma_first_handled_skip(rest, handles, i - 1);
        assert(rest.subrange(i - 1, rest.len() as int) =~= events.subrange(i, events.len() as int));
    } else {
        assert(events.subrange(0, events.len() as int) =~= events);
    }
}

/// The key of a key press, as far as the views read it.
#[derive(Clone, Copy, Debug, PartialEq, Eq, Structural)]
pub enum KeyCode {
    Char(char),
    Backspace,
    Delete,
    Left,
    Right,
    Up,
    Down,
    Home,
    End,
    BackTab,
    Other,
}

/// A key press: the key and the modifier bits held with it (shift 1,
/// control 2, alt 4, super 8, hyper 16, meta 32).
#[derive(Clone, Copy, Debug, PartialEq, Eq, Structural)]
pub struct Key {
    pub code: KeyCode,
    pub modifiers: u8,
}

/// The control modifier bit.
pub const CONTROL: u8 = 2;

impl Key {
    /// Whether control was held.
    pub open spec fn ctrl_spec(self) -> bool {
        self.modifiers & CONTROL == CONTROL
    }

    /// Whether control was held.
    pub fn ctrl(&self) -> (r: bool)
        ensures
            r == self.ctrl_spec(),
    {
        self.modifiers & CONTROL == CONTROL
    }
}

/// An entry of a view's help page: the events and what they do.
#[derive(Clone, Debug, PartialEq, Eq)]
pub struct HelpItem {
    pub events: Vec<UserEvent>,
    pub desc: String,
}

/// An entry of a view's status-line help: the events, a short description,
/// and a priority (lower is shown first when space runs out).
#[derive(Clone, Debug, PartialEq, Eq)]
pub struct ShortHelpItem {
    pub events: Vec<UserEvent>,
    pub desc: String,
    pub priority: u8,
}

/// The value of a help entry.
pub open spec fn help_view(h: HelpItem) -> (Seq<UserEvent>, Seq<char>) {
    (h.events@, h.desc@)
}

/// The value of a status-line help entry.
pub open spec fn short_help_view(h: ShortHelpItem) -> (Seq<UserEvent>, Seq<char>, u8) {
    (h.events@, h.desc@, h.priority)
}

/// The values of help entries.
pub open spec fn helps_view(v: Seq<HelpItem>) -> Seq<(Seq<UserEvent>, Seq<char>)> {
    v.map_values(|h: HelpItem| help_view(h))
}

/// The values of status-line help entries.
pub open spec fn short_helps_view(v: Seq<ShortHelpItem>) -> Seq<(Seq<UserEvent>, Seq<char>, u8)> {
    v.map_values(|h: ShortHelpItem| short_help_view(h))
}

/// A help entry for one event.
pub fn help(e: UserEvent, desc: &str) -> (r: HelpItem)
    ensures
        help_view(r) == (seq![e], desc@),
{
    let mut events = Vec::new();
    events.push(e);
    let r = HelpItem { events, desc: desc.to_owned() };
    assert(r.events@ =~= seq![e]);
    r
}

/// A status-line help entry for one event.
pub fn short_help(e: UserEvent, desc: &str, priority: u8) -> (r: ShortHelpItem)
    ensures
        short_help_view(r) == (seq![e], desc@, priority),
{
    let mut events = Vec::new();
    events.push(e);
    let r = ShortHelpItem { events, desc: desc.to_owned(), priority };
    assert(r.events@ =~= seq![e]);
    r
}

/// A status-line help entry for two events that share a description.
pub fn short_help_pair(a: UserEvent, b: UserEvent, desc: &str, priority: u8) -> (r: ShortHelpItem)
    ensures
        short_help_view(r) == (seq![a, b], desc@, priority),
{
    let mut events = Vec::new();
    events.push(a);
    events.push(b);
    let r = ShortHelpItem { events, desc: desc.to_owned(), priority };
    assert(r.events@ =~= seq![a, b]);
    r
}

} // verus!
