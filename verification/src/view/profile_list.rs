//! The profile picker: a list of AWS profiles to choose from.
use vstd::prelude::*;

use crate::event::{
    HelpItem, ShortHelpItem, UserEvent, first_handled, help, helps_view, lemma_first_handled_skip,
    short_help, short_help_pair, short_helps_view,
};
use crate::scroll_list::ScrollListState;

verus! {

/// What the profile picker asks of the application.
#[derive(Debug, PartialEq, Eq)]
pub enum ProfileAction {
    Idle,
    SelectProfile(String),
    OpenHelp(Vec<HelpItem>),
}

/// The profile picker.
pub struct ProfileListView {
    pub profiles: Vec<String>,
    pub list_state: ScrollListState,
    pub helps: Vec<HelpItem>,
    pub helps_short: Vec<ShortHelpItem>,
}

/// The help page of the profile picker.
pub open spec fn profile_helps() -> Seq<(Seq<UserEvent>, Seq<char>)> {
    seq![
        (seq![UserEvent::Quit], "Quit app"@),
        (seq![UserEvent::Down], "Select next"@),
        (seq![UserEvent::Up], "Select previous"@),
        (seq![UserEvent::Confirm], "Use profile"@),
    ]
}

/// The status-line help of the profile picker.
pub open spec fn profile_short_helps() -> Seq<(Seq<UserEvent>, Seq<char>, u8)> {
    seq![
        (seq![UserEvent::Quit], "Quit"@, 0u8),
        (seq![UserEvent::Down, UserEvent::Up], "Select"@, 2u8),
        (seq![UserEvent::Confirm], "Use profile"@, 1u8),
    ]
}

/// The events the profile picker reacts to.
pub open spec fn profile_handles() -> spec_fn(UserEvent) -> bool {
    |e: UserEvent|
        e == UserEvent::Down || e == UserEvent::Up || e == UserEvent::PageDown || e
            == UserEvent::PageUp || e == UserEvent::GoToTop || e == UserEvent::GoToBottom || e
            == UserEvent::Confirm || e == UserEvent::Help
}

fn handles(e: UserEvent) -> (r: bool)
    ensures
        r == profile_handles()(e),
{
    match e {
        UserEvent::Down | UserEvent::Up | UserEvent::PageDown | UserEvent::PageUp
        | UserEvent::GoToTop | UserEvent::GoToBottom | UserEvent::Confirm | UserEvent::Help => true,
        _ => false,
    }
}

/// The help page entries (see [`profile_helps`]).
pub fn build_helps() -> (r: Vec<HelpItem>)
    ensures
        helps_view(r@) == profile_helps(),
{
    let mut v = Vec::new();
    v.push(help(UserEvent::Quit, "Quit app"));
    v.push(help(UserEvent::Down, "Select next"));
    v.push(help(UserEvent::Up, "Select previous"));
    v.push(help(UserEvent::Confirm, "Use profile"));
    assert(helps_view(v@) =~= profile_helps());
    v
}

/// The status-line help entries (see [`profile_short_helps`]).
pub fn build_short_helps() -> (r: Vec<ShortHelpItem>)
    ensures
        short_helps_view(r@) == profile_short_helps(),
{
    let mut v = Vec::new();
    v.push(short_help(UserEvent::Quit, "Quit", 0));
    v.push(short_help_pair(UserEvent::Down, UserEvent::Up, "Select", 2));
    v.push(short_help(UserEvent::Confirm, "Use profile", 1));
    assert(short_helps_view(v@) =~= profile_short_helps());
    v
}

/// What handling key events keeps of a profile list: its profiles and its
/// help lines (see [`ProfileListView::handle_user_key_event`]).
pub open spec fn keeps_helps(before: ProfileListView, after: ProfileListView) -> bool {
    &&& after.profiles == before.profiles
    &&& after.helps == before.helps
    &&& after.helps_short == before.helps_short
}

/// The status-line help of a profile list stays what it was made with,
/// whatever key events are handled: for every run of states that begins
/// with a new list and where each state comes from handling key events in
/// the one before, every state shows the same short help.
pub proof fn lemma_short_helps_stay(states: Seq<ProfileListView>)
    requires
        states.len() > 0,
        short_helps_view(states[0].helps_short@) == profile_short_helps(),
        forall|i: int| 0 <= i < states.len() - 1 ==> keeps_helps(#[trigger] states[i], states[i + 1]),
    ensures
        forall|i: int|
            0 <= i < states.len() ==> short_helps_view((#[trigger] states[i]).helps_short@)
                == profile_short_helps(),
    decreases states.len(),
{
    if states.len() > 1 {
        let p = states.drop_last();
        assert forall|i: int| 0 <= i < p.len() - 1 implies keeps_helps(#[trigger] p[i], p[i + 1]) by {
            assert(p[i] == states[i] && p[i + 1] == states[i + 1]);
        }
        lemma_short_helps_stay(p);
        assert forall|i: int| 0 <= i < states.len() implies short_helps_view((#[trigger] states[i]).helps_short@)
            == profile_short_helps() by {
            if i < states.len() - 1 {
                assert(p[i] == states[i]);
            } else {
                assert(p[i - 1] == states[i - 1]);
                assert(keeps_helps(states[i - 1], states[i]));
            }
        }
    }
}

impl ProfileListView {
    /// The list state covers the profiles.
    pub open spec fn wf(self) -> bool {
        self.list_state.wf() && self.list_state.total == self.profiles.len()
    }

    /// A picker over `profiles`, the first selected.
    pub fn new(profiles: Vec<String>) -> (r: ProfileListView)
        ensures
            r.wf(),
            r.profiles@ == profiles@,
            r.list_state == ScrollListState::new_spec(profiles.len()),
            helps_view(r.helps@) == profile_helps(),
            short_helps_view(r.helps_short@) == profile_short_helps(),
    {
        let list_state = ScrollListState::new(profiles.len());
        ProfileListView {
            profiles,
            list_state,
            helps: build_helps(),
            helps_short: build_short_helps(),
        }
    }

    /// The selected profile, if the list is not empty.
    pub fn selected(&self) -> (r: Option<&String>)
        requires
            self.wf(),
        ensures
            r == if self.list_state.selected < self.profiles.len() {
                Some(&self.profiles@[self.list_state.selected as int])
            } else {
                None
            },
    {
        if self.list_state.selected < self.profiles.len() {
            Some(&self.profiles[self.list_state.selected])
        } else {
            None
        }
    }

    /// Reacts to the first event of a key press that the picker handles:
    /// moves the selection (down, up, a page down or up, to the top or the
    /// bottom), asks to use the selected profile, or asks for the help page.
    pub fn handle_user_key_event(&mut self, user_events: Vec<UserEvent>) -> (r: ProfileAction)
        requires
            old(self).wf(),
        ensures
            final(self).wf(),
            keeps_helps(*old(self), *final(self)),
            match first_handled(user_events@, profile_handles()) {
                None => r == ProfileAction::Idle && final(self).list_state == old(self).list_state,
                Some(e) => {
                    &&& e == UserEvent::Down ==> final(self).list_state == old(self).list_state.next_spec()
                        && r == ProfileAction::Idle
                    &&& e == UserEvent::Up ==> final(self).list_state == old(self).list_state.prev_spec()
                        && r == ProfileAction::Idle
                    &&& e == UserEvent::PageDown ==> final(self).list_state
                        == old(self).list_state.next_page_spec() && r == ProfileAction::Idle
                    &&& e == UserEvent::PageUp ==> final(self).list_state
                        == old(self).list_state.prev_page_spec() && r == ProfileAction::Idle
                    &&& e == UserEvent::GoToTop ==> final(self).list_state
                        == old(self).list_state.first_spec() && r == ProfileAction::Idle
                    &&& e == UserEvent::GoToBottom ==> final(self).list_state
                        == old(self).list_state.last_spec() && r == ProfileAction::Idle
                    &&& e == UserEvent::Confirm ==> final(self).list_state == old(self).list_state && (
                    if old(self).list_state.selected < old(self).profiles.len() {
                        r matches ProfileAction::SelectProfile(p) && p@ == old(
                            self,
                        ).profiles@[old(self).list_state.selected as int]@
                    } else {
                        r == ProfileAction::Idle
                    })
                    &&& e == UserEvent::Help ==> final(self).list_state == old(self).list_state && (
                    r matches ProfileAction::OpenHelp(h) && helps_view(h@) == helps_view(
                        old(self).helps@,
                    ))
                },
            },
    {
        let mut i: usize = 0;
        while i < user_events.len()
            invariant
                i <= user_events.len(),
                forall|j: int| 0 <= j < i ==> !profile_handles()(#[trigger] user_events@[j]),
                self.wf(),
                self.profiles == old(self).profiles,
                self.helps == old(self).helps,
                self.helps_short == old(self).helps_short,
                self.list_state == old(self).list_state,
            decreases user_events.len() - i,
        {
            let e = user_events[i];
            if handles(e) {
                proof {
                    lemma_first_handled_skip(user_events@, profile_handles(), i as int);
                    let rest = user_events@.subrange(i as int, user_events@.len() as int);
                    assert(rest[0] == e);
                }
                match e {
                    UserEvent::Down => self.list_state.select_next(),
                    UserEvent::Up => self.list_state.select_prev(),
                    UserEvent::PageDown => self.list_state.select_next_page(),
                    UserEvent::PageUp => self.list_state.select_prev_page(),
                    UserEvent::GoToTop => self.list_state.select_first(),
                    UserEvent::GoToBottom => self.list_state.select_last(),
                    UserEvent::Confirm => {
                        if let Some(profile) = self.selected() {
                            return ProfileAction::SelectProfile(profile.clone());
                        }
                    },
                    _ => {
                        return ProfileAction::OpenHelp(copy_helps(&self.helps));
                    },
                }
                return ProfileAction::Idle;
            }
            i += 1;
        }
        proof {
            lemma_first_handled_skip(user_events@, profile_handles(), user_events@.len() as int);
        }
        ProfileAction::Idle
    }

    /// The status-line help entries.
    pub fn short_helps(&self) -> (r: &Vec<ShortHelpItem>)
        ensures
            r == &self.helps_short,
    {
        &self.helps_short
    }
}

/// A copy of help entries.
pub fn copy_helps(v: &Vec<HelpItem>) -> (r: Vec<HelpItem>)
    ensures
        helps_view(r@) == helps_view(v@),
{
    let mut r: Vec<HelpItem> = Vec::new();
    let mut i: usize = 0;
    while i < v.len()
        invariant
            i <= v.len(),
            r@.len() == i,
            forall|k: int| 0 <= k < i ==> crate::event::help_view(#[trigger] r@[k]) == crate::event::help_view(v@[k]),
        decreases v.len() - i,
    {
        let h = &v[i];
        let mut events: Vec<UserEvent> = Vec::new();
        let mut j: usize = 0;
        while j < h.events.len()
            invariant
                j <= h.events.len(),
                events@ == h.events@.take(j as int),
            decreases h.events.len() - j,
        {
            events.push(h.events[j]);
            j += 1;
            assert(events@ =~= h.events@.take(j as int));
        }
        assert(h.events@.take(h.events.len() as int) =~= h.events@);
        r.push(HelpItem { events, desc: h.desc.clone() });
        i += 1;
    }
    assert(helps_view(r@) =~= helps_view(v@));
    r
}

} // verus!
