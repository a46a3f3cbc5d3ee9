//! The application's own decisions, apart from the views: which key presses
//! reach the current view, what the status line shows, whether the loading
//! dialog is up, and what follows when a call to DynamoDB completes. The
//! application performs the effects these decisions return, in order.
use vstd::prelude::*;

use crate::data::{Item, QueryRequest, Table, TableDescription};
use crate::event::{UserEvent, has_event};
use crate::text::{concat3, copy_str};

verus! {

/// Connection parameters needed to build a client once a profile is chosen.
#[derive(Clone, Debug, PartialEq, Eq)]
pub struct ConnParams {
    pub region: Option<String>,
    pub endpoint_url: Option<String>,
    pub default_region: String,
}

/// What the status line shows.
#[derive(Debug, PartialEq, Eq)]
pub enum Status {
    /// The short help of the current view.
    Clear,
    NotificationSuccess(String),
    NotificationWarning(String),
    NotificationError(String),
    /// A prompt, with the cursor's column when there is one.
    Input(String, Option<u16>),
}

/// What becomes of a key press.
#[derive(Clone, Copy, Debug, PartialEq, Eq, Structural)]
pub enum KeyVerdict {
    /// Leave the application.
    Quit,
    /// Drop the key press.
    Ignore,
    /// Hand the key press to the current view.
    Forward,
}

/// What the application is to do next.
#[derive(Debug, PartialEq, Eq)]
pub enum AppEffect {
    /// Build a client for the profile.
    ConnectClient(String),
    /// List the tables.
    ListTables,
    /// Describe the table.
    DescribeTable(String),
    /// Scan the first items of the table.
    ScanItems(TableDescription),
    /// Load the table's items again (see [`AppState::load_table_items`]).
    LoadTableItems(TableDescription),
    /// Run the query on the table.
    QueryItems(TableDescription, QueryRequest),
    /// Put the item in the table.
    PutItem(TableDescription, Item),
    /// Delete the item from the table.
    DeleteItem(TableDescription, Item),
    /// Leave the current view for the one below it.
    PopView,
    /// Show the tables in place of the current view.
    ReplaceWithTableList(Vec<Table>),
    /// Give the table list the description of its selected table.
    SetTableDescription(TableDescription),
    /// Show the items of the table.
    PushTable(TableDescription, Vec<Item>),
    /// Show a message.
    Notify(Status),
}

/// Whether an effect shows the message `msg` of the given kind (0 success,
/// 1 warning, 2 error).
pub open spec fn notifies(e: AppEffect, kind: int, msg: Seq<char>) -> bool {
    match e {
        AppEffect::Notify(Status::NotificationSuccess(m)) => kind == 0 && m@ == msg,
        AppEffect::Notify(Status::NotificationWarning(m)) => kind == 1 && m@ == msg,
        AppEffect::Notify(Status::NotificationError(m)) => kind == 2 && m@ == msg,
        _ => false,
    }
}

/// The status line and the loading dialog.
pub struct AppState {
    pub status: Status,
    pub loading: bool,
}

impl AppState {
    /// The state at start: loading when a profile was given on the command
    /// line (the client is then built at once), otherwise waiting on the
    /// profile picker.
    pub fn new(profile_given: bool) -> (r: AppState)
        ensures
            r.status == Status::Clear,
            r.loading == profile_given,
    {
        AppState { status: Status::Clear, loading: profile_given }
    }

    /// Decides what becomes of a key press: quit always quits; while
    /// loading, nothing else gets through; a success or warning message is
    /// cleared and the key passes; an error message is cleared and the key
    /// dropped, or, on the start-up view, the application quits.
    pub fn on_key(&mut self, user_events: &Vec<UserEvent>, at_init_view: bool) -> (r: KeyVerdict)
        ensures
            user_events@.contains(UserEvent::Quit) ==> r == KeyVerdict::Quit,
            !user_events@.contains(UserEvent::Quit) && old(self).loading ==> r == KeyVerdict::Ignore
                && final(self).status == old(self).status,
            !user_events@.contains(UserEvent::Quit) && !old(self).loading ==> match old(self).status {
                Status::Clear | Status::Input(_, _) => r == KeyVerdict::Forward
                    && final(self).status == old(self).status,
                Status::NotificationSuccess(_) | Status::NotificationWarning(_) => r
                    == KeyVerdict::Forward && final(self).status == Status::Clear,
                Status::NotificationError(_) => if at_init_view {
                    r == KeyVerdict::Quit
                } else {
                    r == KeyVerdict::Ignore && final(self).status == Status::Clear
                },
            },
            final(self).loading == old(self).loading,
    {
        if has_event(user_events, UserEvent::Quit) {
            return KeyVerdict::Quit;
        }
        if self.loading {
            return KeyVerdict::Ignore;
        }
        match self.status {
            Status::Clear | Status::Input(_, _) => KeyVerdict::Forward,
            Status::NotificationSuccess(_) | Status::NotificationWarning(_) => {
                self.status = Status::Clear;
                KeyVerdict::Forward
            },
            Status::NotificationError(_) => {
                if at_init_view {
                    KeyVerdict::Quit
                } else {
                    self.status = Status::Clear;
                    KeyVerdict::Ignore
                }
            },
        }
    }

    /// A profile was chosen: build its client, loading meanwhile.
    pub fn select_profile(&mut self, profile: String) -> (r: Vec<AppEffect>)
        ensures
            final(self).loading,
            final(self).status == old(self).status,
            r@ == seq![AppEffect::ConnectClient(profile)],
    {
        self.loading = true;
        let mut r = Vec::new();
        r.push(AppEffect::ConnectClient(profile));
        assert(r@ =~= seq![AppEffect::ConnectClient(profile)]);
        r
    }

    /// The client is ready: list the tables.
    pub fn client_ready(&self) -> (r: Vec<AppEffect>)
        ensures
            r@ == seq![AppEffect::ListTables],
    {
        let mut r = Vec::new();
        r.push(AppEffect::ListTables);
        assert(r@ =~= seq![AppEffect::ListTables]);
        r
    }

    /// The tables were listed: show them in place of the start-up view and
    /// describe the first of them, which the list selects (the loading dialog
    /// stays until that description arrives); with no tables, or on an error,
    /// say so and stop loading.
    pub fn complete_initialize(&mut self, result: Result<Vec<Table>, String>) -> (r: Vec<AppEffect>)
        ensures
            final(self).status == old(self).status,
            match result {
                Ok(tables) => if tables@.len() == 0 {
                    !final(self).loading && r@.len() == 1 && notifies(r@[0], 1, "No tables found."@)
                } else {
                    &&& final(self).loading
                    &&& r@.len() == 2
                    &&& r@[0] == AppEffect::ReplaceWithTableList(tables)
                    &&& r@[1] matches AppEffect::DescribeTable(n) && n@ == tables@[0].name@
                },
                Err(e) => !final(self).loading && r@.len() == 1 && notifies(r@[0], 2, e@),
            },
    {
        let mut r = Vec::new();
        match result {
            Ok(tables) => {
                if tables.len() == 0 {
                    self.loading = false;
                    r.push(AppEffect::Notify(Status::NotificationWarning(copy_str("No tables found."))));
                } else {
                    let ghost t = tables;
                    let first = copy_str(tables[0].name.as_str());
                    r.push(AppEffect::ReplaceWithTableList(tables));
                    r.push(AppEffect::DescribeTable(first));
                    self.loading = true;
                    assert(r@[0] == AppEffect::ReplaceWithTableList(t));
                }
            },
            Err(e) => {
                r.push(AppEffect::Notify(Status::NotificationError(e)));
                self.loading = false;
            },
        }
        r
    }

    /// A table's description is wanted: describe it, loading meanwhile.
    pub fn load_table_description(&mut self, name: String) -> (r: Vec<AppEffect>)
        ensures
            final(self).loading,
            final(self).status == old(self).status,
            r@ == seq![AppEffect::DescribeTable(name)],
    {
        self.loading = true;
        let mut r = Vec::new();
        r.push(AppEffect::DescribeTable(name));
        assert(r@ =~= seq![AppEffect::DescribeTable(name)]);
        r
    }

    /// A table was described: hand the description to the table list (or
    /// show the error); loading is over.
    pub fn complete_load_table_description(&mut self, result: Result<TableDescription, String>) -> (r: Vec<AppEffect>)
        ensures
            !final(self).loading,
            final(self).status == old(self).status,
            match result {
                Ok(desc) => r@ == seq![AppEffect::SetTableDescription(desc)],
                Err(e) => r@.len() == 1 && notifies(r@[0], 2, e@),
            },
    {
        let mut r = Vec::new();
        match result {
            Ok(desc) => {
                let ghost d = desc;
                r.push(AppEffect::SetTableDescription(desc));
                assert(r@ =~= seq![AppEffect::SetTableDescription(d)]);
            },
            Err(e) => {
                r.push(AppEffect::Notify(Status::NotificationError(e)));
            },
        }
        self.loading = false;
        r
    }

    /// A table's items are wanted: scan them, loading meanwhile.
    pub fn load_table_items(&mut self, desc: TableDescription) -> (r: Vec<AppEffect>)
        ensures
            final(self).loading,
            final(self).status == old(self).status,
            r@ == seq![AppEffect::ScanItems(desc)],
    {
        self.loading = true;
        let mut r = Vec::new();
        r.push(AppEffect::ScanItems(desc));
        assert(r@ =~= seq![AppEffect::ScanItems(desc)]);
        r
    }

    /// Items were loaded (by a scan or a query): a table view showing older
    /// items is left first; then the items are shown, or, when there are
    /// none, a warning names the table; on an error, the error is shown.
    /// Loading is over.
    pub fn complete_load_table_items(
        &mut self,
        desc: TableDescription,
        result: Result<Vec<Item>, String>,
        at_table_view: bool,
    ) -> (r: Vec<AppEffect>)
        ensures
            !final(self).loading,
            final(self).status == old(self).status,
            match result {
                Ok(items) => {
                    let shown = if at_table_view {
                        r@.len() >= 1 && r@[0] == AppEffect::PopView && r@.len() == 2
                    } else {
                        r@.len() == 1
                    };
                    let last = r@[r@.len() - 1];
                    shown && if items@.len() == 0 {
                        notifies(
                            last,
                            1,
                            "Table "@ + desc.table_name@ + " has no items"@,
                        )
                    } else {
                        last == AppEffect::PushTable(desc, items)
                    }
                },
                Err(e) => r@.len() == 1 && notifies(r@[0], 2, e@),
            },
    {
        let mut r = Vec::new();
        match result {
            Ok(items) => {
                if at_table_view {
                    r.push(AppEffect::PopView);
                }
                if items.len() == 0 {
                    let msg = concat3("Table ", desc.table_name.as_str(), " has no items");
                    r.push(AppEffect::Notify(Status::NotificationWarning(msg)));
                } else {
                    r.push(AppEffect::PushTable(desc, items));
                }
            },
            Err(e) => {
                r.push(AppEffect::Notify(Status::NotificationError(e)));
            },
        }
        self.loading = false;
        r
    }

    /// A query was submitted: leave the query form and run it, loading
    /// meanwhile; its items replace the table view below the form.
    pub fn run_query(&mut self, desc: TableDescription, request: QueryRequest) -> (r: Vec<AppEffect>)
        ensures
            final(self).loading,
            final(self).status == old(self).status,
            r@ == seq![AppEffect::PopView, AppEffect::QueryItems(desc, request)],
    {
        self.loading = true;
        let mut r = Vec::new();
        r.push(AppEffect::PopView);
        r.push(AppEffect::QueryItems(desc, request));
        assert(r@ =~= seq![AppEffect::PopView, AppEffect::QueryItems(desc, request)]);
        r
    }

    /// An item is to be saved: put it, loading meanwhile.
    pub fn save_item(&mut self, desc: TableDescription, item: Item) -> (r: Vec<AppEffect>)
        ensures
            final(self).loading,
            final(self).status == old(self).status,
            r@ == seq![AppEffect::PutItem(desc, item)],
    {
        self.loading = true;
        let mut r = Vec::new();
        r.push(AppEffect::PutItem(desc, item));
        assert(r@ =~= seq![AppEffect::PutItem(desc, item)]);
        r
    }

    /// An item was saved: leave the editor, say so, and reload the table's
    /// items; on an error, stay in the editor so that no edit is lost, and
    /// show the error. Loading is over.
    pub fn complete_save_item(&mut self, desc: TableDescription, result: Result<(), String>) -> (r: Vec<AppEffect>)
        ensures
            !final(self).loading,
            final(self).status == old(self).status,
            match result {
                Ok(()) => r@.len() == 3 && r@[0] == AppEffect::PopView && notifies(
                    r@[1],
                    0,
                    "Item saved"@,
                ) && r@[2] == AppEffect::LoadTableItems(desc),
                Err(e) => r@.len() == 1 && notifies(r@[0], 2, e@),
            },
    {
        self.loading = false;
        let mut r = Vec::new();
        match result {
            Ok(()) => {
                r.push(AppEffect::PopView);
                r.push(AppEffect::Notify(Status::NotificationSuccess(copy_str("Item saved"))));
                r.push(AppEffect::LoadTableItems(desc));
            },
            Err(e) => {
                r.push(AppEffect::Notify(Status::NotificationError(e)));
            },
        }
        r
    }

    /// An item is to be deleted: delete it, loading meanwhile.
    pub fn delete_item(&mut self, desc: TableDescription, item: Item) -> (r: Vec<AppEffect>)
        ensures
            final(self).loading,
            final(self).status == old(self).status,
            r@ == seq![AppEffect::DeleteItem(desc, item)],
    {
        self.loading = true;
        let mut r = Vec::new();
        r.push(AppEffect::DeleteItem(desc, item));
        assert(r@ =~= seq![AppEffect::DeleteItem(desc, item)]);
        r
    }

    /// An item was deleted: say so and reload the table's items; on an
    /// error, show it. Loading is over.
    pub fn complete_delete_item(&mut self, desc: TableDescription, result: Result<(), String>) -> (r: Vec<AppEffect>)
        ensures
            !final(self).loading,
            final(self).status == old(self).status,
            match result {
                Ok(()) => r@.len() == 2 && notifies(r@[0], 0, "Item deleted"@) && r@[1]
                    == AppEffect::LoadTableItems(desc),
                Err(e) => r@.len() == 1 && notifies(r@[0], 2, e@),
            },
    {
        self.loading = false;
        let mut r = Vec::new();
        match result {
            Ok(()) => {
                r.push(AppEffect::Notify(Status::NotificationSuccess(copy_str("Item deleted"))));
                r.push(AppEffect::LoadTableItems(desc));
            },
            Err(e) => {
                r.push(AppEffect::Notify(Status::NotificationError(e)));
            },
        }
        r
    }

    /// Something was copied to the clipboard (or not): say so.
    pub fn copied_to_clipboard(&self, name: &str, result: Result<(), String>) -> (r: Vec<AppEffect>)
        ensures
            r@.len() == 1,
            match result {
                Ok(()) => notifies(
                    r@[0],
                    0,
                    "Copied "@ + name@ + " to clipboard successfully"@,
                ),
                Err(e) => notifies(r@[0], 2, e@),
            },
    {
        let mut r = Vec::new();
        match result {
            Ok(()) => {
                let msg = concat3("Copied ", name, " to clipboard successfully");
                r.push(AppEffect::Notify(Status::NotificationSuccess(msg)));
            },
            Err(e) => {
                r.push(AppEffect::Notify(Status::NotificationError(e)));
            },
        }
        r
    }

    /// Shows a status: a message, a prompt, or the short help again.
    pub fn set_status(&mut self, status: Status)
        ensures
            final(self).status == status,
            final(self).loading == old(self).loading,
    {
        self.status = status;
    }
}

} // verus!
