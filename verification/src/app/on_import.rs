//! Profiles that are made of collections and snapshots.
use vstd::prelude::*;

use super::modal::{AppModal, AsyncDialog, AsyncDialogField, AsyncDialogKey};
use super::on_profile::check_snapshot_name;
use super::state::{
    busy_message, only, show_error, Action, App, DialogOutcome, Message,
};
use crate::snapshot::archive::{
    list_incremental_snapshots, ArchiveFacts, SnapshotContainer, SnapshotType,
};
use crate::table::Table;
use crate::xcom_mod::ModId;
#[allow(unused_imports)]
use super::modal::KeyModel;
#[allow(unused_imports)]
use super::on_download::next_of;
#[allow(unused_imports)]
use super::state::{is_busy_message, only_error};
#[allow(unused_imports)]
use crate::snapshot::archive::{has_record, is_record, record_time};

verus! {

/// Whether a dialog asks for one field to be filled in.
pub open spec fn is_form(
    modal: AppModal,
    key: KeyModel,
    title: Seq<char>,
    body: Seq<char>,
    field: Seq<char>,
    ticket: u64,
) -> bool {
    &&& modal is Dialog
    &&& modal->Dialog_0.key@ == key
    &&& modal->Dialog_0.title@ == title
    &&& modal->Dialog_0.body@ == body
    &&& modal->Dialog_0.fields@.dom() == set![field]
    &&& modal->Dialog_0.ticket == ticket
}

/// What the only field of a dialog holds.
pub open spec fn form_field(modal: AppModal, field: Seq<char>) -> AsyncDialogField {
    modal->Dialog_0.fields@[field]
}

pub open spec fn is_empty_text(field: AsyncDialogField) -> bool {
    field matches AsyncDialogField::Text(text) && text@ == Seq::<char>::empty()
}

fn form(
    key: AsyncDialogKey,
    title: &str,
    body: &str,
    name: &str,
    field: AsyncDialogField,
    ticket: u64,
) -> (r: AppModal)
    ensures
        is_form(r, key@, title@, body@, name@, ticket),
        form_field(r, name@) == field,
{
    let mut fields: Table<String, AsyncDialogField> = Table::new();
    fields.insert(name.to_owned(), field);
    assert(fields@.dom() =~= set![name@]);
    AppModal::Dialog(
        AsyncDialog { key, title: title.to_owned(), body: body.to_owned(), fields, ticket },
    )
}

/// The text that was filled into a field.
pub open spec fn filled_text(fields: Map<Seq<char>, AsyncDialogField>, name: Seq<char>) -> Seq<
    char,
> {
    if fields.dom().contains(name) {
        match fields[name] {
            AsyncDialogField::Text(text) => text@,
            AsyncDialogField::TextEnum(_, _) => Seq::empty(),
        }
    } else {
        Seq::empty()
    }
}

/// The text that was filled into a field.
pub fn text_field(fields: &Table<String, AsyncDialogField>, name: &str) -> (r: String)
    ensures
        r@ == filled_text(fields@, name@),
{
    match fields.get(&name.to_owned()) {
        Some(AsyncDialogField::Text(text)) => text.clone(),
        _ => String::new(),
    }
}

/// The text that was chosen in a field.
pub fn chosen_field(fields: &Table<String, AsyncDialogField>, name: &str) -> (r: Option<String>)
    ensures
        r == if fields@.dom().contains(name@) {
            match fields@[name@] {
                AsyncDialogField::Text(_) => None,
                AsyncDialogField::TextEnum(chosen, _) => chosen,
            }
        } else {
            None
        },
{
    match fields.get(&name.to_owned()) {
        Some(AsyncDialogField::TextEnum(Some(chosen), _)) => Some(chosen.clone()),
        _ => None,
    }
}

/// What follows from a collection of which a profile is to be made: the user is
/// asked for a name, which is that of the collection at first.
pub open spec fn collection_import_asked(
    a: App,
    b: App,
    title: String,
    ids: Vec<ModId>,
    r: Seq<Action>,
) -> bool {
    &&& b == (App { next_ticket: next_of(a.next_ticket), ..a })
    &&& r.len() == 2
    &&& r[0] matches Action::Send(Message::OpenModal(modal)) && is_form(
        modal,
        KeyModel::ProfileImportCollection,
        "Set Name"@,
        ""@,
        "Name"@,
        a.next_ticket,
    ) && form_field(modal, "Name"@) == AsyncDialogField::Text(title)
    &&& r[1] == Action::AwaitDialog(a.next_ticket, DialogOutcome::ImportCollection(ids))
}

/// What follows from a snapshot of which a profile is to be made: the user is asked
/// for a name.
pub open spec fn snapshot_import_asked(a: App, b: App, r: Seq<Action>) -> bool {
    &&& b == (App { next_ticket: next_of(a.next_ticket), ..a })
    &&& r.len() == 4
    &&& r[0] == Action::Send(Message::SetBusy(true))
    &&& r[1] matches Action::Send(Message::OpenModal(modal)) && is_form(
        modal,
        KeyModel::ProfileImportSnapshot,
        "Pick Name"@,
        "Pick a name for the imported profile"@,
        "Profile Name"@,
        a.next_ticket,
    ) && is_empty_text(form_field(modal, "Profile Name"@))
    &&& r[2] == Action::AwaitDialog(a.next_ticket, DialogOutcome::ImportSnapshot)
    &&& r[3] == Action::Send(Message::SetBusy(false))
}

/// What follows from the name under which a snapshot is to be imported.
pub open spec fn snapshot_named(
    a: App,
    name: String,
    invalid: Option<String>,
    r: Seq<Action>,
) -> bool {
    if invalid is Some {
        only_error(r, "Invalid Profile Name"@, invalid->Some_0@)
    } else if a.save.tracked_profiles@.dom().contains(name@) {
        only_error(
            r,
            "Invalid Profile Name"@,
            "Profile with name '"@ + name@ + "' already exists."@,
        )
    } else {
        r == seq![Action::PickSnapshot(name)]
    }
}

/// What comes of an archive that was picked.
pub enum Picked {
    Tell(Message),
    /// The sets of changes that it holds, by their times.
    Changes(Table<i64, ()>),
    /// The times of the sets of changes cannot be read.
    Unreadable,
}

pub open spec fn archive_picked(name: String, facts: ArchiveFacts, r: Picked) -> bool {
    match facts.holds() {
        SnapshotType::Invalid => r matches Picked::Tell(Message::DisplayError(t, b)) && t@
            == "Invalid Archive"@ && b@ == "The picked zip archive was not an LXCOMM snapshot."@,
        SnapshotType::Basic => r == Picked::Tell(Message::ProfileImportBasicSnapshot(name)),
        SnapshotType::Incremental => {
            let bad = exists|i: int|
                0 <= i < facts.names@.len() && is_record((#[trigger] facts.names@[i])@)
                    && record_time(facts.names@[i]@) is None;
            if bad {
                r is Unreadable
            } else {
                r matches Picked::Changes(times) && forall|time: i64| #[trigger]
                    times@.dom().contains(time) <==> has_record(facts.names@, time)
            }
        },
    }
}

/// What comes of an archive that was picked.
pub fn pick_archive(name: String, facts: &ArchiveFacts) -> (r: Picked)
    ensures
        archive_picked(name, *facts, r),
{
    match facts.snapshot_type() {
        SnapshotType::Invalid => Picked::Tell(
            Message::DisplayError(
                "Invalid Archive".to_owned(),
                "The picked zip archive was not an LXCOMM snapshot.".to_owned(),
            ),
        ),
        SnapshotType::Basic => Picked::Tell(Message::ProfileImportBasicSnapshot(name)),
        SnapshotType::Incremental => match list_incremental_snapshots(&facts.names) {
            Ok(times) => Picked::Changes(times),
            Err(_) => Picked::Unreadable,
        },
    }
}

pub open spec fn basic_import(name: String, r: Seq<Action>) -> bool {
    &&& r.len() == 3
    &&& is_busy_message(r[0], "Importing snapshot..."@)
    &&& r[1] == Action::LoadBasicSnapshot(name)
    &&& r[2] == Action::Send(Message::SetBusy(false))
}

/// What follows from an archive with sets of changes: where there are several, the
/// user is asked for the time up to which they are applied.
pub open spec fn incremental_import(
    a: App,
    b: App,
    name: String,
    count: usize,
    dates: Vec<String>,
    r: Seq<Action>,
) -> bool {
    let told = a.modal_stack@.len() as int;
    &&& r.len() == 2
    &&& r[1] == Action::Send(Message::SetBusy(false))
    &&& b.modal_stack@.len() > told
    &&& b.modal_stack@.take(told) == a.modal_stack@
    &&& b.modal_stack@[told] matches AppModal::BusyMessage(text) && text@
        == "Importing snapshot..."@
    &&& if count <= 1 {
        &&& b == (App { modal_stack: b.modal_stack, ..a })
        &&& b.modal_stack@.len() == told + 1
        &&& r[0] == Action::LoadIncrementalSnapshot(name, None)
    } else {
        let asked = b.modal_stack@[told + 1];
        &&& b == (App { modal_stack: b.modal_stack, next_ticket: next_of(a.next_ticket), ..a })
        &&& b.modal_stack@.len() == told + 2
        &&& is_form(
            asked,
            KeyModel::ProfileImportSnapshot,
            "Pick Snapshot Date"@,
            "Pick date to load snapshot from."@,
            "Timestamp"@,
            a.next_ticket,
        )
        &&& form_field(asked, "Timestamp"@) == AsyncDialogField::TextEnum(None, dates)
        &&& r[0] == Action::AwaitDialog(a.next_ticket, DialogOutcome::SnapshotDate(name))
    }
}

impl App {
    /// A profile is to be made of a collection.
    pub fn profile_import_collection_requested(&mut self, title: String, ids: Vec<ModId>) -> (r:
        Vec<Action>)
        ensures
            collection_import_asked(*old(self), *final(self), title, ids, r@),
    {
        let ticket = self.take_ticket();
        let modal = form(
            AsyncDialogKey::ProfileImportCollection,
            "Set Name",
            "",
            "Name",
            AsyncDialogField::Text(title),
            ticket,
        );
        vec![
            Action::Send(Message::OpenModal(modal)),
            Action::AwaitDialog(ticket, DialogOutcome::ImportCollection(ids)),
        ]
    }

    /// A profile is to be made of a snapshot.
    pub fn profile_import_snapshot_requested(&mut self) -> (r: Vec<Action>)
        ensures
            snapshot_import_asked(*old(self), *final(self), r@),
    {
        let ticket = self.take_ticket();
        let modal = form(
            AsyncDialogKey::ProfileImportSnapshot,
            "Pick Name",
            "Pick a name for the imported profile",
            "Profile Name",
            AsyncDialogField::Text(String::new()),
            ticket,
        );
        vec![
            Action::Send(Message::SetBusy(true)),
            Action::Send(Message::OpenModal(modal)),
            Action::AwaitDialog(ticket, DialogOutcome::ImportSnapshot),
            Action::Send(Message::SetBusy(false)),
        ]
    }

    /// A name was given under which a snapshot is to be imported. `invalid` says why
    /// it is no name of a profile if it is none.
    pub fn snapshot_name_given(&self, name: String, invalid: Option<String>) -> (r: Vec<Action>)
        ensures
            snapshot_named(*self, name, invalid, r@),
    {
        match check_snapshot_name(&name, &self.save.tracked_profiles, invalid) {
            Some(message) => show_error("Invalid Profile Name", message.as_str()),
            None => only(Action::PickSnapshot(name)),
        }
    }

    /// A snapshot that keeps a directory as it was is to be imported.
    pub fn profile_import_basic_snapshot(&self, name: String) -> (r: Vec<Action>)
        ensures
            basic_import(name, r@),
    {
        vec![
            busy_message("Importing snapshot..."),
            Action::LoadBasicSnapshot(name),
            Action::Send(Message::SetBusy(false)),
        ]
    }

    /// A snapshot with sets of changes is to be imported. `dates` are their times as
    /// they are shown.
    pub fn profile_import_incremental_snapshot(
        &mut self,
        name: String,
        count: usize,
        dates: Vec<String>,
    ) -> (r: Vec<Action>)
        ensures
            incremental_import(*old(self), *final(self), name, count, dates, r@),
    {
        let ghost start = self.modal_stack@;
        self.modal_stack.push(AppModal::BusyMessage("Importing snapshot...".to_owned()));
        assert(self.modal_stack@.take(start.len() as int) =~= start);
        if count <= 1 {
            return vec![
                Action::LoadIncrementalSnapshot(name, None),
                Action::Send(Message::SetBusy(false)),
            ];
        }
        let ticket = self.take_ticket();
        let modal = form(
            AsyncDialogKey::ProfileImportSnapshot,
            "Pick Snapshot Date",
            "Pick date to load snapshot from.",
            "Timestamp",
            AsyncDialogField::TextEnum(None, dates),
            ticket,
        );
        self.modal_stack.push(modal);
        assert(self.modal_stack@.take(start.len() as int) =~= start);
        vec![
            Action::AwaitDialog(ticket, DialogOutcome::SnapshotDate(name)),
            Action::Send(Message::SetBusy(false)),
        ]
    }
}

} // verus!
