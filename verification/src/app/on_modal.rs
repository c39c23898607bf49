//! What happens to the dialogs and the pages.
use vstd::prelude::*;

use super::modal::{
    drop_kind, find_kind, AppModal, AsyncDialog, AsyncDialogField, AsyncDialogKey, KindOf,
};
use super::state::{nothing, only, push_modal, Action, App, AppPage, Message, Outcome};
#[allow(unused_imports)]
use super::modal::{lowest_of, without_kind, KeyModel, ModalKind};
#[allow(unused_imports)]
use super::state::with_modal;

verus! {

/// Whether nothing but the dialogs changed.
pub open spec fn only_modals(a: App, b: App) -> bool {
    b == (App { modal_stack: b.modal_stack, ..a })
}

pub open spec fn choose_resolved(a: App, b: App, key: KeyModel, choice: usize, r: Seq<Action>) -> bool {
    match lowest_of(a.modal_stack@, ModalKind::Choose(key)) {
        Some(i) => {
            &&& only_modals(a, b)
            &&& b.modal_stack@ == a.modal_stack@.remove(i)
            &&& r == seq![Action::Resolve(a.modal_stack@[i]->Choose_0.ticket, choice)]
        },
        None => a == b && r.len() == 0,
    }
}

/// The dialog with a field changed, where it has that field.
pub open spec fn dialog_updated(
    before: AppModal,
    after: AppModal,
    field: Seq<char>,
    value: AsyncDialogField,
) -> bool {
    &&& before is Dialog
    &&& after is Dialog
    &&& after->Dialog_0 == (AsyncDialog { fields: after->Dialog_0.fields, ..before->Dialog_0 })
    &&& after->Dialog_0.fields@ == if before->Dialog_0.fields@.dom().contains(field) {
        before->Dialog_0.fields@.insert(field, value)
    } else {
        before->Dialog_0.fields@
    }
}

pub open spec fn dialog_field_set(
    a: App,
    b: App,
    key: KeyModel,
    field: Seq<char>,
    value: AsyncDialogField,
) -> bool {
    match lowest_of(a.modal_stack@, ModalKind::Dialog(key)) {
        Some(i) => {
            &&& only_modals(a, b)
            &&& b.modal_stack@ == a.modal_stack@.update(i, b.modal_stack@[i])
            &&& dialog_updated(a.modal_stack@[i], b.modal_stack@[i], field, value)
        },
        None => a == b,
    }
}

pub open spec fn dialog_resolved(
    a: App,
    b: App,
    key: KeyModel,
    submitted: bool,
    r: Seq<Action>,
) -> bool {
    match lowest_of(a.modal_stack@, ModalKind::Dialog(key)) {
        Some(i) => {
            let dialog = a.modal_stack@[i]->Dialog_0;
            &&& only_modals(a, b)
            &&& b.modal_stack@ == a.modal_stack@.remove(i)
            &&& r == seq![
                Action::ResolveDialog(
                    dialog.ticket,
                    if submitted {
                        Some(dialog.fields)
                    } else {
                        None
                    },
                ),
            ]
        },
        None => a == b && r.len() == 0,
    }
}

/// The stack with an error on it.
pub open spec fn with_error(
    before: Seq<AppModal>,
    after: Seq<AppModal>,
    title: Seq<char>,
    body: Seq<char>,
) -> bool {
    &&& after.len() == before.len() + 1
    &&& after.drop_last() == before
    &&& after.last() matches AppModal::ErrorMessage(t, b) && t@ == title && b@ == body
}

pub open spec fn page_set(a: App, b: App, page: AppPage) -> bool {
    &&& b == (App { modal_stack: b.modal_stack, current_page: page, ..a })
    &&& if a.current_page == AppPage::Settings && a.settings_editing@ != a.settings@ {
        with_error(
            a.modal_stack@,
            b.modal_stack@,
            "Warning"@,
            "Unsaved settings are not automatically applied"@,
        )
    } else {
        b.modal_stack@ == a.modal_stack@
    }
}

/// A stack without its highest dialog.
pub open spec fn popped(stack: Seq<AppModal>) -> Seq<AppModal> {
    if stack.len() == 0 {
        stack
    } else {
        stack.drop_last()
    }
}

pub open spec fn modal_escaped(a: App, b: App) -> bool {
    &&& only_modals(a, b)
    &&& b.modal_stack@ == if a.modal_stack@.len() > 0 && a.modal_stack@.last().escapable() {
        a.modal_stack@.drop_last()
    } else {
        a.modal_stack@
    }
}

pub open spec fn busy_message_modified(a: App, b: App, text: String) -> bool {
    &&& only_modals(a, b)
    &&& b.modal_stack@ == if a.modal_stack@.len() > 0 && a.modal_stack@.last() is BusyMessage {
        a.modal_stack@.drop_last().push(AppModal::BusyMessage(text))
    } else {
        a.modal_stack@
    }
}

pub open spec fn busy_set(a: App, b: App, busy: bool) -> bool {
    &&& only_modals(a, b)
    &&& b.modal_stack@ == if busy {
        a.modal_stack@.push(AppModal::Busy)
    } else {
        without_kind(a.modal_stack@, ModalKind::Busy)
    }
}

/// Takes the highest dialog away.
pub(crate) fn pop_modal(stack: &mut Vec<AppModal>)
    ensures
        final(stack)@ == popped(old(stack)@),
{
    let gone = stack.pop();
}

impl App {
    /// A choice was made in the lowest dialog of a key.
    pub fn async_choose_resolve(&mut self, key: &AsyncDialogKey, choice: usize) -> (r: Vec<Action>)
        ensures
            choose_resolved(*old(self), *final(self), key@, choice, r@),
    {
        match find_kind(&self.modal_stack, &KindOf::Choose(key)) {
            Some(i) => {
                let modal = self.modal_stack.remove(i);
                match modal {
                    AppModal::Choose(choose) => only(Action::Resolve(choose.ticket, choice)),
                    _ => nothing(),
                }
            },
            None => nothing(),
        }
    }

    /// The dialogs of a key with a choice are taken away.
    pub fn async_choose_cancelled(&mut self, key: &AsyncDialogKey)
        ensures
            only_modals(*old(self), *final(self)),
            final(self).modal_stack@ == without_kind(
                old(self).modal_stack@,
                ModalKind::Choose(key@),
            ),
    {
        drop_kind(&mut self.modal_stack, &KindOf::Choose(key));
    }

    /// A field was changed in the lowest dialog of a key.
    pub fn async_dialog_update(
        &mut self,
        key: &AsyncDialogKey,
        field: String,
        value: AsyncDialogField,
    )
        ensures
            dialog_field_set(*old(self), *final(self), key@, field@, value),
    {
        if let Some(i) = find_kind(&self.modal_stack, &KindOf::Dialog(key)) {
            let ghost start = self.modal_stack@;
            let modal = self.modal_stack.remove(i);
            let changed = match modal {
                AppModal::Dialog(mut dialog) => {
                    if dialog.fields.contains(&field) {
                        dialog.fields.insert(field, value);
                    }
                    AppModal::Dialog(dialog)
                },
                other => other,
            };
            self.modal_stack.insert(i, changed);
            assert(self.modal_stack@ =~= start.update(i as int, changed));
        }
    }

    /// The lowest dialog of a key was filled in, or left.
    pub fn async_dialog_resolved(&mut self, key: &AsyncDialogKey, submitted: bool) -> (r: Vec<
        Action,
    >)
        ensures
            dialog_resolved(*old(self), *final(self), key@, submitted, r@),
    {
        match find_kind(&self.modal_stack, &KindOf::Dialog(key)) {
            Some(i) => {
                let modal = self.modal_stack.remove(i);
                match modal {
                    AppModal::Dialog(dialog) => {
                        let fields = if submitted {
                            Some(dialog.fields)
                        } else {
                            None
                        };
                        only(Action::ResolveDialog(dialog.ticket, fields))
                    },
                    _ => nothing(),
                }
            },
            None => nothing(),
        }
    }

    /// Goes to another page.
    pub fn set_page(&mut self, page: AppPage)
        ensures
            page_set(*old(self), *final(self), page),
    {
        let ghost start = self.modal_stack@;
        if let AppPage::Settings = self.current_page {
            if !self.settings_editing.is(&self.settings) {
                self.modal_stack.push(
                    AppModal::ErrorMessage(
                        "Warning".to_owned(),
                        "Unsaved settings are not automatically applied".to_owned(),
                    ),
                );
                assert(self.modal_stack@.drop_last() =~= start);
            }
        }
        self.current_page = page;
    }

    /// Puts a dialog over the others.
    pub fn open_modal(&mut self, modal: AppModal)
        ensures
            only_modals(*old(self), *final(self)),
            final(self).modal_stack@ == with_modal(old(self).modal_stack@, modal),
    {
        push_modal(&mut self.modal_stack, modal);
    }

    /// Takes the highest dialog away.
    pub fn close_modal(&mut self)
        ensures
            only_modals(*old(self), *final(self)),
            final(self).modal_stack@ == popped(old(self).modal_stack@),
    {
        pop_modal(&mut self.modal_stack);
    }

    /// Takes the highest dialog away, if it can be left without an answer.
    pub fn escape_modal(&mut self)
        ensures
            modal_escaped(*old(self), *final(self)),
    {
        let n: usize = self.modal_stack.len();
        if n > 0 && self.modal_stack[n - 1].can_escape() {
            pop_modal(&mut self.modal_stack);
        }
    }

    /// Changes what the highest dialog says goes on.
    pub fn modify_busy_message(&mut self, text: String)
        ensures
            busy_message_modified(*old(self), *final(self), text),
    {
        let n: usize = self.modal_stack.len();
        if n > 0 {
            let told = match &self.modal_stack[n - 1] {
                AppModal::BusyMessage(_) => true,
                _ => false,
            };
            if told {
                pop_modal(&mut self.modal_stack);
                self.modal_stack.push(AppModal::BusyMessage(text));
            }
        }
    }

    /// Something goes on, or nothing any more.
    pub fn set_busy(&mut self, busy: bool)
        ensures
            busy_set(*old(self), *final(self), busy),
    {
        if busy {
            self.modal_stack.push(AppModal::Busy);
        } else {
            drop_kind(&mut self.modal_stack, &KindOf::Busy);
        }
    }
}

/// What follows from a choice. Only the second option says yes.
pub open spec fn answer(outcome: Outcome, choice: Option<usize>) -> Message {
    let yes = choice == Some(1usize);
    match outcome {
        Outcome::DownloadAll(ids) => if yes {
            Message::DownloadAllConfirmed(ids)
        } else {
            Message::Nothing
        },
        Outcome::DeleteProfile(name) => if yes {
            Message::ProfileDeleteConfirmed(name)
        } else {
            Message::CloseModal
        },
        Outcome::GameFind(path) => if yes {
            Message::LoadFindGameResolved(path)
        } else {
            Message::Nothing
        },
        Outcome::LocalFind(path) => if yes {
            Message::LoadFindLocalResolved(path)
        } else {
            Message::Nothing
        },
    }
}

/// What follows from a choice, or from a dialog that went away without one.
pub fn answered(outcome: Outcome, choice: Option<usize>) -> (r: Message)
    ensures
        r == answer(outcome, choice),
{
    let yes = match choice {
        Some(n) => n == 1,
        None => false,
    };
    match outcome {
        Outcome::DownloadAll(ids) => if yes {
            Message::DownloadAllConfirmed(ids)
        } else {
            Message::Nothing
        },
        Outcome::DeleteProfile(name) => if yes {
            Message::ProfileDeleteConfirmed(name)
        } else {
            Message::CloseModal
        },
        Outcome::GameFind(path) => if yes {
            Message::LoadFindGameResolved(path)
        } else {
            Message::Nothing
        },
        Outcome::LocalFind(path) => if yes {
            Message::LoadFindLocalResolved(path)
        } else {
            Message::Nothing
        },
    }
}

/// A dialog that asks for an answer does not go away when the user tries to leave
/// it.
pub proof fn questions_stay_until_answered(a: App, b: App)
    requires
        modal_escaped(a, b),
        a.modal_stack@.len() > 0,
        a.modal_stack@.last() is Choose || a.modal_stack@.last() is Dialog
            || a.modal_stack@.last() is ApiKeyRequest
            || a.modal_stack@.last() is SteamGuardCodeRequest,
    ensures
        b.modal_stack@ == a.modal_stack@,
{
}

} // verus!
