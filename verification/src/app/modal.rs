//! The dialogs that lie over a page, one upon the other.
use vstd::prelude::*;

use crate::collections::CollectionSource;
use crate::table::Table;
use crate::text::same_text;
use crate::xcom_mod::ModId;

verus! {

/// What happens to dialogs with the same key.
#[derive(Debug, Clone, Copy, PartialEq, Eq, Structural)]
pub enum AsyncDialogStrategy {
    /// Clear any dialogs in the stack with the same ID
    Replace,
    /// Push it onto the stack,
    /// but do not display if it is not the lowest one
    /// with the given ID
    Queue,
    /// Display dialog regardless of the existence
    /// of others with the same ID
    Stack,
}

impl Default for AsyncDialogStrategy {
    fn default() -> (r: Self)
        ensures
            r == AsyncDialogStrategy::Stack,
    {
        AsyncDialogStrategy::Stack
    }
}

/// What a dialog is known by.
#[derive(Debug)]
pub enum AsyncDialogKey {
    GameFind,
    LocalFind,
    DownloadAllConfirm,
    DownloadMultipleConfirm,
    ProfileImportCollection,
    ProfileImportSnapshot,
    Id(usize),
    StringId(String),
}

#[verifier::ext_equal]
pub enum KeyModel {
    GameFind,
    LocalFind,
    DownloadAllConfirm,
    DownloadMultipleConfirm,
    ProfileImportCollection,
    ProfileImportSnapshot,
    Id(usize),
    StringId(Seq<char>),
}

impl View for AsyncDialogKey {
    type V = KeyModel;

    open spec fn view(&self) -> KeyModel {
        match self {
            AsyncDialogKey::GameFind => KeyModel::GameFind,
            AsyncDialogKey::LocalFind => KeyModel::LocalFind,
            AsyncDialogKey::DownloadAllConfirm => KeyModel::DownloadAllConfirm,
            AsyncDialogKey::DownloadMultipleConfirm => KeyModel::DownloadMultipleConfirm,
            AsyncDialogKey::ProfileImportCollection => KeyModel::ProfileImportCollection,
            AsyncDialogKey::ProfileImportSnapshot => KeyModel::ProfileImportSnapshot,
            AsyncDialogKey::Id(id) => KeyModel::Id(*id),
            AsyncDialogKey::StringId(id) => KeyModel::StringId(id@),
        }
    }
}

impl AsyncDialogKey {
    /// Whether both are the same key.
    pub fn is(&self, other: &AsyncDialogKey) -> (r: bool)
        ensures
            r == (self@ == other@),
    {
        match (self, other) {
            (AsyncDialogKey::GameFind, AsyncDialogKey::GameFind) => true,
            (AsyncDialogKey::LocalFind, AsyncDialogKey::LocalFind) => true,
            (AsyncDialogKey::DownloadAllConfirm, AsyncDialogKey::DownloadAllConfirm) => true,
            (
                AsyncDialogKey::DownloadMultipleConfirm,
                AsyncDialogKey::DownloadMultipleConfirm,
            ) => true,
            (
                AsyncDialogKey::ProfileImportCollection,
                AsyncDialogKey::ProfileImportCollection,
            ) => true,
            (AsyncDialogKey::ProfileImportSnapshot, AsyncDialogKey::ProfileImportSnapshot) => true,
            (AsyncDialogKey::Id(a), AsyncDialogKey::Id(b)) => *a == *b,
            (AsyncDialogKey::StringId(a), AsyncDialogKey::StringId(b)) => same_text(
                a.as_str(),
                b.as_str(),
            ),
            _ => false,
        }
    }
}

/// What can be stopped before it is done.
#[derive(Debug, Clone, Copy, PartialEq, Eq, Structural)]
pub enum AppAbortKey {
    GameFind,
    LocalFind,
    GameLogMonitor,
    Id(usize),
}

/// A dialog with a choice to be made.
#[derive(Debug)]
pub struct AsyncChoose {
    pub key: AsyncDialogKey,
    pub title: String,
    pub body: String,
    pub options: Vec<String>,
    pub strategy: AsyncDialogStrategy,
    /// By which whoever waits for the choice is found.
    pub ticket: u64,
}

/// A field of a dialog.
#[derive(Debug)]
pub enum AsyncDialogField {
    Text(String),
    /// One of several texts.
    TextEnum(Option<String>, Vec<String>),
}

/// A dialog with fields to be filled in.
pub struct AsyncDialog {
    pub key: AsyncDialogKey,
    pub title: String,
    pub body: String,
    pub fields: Table<String, AsyncDialogField>,
    /// By which whoever waits for the fields is found.
    pub ticket: u64,
}

/// A dialog that lies over a page.
pub enum AppModal {
    ApiKeyRequest,
    AddToProfileRequest(Vec<ModId>),
    LibraryDeleteRequest,
    SteamGuardCodeRequest,
    ProfileAddRequest,
    ProfileDetails(String),
    ItemDetailedView(ModId),
    CollectionDetailedView(CollectionSource),
    Busy,
    BusyMessage(String),
    ErrorMessage(String, String),
    Choose(AsyncChoose),
    Dialog(AsyncDialog),
}

impl AppModal {
    pub open spec fn escapable(&self) -> bool {
        match self {
            AppModal::AddToProfileRequest(_) => true,
            AppModal::LibraryDeleteRequest => true,
            AppModal::ProfileAddRequest => true,
            AppModal::ItemDetailedView(_) => true,
            AppModal::CollectionDetailedView(_) => true,
            AppModal::ErrorMessage(_, _) => true,
            _ => false,
        }
    }

    /// Whether the dialog can be left without an answer.
    pub fn can_escape(&self) -> (r: bool)
        ensures
            r == self.escapable(),
    {
        match self {
            AppModal::ApiKeyRequest => false,
            AppModal::AddToProfileRequest(_) => true,
            AppModal::LibraryDeleteRequest => true,
            AppModal::SteamGuardCodeRequest => false,
            AppModal::ProfileAddRequest => true,
            AppModal::ProfileDetails(_) => false,
            AppModal::ItemDetailedView(_) => true,
            AppModal::CollectionDetailedView(_) => true,
            AppModal::Busy => false,
            AppModal::BusyMessage(_) => false,
            AppModal::ErrorMessage(_, _) => true,
            AppModal::Choose(_) => false,
            AppModal::Dialog(_) => false,
        }
    }

    /// A dialog with a choice to be made.
    pub fn async_choose(
        key: AsyncDialogKey,
        title: String,
        body: String,
        options: Vec<String>,
        strategy: AsyncDialogStrategy,
        ticket: u64,
    ) -> (r: AppModal)
        ensures
            r == AppModal::Choose(AsyncChoose { key, title, body, options, strategy, ticket }),
    {
        AppModal::Choose(AsyncChoose { key, title, body, options, strategy, ticket })
    }
}

/// A kind of dialogs.
#[verifier::ext_equal]
pub enum ModalKind {
    /// Those that tell that something goes on.
    Busy,
    SteamGuard,
    /// Those with a choice to be made, of one key.
    Choose(KeyModel),
    /// Those with fields to be filled in, of one key.
    Dialog(KeyModel),
}

impl ModalKind {
    pub open spec fn holds(self, modal: AppModal) -> bool {
        match self {
            ModalKind::Busy => modal is Busy || modal is BusyMessage,
            ModalKind::SteamGuard => modal is SteamGuardCodeRequest,
            ModalKind::Choose(key) => modal is Choose && modal->Choose_0.key@ == key,
            ModalKind::Dialog(key) => modal is Dialog && modal->Dialog_0.key@ == key,
        }
    }
}

/// The dialogs that are not of a kind.
pub open spec fn without_kind(stack: Seq<AppModal>, kind: ModalKind) -> Seq<AppModal>
    decreases stack.len(),
{
    if stack.len() == 0 {
        Seq::empty()
    } else {
        let front = without_kind(stack.drop_last(), kind);
        if kind.holds(stack.last()) {
            front
        } else {
            front.push(stack.last())
        }
    }
}

/// The lowest dialog of a kind.
pub open spec fn lowest_of(stack: Seq<AppModal>, kind: ModalKind) -> Option<int>
    decreases stack.len(),
{
    if stack.len() == 0 {
        None
    } else {
        match lowest_of(stack.drop_last(), kind) {
            Some(i) => Some(i),
            None => if kind.holds(stack.last()) {
                Some(stack.len() - 1)
            } else {
                None
            },
        }
    }
}

proof fn lemma_lowest_stays(stack: Seq<AppModal>, kind: ModalKind, n: int)
    requires
        0 <= n <= stack.len(),
        lowest_of(stack.take(n), kind) is Some,
    ensures
        lowest_of(stack, kind) == lowest_of(stack.take(n), kind),
    decreases stack.len(),
{
    if n < stack.len() {
        assert(stack.drop_last().take(n) =~= stack.take(n));
        lemma_lowest_stays(stack.drop_last(), kind, n);
    } else {
        assert(stack.take(n) =~= stack);
    }
}

/// The key that a kind of dialogs goes by.
pub enum KindOf<'a> {
    Busy,
    SteamGuard,
    Choose(&'a AsyncDialogKey),
    Dialog(&'a AsyncDialogKey),
}

impl<'a> KindOf<'a> {
    pub open spec fn kind(&self) -> ModalKind {
        match self {
            KindOf::Busy => ModalKind::Busy,
            KindOf::SteamGuard => ModalKind::SteamGuard,
            KindOf::Choose(key) => ModalKind::Choose(key@),
            KindOf::Dialog(key) => ModalKind::Dialog(key@),
        }
    }

    fn check(&self, modal: &AppModal) -> (r: bool)
        ensures
            r == self.kind().holds(*modal),
    {
        match (self, modal) {
            (KindOf::Busy, AppModal::Busy) => true,
            (KindOf::Busy, AppModal::BusyMessage(_)) => true,
            (KindOf::SteamGuard, AppModal::SteamGuardCodeRequest) => true,
            (KindOf::Choose(key), AppModal::Choose(choose)) => choose.key.is(key),
            (KindOf::Dialog(key), AppModal::Dialog(dialog)) => dialog.key.is(key),
            _ => false,
        }
    }
}

/// Takes out the dialogs of a kind.
pub fn drop_kind(stack: &mut Vec<AppModal>, kind: &KindOf)
    ensures
        final(stack)@ == without_kind(old(stack)@, kind.kind()),
{
    let ghost start = stack@;
    let ghost mut seen: int = 0;
    let mut i: usize = 0;
    assert(start.skip(0) =~= start);
    assert(stack@ =~= without_kind(start.take(0), kind.kind()) + start.skip(0));
    while i < stack.len()
        invariant
            0 <= i <= stack@.len(),
            0 <= seen <= start.len(),
            i == without_kind(start.take(seen), kind.kind()).len(),
            stack@ == without_kind(start.take(seen), kind.kind()) + start.skip(seen),
        decreases stack@.len() - i,
    {
        let ghost front = without_kind(start.take(seen), kind.kind());
        let drop = kind.check(&stack[i]);
        proof {
            assert(stack@[i as int] == start.skip(seen)[0]);
            assert(start.take(seen + 1).drop_last() =~= start.take(seen));
            assert(start.take(seen + 1).last() == start[seen]);
        }
        if drop {
            let gone = stack.remove(i);
            assert(stack@ =~= front + start.skip(seen + 1));
        } else {
            i += 1;
            assert(front + start.skip(seen) =~= front.push(start[seen]) + start.skip(seen + 1));
        }
        proof {
            seen = seen + 1;
        }
    }
    assert(start.take(seen) =~= start);
    assert(stack@ =~= without_kind(start, kind.kind()));
}

/// The place of the lowest dialog of a kind.
pub fn find_kind(stack: &Vec<AppModal>, kind: &KindOf) -> (r: Option<usize>)
    ensures
        match r {
            Some(i) => lowest_of(stack@, kind.kind()) == Some(i as int) && i < stack@.len()
                && kind.kind().holds(stack@[i as int]),
            None => lowest_of(stack@, kind.kind()) is None,
        },
{
    let mut i: usize = 0;
    while i < stack.len()
        invariant
            0 <= i <= stack@.len(),
            lowest_of(stack@.take(i as int), kind.kind()) is None,
        decreases stack@.len() - i,
    {
        proof {
            assert(stack@.take(i + 1).drop_last() =~= stack@.take(i as int));
            assert(stack@.take(i + 1).last() == stack@[i as int]);
        }
        if kind.check(&stack[i]) {
            proof {
                lemma_lowest_stays(stack@, kind.kind(), i + 1);
            }
            return Some(i);
        }
        i += 1;
    }
    assert(stack@.take(i as int) =~= stack@);
    None
}

/// Whether a dialog is shown: one that waits for others of its key is shown only
/// once it is the lowest of them.
pub open spec fn is_shown(stack: Seq<AppModal>, i: int) -> bool {
    match stack[i] {
        AppModal::Choose(choose) => choose.strategy != AsyncDialogStrategy::Queue || lowest_of(
            stack,
            ModalKind::Choose(choose.key@),
        ) == Some(i),
        _ => true,
    }
}

proof fn lemma_lowest_below(stack: Seq<AppModal>, kind: ModalKind)
    ensures
        match lowest_of(stack, kind) {
            Some(i) => 0 <= i < stack.len() && kind.holds(stack[i]) && forall|j: int|
                0 <= j < i ==> !kind.holds(#[trigger] stack[j]),
            None => forall|j: int| 0 <= j < stack.len() ==> !kind.holds(#[trigger] stack[j]),
        },
    decreases stack.len(),
{
    if stack.len() > 0 {
        lemma_lowest_below(stack.drop_last(), kind);
        assert forall|j: int| 0 <= j < stack.len() - 1 implies #[trigger] stack[j]
            == stack.drop_last()[j] by {}
    }
}

/// The dialogs that are shown, from the lowest to the highest.
pub fn shown_modals(stack: &Vec<AppModal>) -> (r: Vec<usize>)
    ensures
        forall|k: int| 0 <= k < r@.len() ==> (#[trigger] r@[k]) < stack@.len() && is_shown(
            stack@,
            r@[k] as int,
        ),
        forall|k: int, l: int| 0 <= k < l < r@.len() ==> (#[trigger] r@[k]) < (#[trigger] r@[l]),
        forall|i: int|
            0 <= i < stack@.len() && #[trigger] is_shown(stack@, i) ==> r@.contains(i as usize),
{
    let mut out: Vec<usize> = Vec::new();
    let mut i: usize = 0;
    while i < stack.len()
        invariant
            0 <= i <= stack@.len(),
            forall|k: int| 0 <= k < out@.len() ==> (#[trigger] out@[k]) < i && is_shown(
                stack@,
                out@[k] as int,
            ),
            forall|k: int, l: int|
                0 <= k < l < out@.len() ==> (#[trigger] out@[k]) < (#[trigger] out@[l]),
            forall|j: int|
                0 <= j < i && #[trigger] is_shown(stack@, j) ==> out@.contains(j as usize),
        decreases stack@.len() - i,
    {
        let shown = match &stack[i] {
            AppModal::Choose(choose) => {
                match choose.strategy {
                    AsyncDialogStrategy::Queue => {
                        match find_kind(stack, &KindOf::Choose(&choose.key)) {
                            Some(lowest) => lowest == i,
                            None => false,
                        }
                    },
                    _ => true,
                }
            },
            _ => true,
        };
        let ghost before = out@;
        if shown {
            out.push(i);
        }
        proof {
            assert forall|j: int| 0 <= j < i + 1 && #[trigger] is_shown(
                stack@,
                j,
            ) implies out@.contains(j as usize) by {
                if j < i {
                    assert(before.contains(j as usize));
                    let k = choose|k: int| 0 <= k < before.len() && before[k] == j as usize;
                    assert(out@[k] == j as usize);
                } else {
                    assert(out@[out@.len() - 1] == j as usize);
                }
            }
        }
        i += 1;
    }
    out
}

/// A dialog that waits for others of its key is not shown over another one of
/// it.
pub proof fn waiting_dialogs_are_shown_one_at_a_time(stack: Seq<AppModal>, i: int, j: int)
    requires
        0 <= i < j < stack.len(),
        stack[i] is Choose,
        stack[j] is Choose,
        stack[j]->Choose_0.strategy == AsyncDialogStrategy::Queue,
        stack[i]->Choose_0.key@ == stack[j]->Choose_0.key@,
    ensures
        !is_shown(stack, j),
{
    lemma_lowest_below(stack, ModalKind::Choose(stack[j]->Choose_0.key@));
    assert(ModalKind::Choose(stack[j]->Choose_0.key@).holds(stack[i]));
}

/// Once nothing goes on, no dialog tells so.
pub proof fn no_busy_dialog_stays(stack: Seq<AppModal>, kind: ModalKind, i: int)
    requires
        0 <= i < without_kind(stack, kind).len(),
    ensures
        !kind.holds(without_kind(stack, kind)[i]),
    decreases stack.len(),
{
    let front = without_kind(stack.drop_last(), kind);
    if i < front.len() {
        no_busy_dialog_stays(stack.drop_last(), kind, i);
    }
}

} // verus!
