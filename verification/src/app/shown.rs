//! What the pages show of what the program knows.
use vstd::prelude::*;

#[allow(unused_imports)]
use super::downloads::in_rows;
#[allow(unused_imports)]
use super::pages::{
    completed_rows, download_row, errored_rows, is_library_row, is_profile_row, issue_text,
    item_label, missing_texts, pending_rows, profile_issues, queued_rows, LibraryRow, ProfileRow,
    ProfileRowStyle,
};
#[allow(unused_imports)]
use super::state::App;
#[allow(unused_imports)]
use crate::extensions::string_views;
#[allow(unused_imports)]
use crate::library::missing::ModIndex;
#[allow(unused_imports)]
use crate::library::profile::Profile;
#[allow(unused_imports)]
use crate::library::profile::issue_models;
#[allow(unused_imports)]
use crate::library::ItemModel;
#[allow(unused_imports)]
use crate::numbers::decimal_text;
#[allow(unused_imports)]
use crate::text::laws::holds_text;
#[allow(unused_imports)]
use crate::text::occurs_at;
#[allow(unused_imports)]
use crate::xcom_mod::ModIdModel;

verus! {

proof fn lemma_holds(front: Seq<char>, part: Seq<char>, back: Seq<char>)
    ensures
        holds_text(front + part + back, part),
{
    let all = front + part + back;
    let k = front.len() as int;
    assert(all.subrange(k, k + part.len()) =~= part);
    assert(occurs_at(all, part, k));
}

proof fn lemma_held_by_more(front: Seq<char>, back: Seq<char>, part: Seq<char>)
    requires
        holds_text(front, part),
    ensures
        holds_text(front + back, part),
{
    let all = front + back;
    let k = choose|k: int| #[trigger] occurs_at(front, part, k);
    assert(all.subrange(k, k + part.len()) =~= front.subrange(k, k + part.len()));
    assert(occurs_at(all, part, k));
}

/// An item is shown with its title, where that is known, and with its number.
pub proof fn labels_name_the_item(index: ModIndex, id: u32)
    ensures
        holds_text(item_label(index, id), decimal_text(id as nat)),
        index.details@.dom().contains(ModIdModel::Workshop(id)) ==> holds_text(
            item_label(index, id),
            index.details@[ModIdModel::Workshop(id)].title_text(),
        ),
{
    let key = ModIdModel::Workshop(id);
    let title = if index.details@.dom().contains(key) {
        index.details@[key].title_text()
    } else {
        "Unknown"@
    };
    let number = decimal_text(id as nat);
    let label = item_label(index, id);
    assert(label == title + " ("@ + number + ")"@);
    lemma_holds(title + " ("@, number, ")"@);
    lemma_holds(Seq::empty(), title, " ("@ + number + ")"@);
    assert(Seq::<char>::empty() + title + (" ("@ + number + ")"@) =~= label);
}

/// Each download that waits is shown in its place and can be cancelled. The one that goes on is
/// shown as far as it got, and cannot.
pub proof fn waiting_downloads_can_be_cancelled(
    index: ModIndex,
    queue: Seq<(u32, u64)>,
    i: int,
    id: u32,
    size: u64,
)
    requires
        0 <= i < queue.len(),
    ensures
        queued_rows(index, queue).len() == queue.len(),
        queued_rows(index, queue)[i].id == queue[i].0,
        queued_rows(index, queue)[i].cancel,
        download_row(index, queue, id, size).id == id,
        download_row(index, queue, id, size).cancel <==> exists|k: int|
            0 <= k < queue.len() && (#[trigger] queue[k]).0 == id,
{
    assert(in_rows(queue, queue[i].0));
}

/// Each download that is complete, failed or out of date is shown, in order, and what went wrong
/// is told.
pub proof fn past_downloads_are_shown(
    index: ModIndex,
    completed: Seq<(u32, ())>,
    pending: Seq<(u32, u64)>,
    errored: Seq<(u32, String)>,
    i: int,
)
    ensures
        completed_rows(index, completed).len() == completed.len(),
        0 <= i < completed.len() ==> completed_rows(index, completed)[i].0 == completed[i].0,
        pending_rows(index, pending).len() == pending.len(),
        0 <= i < pending.len() ==> pending_rows(index, pending)[i].0 == pending[i].0,
        errored_rows(index, errored).len() == errored.len(),
        0 <= i < errored.len() ==> errored_rows(index, errored)[i].0 == errored[i].0 && holds_text(
            errored_rows(index, errored)[i].1,
            errored[i].1@,
        ) && holds_text(
            errored_rows(index, errored)[i].1,
            decimal_text(errored[i].0 as nat),
        ),
{
    if 0 <= i < errored.len() {
        let label = item_label(index, errored[i].0);
        let text = errored[i].1@;
        let all = errored_rows(index, errored)[i].1;
        lemma_holds(label + "\n"@, text, Seq::empty());
        assert(label + "\n"@ + text + Seq::<char>::empty() =~= all);
        labels_name_the_item(index, errored[i].0);
        lemma_held_by_more(label, "\n"@ + text, decimal_text(errored[i].0 as nat));
        assert(label + ("\n"@ + text) =~= all);
    }
}

/// A mod of a profile that is not there, or has an issue, stands out unless it is chosen, and each
/// of its issues is told. A mod that nothing is wrong with does not stand out.
pub proof fn mods_in_trouble_stand_out(
    app: App,
    profile: Profile,
    id: ModIdModel,
    there: bool,
    row: ProfileRow,
    i: int,
)
    requires
        is_profile_row(app, profile, id, there, row),
    ensures
        ({
            let noted = profile.compatibility_issues@.dom().contains(id);
            let count = if noted {
                profile.compatibility_issues@[id]@.len()
            } else {
                0
            };
            &&& row.style == ProfileRowStyle::Danger || row.style == ProfileRowStyle::Plain ==> (
            row.style == ProfileRowStyle::Danger <==> !there || count > 0)
            &&& row.issues@.len() == count + if there {
                0int
            } else {
                1
            }
            &&& noted && 0 <= i < count ==> string_views(row.issues@).contains(
                issue_text(issue_models(profile.compatibility_issues@[id]@)[i]),
            )
        }),
{
    let all = profile_issues(profile, id, there);
    let n: int = if there {
        0
    } else {
        1
    };
    if profile.compatibility_issues@.dom().contains(id) {
        let issues = issue_models(profile.compatibility_issues@[id]@);
        if 0 <= i < issues.len() {
            assert(all[n + i] == issue_text(issues[i]));
            assert(string_views(row.issues@)[n + i] == issue_text(issues[i]));
        }
    }
    assert(string_views(row.issues@).len() == row.issues@.len());
}

/// A mod of the library that misses something stands out, and each thing that it misses is told.
pub proof fn missing_dependencies_are_shown(app: App, row: LibraryRow, item: ItemModel, i: int)
    requires
        is_library_row(app, row, item),
        app.library.missing_dependencies@.dom().contains(item.id),
        0 <= i < app.library.missing_dependencies@[item.id]@.len(),
    ensures
        row.danger,
        row.missing@.len() == app.library.missing_dependencies@[item.id]@.len(),
        holds_text(row.missing@[i]@, app.library.missing_dependencies@[item.id]@[i]@),
{
    let all = app.library.missing_dependencies@[item.id]@;
    let texts = missing_texts(app, item.id);
    assert(string_views(row.missing@).len() == row.missing@.len());
    assert(string_views(row.missing@)[i] == texts[i]);
    lemma_holds("Missing Item: "@, all[i]@, Seq::empty());
    assert("Missing Item: "@ + all[i]@ + Seq::<char>::empty() =~= texts[i]);
}

} // verus!
