//! What is told of the mods of the library and of profiles is complete, and nothing else is
//! told.
use vstd::prelude::*;
#[allow(unused_imports)]
use vstd::utf8::encode_utf8;

#[allow(unused_imports)]
use super::missing::{
    dependencies_noted, is_sorted_from, missing_children, missing_for, not_provided, ModIndex,
};
#[allow(unused_imports)]
use super::profile::{
    also_provided, is_sorted_issues, issue_models, issues_for, issues_noted, keys_outside,
    missing_items_of, overlap_with, overlaps, IssueModel, Profile,
};
#[allow(unused_imports)]
use super::{lowercase_text, row_keys, FilterMethod, ItemModel, Library};
#[allow(unused_imports)]
use crate::extensions::string_views;
#[allow(unused_imports)]
use crate::files::ChildFile;
#[allow(unused_imports)]
use crate::files::ModDetails;
#[allow(unused_imports)]
use crate::numbers::{decimal_text, unsigned_value};
#[allow(unused_imports)]
use crate::table::in_order;
#[allow(unused_imports)]
use crate::text::{lemma_find_from, occurs_at};
#[allow(unused_imports)]
use crate::xcom_mod::ModIdModel;

verus! {

/// Whether an entry on a page in the workshop is the item of a number.
pub open spec fn is_item(child: ChildFile, n: u32) -> bool {
    unsigned_value(encode_utf8(child.published_file_id@), u32::MAX as nat) == Some(n as nat)
}

/// Whether the page of a mod asks for the item of a number.
pub open spec fn asks_for(index: ModIndex, id: ModIdModel, n: u32) -> bool {
    &&& index.details@.dom().contains(id)
    &&& index.details@[id] matches ModDetails::Workshop(page) && exists|k: int|
        0 <= k < page.children@.len() && is_item(#[trigger] page.children@[k], n)
}

/// Whether the item of a number is there under its name in the game.
pub open spec fn is_there(index: ModIndex, n: u32, provided: Set<Seq<char>>) -> bool {
    let id = ModIdModel::Workshop(n);
    index.metadata@.dom().contains(id) && provided.contains(index.metadata@[id].dlc_name@)
}

/// What the item of a number is called.
pub open spec fn called(index: ModIndex, n: u32) -> Seq<char> {
    let id = ModIdModel::Workshop(n);
    if index.details@.dom().contains(id) {
        index.details@[id].title_text()
    } else {
        "UNKNOWN"@
    }
}

proof fn lemma_contains_pushed<T>(front: Seq<T>, last: T, x: T)
    ensures
        front.push(last).contains(x) <==> front.contains(x) || x == last,
{
    let all = front.push(last);
    if front.contains(x) {
        let k = choose|k: int| 0 <= k < front.len() && front[k] == x;
        assert(all[k] == x);
    }
    if x == last {
        assert(all[front.len() as int] == x);
    }
    if all.contains(x) {
        let k = choose|k: int| 0 <= k < all.len() && all[k] == x;
        if k < front.len() {
            assert(front[k] == x);
        }
    }
}

proof fn lemma_contains_last<T>(all: Seq<T>, x: T)
    requires
        all.len() > 0,
    ensures
        all.contains(x) <==> all.drop_last().contains(x) || x == all.last(),
{
    lemma_contains_pushed(all.drop_last(), all.last(), x);
    assert(all.drop_last().push(all.last()) =~= all);
}

proof fn lemma_contains_sum<T>(a: Seq<T>, b: Seq<T>, x: T)
    ensures
        (a + b).contains(x) <==> a.contains(x) || b.contains(x),
{
    let all = a + b;
    if a.contains(x) {
        let k = choose|k: int| 0 <= k < a.len() && a[k] == x;
        assert(all[k] == x);
    }
    if b.contains(x) {
        let k = choose|k: int| 0 <= k < b.len() && b[k] == x;
        assert(all[a.len() + k] == x);
    }
    if all.contains(x) {
        let k = choose|k: int| 0 <= k < all.len() && all[k] == x;
        if k < a.len() {
            assert(a[k] == x);
        } else {
            assert(b[k - a.len()] == x);
        }
    }
}

proof fn lemma_not_provided(names: Seq<Seq<char>>, provided: Set<Seq<char>>, x: Seq<char>)
    ensures
        not_provided(names, provided).contains(x) <==> names.contains(x) && !provided.contains(x),
    decreases names.len(),
{
    if names.len() > 0 {
        lemma_not_provided(names.drop_last(), provided, x);
        lemma_contains_last(names, x);
        lemma_contains_pushed(not_provided(names.drop_last(), provided), names.last(), x);
    }
}

proof fn lemma_also_provided(names: Seq<Seq<char>>, provided: Set<Seq<char>>, x: Seq<char>)
    ensures
        also_provided(names, provided).contains(x) <==> names.contains(x) && provided.contains(x),
    decreases names.len(),
{
    if names.len() > 0 {
        lemma_also_provided(names.drop_last(), provided, x);
        lemma_contains_last(names, x);
        lemma_contains_pushed(also_provided(names.drop_last(), provided), names.last(), x);
    }
}

proof fn lemma_keys_of_rows<V>(rows: Seq<(Seq<char>, V)>, x: Seq<char>)
    ensures
        row_keys(rows).contains(x) <==> crate::table::rows_map(rows).dom().contains(x),
{
    if row_keys(rows).contains(x) {
        let k = choose|k: int| 0 <= k < rows.len() && row_keys(rows)[k] == x;
        assert(rows[k].0 == x);
    }
    if crate::table::rows_map(rows).dom().contains(x) {
        let k = choose|k: int| 0 <= k < rows.len() && (#[trigger] rows[k]).0 == x;
        assert(row_keys(rows)[k] == x);
    }
}

/// Whether one of the entries is an item that is not there, and is called so.
spec fn lacks(
    index: ModIndex,
    children: Seq<ChildFile>,
    provided: Set<Seq<char>>,
    text: Seq<char>,
) -> bool {
    exists|k: int, n: u32|
        {
            &&& 0 <= k < children.len()
            &&& #[trigger] is_item(children[k], n)
            &&& !is_there(index, n, provided)
            &&& text == called(index, n) + " ("@ + decimal_text(n as nat) + ")"@
        }
}

proof fn lemma_missing_children(
    index: ModIndex,
    children: Seq<ChildFile>,
    provided: Set<Seq<char>>,
    text: Seq<char>,
)
    ensures
        missing_children(index, children, provided).contains(text) <==> lacks(
            index,
            children,
            provided,
            text,
        ),
    decreases children.len(),
{
    if children.len() > 0 {
        let fewer = children.drop_last();
        let last = children.last();
        lemma_missing_children(index, fewer, provided, text);
        let front = missing_children(index, fewer, provided);
        let all = missing_children(index, children, provided);
        if lacks(index, fewer, provided, text) {
            let (k, n) = choose|k: int, n: u32|
                {
                    &&& 0 <= k < fewer.len()
                    &&& #[trigger] is_item(fewer[k], n)
                    &&& !is_there(index, n, provided)
                    &&& text == called(index, n) + " ("@ + decimal_text(n as nat) + ")"@
                };
            assert(children[k] == fewer[k]);
            assert(is_item(children[k], n));
        }
        if lacks(index, children, provided, text) {
            let (k, n) = choose|k: int, n: u32|
                {
                    &&& 0 <= k < children.len()
                    &&& #[trigger] is_item(children[k], n)
                    &&& !is_there(index, n, provided)
                    &&& text == called(index, n) + " ("@ + decimal_text(n as nat) + ")"@
                };
            if k < fewer.len() {
                assert(children[k] == fewer[k]);
                assert(is_item(fewer[k], n));
            }
        }
        let number = unsigned_value(encode_utf8(last.published_file_id@), u32::MAX as nat);
        if let Some(n) = number {
            let own = n as u32;
            assert(is_item(children[children.len() - 1], own));
            let shown = called(index, own) + " ("@ + decimal_text(n) + ")"@;
            lemma_contains_pushed(front, shown, text);
        }
    }
}

/// A mod is told to miss something if and only if it does: a name that it requires and that
/// is not provided, or an item that its page asks for and that is not there, whether or not
/// the item is known. Such an item is told by its title and its number.
pub proof fn all_that_is_missing_is_told(
    library: Library,
    index: ModIndex,
    id: ModIdModel,
    provided: Set<Seq<char>>,
    text: Seq<char>,
)
    ensures
        missing_for(library, index, id, provided).contains(text) <==> misses(
            library,
            index,
            id,
            provided,
            text,
        ),
{
    let required = if library.compatibility@.dom().contains(id) {
        not_provided(row_keys(library.compatibility@[id].required.rows()), provided)
    } else {
        Seq::empty()
    };
    let children = index.children_of(id);
    lemma_contains_sum(required, missing_children(index, children, provided), text);
    lemma_missing_children(index, children, provided, text);
    if library.compatibility@.dom().contains(id) {
        let rows = library.compatibility@[id].required.rows();
        lemma_not_provided(row_keys(rows), provided, text);
        lemma_keys_of_rows(rows, text);
    }
    if lacks(index, children, provided, text) {
        let (k, n) = choose|k: int, n: u32|
            {
                &&& 0 <= k < children.len()
                &&& #[trigger] is_item(children[k], n)
                &&& !is_there(index, n, provided)
                &&& text == called(index, n) + " ("@ + decimal_text(n as nat) + ")"@
            };
        assert(asks_for(index, id, n));
    }
    if exists|n: u32|
        #[trigger] asks_for(index, id, n) && !is_there(index, n, provided) && text == called(
            index,
            n,
        ) + " ("@ + decimal_text(n as nat) + ")"@ {
        let n = choose|n: u32|
            #[trigger] asks_for(index, id, n) && !is_there(index, n, provided) && text == called(
                index,
                n,
            ) + " ("@ + decimal_text(n as nat) + ")"@;
        let k = choose|k: int| 0 <= k < children.len() && is_item(#[trigger] children[k], n);
        assert(is_item(children[k], n));
    }
}

/// Whether a mod misses something that is told so.
pub open spec fn misses(
    library: Library,
    index: ModIndex,
    id: ModIdModel,
    provided: Set<Seq<char>>,
    text: Seq<char>,
) -> bool {
    ||| library.compatibility@.dom().contains(id)
        && library.compatibility@[id].required@.dom().contains(text) && !provided.contains(text)
    ||| exists|n: u32|
        #[trigger] asks_for(index, id, n) && !is_there(index, n, provided) && text == called(
            index,
            n,
        ) + " ("@ + decimal_text(n as nat) + ")"@
}

proof fn lemma_same_items<T>(a: Seq<T>, b: Seq<T>, x: T)
    requires
        a.to_multiset() == b.to_multiset(),
    ensures
        a.contains(x) <==> b.contains(x),
{
    broadcast use vstd::seq_lib::group_to_multiset_ensures;
    assert(a.contains(x) <==> a.to_multiset().count(x) > 0);
    assert(b.contains(x) <==> b.to_multiset().count(x) > 0);
}

/// What is noted of the mods of the library is what they miss: a mod is noted if and only if
/// it misses something, and each thing that it misses is noted and nothing else.
pub proof fn all_that_is_missing_is_noted(
    a: Library,
    b: Library,
    index: ModIndex,
    provided: Set<Seq<char>>,
    id: ModIdModel,
    text: Seq<char>,
)
    requires
        dependencies_noted(a, b, index, provided),
        a.items@.dom().contains(id),
    ensures
        misses(a, index, id, provided, text) ==> b.missing_dependencies@.dom().contains(id),
        b.missing_dependencies@.dom().contains(id) ==> exists|t: Seq<char>|
            misses(a, index, id, provided, t),
        b.missing_dependencies@.dom().contains(id) ==> (string_views(
            b.missing_dependencies@[id]@,
        ).contains(text) <==> misses(a, index, id, provided, text)),
        b.items == a.items && b.compatibility == a.compatibility && b.filter_query
            == a.filter_query && b.filter_fuzzy == a.filter_fuzzy,
{
    let all = missing_for(a, index, id, provided);
    all_that_is_missing_is_told(a, index, id, provided, text);
    if all.len() > 0 {
        assert(all.contains(all[0]));
        all_that_is_missing_is_told(a, index, id, provided, all[0]);
    }
    if b.missing_dependencies@.dom().contains(id) {
        let noted = string_views(b.missing_dependencies@[id]@);
        assert(is_sorted_from(noted, all));
        lemma_same_items(noted, all, text);
    }
}

spec fn lacks_item(
    index: ModIndex,
    children: Seq<ChildFile>,
    items: Set<ModIdModel>,
    provided: Set<Seq<char>>,
    n: u32,
    text: Seq<char>,
) -> bool {
    &&& !items.contains(ModIdModel::Workshop(n))
    &&& !is_there(index, n, provided)
    &&& exists|k: int|
        0 <= k < children.len() && is_item(#[trigger] children[k], n) && text
            == children[k].published_file_id@ + " ("@ + called(index, n) + ")"@
}

proof fn lemma_missing_items(
    index: ModIndex,
    children: Seq<ChildFile>,
    items: Set<ModIdModel>,
    provided: Set<Seq<char>>,
    issue: IssueModel,
)
    ensures
        missing_items_of(index, children, items, provided).contains(issue) <==> (issue matches
            IssueModel::MissingWorkshop(n, text) && lacks_item(
            index,
            children,
            items,
            provided,
            n,
            text,
        )),
    decreases children.len(),
{
    if children.len() > 0 {
        let fewer = children.drop_last();
        let last = children.last();
        lemma_missing_items(index, fewer, items, provided, issue);
        let front = missing_items_of(index, fewer, items, provided);
        if let IssueModel::MissingWorkshop(n, text) = issue {
            if lacks_item(index, fewer, items, provided, n, text) {
                let k = choose|k: int|
                    0 <= k < fewer.len() && is_item(#[trigger] fewer[k], n) && text
                        == fewer[k].published_file_id@ + " ("@ + called(index, n) + ")"@;
                assert(children[k] == fewer[k]);
            }
            if lacks_item(index, children, items, provided, n, text) {
                let k = choose|k: int|
                    0 <= k < children.len() && is_item(#[trigger] children[k], n) && text
                        == children[k].published_file_id@ + " ("@ + called(index, n) + ")"@;
                if k < fewer.len() {
                    assert(children[k] == fewer[k]);
                }
            }
        }
        let number = unsigned_value(encode_utf8(last.published_file_id@), u32::MAX as nat);
        if let Some(n) = number {
            let own = n as u32;
            assert(is_item(children[children.len() - 1], own));
            let told = IssueModel::MissingWorkshop(
                own,
                last.published_file_id@ + " ("@ + called(index, own) + ")"@,
            );
            lemma_contains_pushed(front, told, issue);
        }
    }
}

/// Whether two mods stand for the same: they have the same name in the game, or stand in for
/// a common one.
pub open spec fn clash(library: Library, index: ModIndex, id: ModIdModel, other: ModIdModel) -> bool {
    let metadata = index.metadata@;
    let compat = library.compatibility@;
    ||| metadata.dom().contains(other) && metadata[id].dlc_name@ == metadata[other].dlc_name@
    ||| compat.dom().contains(other) && exists|name: Seq<char>|
        #[trigger] compat[id].ignore_required@.dom().contains(name)
            && compat[other].ignore_required@.dom().contains(name)
}

/// A mod has an issue with another one if and only if both stand for the same. The issue
/// names all that both stand for, and nothing else.
pub proof fn clashes_are_told(
    library: Library,
    index: ModIndex,
    id: ModIdModel,
    other: ModIdModel,
    name: Seq<char>,
)
    requires
        id != other,
        index.metadata@.dom().contains(id),
        library.compatibility@.dom().contains(id),
    ensures
        overlap_with(library, index, id, other) is Some <==> clash(library, index, id, other),
        overlap_with(library, index, id, id) is None,
        overlap_with(library, index, id, other) matches Some(issue) ==> issue is Overlapping,
        overlap_with(library, index, id, other) matches Some(
            IssueModel::Overlapping(_, names),
        ) ==> if index.metadata@.dom().contains(other) && index.metadata@[id].dlc_name@
            == index.metadata@[other].dlc_name@ {
            names == seq![index.metadata@[id].dlc_name@]
        } else {
            names.contains(name) <==> library.compatibility@[id].ignore_required@.dom().contains(
                name,
            ) && library.compatibility@[other].ignore_required@.dom().contains(name)
        },
        overlap_with(library, index, id, other) matches Some(IssueModel::Overlapping(text, _))
            ==> text == if index.metadata@.dom().contains(other) {
            index.metadata@[other].title@ + " ("@ + decimal_text(
                index.metadata@[other].published_file_id as nat,
            ) + ")"@
        } else {
            "UNKNOWN"@ + " ("@ + other.text() + ")"@
        },
{
    let compat = library.compatibility@;
    if compat.dom().contains(other) {
        let rows = compat[other].ignore_required.rows();
        let own = compat[id].ignore_required@.dom();
        let common = also_provided(row_keys(rows), own);
        lemma_also_provided(row_keys(rows), own, name);
        lemma_keys_of_rows(rows, name);
        if common.len() > 0 {
            let first = common[0];
            assert(common.contains(first));
            lemma_also_provided(row_keys(rows), own, first);
            lemma_keys_of_rows(rows, first);
            assert(compat[id].ignore_required@.dom().contains(first));
        }
        if exists|x: Seq<char>|
            #[trigger] compat[id].ignore_required@.dom().contains(x)
                && compat[other].ignore_required@.dom().contains(x) {
            let x = choose|x: Seq<char>|
                #[trigger] compat[id].ignore_required@.dom().contains(x)
                    && compat[other].ignore_required@.dom().contains(x);
            lemma_also_provided(row_keys(rows), own, x);
            lemma_keys_of_rows(rows, x);
            assert(common.contains(x));
            assert(common.len() > 0);
        }
    }
}

proof fn lemma_overlaps(
    library: Library,
    index: ModIndex,
    id: ModIdModel,
    others: Seq<ModIdModel>,
    issue: IssueModel,
)
    ensures
        overlaps(library, index, id, others).contains(issue) <==> exists|k: int|
            0 <= k < others.len() && overlap_with(library, index, id, #[trigger] others[k]) == Some(
                issue,
            ),
    decreases others.len(),
{
    if others.len() > 0 {
        let fewer = others.drop_last();
        lemma_overlaps(library, index, id, fewer, issue);
        let front = overlaps(library, index, id, fewer);
        if exists|k: int|
            0 <= k < fewer.len() && overlap_with(library, index, id, #[trigger] fewer[k]) == Some(
                issue,
            ) {
            let k = choose|k: int|
                0 <= k < fewer.len() && overlap_with(library, index, id, #[trigger] fewer[k])
                    == Some(issue);
            assert(others[k] == fewer[k]);
        }
        if exists|k: int|
            0 <= k < others.len() && overlap_with(library, index, id, #[trigger] others[k]) == Some(
                issue,
            ) {
            let k = choose|k: int|
                0 <= k < others.len() && overlap_with(library, index, id, #[trigger] others[k])
                    == Some(issue);
            if k < fewer.len() {
                assert(fewer[k] == others[k]);
            }
        }
        if let Some(own) = overlap_with(library, index, id, others.last()) {
            lemma_contains_pushed(front, own, issue);
            assert(others[others.len() - 1] == others.last());
        }
    }
}

/// Whether a mod of a profile has an issue, where `items` are the mods of the profile.
pub open spec fn has_issue(
    library: Library,
    index: ModIndex,
    items: Seq<ModIdModel>,
    id: ModIdModel,
    provided: Set<Seq<char>>,
    issue: IssueModel,
) -> bool {
    let compat = library.compatibility@;
    if !compat.dom().contains(id) {
        issue is Unknown
    } else {
        match issue {
            IssueModel::Unknown => false,
            IssueModel::MissingRequired(name) => compat[id].required@.dom().contains(name)
                && !provided.contains(name),
            IssueModel::Incompatible(name) => compat[id].incompatible@.dom().contains(name)
                && provided.contains(name),
            IssueModel::MissingWorkshop(n, text) => {
                &&& !items.contains(ModIdModel::Workshop(n))
                &&& !is_there(index, n, provided)
                &&& index.details@.dom().contains(id)
                &&& index.details@[id] matches ModDetails::Workshop(page) && exists|k: int|
                    0 <= k < page.children@.len() && is_item(#[trigger] page.children@[k], n)
                        && text == page.children@[k].published_file_id@ + " ("@ + called(index, n)
                        + ")"@
            },
            IssueModel::Overlapping(_, _) => index.metadata@.dom().contains(id) && exists|k: int|
                0 <= k < items.len() && overlap_with(library, index, id, #[trigger] items[k])
                    == Some(issue),
        }
    }
}

/// A mod of a profile is told to have an issue if and only if it does.
pub proof fn all_issues_are_told(
    library: Library,
    index: ModIndex,
    items: Seq<ModIdModel>,
    id: ModIdModel,
    provided: Set<Seq<char>>,
    issue: IssueModel,
)
    ensures
        issues_for(library, index, items, id, provided).contains(issue) <==> has_issue(
            library,
            index,
            items,
            id,
            provided,
            issue,
        ),
{
    if !library.compatibility@.dom().contains(id) {
        let only = seq![IssueModel::Unknown];
        assert(only[0] is Unknown);
        assert(only.contains(IssueModel::Unknown));
    } else {
        let compat = library.compatibility@[id];
        let required = not_provided(row_keys(compat.required.rows()), provided);
        let clashing = also_provided(row_keys(compat.incompatible.rows()), provided);
        let a = Seq::new(required.len(), |i: int| IssueModel::MissingRequired(required[i]));
        let b = Seq::new(clashing.len(), |i: int| IssueModel::Incompatible(clashing[i]));
        let c = if index.metadata@.dom().contains(id) {
            overlaps(library, index, id, items)
        } else {
            Seq::empty()
        };
        let children = index.children_of(id);
        let d = missing_items_of(index, children, items.to_set(), provided);
        lemma_contains_sum(a + b + c, d, issue);
        lemma_contains_sum(a + b, c, issue);
        lemma_contains_sum(a, b, issue);
        lemma_missing_items(index, children, items.to_set(), provided, issue);
        lemma_overlaps(library, index, id, items, issue);
        if let IssueModel::MissingRequired(name) = issue {
            lemma_not_provided(row_keys(compat.required.rows()), provided, name);
            lemma_keys_of_rows(compat.required.rows(), name);
            if required.contains(name) {
                let k = choose|k: int| 0 <= k < required.len() && required[k] == name;
                assert(a[k] == issue);
            }
        }
        if let IssueModel::Incompatible(name) = issue {
            lemma_also_provided(row_keys(compat.incompatible.rows()), provided, name);
            lemma_keys_of_rows(compat.incompatible.rows(), name);
            if clashing.contains(name) {
                let k = choose|k: int| 0 <= k < clashing.len() && clashing[k] == name;
                assert(b[k] == issue);
            }
        }
        if c.contains(issue) {
            let k = choose|k: int|
                0 <= k < items.len() && overlap_with(library, index, id, #[trigger] items[k])
                    == Some(issue);
            assert(issue is Overlapping);
        }
    }
}

/// What is noted of the mods of a profile are their issues: each issue is noted, and nothing
/// else.
pub proof fn all_issues_are_noted(
    a: Profile,
    b: Profile,
    library: Library,
    index: ModIndex,
    provided: Set<Seq<char>>,
    id: ModIdModel,
    issue: IssueModel,
)
    requires
        issues_noted(a, b, library, index, provided),
        a.items@.dom().contains(id),
    ensures
        has_issue(library, index, row_keys(a.items.rows()), id, provided, issue)
            ==> b.compatibility_issues@.dom().contains(id),
        b.compatibility_issues@.dom().contains(id) ==> (issue_models(
            b.compatibility_issues@[id]@,
        ).contains(issue) <==> has_issue(
            library,
            index,
            row_keys(a.items.rows()),
            id,
            provided,
            issue,
        )),
        b.compatibility_issues@.dom().contains(id) ==> b.compatibility_issues@[id]@.len() > 0,
{
    let keys = row_keys(a.items.rows());
    let all = issues_for(library, index, keys, id, provided);
    all_issues_are_told(library, index, keys, id, provided, issue);
    if b.compatibility_issues@.dom().contains(id) {
        let noted = issue_models(b.compatibility_issues@[id]@);
        assert(is_sorted_issues(noted, all));
        lemma_same_items(noted, all, issue);
        lemma_same_items(noted, all, all[0]);
        assert(all.contains(all[0]));
    }
}

/// The mods that a profile misses are those of its mods that are not in the library.
pub proof fn missing_mods_are_those_outside(
    keys: Seq<ModIdModel>,
    known: Set<ModIdModel>,
    id: ModIdModel,
)
    ensures
        keys_outside(keys, known).contains(id) <==> keys.contains(id) && !known.contains(id),
    decreases keys.len(),
{
    if keys.len() > 0 {
        missing_mods_are_those_outside(keys.drop_last(), known, id);
        lemma_contains_last(keys, id);
        lemma_contains_pushed(keys_outside(keys.drop_last(), known), keys.last(), id);
    }
}

/// A search by title lets a mod through exactly where its title, in lower case, holds what is
/// searched for somewhere.
pub proof fn titles_are_searched(item: ItemModel, query: String, front: Seq<char>, back: Seq<char>)
    ensures
        lowercase_text(item.title) == front + query@ + back ==> FilterMethod::Title(
            query,
        ).lets_through(item),
        FilterMethod::Title(query).lets_through(item) ==> exists|i: int|
            occurs_at(lowercase_text(item.title), query@, i),
{
    let title = lowercase_text(item.title);
    lemma_find_from(title, query@, 0);
    if title == front + query@ + back {
        let k = front.len() as int;
        assert(title.subrange(k, k + query@.len()) =~= query@);
        assert(occurs_at(title, query@, k));
    }
}

} // verus!
