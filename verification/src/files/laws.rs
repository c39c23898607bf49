//! Where files lie, and which directories are found.
use vstd::prelude::*;

#[allow(unused_imports)]
use super::{
    all_items_path, behind_match, can_be_searched, downloading_path, ends_in_names, first_match,
    item_path, manifest_path, mod_path, padded_front,
};
#[allow(unused_imports)]
use crate::numbers::{decimal_reads_back, decimal_text, lemma_digits_are_digits};
#[allow(unused_imports)]
use crate::paths::{is_directory_path, joined, same_ignoring_case};
#[allow(unused_imports)]
use crate::xcom_mod::ModIdModel;

verus! {

proof fn lemma_below(base: Seq<char>, part: Seq<char>)
    requires
        is_directory_path(base),
        part.len() > 0,
        part[0] != '/',
        part.last() != '/',
    ensures
        joined(base, part) == base + "/"@ + part,
        is_directory_path(joined(base, part)),
{
    reveal_strlit("/");
    assert(base.push('/') + part =~= base + "/"@ + part);
}

proof fn lemma_number(n: nat)
    ensures
        decimal_text(n).len() > 0,
        decimal_text(n)[0] != '/',
        decimal_text(n).last() != '/',
{
    lemma_digits_are_digits(n);
}

/// Two numbers that are written alike are the same.
pub proof fn numbers_are_told_apart(a: u32, b: u32)
    requires
        decimal_text(a as nat) == decimal_text(b as nat),
    ensures
        a == b,
{
    decimal_reads_back(a as u64);
    decimal_reads_back(b as u64);
}

/// Downloaded items lie below the directory of downloads where Steam puts them, each under its
/// number, those that are being downloaded apart from them, and the file in which Steam keeps
/// what it knows of them beside both.
pub proof fn steam_finds_the_items(dir: Seq<char>, id: u32)
    requires
        is_directory_path(dir),
    ensures
        ({
            let app = decimal_text(268500);
            let number = decimal_text(id as nat);
            let content = dir + "/"@ + "steamapps"@ + "/"@ + "workshop"@ + "/"@ + "content"@ + "/"@
                + app;
            let downloads = dir + "/"@ + "steamapps"@ + "/"@ + "workshop"@ + "/"@ + "downloads"@
                + "/"@ + app;
            &&& all_items_path(dir) == content
            &&& item_path(dir, id) == content + "/"@ + number
            &&& mod_path(dir, ModIdModel::Workshop(id)) == content + "/"@ + number
            &&& downloading_path(dir, id) == downloads + "/"@ + number
            &&& manifest_path(dir) == dir + "/"@ + ("steamapps/workshop/appworkshop_"@ + app
                + ".acf"@)
        }),
{
    reveal_strlit("steamapps");
    reveal_strlit("workshop");
    reveal_strlit("content");
    reveal_strlit("downloads");
    reveal_strlit("steamapps/workshop/appworkshop_");
    reveal_strlit(".acf");
    lemma_number(268500);
    lemma_number(id as nat);
    let workshop = joined(joined(dir, "steamapps"@), "workshop"@);
    lemma_below(dir, "steamapps"@);
    lemma_below(joined(dir, "steamapps"@), "workshop"@);
    lemma_below(workshop, "content"@);
    lemma_below(workshop, "downloads"@);
    lemma_below(joined(workshop, "content"@), decimal_text(268500));
    lemma_below(joined(workshop, "downloads"@), decimal_text(268500));
    lemma_below(all_items_path(dir), decimal_text(id as nat));
    lemma_below(
        joined(joined(workshop, "downloads"@), decimal_text(268500)),
        decimal_text(id as nat),
    );
    let name = "steamapps/workshop/appworkshop_"@ + decimal_text(268500) + ".acf"@;
    assert(name[0] == 's');
    assert(name.last() == 'f');
    lemma_below(dir, name);
}

/// Different items lie in different directories, and what is being downloaded lies in none of
/// them.
pub proof fn items_lie_apart(dir: Seq<char>, a: u32, b: u32)
    requires
        is_directory_path(dir),
    ensures
        item_path(dir, a) == item_path(dir, b) ==> a == b,
        downloading_path(dir, a) == downloading_path(dir, b) ==> a == b,
        item_path(dir, a) != downloading_path(dir, b),
{
    steam_finds_the_items(dir, a);
    steam_finds_the_items(dir, b);
    reveal_strlit("content");
    reveal_strlit("downloads");
    reveal_strlit("steamapps");
    reveal_strlit("workshop");
    reveal_strlit("/");
    let app = decimal_text(268500);
    let front = dir + "/"@ + "steamapps"@ + "/"@ + "workshop"@ + "/"@;
    let content = front + "content"@ + "/"@ + app + "/"@;
    let downloads = front + "downloads"@ + "/"@ + app + "/"@;
    let x = decimal_text(a as nat);
    let y = decimal_text(b as nat);
    if item_path(dir, a) == item_path(dir, b) {
        assert((content + x).skip(content.len() as int) =~= x);
        assert((content + y).skip(content.len() as int) =~= y);
        numbers_are_told_apart(a, b);
    }
    if downloading_path(dir, a) == downloading_path(dir, b) {
        assert((downloads + x).skip(downloads.len() as int) =~= x);
        assert((downloads + y).skip(downloads.len() as int) =~= y);
        numbers_are_told_apart(a, b);
    }
    assert((content + x)[front.len() as int] == 'c');
    assert((downloads + y)[front.len() as int] == 'd');
}

proof fn lemma_first_match(components: Seq<Seq<char>>, name: Seq<char>, from: int)
    requires
        0 <= from,
    ensures
        match first_match(components, name, from) {
            Some(i) => from <= i < components.len() && same_ignoring_case(components[i], name)
                && forall|j: int| from <= j < i ==> !same_ignoring_case(#[trigger] components[j], name),
            None => forall|j: int|
                from <= j < components.len() ==> !same_ignoring_case(
                    #[trigger] components[j],
                    name,
                ),
        },
    decreases components.len() - from,
{
    if from < components.len() && !same_ignoring_case(components[from], name) {
        lemma_first_match(components, name, from + 1);
    }
}

/// Whether the last components of a path are names, in upper or lower case.
pub open spec fn ends_in(components: Seq<Seq<char>>, names: Seq<Seq<char>>) -> bool {
    &&& names.len() <= components.len()
    &&& forall|k: int|
        0 <= k < names.len() ==> same_ignoring_case(
            components[components.len() - names.len() + k],
            #[trigger] names[k],
        )
}

/// A directory that is found ends in the names that were searched for, where they are two or more.
/// One that ends in them is found where the first name stands nowhere before.
pub proof fn directories_are_found_by_their_end(
    components: Seq<Seq<char>>,
    names: Seq<Seq<char>>,
)
    requires
        names.len() > 0,
    ensures
        names.len() > 1 && ends_in_names(components, names) ==> ends_in(components, names),
        ends_in(components, names) && (forall|j: int|
            0 <= j < components.len() - names.len() ==> !same_ignoring_case(
                #[trigger] components[j],
                names[0],
            )) ==> ends_in_names(components, names),
{
    lemma_first_match(components, names[0], 0);
    let n = components.len() - names.len();
    let rest = behind_match(components, names[0]);
    if names.len() > 1 && ends_in_names(components, names) {
        if let Some(i) = first_match(components, names[0], 0) {
            assert forall|k: int| 0 <= k < names.len() implies same_ignoring_case(
                components[n + k],
                #[trigger] names[k],
            ) by {
                if k > 0 {
                    assert(rest[k - 1] == components[n + k]);
                }
            }
        }
    }
    if ends_in(components, names) && forall|j: int|
        0 <= j < n ==> !same_ignoring_case(#[trigger] components[j], names[0]) {
        assert(same_ignoring_case(components[n + 0], names[0]));
        assert(first_match(components, names[0], 0) == Some(n));
        assert forall|k: int| 0 <= k < rest.len() implies same_ignoring_case(
            #[trigger] rest[k],
            names[k + 1],
        ) by {
            assert(rest[k] == components[n + (k + 1)]);
        }
    }
}

/// Only the front of a file counts for its partial hash, and what is missing of it counts as zeros.
pub proof fn only_the_front_is_hashed(
    front: Seq<u8>,
    more: Seq<u8>,
    other: Seq<u8>,
    short: Seq<u8>,
    len: nat,
)
    requires
        len <= front.len(),
        short.len() <= len,
    ensures
        padded_front(front + more, len) == padded_front(front + other, len),
        padded_front(front, len) == front.take(len as int),
        padded_front(short, len) == short + Seq::new((len - short.len()) as nat, |i: int| 0u8),
{
    assert(padded_front(front + more, len) =~= padded_front(front + other, len));
    assert(padded_front(front, len) =~= front.take(len as int));
    assert(padded_front(short, len) =~= short + Seq::new((len - short.len()) as nat, |i: int| 0u8));
}

} // verus!
